//! The two rewriting steps of gamma-matrix simplification that work on one
//! call at a time: reordering the Lorentz indices of a gamma chain by the
//! Clifford relation, and expanding the trace of a gamma chain.
//!
//! `gamma_chain(mu1, ..., muk, a, b)` is the product of the gamma matrices
//! `gamma(mu1) ... gamma(muk)` between the spinor indices `a` and `b`;
//! `gamma_trace(mu1, ..., muk)` is its trace; `g` is the metric.
use vstd::prelude::*;
use crate::expr::{Expr, Term, copy_string, lemma_terms_of, lemma_terms_of_push, terms_of, views};

verus! {

pub open spec fn chain_sym() -> Seq<char> {
    "gamma_chain"@
}

pub open spec fn trace_sym() -> Seq<char> {
    "gamma_trace"@
}

pub open spec fn metric_sym() -> Seq<char> {
    "g"@
}

/// The first position `i` in `lo..hi` where `greater[i]` holds, or `hi`.
pub open spec fn first_true(greater: Seq<bool>, lo: int, hi: int) -> int
    decreases hi - lo,
{
    if lo >= hi {
        hi
    } else if greater[lo] {
        lo
    } else {
        first_true(greater, lo + 1, hi)
    }
}

/// The number of neighbouring Lorentz indices of a chain of `n` arguments
/// that are compared, given `m` comparisons.
pub open spec fn compared(n: int, m: int) -> int {
    if n - 3 < m {
        n - 3
    } else {
        m
    }
}

/// The chain's arguments without positions `i` and `i + 1`.
pub open spec fn without_pair(args: Seq<Term>, i: int) -> Seq<Term> {
    args.take(i) + args.skip(i + 2)
}

/// The chain's arguments with positions `i` and `i + 1` swapped.
pub open spec fn swap_pair(args: Seq<Term>, i: int) -> Seq<Term> {
    args.take(i) + seq![args[i + 1], args[i]] + args.skip(i + 2)
}

/// The anticommutation of positions `i` and `i + 1`:
/// `... mu nu ... = 2 g(nu, mu) ... ... - ... nu mu ...`.
pub open spec fn anticommuted(args: Seq<Term>, i: int) -> Term {
    Term::Add(
        seq![
            Term::Mul(
                seq![
                    Term::Num(2i64),
                    Term::Fun(metric_sym(), seq![args[i + 1], args[i]]),
                    Term::Fun(chain_sym(), without_pair(args, i)),
                ],
            ),
            Term::Mul(seq![Term::Num(-1i64), Term::Fun(chain_sym(), swap_pair(args, i))]),
        ],
    )
}

/// One reordering step on a gamma chain. `greater[i]` tells whether the
/// Lorentz index at position `i` orders after the one at `i + 1`; at the first
/// such position among the Lorentz indices the two are anticommuted. A chain
/// whose Lorentz indices are in order, a chain of fewer than four arguments,
/// and anything that is not a chain give `None`.
pub open spec fn chain_step(t: Term, greater: Seq<bool>) -> Option<Term> {
    match t {
        Term::Fun(f, args) => if f == chain_sym() && args.len() >= 4 {
            let hi = compared(args.len() as int, greater.len() as int);
            let i = first_true(greater, 0, hi);
            if i < hi {
                Some(anticommuted(args, i))
            } else {
                None
            }
        } else {
            None
        },
        _ => None,
    }
}

fn str_name(s: &str) -> (r: String)
    ensures
        r@ == s@,
{
    String::from_str(s)
}

/// Copies of the expressions at positions `lo..hi`, appended to `out`.
fn push_range(out: &mut Vec<Expr>, v: &Vec<Expr>, lo: usize, hi: usize)
    requires
        lo <= hi <= v.len(),
    ensures
        views(*final(out)) == views(*old(out)) + views(*v).subrange(lo as int, hi as int),
{
    proof {
        lemma_terms_of(v@);
    }
    let ghost start = views(*out);
    let mut i = lo;
    proof {
        assert(views(*v).subrange(lo as int, lo as int) =~= Seq::<Term>::empty());
        assert(start + Seq::<Term>::empty() =~= start);
    }
    while i < hi
        invariant
            lo <= i <= hi <= v.len(),
            views(*v).len() == v.len(),
            forall|j: int| 0 <= j < v.len() ==> views(*v)[j] == #[trigger] v@[j]@,
            views(*out) == start + views(*v).subrange(lo as int, i as int),
        decreases hi - i,
    {
        let c = v[i].deep_clone();
        proof {
            lemma_terms_of_push(out@, c);
            assert(views(*v).subrange(lo as int, i + 1) =~= views(*v).subrange(lo as int, i as int).push(
                c@,
            ));
            assert(start + views(*v).subrange(lo as int, i + 1) =~= (start + views(*v).subrange(
                lo as int,
                i as int,
            )).push(c@));
        }
        out.push(c);
        i = i + 1;
    }
}

fn mul2(a: Expr, b: Expr) -> (r: Expr)
    ensures
        r@ == Term::Mul(seq![a@, b@]),
{
    let v = vec![a, b];
    proof {
        lemma_terms_of(v@);
        assert(terms_of(v@) =~= seq![a@, b@]);
    }
    Expr::Mul(v)
}

fn mul3(a: Expr, b: Expr, c: Expr) -> (r: Expr)
    ensures
        r@ == Term::Mul(seq![a@, b@, c@]),
{
    let v = vec![a, b, c];
    proof {
        lemma_terms_of(v@);
        assert(terms_of(v@) =~= seq![a@, b@, c@]);
    }
    Expr::Mul(v)
}

fn fun2(f: String, a: Expr, b: Expr) -> (r: Expr)
    ensures
        r@ == Term::Fun(f@, seq![a@, b@]),
{
    let v = vec![a, b];
    proof {
        lemma_terms_of(v@);
        assert(terms_of(v@) =~= seq![a@, b@]);
    }
    Expr::Fun(f, v)
}

/// The anticommutation of positions `i` and `i + 1` of a chain.
fn anticommute(args: &Vec<Expr>, i: usize) -> (r: Expr)
    requires
        i + 1 < args.len(),
    ensures
        r@ == anticommuted(views(*args), i as int),
{
    proof {
        lemma_terms_of(args@);
    }
    let mut rest: Vec<Expr> = Vec::new();
    proof {
        assert(terms_of(rest@) =~= Seq::<Term>::empty());
    }
    push_range(&mut rest, args, 0, i);
    push_range(&mut rest, args, i + 2, args.len());
    proof {
        let s = views(*args);
        assert(Seq::<Term>::empty() + s.subrange(0, i as int) + s.subrange(i + 2, s.len() as int)
            =~= without_pair(s, i as int));
    }
    let mut swapped: Vec<Expr> = Vec::new();
    proof {
        assert(terms_of(swapped@) =~= Seq::<Term>::empty());
    }
    push_range(&mut swapped, args, 0, i);
    push_range(&mut swapped, args, i + 1, i + 2);
    push_range(&mut swapped, args, i, i + 1);
    push_range(&mut swapped, args, i + 2, args.len());
    proof {
        let s = views(*args);
        assert(Seq::<Term>::empty() + s.subrange(0, i as int) + s.subrange(i + 1, i + 2)
            + s.subrange(i as int, i + 1) + s.subrange(i + 2, s.len() as int) =~= swap_pair(
            s,
            i as int,
        ));
    }
    let g = fun2(str_name("g"), args[i + 1].deep_clone(), args[i].deep_clone());
    let first = mul3(Expr::Num(2), g, Expr::Fun(str_name("gamma_chain"), rest));
    let second = mul2(Expr::Num(-1), Expr::Fun(str_name("gamma_chain"), swapped));
    let v = vec![first, second];
    proof {
        lemma_terms_of(v@);
        assert(terms_of(v@) =~= anticommuted(views(*args), i as int)->Add_0);
    }
    Expr::Add(v)
}

/// One reordering step on a gamma chain: see [`chain_step`].
pub fn gamma_chain_accumulator(arg: &Expr, greater: &Vec<bool>) -> (r: Option<Expr>)
    ensures
        match (r, chain_step(arg@, greater@)) {
            (Some(e), Some(t)) => e@ == t,
            (None, None) => true,
            _ => false,
        },
{
    match arg {
        Expr::Fun(f, args) => {
            proof {
                lemma_terms_of(args@);
            }
            if *f == str_name("gamma_chain") && args.len() >= 4 {
                let n = args.len() - 3;
                let hi = if n < greater.len() {
                    n
                } else {
                    greater.len()
                };
                let mut i: usize = 0;
                while i < hi
                    invariant
                        i <= hi,
                        hi <= greater.len(),
                        hi + 3 <= args.len(),
                        hi as int == compared(args.len() as int, greater.len() as int),
                        arg@ == Term::Fun(chain_sym(), views(*args)),
                        views(*args).len() == args.len(),
                        first_true(greater@, 0, hi as int) == first_true(greater@, i as int, hi as int),
                    decreases hi - i,
                {
                    if greater[i] {
                        assert(first_true(greater@, i as int, hi as int) == i as int);
                        let e = anticommute(args, i);
                        assert(chain_step(arg@, greater@) == Some(anticommuted(views(*args), i as int)));
                        return Some(e);
                    }
                    i = i + 1;
                }
                None
            } else {
                None
            }
        },
        _ => None,
    }
}

/// The metric that pairs the first index of a trace with the index at
/// position `i`: the dimension when the two are the same index, `g(first, i)`
/// otherwise.
pub open spec fn trace_metric(args: Seq<Term>, i: int) -> Term {
    if args[0] == args[i] {
        args[0]->Fun_1[0]
    } else {
        Term::Fun(metric_sym(), seq![args[0], args[i]])
    }
}

/// The sign of the `i`-th pairing.
pub open spec fn trace_sign(i: int) -> i64 {
    if i % 2 == 0 {
        -1i64
    } else {
        1i64
    }
}

/// The trace's indices without the first one and the one at position `i`.
pub open spec fn trace_rest(args: Seq<Term>, i: int) -> Seq<Term> {
    args.subrange(1, i) + args.subrange(i + 1, args.len() as int)
}

/// The `i`-th summand of the expansion of a trace.
pub open spec fn trace_summand(args: Seq<Term>, i: int) -> Term {
    if args.len() == 2 {
        Term::Mul(seq![Term::Num(trace_sign(i)), Term::Num(4i64), trace_metric(args, i)])
    } else {
        Term::Mul(
            seq![
                Term::Num(trace_sign(i)),
                trace_metric(args, i),
                Term::Fun(trace_sym(), trace_rest(args, i)),
            ],
        )
    }
}

/// The expansion of `gamma_trace(args)` along its first index:
/// `sum_{i >= 1} (-1)^(i+1) g(args[0], args[i]) gamma_trace(args without 0, i)`,
/// with `4` in place of the trace of the empty chain; zero for fewer than two
/// indices.
pub open spec fn trace_expansion(args: Seq<Term>) -> Term {
    if args.len() <= 1 {
        Term::Num(0i64)
    } else {
        Term::Add(Seq::new((args.len() - 1) as nat, |k: int| trace_summand(args, k + 1)))
    }
}

/// Whether the expansion of a trace is defined: an index equal to the first
/// one must be a call whose first argument is its dimension.
pub open spec fn trace_defined(args: Seq<Term>) -> bool {
    forall|i: int|
        1 <= i < args.len() && args[i] == args[0] ==> #[trigger] args[i] is Fun && args[i]->Fun_1.len()
            >= 1
}

/// Whether `t` is not a gamma trace, or one whose expansion is defined.
pub open spec fn trace_call_defined(t: Term) -> bool {
    match t {
        Term::Fun(f, args) => f == trace_sym() ==> trace_defined(args),
        _ => true,
    }
}

/// The expansion of a gamma trace, if `t` is one.
pub open spec fn trace_step(t: Term) -> Option<Term> {
    match t {
        Term::Fun(f, args) => if f == trace_sym() {
            Some(trace_expansion(args))
        } else {
            None
        },
        _ => None,
    }
}

/// The `i`-th summand of the expansion of a trace.
fn summand(args: &Vec<Expr>, i: usize) -> (r: Expr)
    requires
        1 <= i < args.len(),
        trace_defined(views(*args)),
    ensures
        r@ == trace_summand(views(*args), i as int),
{
    proof {
        lemma_terms_of(args@);
    }
    let ghost s = views(*args);
    let sign: i64 = if i % 2 == 0 {
        -1
    } else {
        1
    };
    let metric = if crate::expr::expr_eq(&args[0], &args[i]) {
        proof {
            assert(s[i as int] == s[0]);
            assert(s[i as int] is Fun);
        }
        match &args[0] {
            Expr::Fun(_, inner) => {
                proof {
                    lemma_terms_of(inner@);
                }
                inner[0].deep_clone()
            },
            _ => {
                proof {
                    assert(false);
                }
                Expr::Num(0)
            },
        }
    } else {
        fun2(str_name("g"), args[0].deep_clone(), args[i].deep_clone())
    };
    if args.len() == 2 {
        mul3(Expr::Num(sign), Expr::Num(4), metric)
    } else {
        let mut rest: Vec<Expr> = Vec::new();
        proof {
            assert(terms_of(rest@) =~= Seq::<Term>::empty());
        }
        push_range(&mut rest, args, 1, i);
        push_range(&mut rest, args, i + 1, args.len());
        proof {
            assert(Seq::<Term>::empty() + s.subrange(1, i as int) + s.subrange(
                i + 1,
                s.len() as int,
            ) =~= trace_rest(s, i as int));
        }
        mul3(Expr::Num(sign), metric, Expr::Fun(str_name("gamma_trace"), rest))
    }
}

/// The expansion of a gamma trace along its first index: see [`trace_step`].
pub fn gamma_tracer(arg: &Expr) -> (r: Option<Expr>)
    requires
        trace_call_defined(arg@),
    ensures
        match (r, trace_step(arg@)) {
            (Some(e), Some(t)) => e@ == t,
            (None, None) => true,
            _ => false,
        },
{
    match arg {
        Expr::Fun(f, args) => {
            if *f == str_name("gamma_trace") {
                proof {
                    lemma_terms_of(args@);
                }
                if args.len() <= 1 {
                    return Some(Expr::Num(0));
                }
                let ghost s = views(*args);
                let mut out: Vec<Expr> = Vec::new();
                let mut i: usize = 1;
                proof {
                    assert(terms_of(out@) =~= Seq::new(0, |k: int| trace_summand(s, k + 1)));
                }
                while i < args.len()
                    invariant
                        1 <= i <= args.len(),
                        s == views(*args),
                        trace_defined(s),
                        views(out) == Seq::new((i - 1) as nat, |k: int| trace_summand(s, k + 1)),
                    decreases args.len() - i,
                {
                    let c = summand(args, i);
                    proof {
                        lemma_terms_of_push(out@, c);
                        assert(Seq::new(i as nat, |k: int| trace_summand(s, k + 1)) =~= Seq::new(
                            (i - 1) as nat,
                            |k: int| trace_summand(s, k + 1),
                        ).push(c@));
                    }
                    out.push(c);
                    i = i + 1;
                }
                Some(Expr::Add(out))
            } else {
                None
            }
        },
        _ => None,
    }
}

/// The number that leads a product, zero for anything else.
pub open spec fn leading_number(t: Term) -> int {
    match t {
        Term::Mul(xs) => if xs.len() > 0 && xs[0] is Num {
            xs[0]->Num_0 as int
        } else {
            0
        },
        _ => 0,
    }
}

/// Expanding the trace of `n >= 2` gamma matrices along its first index gives
/// `n - 1` summands, one for each other index: the first carries the sign
/// `+1` and each next one the opposite sign of the one before, so the
/// summand that pairs the first index with the `i`-th carries `(-1)^(i+1)`.
/// Each summand pairs the first index with its own index, by the metric when
/// the two differ, and keeps the trace of the other `n - 2` indices in their
/// order (the number `4` when there are none).
pub proof fn law_trace_expansion(args: Seq<Term>)
    requires
        args.len() >= 2,
    ensures
        trace_step(Term::Fun(trace_sym(), args)) == Some(trace_expansion(args)),
        trace_expansion(args) is Add,
        trace_expansion(args)->Add_0.len() == args.len() - 1,
        leading_number(trace_expansion(args)->Add_0[0]) == 1,
        forall|k: int|
            0 <= k < args.len() - 2 ==> #[trigger] leading_number(trace_expansion(args)->Add_0[k + 1])
                == -leading_number(trace_expansion(args)->Add_0[k]),
        forall|k: int|
            0 <= k < args.len() - 1 && args[0] != args[k + 1] ==> {
                let m = (#[trigger] trace_expansion(args)->Add_0[k])->Mul_0;
                &&& m.len() == 3
                &&& args.len() == 2 ==> m[1] == Term::Num(4i64) && m[2] == Term::Fun(
                    metric_sym(),
                    seq![args[0], args[k + 1]],
                )
                &&& args.len() > 2 ==> m[1] == Term::Fun(metric_sym(), seq![args[0], args[k + 1]])
                    && m[2] is Fun && m[2]->Fun_0 == trace_sym() && m[2]->Fun_1.len() == args.len()
                    - 2 && (forall|j: int|
                    0 <= j < k ==> #[trigger] m[2]->Fun_1[j] == args[j + 1]) && (forall|j: int|
                    k <= j < args.len() - 2 ==> #[trigger] m[2]->Fun_1[j] == args[j + 2])
            },
{
    let xs = trace_expansion(args)->Add_0;
    assert forall|k: int| 0 <= k < args.len() - 1 implies #[trigger] leading_number(xs[k])
        == trace_sign(k + 1) as int by {
        assert(xs[k] == trace_summand(args, k + 1));
    }
    assert forall|k: int| 0 <= k < args.len() - 2 implies #[trigger] leading_number(xs[k + 1])
        == -leading_number(xs[k]) by {
        assert(leading_number(xs[k]) == trace_sign(k + 1) as int);
        assert(leading_number(xs[k + 1]) == trace_sign(k + 2) as int);
        if (k + 1) % 2 == 0 {
            assert((k + 2) % 2 == 1);
        } else {
            assert((k + 2) % 2 == 0);
        }
    }
    assert(leading_number(xs[0]) == trace_sign(1) as int);
    assert forall|k: int| 0 <= k < args.len() - 1 && args[0] != args[k + 1] implies {
        let m = (#[trigger] xs[k])->Mul_0;
        &&& m.len() == 3
        &&& args.len() == 2 ==> m[1] == Term::Num(4i64) && m[2] == Term::Fun(
            metric_sym(),
            seq![args[0], args[k + 1]],
        )
        &&& args.len() > 2 ==> m[1] == Term::Fun(metric_sym(), seq![args[0], args[k + 1]])
            && m[2] is Fun && m[2]->Fun_0 == trace_sym() && m[2]->Fun_1.len() == args.len() - 2
            && (forall|j: int| 0 <= j < k ==> #[trigger] m[2]->Fun_1[j] == args[j + 1]) && (forall|
            j: int,
        |
            k <= j < args.len() - 2 ==> #[trigger] m[2]->Fun_1[j] == args[j + 2])
    } by {
        assert(xs[k] == trace_summand(args, k + 1));
        let rest = trace_rest(args, k + 1);
        assert forall|j: int| 0 <= j < k implies #[trigger] rest[j] == args[j + 1] by {}
        assert forall|j: int| k <= j < args.len() - 2 implies #[trigger] rest[j] == args[j + 2] by {}
    }
}

} // verus!
