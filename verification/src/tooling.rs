//! Index tooling on symbolic expressions: wrapping indices, finding the
//! dangling (uncontracted) indices, and wrapping the dummy (contracted) ones.
//!
//! An index slot is a call `rep(dim, index)` of a representation of the table;
//! the lower form of a dualizable representation is `dind(rep(dim, index))`.
//! The functions that look at a whole expression take it expanded, as a sum
//! of products.
use vstd::prelude::*;
use crate::expr::{Expr, Term, copy_string, expr_eq, lemma_terms_of, lemma_terms_of_push, terms_of, views};
use crate::representations::{RepTable, table_lookup};
use crate::reps::{RepModel, RepOrientation, dind_name, dind_sym};

verus! {

/// Whether `name` names a representation of the table.
pub open spec fn known_rep(table: Seq<RepModel>, name: Seq<char>) -> bool {
    table_lookup(table, name) is Some
}

/// Whether `name` names a dualizable representation of the table.
pub open spec fn dualizable_rep(table: Seq<RepModel>, name: Seq<char>) -> bool {
    table_lookup(table, name) matches Some(r) && r.orientation == RepOrientation::Up
}

/// Whether a term is a slot `rep(dim, index)` of a known representation.
pub open spec fn is_slot(table: Seq<RepModel>, t: Term) -> bool {
    t matches Term::Fun(r, a) && known_rep(table, r) && a.len() == 2
}

/// Whether a term is a slot whose index is a number or a variable.
pub open spec fn is_plain_slot(table: Seq<RepModel>, t: Term) -> bool {
    t matches Term::Fun(r, a) && known_rep(table, r) && a.len() == 2 && (a[1] is Num
        || a[1] is Var)
}

/// The slot with its index wrapped: `rep(dim, header(index))`.
pub open spec fn wrapped_slot(t: Term, header: Seq<char>) -> Term {
    match t {
        Term::Fun(r, a) => if a.len() == 2 {
            Term::Fun(r, seq![a[0], Term::Fun(header, seq![a[1]])])
        } else {
            t
        },
        _ => t,
    }
}

/// An argument after wrapping: plain slots get their index wrapped.
pub open spec fn wrap_arg(table: Seq<RepModel>, header: Seq<char>, t: Term) -> Term {
    if is_plain_slot(table, t) {
        wrapped_slot(t, header)
    } else {
        t
    }
}

/// Wraps the index of every plain slot that is the argument of a call.
pub open spec fn wrap_term(table: Seq<RepModel>, header: Seq<char>, t: Term) -> Term
    decreases t,
{
    match t {
        Term::Num(n) => t,
        Term::Var(s) => t,
        Term::Fun(f, args) => Term::Fun(f, wrap_args(table, header, args)),
        Term::Add(xs) => Term::Add(wrap_seq(table, header, xs)),
        Term::Mul(xs) => Term::Mul(wrap_seq(table, header, xs)),
        Term::Pow(b, x) => Term::Pow(
            Box::new(wrap_term(table, header, *b)),
            Box::new(wrap_term(table, header, *x)),
        ),
    }
}

pub open spec fn wrap_seq(table: Seq<RepModel>, header: Seq<char>, s: Seq<Term>) -> Seq<Term>
    decreases s,
{
    if s.len() == 0 {
        s
    } else {
        wrap_seq(table, header, s.drop_last()).push(wrap_term(table, header, s.last()))
    }
}

pub open spec fn wrap_args(table: Seq<RepModel>, header: Seq<char>, s: Seq<Term>) -> Seq<Term>
    decreases s,
{
    if s.len() == 0 {
        s
    } else {
        wrap_args(table, header, s.drop_last()).push(
            wrap_arg(table, header, wrap_term(table, header, s.last())),
        )
    }
}

/// Whether `name` names a representation of the table.
fn has_rep(table: &RepTable, name: &String) -> (r: bool)
    ensures
        r == known_rep(table.model(), name@),
{
    table.lookup(name).is_some()
}

fn wrap_one(table: &RepTable, header: &String, t: Expr) -> (r: Expr)
    ensures
        r@ == wrap_arg(table.model(), header@, t@),
{
    match t {
        Expr::Fun(rname, a) => {
            proof {
                lemma_terms_of(a@);
            }
            if has_rep(table, &rname) && a.len() == 2 && (matches!(a[1], Expr::Num(_))
                || matches!(a[1], Expr::Var(_))) {
                let d = a[0].deep_clone();
                let x = a[1].deep_clone();
                let inner = vec![x];
                proof {
                    lemma_terms_of(inner@);
                    assert(terms_of(inner@) =~= seq![terms_of(a@)[1]]);
                }
                let w = Expr::Fun(copy_string(header), inner);
                let args = vec![d, w];
                proof {
                    lemma_terms_of(args@);
                    assert(terms_of(args@) =~= seq![
                        terms_of(a@)[0],
                        Term::Fun(header@, seq![terms_of(a@)[1]]),
                    ]);
                }
                Expr::Fun(rname, args)
            } else {
                Expr::Fun(rname, a)
            }
        },
        other => other,
    }
}

/// Wraps the index of every slot `rep(dim, index)` that is the argument of a
/// call and whose index is a number or a variable: it becomes
/// `rep(dim, header(index))`. Slots whose index is already a call are left.
pub fn wrap_indices_impl(table: &RepTable, e: &Expr, header: &String) -> (r: Expr)
    ensures
        r@ == wrap_term(table.model(), header@, e@),
    decreases e,
{
    match e {
        Expr::Num(n) => Expr::Num(*n),
        Expr::Var(s) => Expr::Var(copy_string(s)),
        Expr::Fun(f, args) => Expr::Fun(copy_string(f), wrap_all_args(table, args, header)),
        Expr::Add(xs) => Expr::Add(wrap_all(table, xs, header)),
        Expr::Mul(xs) => Expr::Mul(wrap_all(table, xs, header)),
        Expr::Pow(b, x) => {
            let b2 = wrap_indices_impl(table, b, header);
            let x2 = wrap_indices_impl(table, x, header);
            Expr::Pow(Box::new(b2), Box::new(x2))
        },
    }
}

fn wrap_all(table: &RepTable, v: &Vec<Expr>, header: &String) -> (r: Vec<Expr>)
    ensures
        views(r) == wrap_seq(table.model(), header@, views(*v)),
    decreases v,
{
    let mut r: Vec<Expr> = Vec::new();
    let mut i: usize = 0;
    proof {
        lemma_terms_of(v@);
        assert(terms_of(v@).take(0) =~= Seq::<Term>::empty());
        assert(terms_of(r@) =~= Seq::<Term>::empty());
    }
    while i < v.len()
        invariant
            i <= v.len(),
            terms_of(v@).len() == v.len(),
            forall|j: int| 0 <= j < v.len() ==> terms_of(v@)[j] == #[trigger] v@[j]@,
            terms_of(r@) == wrap_seq(table.model(), header@, terms_of(v@).take(i as int)),
        decreases v.len() - i,
    {
        let c = wrap_indices_impl(table, &v[i], header);
        proof {
            lemma_terms_of_push(r@, c);
            assert(terms_of(v@).take(i + 1).drop_last() =~= terms_of(v@).take(i as int));
        }
        r.push(c);
        i = i + 1;
    }
    proof {
        assert(terms_of(v@).take(v.len() as int) =~= terms_of(v@));
    }
    r
}

fn wrap_all_args(table: &RepTable, v: &Vec<Expr>, header: &String) -> (r: Vec<Expr>)
    ensures
        views(r) == wrap_args(table.model(), header@, views(*v)),
    decreases v,
{
    let mut r: Vec<Expr> = Vec::new();
    let mut i: usize = 0;
    proof {
        lemma_terms_of(v@);
        assert(terms_of(v@).take(0) =~= Seq::<Term>::empty());
        assert(terms_of(r@) =~= Seq::<Term>::empty());
    }
    while i < v.len()
        invariant
            i <= v.len(),
            terms_of(v@).len() == v.len(),
            forall|j: int| 0 <= j < v.len() ==> terms_of(v@)[j] == #[trigger] v@[j]@,
            terms_of(r@) == wrap_args(table.model(), header@, terms_of(v@).take(i as int)),
        decreases v.len() - i,
    {
        let c = wrap_one(table, header, wrap_indices_impl(table, &v[i], header));
        proof {
            lemma_terms_of_push(r@, c);
            assert(terms_of(v@).take(i + 1).drop_last() =~= terms_of(v@).take(i as int));
        }
        r.push(c);
        i = i + 1;
    }
    proof {
        assert(terms_of(v@).take(v.len() as int) =~= terms_of(v@));
    }
    r
}

/// Whether a term is a slot of a dualizable representation.
pub open spec fn is_dualizable_slot(table: Seq<RepModel>, t: Term) -> bool {
    t matches Term::Fun(r, a) && dualizable_rep(table, r) && a.len() == 2
}

/// An occurrence of an index: the slot in its upper form and a weight.
pub type Occurrence = (Term, int);

/// The index matched at a node: a slot counts `+1`; the lower form
/// `dind(rep(dim, index))` of a dualizable slot counts `lowered` for the slot.
pub open spec fn node_occurrence(table: Seq<RepModel>, t: Term, lowered: int) -> Seq<Occurrence> {
    if is_slot(table, t) {
        seq![(t, 1int)]
    } else if t matches Term::Fun(f, a) && f == dind_sym() && a.len() == 1 && is_dualizable_slot(
        table,
        a[0],
    ) {
        seq![(t->Fun_1[0], lowered)]
    } else {
        Seq::empty()
    }
}

/// The call depth below a call at depth `d`; depths beyond one are all alike.
pub open spec fn deeper(d: nat) -> nat {
    if d >= 2 {
        2
    } else {
        d + 1
    }
}

/// The indices matched in a term, in pre-order, at call depth at most one: at
/// the top of a product or inside one call, but not deeper.
pub open spec fn occurrences(table: Seq<RepModel>, t: Term, depth: nat, lowered: int) -> Seq<
    Occurrence,
>
    decreases t,
{
    match t {
        Term::Fun(f, args) => (if depth <= 1 {
            node_occurrence(table, t, lowered)
        } else {
            Seq::empty()
        }) + occurrences_seq(table, args, deeper(depth), lowered),
        Term::Add(xs) => occurrences_seq(table, xs, depth, lowered),
        Term::Mul(xs) => occurrences_seq(table, xs, depth, lowered),
        Term::Pow(b, x) => occurrences(table, *b, depth, lowered) + occurrences(
            table,
            *x,
            depth,
            lowered,
        ),
        _ => Seq::empty(),
    }
}

pub open spec fn occurrences_seq(table: Seq<RepModel>, s: Seq<Term>, depth: nat, lowered: int) -> Seq<
    Occurrence,
>
    decreases s,
{
    if s.len() == 0 {
        Seq::empty()
    } else {
        occurrences_seq(table, s.drop_last(), depth, lowered) + occurrences(
            table,
            s.last(),
            depth,
            lowered,
        )
    }
}

/// The first position of `k` among the tallied indices, or -1.
pub open spec fn key_index(s: Seq<Occurrence>, k: Term) -> int
    decreases s.len(),
{
    if s.len() == 0 {
        -1
    } else {
        let j = key_index(s.drop_last(), k);
        if j >= 0 {
            j
        } else if s.last().0 == k {
            s.len() - 1
        } else {
            -1
        }
    }
}

/// The indices with their summed weights, in order of first occurrence.
pub open spec fn tally(occ: Seq<Occurrence>) -> Seq<Occurrence>
    decreases occ.len(),
{
    if occ.len() == 0 {
        Seq::empty()
    } else {
        let t = tally(occ.drop_last());
        let (k, w) = occ.last();
        let j = key_index(t, k);
        if j >= 0 {
            t.update(j, (k, t[j].1 + w))
        } else {
            t.push((k, w))
        }
    }
}

/// The dangling indices of a tally: an index of weight 1, or the lower form
/// `dind(index)` of an index of weight -1.
pub open spec fn dangling_of(t: Seq<Occurrence>) -> Seq<Term>
    decreases t.len(),
{
    if t.len() == 0 {
        Seq::empty()
    } else {
        let rest = dangling_of(t.drop_last());
        let (k, w) = t.last();
        if w == 1 {
            rest.push(k)
        } else if w == -1 {
            rest.push(Term::Fun(dind_sym(), seq![k]))
        } else {
            rest
        }
    }
}

/// The first term of an expanded expression: the first summand of a sum, the
/// expression itself otherwise.
pub open spec fn first_term(t: Term) -> Option<Term> {
    match t {
        Term::Add(xs) => if xs.len() > 0 {
            Some(xs[0])
        } else {
            None
        },
        _ => Some(t),
    }
}

/// The dangling indices of an expanded expression, read from its first term.
pub open spec fn list_dangling_spec(table: Seq<RepModel>, t: Term) -> Seq<Term> {
    match first_term(t) {
        Some(f) => dangling_of(tally(occurrences(table, f, 0, -1))),
        None => Seq::empty(),
    }
}

pub open spec fn occ_view(v: Seq<(Expr, i128)>) -> Seq<Occurrence> {
    v.map_values(|p: (Expr, i128)| (p.0@, p.1 as int))
}

fn is_dualizable_slot_exec(table: &RepTable, t: &Expr) -> (r: bool)
    ensures
        r == is_dualizable_slot(table.model(), t@),
{
    match t {
        Expr::Fun(rname, a) => {
            proof {
                lemma_terms_of(a@);
            }
            match table.lookup(rname) {
                Some(rep) => rep.orientation == RepOrientation::Up && a.len() == 2,
                None => false,
            }
        },
        _ => false,
    }
}

fn push_occurrences(v: &mut Vec<(Expr, i128)>, more: Vec<(Expr, i128)>)
    ensures
        occ_view(final(v)@) == occ_view(old(v)@) + occ_view(more@),
{
    let mut m = more;
    let ghost a = v@;
    let ghost b = m@;
    v.append(&mut m);
    assert(occ_view(v@) =~= occ_view(a) + occ_view(b));
}

/// The indices matched at one node.
fn node_occ(table: &RepTable, t: &Expr, lowered: i128) -> (r: Vec<(Expr, i128)>)
    ensures
        occ_view(r@) == node_occurrence(table.model(), t@, lowered as int),
{
    let mut r: Vec<(Expr, i128)> = Vec::new();
    match t {
        Expr::Fun(f, a) => {
            proof {
                lemma_terms_of(a@);
            }
            if has_rep(table, f) && a.len() == 2 {
                r.push((t.deep_clone(), 1));
                assert(occ_view(r@) =~= seq![(t@, 1int)]);
            } else if *f == dind_name() && a.len() == 1 && is_dualizable_slot_exec(table, &a[0]) {
                r.push((a[0].deep_clone(), lowered));
                assert(occ_view(r@) =~= seq![(terms_of(a@)[0], lowered as int)]);
            } else {
                assert(occ_view(r@) =~= Seq::<Occurrence>::empty());
            }
        },
        _ => {
            assert(occ_view(r@) =~= Seq::<Occurrence>::empty());
        },
    }
    r
}

/// The indices matched in a term at call depth at most one.
fn occurrences_exec(table: &RepTable, t: &Expr, depth: u8, lowered: i128) -> (r: Vec<(Expr, i128)>)
    requires
        depth <= 2,
    ensures
        occ_view(r@) == occurrences(table.model(), t@, depth as nat, lowered as int),
    decreases t,
{
    match t {
        Expr::Fun(_, args) => {
            let mut r = if depth <= 1 {
                node_occ(table, t, lowered)
            } else {
                let v: Vec<(Expr, i128)> = Vec::new();
                assert(occ_view(v@) =~= Seq::<Occurrence>::empty());
                v
            };
            let d2: u8 = if depth >= 2 {
                2
            } else {
                depth + 1
            };
            let more = occurrences_all(table, args, d2, lowered);
            push_occurrences(&mut r, more);
            r
        },
        Expr::Add(xs) => occurrences_all(table, xs, depth, lowered),
        Expr::Mul(xs) => occurrences_all(table, xs, depth, lowered),
        Expr::Pow(b, x) => {
            let mut r = occurrences_exec(table, b, depth, lowered);
            let more = occurrences_exec(table, x, depth, lowered);
            push_occurrences(&mut r, more);
            r
        },
        _ => {
            let v: Vec<(Expr, i128)> = Vec::new();
            assert(occ_view(v@) =~= Seq::<Occurrence>::empty());
            v
        },
    }
}

fn occurrences_all(table: &RepTable, v: &Vec<Expr>, depth: u8, lowered: i128) -> (r: Vec<(Expr, i128)>)
    requires
        depth <= 2,
    ensures
        occ_view(r@) == occurrences_seq(table.model(), views(*v), depth as nat, lowered as int),
    decreases v,
{
    let mut r: Vec<(Expr, i128)> = Vec::new();
    let mut i: usize = 0;
    proof {
        lemma_terms_of(v@);
        assert(terms_of(v@).take(0) =~= Seq::<Term>::empty());
        assert(occ_view(r@) =~= Seq::<Occurrence>::empty());
    }
    while i < v.len()
        invariant
            i <= v.len(),
            depth <= 2,
            terms_of(v@).len() == v.len(),
            forall|j: int| 0 <= j < v.len() ==> terms_of(v@)[j] == #[trigger] v@[j]@,
            occ_view(r@) == occurrences_seq(
                table.model(),
                terms_of(v@).take(i as int),
                depth as nat,
                lowered as int,
            ),
        decreases v.len() - i,
    {
        let more = occurrences_exec(table, &v[i], depth, lowered);
        proof {
            assert(terms_of(v@).take(i + 1).drop_last() =~= terms_of(v@).take(i as int));
        }
        push_occurrences(&mut r, more);
        i = i + 1;
    }
    proof {
        assert(terms_of(v@).take(v.len() as int) =~= terms_of(v@));
    }
    r
}

/// The tallied keys are distinct.
pub open spec fn distinct_keys(s: Seq<Occurrence>) -> bool {
    forall|i: int, j: int| 0 <= i < j < s.len() ==> s[i].0 != s[j].0
}

proof fn lemma_key_index(s: Seq<Occurrence>, k: Term)
    requires
        distinct_keys(s),
    ensures
        -1 <= key_index(s, k) < s.len(),
        key_index(s, k) >= 0 ==> s[key_index(s, k)].0 == k,
        key_index(s, k) < 0 ==> forall|i: int| 0 <= i < s.len() ==> s[i].0 != k,
    decreases s.len(),
{
    if s.len() > 0 {
        let init = s.drop_last();
        assert forall|i: int, j: int| 0 <= i < j < init.len() implies init[i].0 != init[j].0 by {
            assert(init[i] == s[i] && init[j] == s[j]);
        }
        lemma_key_index(init, k);
        if key_index(s, k) < 0 {
            assert forall|i: int| 0 <= i < s.len() implies s[i].0 != k by {
                if i < init.len() {
                    assert(init[i] == s[i]);
                }
            }
        }
    }
}

proof fn lemma_tally_distinct(occ: Seq<Occurrence>)
    requires
        forall|i: int| 0 <= i < occ.len() ==> -1 <= #[trigger] occ[i].1 <= 1,
    ensures
        distinct_keys(tally(occ)),
        tally(occ).len() <= occ.len(),
        forall|i: int|
            0 <= i < tally(occ).len() ==> -occ.len() <= #[trigger] tally(occ)[i].1 <= occ.len(),
    decreases occ.len(),
{
    if occ.len() > 0 {
        let init = occ.drop_last();
        assert forall|i: int| 0 <= i < init.len() implies -1 <= #[trigger] init[i].1 <= 1 by {
            assert(init[i] == occ[i]);
        }
        lemma_tally_distinct(init);
        let t = tally(init);
        let (k, w) = occ.last();
        lemma_key_index(t, k);
        assert(-1 <= occ[occ.len() - 1].1 <= 1);
    }
}

/// Every weight is one or the weight of lowered slots.
pub open spec fn weights_within(occ: Seq<Occurrence>, lowered: int) -> bool {
    forall|i: int| 0 <= i < occ.len() ==> #[trigger] occ[i].1 == 1 || occ[i].1 == lowered
}

proof fn lemma_weights_concat(a: Seq<Occurrence>, b: Seq<Occurrence>, lowered: int)
    requires
        weights_within(a, lowered),
        weights_within(b, lowered),
    ensures
        weights_within(a + b, lowered),
{
    assert forall|i: int| 0 <= i < (a + b).len() implies #[trigger] (a + b)[i].1 == 1 || (a
        + b)[i].1 == lowered by {
        if i < a.len() {
            assert((a + b)[i] == a[i]);
        } else {
            assert((a + b)[i] == b[i - a.len()]);
        }
    }
}

proof fn lemma_occurrence_weights(table: Seq<RepModel>, t: Term, depth: nat, lowered: int)
    ensures
        weights_within(occurrences(table, t, depth, lowered), lowered),
    decreases t,
{
    match t {
        Term::Fun(f, args) => {
            lemma_occurrence_seq_weights(table, args, deeper(depth), lowered);
            let here = if depth <= 1 {
                node_occurrence(table, t, lowered)
            } else {
                Seq::empty()
            };
            lemma_weights_concat(here, occurrences_seq(table, args, deeper(depth), lowered), lowered);
        },
        Term::Add(xs) => {
            lemma_occurrence_seq_weights(table, xs, depth, lowered);
        },
        Term::Mul(xs) => {
            lemma_occurrence_seq_weights(table, xs, depth, lowered);
        },
        Term::Pow(b, x) => {
            lemma_occurrence_weights(table, *b, depth, lowered);
            lemma_occurrence_weights(table, *x, depth, lowered);
            lemma_weights_concat(
                occurrences(table, *b, depth, lowered),
                occurrences(table, *x, depth, lowered),
                lowered,
            );
        },
        _ => {},
    }
}

proof fn lemma_occurrence_seq_weights(table: Seq<RepModel>, s: Seq<Term>, depth: nat, lowered: int)
    ensures
        weights_within(occurrences_seq(table, s, depth, lowered), lowered),
    decreases s,
{
    if s.len() > 0 {
        lemma_occurrence_seq_weights(table, s.drop_last(), depth, lowered);
        lemma_occurrence_weights(table, s.last(), depth, lowered);
        lemma_weights_concat(
            occurrences_seq(table, s.drop_last(), depth, lowered),
            occurrences(table, s.last(), depth, lowered),
            lowered,
        );
    }
}

/// The position of the key `k` among the tallied indices.
fn find_key(keys: &Vec<(Expr, i128)>, k: &Expr) -> (r: Option<usize>)
    requires
        distinct_keys(occ_view(keys@)),
    ensures
        match r {
            Some(j) => j as int == key_index(occ_view(keys@), k@),
            None => key_index(occ_view(keys@), k@) == -1,
        },
{
    let ghost t = occ_view(keys@);
    proof {
        lemma_key_index(t, k@);
    }
    let mut j: usize = 0;
    while j < keys.len()
        invariant
            j <= keys.len(),
            t == occ_view(keys@),
            distinct_keys(t),
            forall|m: int| 0 <= m < j ==> #[trigger] t[m].0 != k@,
        decreases keys.len() - j,
    {
        if expr_eq(&keys[j].0, k) {
            proof {
                lemma_key_index(t, k@);
                let ki = key_index(t, k@);
                assert(t[j as int].0 == k@);
                if ki != j as int {
                    assert(t[ki].0 == t[j as int].0);
                }
            }
            return Some(j);
        }
        j = j + 1;
    }
    proof {
        lemma_key_index(t, k@);
        let ki = key_index(t, k@);
        if ki >= 0 {
            assert(t[ki].0 == k@);
        }
    }
    None
}

/// The indices with their summed weights, in order of first occurrence.
fn tally_exec(occ: &Vec<(Expr, i128)>) -> (r: Vec<(Expr, i128)>)
    requires
        forall|i: int| 0 <= i < occ.len() ==> -1 <= #[trigger] occ@[i].1 <= 1,
    ensures
        occ_view(r@) == tally(occ_view(occ@)),
{
    let ghost ov = occ_view(occ@);
    let mut keys: Vec<(Expr, i128)> = Vec::new();
    let mut i: usize = 0;
    proof {
        assert(ov.take(0) =~= Seq::<Occurrence>::empty());
        assert(occ_view(keys@) =~= Seq::<Occurrence>::empty());
    }
    while i < occ.len()
        invariant
            i <= occ.len(),
            ov == occ_view(occ@),
            forall|j: int| 0 <= j < occ.len() ==> -1 <= #[trigger] occ@[j].1 <= 1,
            occ_view(keys@) == tally(ov.take(i as int)),
        decreases occ.len() - i,
    {
        proof {
            let pre = ov.take(i as int);
            assert forall|j: int| 0 <= j < pre.len() implies -1 <= #[trigger] pre[j].1 <= 1 by {
                assert(pre[j].1 == occ@[j].1 as int);
            }
            lemma_tally_distinct(pre);
            assert(ov.take(i + 1).drop_last() =~= pre);
            assert(ov.take(i + 1).last() == (occ@[i as int].0@, occ@[i as int].1 as int));
        }
        let ghost t = occ_view(keys@);
        let pos = find_key(&keys, &occ[i].0);
        proof {
            lemma_key_index(t, occ@[i as int].0@);
        }
        if let Some(j) = pos {
            let c = keys[j].1;
            let w = occ[i].1;
            proof {
                assert(t[j as int].1 == c as int);
            }
            let k = keys[j].0.deep_clone();
            keys.set(j, (k, c + w));
            proof {
                assert(occ_view(keys@) =~= t.update(j as int, (occ@[i as int].0@, c + w)));
            }
        } else {
            let k = occ[i].0.deep_clone();
            let w = occ[i].1;
            keys.push((k, w));
            proof {
                assert(occ_view(keys@) =~= t.push((occ@[i as int].0@, w as int)));
            }
        }
        i = i + 1;
    }
    proof {
        assert(ov.take(occ.len() as int) =~= ov);
    }
    keys
}

/// The dangling indices of a tally.
fn dangling_exec(t: &Vec<(Expr, i128)>) -> (r: Vec<Expr>)
    ensures
        views(r) == dangling_of(occ_view(t@)),
{
    let ghost tv = occ_view(t@);
    let mut r: Vec<Expr> = Vec::new();
    let mut i: usize = 0;
    proof {
        assert(tv.take(0) =~= Seq::<Occurrence>::empty());
        assert(terms_of(r@) =~= Seq::<Term>::empty());
    }
    while i < t.len()
        invariant
            i <= t.len(),
            tv == occ_view(t@),
            terms_of(r@) == dangling_of(tv.take(i as int)),
        decreases t.len() - i,
    {
        proof {
            assert(tv.take(i + 1).drop_last() =~= tv.take(i as int));
            assert(tv.take(i + 1).last() == (t@[i as int].0@, t@[i as int].1 as int));
        }
        if t[i].1 == 1 {
            let k = t[i].0.deep_clone();
            proof {
                lemma_terms_of_push(r@, k);
            }
            r.push(k);
        } else if t[i].1 == -1 {
            let inner = vec![t[i].0.deep_clone()];
            proof {
                lemma_terms_of(inner@);
                assert(terms_of(inner@) =~= seq![t@[i as int].0@]);
            }
            let k = Expr::Fun(dind_name(), inner);
            proof {
                lemma_terms_of_push(r@, k);
            }
            r.push(k);
        }
        i = i + 1;
    }
    proof {
        assert(tv.take(t.len() as int) =~= tv);
    }
    r
}

/// The dangling (uncontracted) indices of an expanded expression, read from
/// its first term: an index met once in its upper form (or once in total for
/// a self-dual representation), or, as `dind(index)`, once more in its lower
/// form than in its upper form. Indices are looked for at the top of the term
/// and inside one call; each appears once, in order of first occurrence.
pub fn list_dangling_impl(table: &RepTable, expanded: &Expr) -> (r: Vec<Expr>)
    ensures
        views(r) == list_dangling_spec(table.model(), expanded@),
{
    let first: Option<&Expr> = match expanded {
        Expr::Add(xs) => {
            proof {
                lemma_terms_of(xs@);
            }
            if xs.len() > 0 {
                Some(&xs[0])
            } else {
                None
            }
        },
        _ => Some(expanded),
    };
    match first {
        Some(f) => {
            let occ = occurrences_exec(table, f, 0, -1);
            proof {
                lemma_occurrence_weights(table.model(), f@, 0, -1);
                assert forall|i: int| 0 <= i < occ.len() implies -1 <= #[trigger] occ@[i].1 <= 1 by {
                    assert(occ_view(occ@)[i].1 == occ@[i].1 as int);
                }
            }
            let t = tally_exec(&occ);
            dangling_exec(&t)
        },
        None => {
            let r: Vec<Expr> = Vec::new();
            assert(terms_of(r@) =~= Seq::<Term>::empty());
            r
        },
    }
}

/// Every occurrence of `k` in `t` replaced by `v`, outermost first.
pub open spec fn subst(t: Term, k: Term, v: Term) -> Term
    decreases t,
{
    if t == k {
        v
    } else {
        match t {
            Term::Fun(f, args) => Term::Fun(f, subst_seq(args, k, v)),
            Term::Add(xs) => Term::Add(subst_seq(xs, k, v)),
            Term::Mul(xs) => Term::Mul(subst_seq(xs, k, v)),
            Term::Pow(b, x) => Term::Pow(Box::new(subst(*b, k, v)), Box::new(subst(*x, k, v))),
            _ => t,
        }
    }
}

pub open spec fn subst_seq(s: Seq<Term>, k: Term, v: Term) -> Seq<Term>
    decreases s,
{
    if s.len() == 0 {
        s
    } else {
        subst_seq(s.drop_last(), k, v).push(subst(s.last(), k, v))
    }
}

/// The contracted indices of a tally: those whose weight is neither 1 nor -1.
pub open spec fn dummies_of(t: Seq<Occurrence>) -> Seq<Term>
    decreases t.len(),
{
    if t.len() == 0 {
        Seq::empty()
    } else {
        let rest = dummies_of(t.drop_last());
        let (k, w) = t.last();
        if w == 1 || w == -1 {
            rest
        } else {
            rest.push(k)
        }
    }
}

/// `t` with the index of each slot of `keys` wrapped, one key after the other.
pub open spec fn wrap_keys(t: Term, keys: Seq<Term>, header: Seq<char>) -> Term
    decreases keys.len(),
{
    if keys.len() == 0 {
        t
    } else {
        let k = keys.last();
        subst(wrap_keys(t, keys.drop_last(), header), k, wrapped_slot(k, header))
    }
}

/// What wrapping the dummy indices gives: the contracted indices are read
/// from the first term of the expanded expression, where every occurrence of
/// an index counts once, lower or upper; each is then wrapped wherever it
/// stands in the expression.
pub open spec fn wrap_dummies_spec(
    table: Seq<RepModel>,
    t: Term,
    expanded: Term,
    header: Seq<char>,
) -> Term {
    match first_term(expanded) {
        Some(f) => wrap_keys(t, dummies_of(tally(occurrences(table, f, 0, 1))), header),
        None => t,
    }
}

/// The slot with its index wrapped.
fn wrapped_slot_exec(k: &Expr, header: &String) -> (r: Expr)
    ensures
        r@ == wrapped_slot(k@, header@),
{
    match k {
        Expr::Fun(rname, a) => {
            proof {
                lemma_terms_of(a@);
            }
            if a.len() == 2 {
                let inner = vec![a[1].deep_clone()];
                proof {
                    lemma_terms_of(inner@);
                    assert(terms_of(inner@) =~= seq![terms_of(a@)[1]]);
                }
                let w = Expr::Fun(copy_string(header), inner);
                let args = vec![a[0].deep_clone(), w];
                proof {
                    lemma_terms_of(args@);
                    assert(terms_of(args@) =~= seq![
                        terms_of(a@)[0],
                        Term::Fun(header@, seq![terms_of(a@)[1]]),
                    ]);
                }
                Expr::Fun(copy_string(rname), args)
            } else {
                k.deep_clone()
            }
        },
        _ => k.deep_clone(),
    }
}

/// Every occurrence of `k` in `t` replaced by `v`.
fn subst_exec(t: &Expr, k: &Expr, v: &Expr) -> (r: Expr)
    ensures
        r@ == subst(t@, k@, v@),
    decreases t,
{
    if expr_eq(t, k) {
        return v.deep_clone();
    }
    match t {
        Expr::Num(n) => Expr::Num(*n),
        Expr::Var(s) => Expr::Var(copy_string(s)),
        Expr::Fun(f, args) => Expr::Fun(copy_string(f), subst_all(args, k, v)),
        Expr::Add(xs) => Expr::Add(subst_all(xs, k, v)),
        Expr::Mul(xs) => Expr::Mul(subst_all(xs, k, v)),
        Expr::Pow(b, x) => {
            let b2 = subst_exec(b, k, v);
            let x2 = subst_exec(x, k, v);
            Expr::Pow(Box::new(b2), Box::new(x2))
        },
    }
}

fn subst_all(xs: &Vec<Expr>, k: &Expr, v: &Expr) -> (r: Vec<Expr>)
    ensures
        views(r) == subst_seq(views(*xs), k@, v@),
    decreases xs,
{
    let mut r: Vec<Expr> = Vec::new();
    let mut i: usize = 0;
    proof {
        lemma_terms_of(xs@);
        assert(terms_of(xs@).take(0) =~= Seq::<Term>::empty());
        assert(terms_of(r@) =~= Seq::<Term>::empty());
    }
    while i < xs.len()
        invariant
            i <= xs.len(),
            terms_of(xs@).len() == xs.len(),
            forall|j: int| 0 <= j < xs.len() ==> terms_of(xs@)[j] == #[trigger] xs@[j]@,
            terms_of(r@) == subst_seq(terms_of(xs@).take(i as int), k@, v@),
        decreases xs.len() - i,
    {
        let c = subst_exec(&xs[i], k, v);
        proof {
            lemma_terms_of_push(r@, c);
            assert(terms_of(xs@).take(i + 1).drop_last() =~= terms_of(xs@).take(i as int));
        }
        r.push(c);
        i = i + 1;
    }
    proof {
        assert(terms_of(xs@).take(xs.len() as int) =~= terms_of(xs@));
    }
    r
}

/// Wraps the dummy (contracted) indices of `e` with `header`, leaving the
/// dangling ones as they are. `expanded` is `e` expanded into a sum of
/// products; the contracted indices are those met more than once in its first
/// term (lower and upper forms alike). Each becomes `rep(dim, header(index))`
/// wherever it stands in `e`, its lower form `dind(rep(dim, index))` included.
pub fn wrap_dummies_impl(table: &RepTable, e: &Expr, expanded: &Expr, header: &String) -> (r: Expr)
    ensures
        r@ == wrap_dummies_spec(table.model(), e@, expanded@, header@),
{
    let first: Option<&Expr> = match expanded {
        Expr::Add(xs) => {
            proof {
                lemma_terms_of(xs@);
            }
            if xs.len() > 0 {
                Some(&xs[0])
            } else {
                None
            }
        },
        _ => Some(expanded),
    };
    match first {
        Some(f) => {
            let occ = occurrences_exec(table, f, 0, 1);
            proof {
                lemma_occurrence_weights(table.model(), f@, 0, 1);
                assert forall|i: int| 0 <= i < occ.len() implies -1 <= #[trigger] occ@[i].1 <= 1 by {
                    assert(occ_view(occ@)[i].1 == occ@[i].1 as int);
                }
            }
            let t = tally_exec(&occ);
            let ghost tv = occ_view(t@);
            let mut r = e.deep_clone();
            let mut i: usize = 0;
            proof {
                assert(tv.take(0) =~= Seq::<Occurrence>::empty());
            }
            while i < t.len()
                invariant
                    i <= t.len(),
                    tv == occ_view(t@),
                    r@ == wrap_keys(e@, dummies_of(tv.take(i as int)), header@),
                decreases t.len() - i,
            {
                proof {
                    assert(tv.take(i + 1).drop_last() =~= tv.take(i as int));
                    assert(tv.take(i + 1).last() == (t@[i as int].0@, t@[i as int].1 as int));
                }
                if t[i].1 != 1 && t[i].1 != -1 {
                    let v = wrapped_slot_exec(&t[i].0, header);
                    let ghost keys = dummies_of(tv.take(i as int));
                    proof {
                        assert(keys.push(t@[i as int].0@).drop_last() =~= keys);
                    }
                    r = subst_exec(&r, &t[i].0, &v);
                }
                i = i + 1;
            }
            proof {
                assert(tv.take(t.len() as int) =~= tv);
            }
            r
        },
        None => e.deep_clone(),
    }
}

proof fn lemma_wrap_seq(table: Seq<RepModel>, header: Seq<char>, s: Seq<Term>)
    ensures
        wrap_seq(table, header, s).len() == s.len(),
        wrap_args(table, header, s).len() == s.len(),
        forall|i: int|
            0 <= i < s.len() ==> #[trigger] wrap_seq(table, header, s)[i] == wrap_term(
                table,
                header,
                s[i],
            ),
        forall|i: int|
            0 <= i < s.len() ==> #[trigger] wrap_args(table, header, s)[i] == wrap_arg(
                table,
                header,
                wrap_term(table, header, s[i]),
            ),
    decreases s.len(),
{
    if s.len() > 0 {
        lemma_wrap_seq(table, header, s.drop_last());
    }
}

/// Wrapping indices twice wraps them once: a wrapped index is a call, and
/// only indices that are numbers or variables are wrapped.
pub proof fn law_wrap_indices_idempotent(table: Seq<RepModel>, header: Seq<char>, t: Term)
    ensures
        wrap_term(table, header, wrap_term(table, header, t)) == wrap_term(table, header, t),
    decreases t, 0nat,
{
    match t {
        Term::Fun(f, args) => {
            lemma_wrap_args_idempotent(table, header, args);
        },
        Term::Add(xs) => {
            lemma_wrap_seq_idempotent(table, header, xs);
        },
        Term::Mul(xs) => {
            lemma_wrap_seq_idempotent(table, header, xs);
        },
        Term::Pow(b, x) => {
            law_wrap_indices_idempotent(table, header, *b);
            law_wrap_indices_idempotent(table, header, *x);
        },
        _ => {},
    }
}

/// An argument that has been wrapped is left as it is by wrapping again.
proof fn lemma_wrap_arg_idempotent(table: Seq<RepModel>, header: Seq<char>, x: Term)
    ensures
        ({
            let y = wrap_arg(table, header, wrap_term(table, header, x));
            wrap_arg(table, header, wrap_term(table, header, y)) == y
        }),
    decreases x, 1nat,
{
    let y0 = wrap_term(table, header, x);
    law_wrap_indices_idempotent(table, header, x);
    if is_plain_slot(table, y0) {
        let r = x->Fun_0;
        let xargs = x->Fun_1;
        lemma_wrap_seq(table, header, xargs);
        let a = y0->Fun_1;
        assert(a == wrap_args(table, header, xargs));
        lemma_wrap_arg_idempotent(table, header, xargs[0]);
        let hx = Term::Fun(header, seq![a[1]]);
        let y = Term::Fun(r, seq![a[0], hx]);
        assert(wrap_arg(table, header, y0) == y);
        lemma_wrap_seq(table, header, seq![a[1]]);
        assert(wrap_term(table, header, a[1]) == a[1]);
        assert(wrap_args(table, header, seq![a[1]]) =~= seq![a[1]]);
        assert(wrap_term(table, header, hx) == hx);
        lemma_wrap_seq(table, header, seq![a[0], hx]);
        assert(wrap_args(table, header, seq![a[0], hx]) =~= seq![a[0], hx]);
        assert(wrap_term(table, header, y) == y);
    }
}

proof fn lemma_wrap_args_idempotent(table: Seq<RepModel>, header: Seq<char>, s: Seq<Term>)
    ensures
        wrap_args(table, header, wrap_args(table, header, s)) == wrap_args(table, header, s),
    decreases s, 0nat,
{
    let w = wrap_args(table, header, s);
    lemma_wrap_seq(table, header, s);
    lemma_wrap_seq(table, header, w);
    assert forall|i: int| 0 <= i < s.len() implies #[trigger] wrap_args(table, header, w)[i]
        == w[i] by {
        lemma_wrap_arg_idempotent(table, header, s[i]);
    }
    assert(wrap_args(table, header, w) =~= w);
}

proof fn lemma_wrap_seq_idempotent(table: Seq<RepModel>, header: Seq<char>, s: Seq<Term>)
    ensures
        wrap_seq(table, header, wrap_seq(table, header, s)) == wrap_seq(table, header, s),
    decreases s, 0nat,
{
    let w = wrap_seq(table, header, s);
    lemma_wrap_seq(table, header, s);
    lemma_wrap_seq(table, header, w);
    assert forall|i: int| 0 <= i < s.len() implies #[trigger] wrap_seq(table, header, w)[i]
        == w[i] by {
        law_wrap_indices_idempotent(table, header, s[i]);
    }
    assert(wrap_seq(table, header, w) =~= w);
}

/// Every index met is a call with two arguments: `rep(dim, index)`.
pub open spec fn slot_keys(occ: Seq<Occurrence>) -> bool {
    forall|i: int| 0 <= i < occ.len() ==> #[trigger] occ[i].0 is Fun && occ[i].0->Fun_1.len() == 2
}

proof fn lemma_slot_keys_concat(a: Seq<Occurrence>, b: Seq<Occurrence>)
    requires
        slot_keys(a),
        slot_keys(b),
    ensures
        slot_keys(a + b),
{
    assert forall|i: int| 0 <= i < (a + b).len() implies #[trigger] (a + b)[i].0 is Fun && (a
        + b)[i].0->Fun_1.len() == 2 by {
        if i < a.len() {
            assert((a + b)[i] == a[i]);
        } else {
            assert((a + b)[i] == b[i - a.len()]);
        }
    }
}

proof fn lemma_occurrence_slot_keys(table: Seq<RepModel>, t: Term, depth: nat, lowered: int)
    ensures
        slot_keys(occurrences(table, t, depth, lowered)),
    decreases t,
{
    match t {
        Term::Fun(f, args) => {
            lemma_occurrence_seq_slot_keys(table, args, deeper(depth), lowered);
            let here = if depth <= 1 {
                node_occurrence(table, t, lowered)
            } else {
                Seq::empty()
            };
            lemma_slot_keys_concat(here, occurrences_seq(table, args, deeper(depth), lowered));
        },
        Term::Add(xs) => {
            lemma_occurrence_seq_slot_keys(table, xs, depth, lowered);
        },
        Term::Mul(xs) => {
            lemma_occurrence_seq_slot_keys(table, xs, depth, lowered);
        },
        Term::Pow(b, x) => {
            lemma_occurrence_slot_keys(table, *b, depth, lowered);
            lemma_occurrence_slot_keys(table, *x, depth, lowered);
            lemma_slot_keys_concat(
                occurrences(table, *b, depth, lowered),
                occurrences(table, *x, depth, lowered),
            );
        },
        _ => {},
    }
}

proof fn lemma_occurrence_seq_slot_keys(table: Seq<RepModel>, s: Seq<Term>, depth: nat, lowered: int)
    ensures
        slot_keys(occurrences_seq(table, s, depth, lowered)),
    decreases s,
{
    if s.len() > 0 {
        lemma_occurrence_seq_slot_keys(table, s.drop_last(), depth, lowered);
        lemma_occurrence_slot_keys(table, s.last(), depth, lowered);
        lemma_slot_keys_concat(
            occurrences_seq(table, s.drop_last(), depth, lowered),
            occurrences(table, s.last(), depth, lowered),
        );
    }
}

proof fn lemma_key_index_range(s: Seq<Occurrence>, k: Term)
    ensures
        -1 <= key_index(s, k) < s.len(),
        key_index(s, k) >= 0 ==> s[key_index(s, k)].0 == k,
    decreases s.len(),
{
    if s.len() > 0 {
        lemma_key_index_range(s.drop_last(), k);
    }
}

/// The tally keeps the indices it was given.
proof fn lemma_tally_slot_keys(occ: Seq<Occurrence>)
    requires
        slot_keys(occ),
    ensures
        slot_keys(tally(occ)),
    decreases occ.len(),
{
    if occ.len() > 0 {
        let init = occ.drop_last();
        assert forall|i: int| 0 <= i < init.len() implies #[trigger] init[i].0 is Fun
            && init[i].0->Fun_1.len() == 2 by {
            assert(init[i] == occ[i]);
        }
        lemma_tally_slot_keys(init);
        let t = tally(init);
        let (k, w) = occ.last();
        assert(occ[occ.len() - 1].0 is Fun);
        let j = key_index(t, k);
        lemma_key_index_range(t, k);
        if j >= 0 {
            let u = t.update(j, (k, t[j].1 + w));
            assert forall|i: int| 0 <= i < u.len() implies #[trigger] u[i].0 is Fun
                && u[i].0->Fun_1.len() == 2 by {
                if i != j {
                    assert(u[i] == t[i]);
                }
            }
        } else {
            let u = t.push((k, w));
            assert forall|i: int| 0 <= i < u.len() implies #[trigger] u[i].0 is Fun
                && u[i].0->Fun_1.len() == 2 by {
                if i < t.len() {
                    assert(u[i] == t[i]);
                }
            }
        }
    }
}

/// Every dangling index of a tally is one of its indices, or the lower form
/// of one; and none is listed twice.
proof fn lemma_dangling_distinct(t: Seq<Occurrence>)
    requires
        distinct_keys(t),
        slot_keys(t),
    ensures
        dangling_of(t).no_duplicates(),
        forall|m: int|
            0 <= m < dangling_of(t).len() ==> exists|j: int|
                0 <= j < t.len() && (#[trigger] dangling_of(t)[m] == t[j].0 || dangling_of(t)[m]
                    == Term::Fun(dind_sym(), seq![t[j].0])),
    decreases t.len(),
{
    if t.len() > 0 {
        let init = t.drop_last();
        assert forall|i: int, j: int| 0 <= i < j < init.len() implies init[i].0 != init[j].0 by {
            assert(init[i] == t[i] && init[j] == t[j]);
        }
        assert forall|i: int| 0 <= i < init.len() implies #[trigger] init[i].0 is Fun
            && init[i].0->Fun_1.len() == 2 by {
            assert(init[i] == t[i]);
        }
        lemma_dangling_distinct(init);
        let rest = dangling_of(init);
        let last = t.len() - 1;
        let (k, w) = t.last();
        assert(t[last].0 is Fun && t[last].0->Fun_1.len() == 2);
        if w == 1 || w == -1 {
            let x = if w == 1 {
                k
            } else {
                Term::Fun(dind_sym(), seq![k])
            };
            assert(dangling_of(t) == rest.push(x));
            assert forall|m: int| 0 <= m < rest.len() implies rest[m] != x by {
                let j = choose|j: int|
                    0 <= j < init.len() && (#[trigger] rest[m] == init[j].0 || rest[m] == Term::Fun(
                        dind_sym(),
                        seq![init[j].0],
                    ));
                assert(init[j] == t[j]);
                assert(t[j].0 != t[last].0);
                assert(t[j].0->Fun_1.len() == 2);
                if rest[m] == x {
                    let dj = Term::Fun(dind_sym(), seq![init[j].0]);
                    let dk = Term::Fun(dind_sym(), seq![k]);
                    assert(dj->Fun_1.len() == 1);
                    assert(dk->Fun_1.len() == 1);
                    if w == 1 {
                        assert(x == k);
                        assert(k->Fun_1.len() == 2);
                    } else {
                        assert(x == dk);
                        if rest[m] == dj {
                            assert(dj->Fun_1[0] == dk->Fun_1[0]);
                        }
                    }
                }
            }
            let d = rest.push(x);
            assert forall|a: int, b: int| 0 <= a < d.len() && 0 <= b < d.len() && a != b implies d[a]
                != d[b] by {
                if a < rest.len() && b < rest.len() {
                } else if a < rest.len() {
                    assert(d[b] == x);
                } else {
                    assert(d[a] == x);
                }
            }
            assert forall|m: int| 0 <= m < d.len() implies exists|j: int|
                0 <= j < t.len() && (#[trigger] d[m] == t[j].0 || d[m] == Term::Fun(
                    dind_sym(),
                    seq![t[j].0],
                )) by {
                if m < rest.len() {
                    let j = choose|j: int|
                        0 <= j < init.len() && (#[trigger] rest[m] == init[j].0 || rest[m]
                            == Term::Fun(dind_sym(), seq![init[j].0]));
                    assert(init[j] == t[j]);
                } else {
                    assert(d[m] == x);
                    assert(t[last].0 == k);
                }
            }
        } else {
            assert(dangling_of(t) == rest);
            assert forall|m: int| 0 <= m < rest.len() implies exists|j: int|
                0 <= j < t.len() && (#[trigger] rest[m] == t[j].0 || rest[m] == Term::Fun(
                    dind_sym(),
                    seq![t[j].0],
                )) by {
                let j = choose|j: int|
                    0 <= j < init.len() && (#[trigger] rest[m] == init[j].0 || rest[m] == Term::Fun(
                        dind_sym(),
                        seq![init[j].0],
                    ));
                assert(init[j] == t[j]);
            }
        }
    }
}

/// No dangling index is listed twice.
pub proof fn law_dangling_distinct(table: Seq<RepModel>, t: Term)
    ensures
        list_dangling_spec(table, t).no_duplicates(),
{
    match first_term(t) {
        Some(f) => {
            let occ = occurrences(table, f, 0, -1);
            lemma_occurrence_weights(table, f, 0, -1);
            lemma_occurrence_slot_keys(table, f, 0, -1);
            assert forall|i: int| 0 <= i < occ.len() implies -1 <= #[trigger] occ[i].1 <= 1 by {
                assert(occ[i].1 == 1 || occ[i].1 == -1);
            }
            lemma_tally_distinct(occ);
            lemma_tally_slot_keys(occ);
            lemma_dangling_distinct(tally(occ));
        },
        None => {
            assert(Seq::<Term>::empty().no_duplicates());
        },
    }
}

/// The contracted indices of a tally are among its indices, each with its
/// weight neither 1 nor -1.
proof fn lemma_dummies_of(t: Seq<Occurrence>)
    ensures
        forall|m: int|
            0 <= m < dummies_of(t).len() ==> exists|j: int|
                0 <= j < t.len() && #[trigger] dummies_of(t)[m] == t[j].0 && t[j].1 != 1 && t[j].1
                    != -1,
    decreases t.len(),
{
    if t.len() > 0 {
        let init = t.drop_last();
        lemma_dummies_of(init);
        let rest = dummies_of(init);
        let d = dummies_of(t);
        assert forall|m: int| 0 <= m < d.len() implies exists|j: int|
            0 <= j < t.len() && #[trigger] d[m] == t[j].0 && t[j].1 != 1 && t[j].1 != -1 by {
            if m < rest.len() {
                assert(d[m] == rest[m]);
                let j = choose|j: int|
                    0 <= j < init.len() && #[trigger] rest[m] == init[j].0 && init[j].1 != 1
                        && init[j].1 != -1;
                assert(init[j] == t[j]);
            } else {
                assert(d[m] == t[t.len() - 1].0);
            }
        }
    }
}

/// Wrapping the dummies leaves the external indices alone: an index met only
/// once in the first term of the expanded expression is not among those that
/// are wrapped.
pub proof fn law_wrap_dummies_keeps_external(table: Seq<RepModel>, f: Term, j: int)
    requires
        0 <= j < tally(occurrences(table, f, 0, 1)).len(),
        tally(occurrences(table, f, 0, 1))[j].1 == 1,
    ensures
        !dummies_of(tally(occurrences(table, f, 0, 1))).contains(
            tally(occurrences(table, f, 0, 1))[j].0,
        ),
{
    let occ = occurrences(table, f, 0, 1);
    lemma_occurrence_weights(table, f, 0, 1);
    assert forall|i: int| 0 <= i < occ.len() implies -1 <= #[trigger] occ[i].1 <= 1 by {
        assert(occ[i].1 == 1);
    }
    lemma_tally_distinct(occ);
    let t = tally(occ);
    lemma_dummies_of(t);
    if dummies_of(t).contains(t[j].0) {
        let m = choose|m: int| 0 <= m < dummies_of(t).len() && dummies_of(t)[m] == t[j].0;
        let i = choose|i: int|
            0 <= i < t.len() && #[trigger] dummies_of(t)[m] == t[i].0 && t[i].1 != 1 && t[i].1
                != -1;
        if i != j {
            if i < j {
                assert(t[i].0 != t[j].0);
            } else {
                assert(t[j].0 != t[i].0);
            }
        }
    }
}

/// Whether no slot that is the argument of a call has a number or a variable
/// as its index.
pub open spec fn no_plain_slot_args(table: Seq<RepModel>, t: Term) -> bool
    decreases t,
{
    match t {
        Term::Fun(f, args) => no_plain_in_args(table, args),
        Term::Add(xs) => no_plain_in_seq(table, xs),
        Term::Mul(xs) => no_plain_in_seq(table, xs),
        Term::Pow(b, x) => no_plain_slot_args(table, *b) && no_plain_slot_args(table, *x),
        _ => true,
    }
}

pub open spec fn no_plain_in_seq(table: Seq<RepModel>, s: Seq<Term>) -> bool
    decreases s,
{
    if s.len() == 0 {
        true
    } else {
        no_plain_in_seq(table, s.drop_last()) && no_plain_slot_args(table, s.last())
    }
}

/// The arguments of a call: none is a plain slot, and none holds one.
pub open spec fn no_plain_in_args(table: Seq<RepModel>, s: Seq<Term>) -> bool
    decreases s,
{
    if s.len() == 0 {
        true
    } else {
        no_plain_in_args(table, s.drop_last()) && not_plain_arg(table, s.last())
            && no_plain_slot_args(table, s.last())
    }
}

/// An argument that is not a plain slot.
pub open spec fn not_plain_arg(table: Seq<RepModel>, t: Term) -> bool {
    !is_plain_slot(table, t)
}

/// Every call `header(a)` of one argument replaced by `a`.
pub open spec fn unwrap_term(header: Seq<char>, t: Term) -> Term
    decreases t,
{
    match t {
        Term::Fun(f, args) => if f == header && args.len() == 1 {
            unwrap_term(header, args[0])
        } else {
            Term::Fun(f, unwrap_seq(header, args))
        },
        Term::Add(xs) => Term::Add(unwrap_seq(header, xs)),
        Term::Mul(xs) => Term::Mul(unwrap_seq(header, xs)),
        Term::Pow(b, x) => Term::Pow(
            Box::new(unwrap_term(header, *b)),
            Box::new(unwrap_term(header, *x)),
        ),
        _ => t,
    }
}

pub open spec fn unwrap_seq(header: Seq<char>, s: Seq<Term>) -> Seq<Term>
    decreases s,
{
    if s.len() == 0 {
        s
    } else {
        unwrap_seq(header, s.drop_last()).push(unwrap_term(header, s.last()))
    }
}

/// Whether no call in the term is named `header`.
pub open spec fn header_free(header: Seq<char>, t: Term) -> bool
    decreases t,
{
    match t {
        Term::Fun(f, args) => f != header && header_free_seq(header, args),
        Term::Add(xs) => header_free_seq(header, xs),
        Term::Mul(xs) => header_free_seq(header, xs),
        Term::Pow(b, x) => header_free(header, *b) && header_free(header, *x),
        _ => true,
    }
}

pub open spec fn header_free_seq(header: Seq<char>, s: Seq<Term>) -> bool
    decreases s,
{
    if s.len() == 0 {
        true
    } else {
        header_free_seq(header, s.drop_last()) && header_free(header, s.last())
    }
}

/// The arguments hold no plain slot exactly when none of them is or holds one.
proof fn lemma_no_plain_args_pointwise(table: Seq<RepModel>, s: Seq<Term>)
    ensures
        no_plain_in_args(table, s) <==> forall|i: int|
            0 <= i < s.len() ==> #[trigger] not_plain_arg(table, s[i]) && no_plain_slot_args(table, s[i]),
    decreases s.len(),
{
    if s.len() > 0 {
        let init = s.drop_last();
        lemma_no_plain_args_pointwise(table, init);
        let last = s.len() - 1;
        assert(s.last() == s[last]);
        if no_plain_in_args(table, s) {
            assert forall|i: int| 0 <= i < s.len() implies #[trigger] not_plain_arg(table, s[i])
                && no_plain_slot_args(table, s[i]) by {
                if i < init.len() {
                    assert(init[i] == s[i]);
                    assert(not_plain_arg(table, init[i]));
                } else {
                    assert(i == last);
                }
            }
        }
        if forall|i: int|
            0 <= i < s.len() ==> #[trigger] not_plain_arg(table, s[i]) && no_plain_slot_args(table, s[i]) {
            assert forall|i: int| 0 <= i < init.len() implies #[trigger] not_plain_arg(table, init[i])
                && no_plain_slot_args(table, init[i]) by {
                assert(init[i] == s[i]);
                assert(not_plain_arg(table, s[i]));
            }
            assert(not_plain_arg(table, s[last]));
        }
    }
}

proof fn lemma_no_plain_args_intro(table: Seq<RepModel>, s: Seq<Term>)
    requires
        forall|i: int|
            0 <= i < s.len() ==> #[trigger] not_plain_arg(table, s[i]) && no_plain_slot_args(table, s[i]),
    ensures
        no_plain_in_args(table, s),
    decreases s.len(),
{
    if s.len() > 0 {
        let init = s.drop_last();
        assert forall|i: int| 0 <= i < init.len() implies #[trigger] not_plain_arg(table, init[i])
            && no_plain_slot_args(table, init[i]) by {
            assert(init[i] == s[i]);
            assert(not_plain_arg(table, s[i]));
        }
        lemma_no_plain_args_intro(table, init);
        assert(not_plain_arg(table, s[s.len() - 1]));
        assert(s.last() == s[s.len() - 1]);
    }
}

proof fn lemma_no_plain_seq_intro(table: Seq<RepModel>, s: Seq<Term>)
    requires
        forall|i: int| 0 <= i < s.len() ==> #[trigger] no_plain_slot_args(table, s[i]),
    ensures
        no_plain_in_seq(table, s),
{
    lemma_unwrap_pointwise(table, Seq::empty(), s);
}

proof fn lemma_unwrap_pointwise(table: Seq<RepModel>, header: Seq<char>, s: Seq<Term>)
    ensures
        unwrap_seq(header, s).len() == s.len(),
        forall|i: int| 0 <= i < s.len() ==> #[trigger] unwrap_seq(header, s)[i] == unwrap_term(header, s[i]),
        header_free_seq(header, s) <==> forall|i: int| 0 <= i < s.len() ==> #[trigger] header_free(header, s[i]),
        no_plain_in_seq(table, s) <==> forall|i: int|
            0 <= i < s.len() ==> #[trigger] no_plain_slot_args(table, s[i]),
    decreases s.len(),
{
    lemma_no_plain_args_pointwise(table, s);
    if s.len() > 0 {
        let init = s.drop_last();
        lemma_unwrap_pointwise(table, header, init);
        assert forall|i: int| 0 <= i < init.len() implies #[trigger] init[i] == s[i] by {}
        let last = s.len() - 1;
        if forall|i: int| 0 <= i < s.len() ==> #[trigger] header_free(header, s[i]) {
            assert forall|i: int| 0 <= i < init.len() implies #[trigger] header_free(header, init[i]) by {
                assert(header_free(header, s[i]));
            }
            assert(header_free(header, s[last]));
        }
        if header_free_seq(header, s) {
            assert forall|i: int| 0 <= i < s.len() implies #[trigger] header_free(header, s[i]) by {
                if i < init.len() {
                    assert(header_free(header, init[i]));
                }
            }
        }
        if forall|i: int| 0 <= i < s.len() ==> #[trigger] no_plain_slot_args(table, s[i]) {
            assert forall|i: int| 0 <= i < init.len() implies #[trigger] no_plain_slot_args(table, init[i]) by {
                assert(no_plain_slot_args(table, s[i]));
            }
            assert(no_plain_slot_args(table, s[last]));
        }
        if no_plain_in_seq(table, s) {
            assert forall|i: int| 0 <= i < s.len() implies #[trigger] no_plain_slot_args(table, s[i]) by {
                if i < init.len() {
                    assert(no_plain_slot_args(table, init[i]));
                }
            }
        }
    }
}

/// After wrapping, every slot that is the argument of a call has a call as
/// its index: no index that is a number or a variable is left. And when no
/// call of the expression is named by the header, replacing each `header(a)`
/// by `a` gives the expression back.
pub proof fn law_wrap_indices_unwraps(table: Seq<RepModel>, header: Seq<char>, t: Term)
    requires
        header_free(header, t),
    ensures
        no_plain_slot_args(table, wrap_term(table, header, t)),
        unwrap_term(header, wrap_term(table, header, t)) == t,
    decreases t, 0nat,
{
    match t {
        Term::Fun(f, args) => {
            lemma_wrap_args_unwraps(table, header, args);
        },
        Term::Add(xs) => {
            lemma_wrap_seq_unwraps(table, header, xs);
        },
        Term::Mul(xs) => {
            lemma_wrap_seq_unwraps(table, header, xs);
        },
        Term::Pow(b, x) => {
            law_wrap_indices_unwraps(table, header, *b);
            law_wrap_indices_unwraps(table, header, *x);
        },
        _ => {},
    }
}

proof fn lemma_wrap_arg_unwraps(table: Seq<RepModel>, header: Seq<char>, x: Term)
    requires
        header_free(header, x),
    ensures
        ({
            let y = wrap_arg(table, header, wrap_term(table, header, x));
            &&& !is_plain_slot(table, y)
            &&& no_plain_slot_args(table, y)
            &&& unwrap_term(header, y) == x
        }),
    decreases x, 1nat,
{
    let y0 = wrap_term(table, header, x);
    law_wrap_indices_unwraps(table, header, x);
    if is_plain_slot(table, y0) {
        let r = x->Fun_0;
        let xargs = x->Fun_1;
        lemma_wrap_seq(table, header, xargs);
        lemma_unwrap_pointwise(table, header, xargs);
        let a = y0->Fun_1;
        assert(a == wrap_args(table, header, xargs));
        assert(header_free(header, xargs[0]));
        lemma_wrap_arg_unwraps(table, header, xargs[0]);
        let hx = Term::Fun(header, seq![a[1]]);
        let y = Term::Fun(r, seq![a[0], hx]);
        assert(wrap_arg(table, header, y0) == y);
        lemma_unwrap_pointwise(table, header, seq![a[1]]);
        assert(a[1] is Num || a[1] is Var);
        assert(not_plain_arg(table, a[1]));
        assert(no_plain_slot_args(table, a[1]));
        assert(seq![a[1]][0] == a[1]);
        lemma_no_plain_args_intro(table, seq![a[1]]);
        assert(no_plain_slot_args(table, hx));
        lemma_unwrap_pointwise(table, header, seq![a[0], hx]);
        assert(not_plain_arg(table, a[0]) && no_plain_slot_args(table, a[0]));
        assert(not_plain_arg(table, hx));
        let ys = seq![a[0], hx];
        assert(not_plain_arg(table, ys[0]) && no_plain_slot_args(table, ys[0]));
        assert(not_plain_arg(table, ys[1]) && no_plain_slot_args(table, ys[1]));
        lemma_no_plain_args_intro(table, ys);
        assert(no_plain_slot_args(table, y));
        lemma_unwrap_pointwise(table, header, a);
        assert(unwrap_term(header, hx) == unwrap_term(header, a[1]));
        assert(unwrap_seq(header, seq![a[0], hx]) =~= unwrap_seq(header, a));
        assert(unwrap_term(header, y) == unwrap_term(header, y0));
    }
}

proof fn lemma_wrap_args_unwraps(table: Seq<RepModel>, header: Seq<char>, s: Seq<Term>)
    requires
        header_free_seq(header, s),
    ensures
        no_plain_in_args(table, wrap_args(table, header, s)),
        unwrap_seq(header, wrap_args(table, header, s)) == s,
    decreases s, 0nat,
{
    let w = wrap_args(table, header, s);
    lemma_wrap_seq(table, header, s);
    lemma_unwrap_pointwise(table, header, s);
    lemma_unwrap_pointwise(table, header, w);
    assert forall|i: int| 0 <= i < s.len() implies #[trigger] not_plain_arg(table, w[i])
        && no_plain_slot_args(table, w[i]) && unwrap_term(header, w[i]) == s[i] by {
        assert(header_free(header, s[i]));
        lemma_wrap_arg_unwraps(table, header, s[i]);
        assert(w[i] == wrap_arg(table, header, wrap_term(table, header, s[i])));
    }
    assert forall|i: int| 0 <= i < s.len() implies #[trigger] unwrap_seq(header, w)[i] == s[i] by {
        assert(not_plain_arg(table, w[i]));
    }
    lemma_no_plain_args_intro(table, w);
    assert(unwrap_seq(header, w) =~= s);
}

proof fn lemma_wrap_seq_unwraps(table: Seq<RepModel>, header: Seq<char>, s: Seq<Term>)
    requires
        header_free_seq(header, s),
    ensures
        no_plain_in_seq(table, wrap_seq(table, header, s)),
        unwrap_seq(header, wrap_seq(table, header, s)) == s,
    decreases s, 0nat,
{
    let w = wrap_seq(table, header, s);
    lemma_wrap_seq(table, header, s);
    lemma_unwrap_pointwise(table, header, s);
    lemma_unwrap_pointwise(table, header, w);
    assert forall|i: int| 0 <= i < s.len() implies #[trigger] no_plain_slot_args(table, w[i])
        && unwrap_term(header, w[i]) == s[i] by {
        assert(header_free(header, s[i]));
        law_wrap_indices_unwraps(table, header, s[i]);
    }
    assert forall|i: int| 0 <= i < s.len() implies #[trigger] unwrap_seq(header, w)[i] == s[i] by {
        assert(no_plain_slot_args(table, w[i]));
    }
    lemma_no_plain_seq_intro(table, w);
    assert(unwrap_seq(header, w) =~= s);
}

pub(crate) proof fn lemma_subst_pointwise(s: Seq<Term>, k: Term, v: Term)
    ensures
        subst_seq(s, k, v).len() == s.len(),
        forall|i: int| 0 <= i < s.len() ==> #[trigger] subst_seq(s, k, v)[i] == subst(s[i], k, v),
    decreases s.len(),
{
    if s.len() > 0 {
        let init = s.drop_last();
        lemma_subst_pointwise(init, k, v);
        assert forall|i: int| 0 <= i < s.len() implies #[trigger] subst_seq(s, k, v)[i] == subst(
            s[i],
            k,
            v,
        ) by {
            if i < init.len() {
                assert(init[i] == s[i]);
            }
        }
    }
}

/// Replacing `k` by a term that unwraps as `k` does leaves the unwrapped term
/// as it was.
proof fn lemma_subst_unwraps(header: Seq<char>, t: Term, k: Term, v: Term)
    requires
        unwrap_term(header, v) == unwrap_term(header, k),
    ensures
        unwrap_term(header, subst(t, k, v)) == unwrap_term(header, t),
    decreases t,
{
    if t != k {
        match t {
            Term::Fun(f, args) => {
                lemma_subst_pointwise(args, k, v);
                if f == header && args.len() == 1 {
                    lemma_subst_unwraps(header, args[0], k, v);
                } else {
                    lemma_subst_seq_unwraps(header, args, k, v);
                }
            },
            Term::Add(xs) => {
                lemma_subst_seq_unwraps(header, xs, k, v);
            },
            Term::Mul(xs) => {
                lemma_subst_seq_unwraps(header, xs, k, v);
            },
            Term::Pow(b, x) => {
                lemma_subst_unwraps(header, *b, k, v);
                lemma_subst_unwraps(header, *x, k, v);
            },
            _ => {},
        }
    }
}

proof fn lemma_subst_seq_unwraps(header: Seq<char>, s: Seq<Term>, k: Term, v: Term)
    requires
        unwrap_term(header, v) == unwrap_term(header, k),
    ensures
        unwrap_seq(header, subst_seq(s, k, v)) == unwrap_seq(header, s),
    decreases s,
{
    let w = subst_seq(s, k, v);
    lemma_subst_pointwise(s, k, v);
    lemma_unwrap_pointwise(Seq::empty(), header, s);
    lemma_unwrap_pointwise(Seq::empty(), header, w);
    assert forall|i: int| 0 <= i < s.len() implies #[trigger] unwrap_seq(header, w)[i]
        == unwrap_seq(header, s)[i] by {
        lemma_subst_unwraps(header, s[i], k, v);
    }
    assert(unwrap_seq(header, w) =~= unwrap_seq(header, s));
}

/// A slot with its index wrapped unwraps as the slot does.
proof fn lemma_wrapped_slot_unwraps(header: Seq<char>, k: Term)
    ensures
        unwrap_term(header, wrapped_slot(k, header)) == unwrap_term(header, k),
{
    match k {
        Term::Fun(r, a) => {
            if a.len() == 2 {
                let h = Term::Fun(header, seq![a[1]]);
                let w = seq![a[0], h];
                lemma_unwrap_pointwise(Seq::empty(), header, a);
                lemma_unwrap_pointwise(Seq::empty(), header, w);
                assert(unwrap_term(header, h) == unwrap_term(header, a[1]));
                assert(unwrap_seq(header, w) =~= unwrap_seq(header, a));
            }
        },
        _ => {},
    }
}

proof fn lemma_wrap_keys_unwraps(header: Seq<char>, t: Term, keys: Seq<Term>)
    ensures
        unwrap_term(header, wrap_keys(t, keys, header)) == unwrap_term(header, t),
    decreases keys.len(),
{
    if keys.len() > 0 {
        let k = keys.last();
        lemma_wrap_keys_unwraps(header, t, keys.drop_last());
        lemma_wrapped_slot_unwraps(header, k);
        lemma_subst_unwraps(header, wrap_keys(t, keys.drop_last(), header), k, wrapped_slot(k, header));
    }
}

/// A term with no call named by the header unwraps to itself.
proof fn lemma_unwrap_free(header: Seq<char>, t: Term)
    requires
        header_free(header, t),
    ensures
        unwrap_term(header, t) == t,
    decreases t,
{
    match t {
        Term::Fun(f, args) => {
            lemma_unwrap_free_seq(header, args);
        },
        Term::Add(xs) => {
            lemma_unwrap_free_seq(header, xs);
        },
        Term::Mul(xs) => {
            lemma_unwrap_free_seq(header, xs);
        },
        Term::Pow(b, x) => {
            lemma_unwrap_free(header, *b);
            lemma_unwrap_free(header, *x);
        },
        _ => {},
    }
}

proof fn lemma_unwrap_free_seq(header: Seq<char>, s: Seq<Term>)
    requires
        header_free_seq(header, s),
    ensures
        unwrap_seq(header, s) == s,
    decreases s,
{
    lemma_unwrap_pointwise(Seq::empty(), header, s);
    assert forall|i: int| 0 <= i < s.len() implies #[trigger] unwrap_seq(header, s)[i] == s[i] by {
        assert(header_free(header, s[i]));
        lemma_unwrap_free(header, s[i]);
    }
    assert(unwrap_seq(header, s) =~= s);
}

/// Wrapping the dummy indices can be undone: replacing each call `header(a)`
/// by `a` in the result gives what the same replacement gives of the
/// expression itself, and so gives the expression back when none of its calls
/// is named by the header.
pub proof fn law_wrap_dummies_unwraps(
    table: Seq<RepModel>,
    t: Term,
    expanded: Term,
    header: Seq<char>,
)
    ensures
        unwrap_term(header, wrap_dummies_spec(table, t, expanded, header)) == unwrap_term(
            header,
            t,
        ),
        header_free(header, t) ==> unwrap_term(header, wrap_dummies_spec(table, t, expanded, header))
            == t,
{
    match first_term(expanded) {
        Some(f) => {
            lemma_wrap_keys_unwraps(header, t, dummies_of(tally(occurrences(table, f, 0, 1))));
        },
        None => {},
    }
    if header_free(header, t) {
        lemma_unwrap_free(header, t);
    }
}

/// Whether `x` stands somewhere in `t`, `t` itself included.
pub open spec fn occurs(x: Term, t: Term) -> bool
    decreases t,
{
    x == t || match t {
        Term::Fun(_, args) => occurs_seq(x, args),
        Term::Add(xs) => occurs_seq(x, xs),
        Term::Mul(xs) => occurs_seq(x, xs),
        Term::Pow(b, e) => occurs(x, *b) || occurs(x, *e),
        _ => false,
    }
}

pub open spec fn occurs_seq(x: Term, s: Seq<Term>) -> bool
    decreases s,
{
    if s.len() == 0 {
        false
    } else {
        occurs_seq(x, s.drop_last()) || occurs(x, s.last())
    }
}

/// The number of nodes of a term.
pub open spec fn term_size(t: Term) -> nat
    decreases t,
{
    match t {
        Term::Fun(_, args) => 1 + size_seq(args),
        Term::Add(xs) => 1 + size_seq(xs),
        Term::Mul(xs) => 1 + size_seq(xs),
        Term::Pow(b, e) => 1 + term_size(*b) + term_size(*e),
        _ => 1,
    }
}

pub open spec fn size_seq(s: Seq<Term>) -> nat
    decreases s,
{
    if s.len() == 0 {
        0
    } else {
        size_seq(s.drop_last()) + term_size(s.last())
    }
}

pub(crate) proof fn lemma_occurs_seq(x: Term, s: Seq<Term>)
    ensures
        occurs_seq(x, s) <==> exists|i: int| 0 <= i < s.len() && #[trigger] occurs(x, s[i]),
        forall|i: int| 0 <= i < s.len() ==> #[trigger] term_size(s[i]) <= size_seq(s),
    decreases s.len(),
{
    if s.len() > 0 {
        let init = s.drop_last();
        let last = s.len() - 1;
        lemma_occurs_seq(x, init);
        assert forall|i: int| 0 <= i < init.len() implies #[trigger] init[i] == s[i] by {}
        if occurs_seq(x, s) {
            if occurs_seq(x, init) {
                let i = choose|i: int| 0 <= i < init.len() && #[trigger] occurs(x, init[i]);
                assert(occurs(x, s[i]));
            } else {
                assert(occurs(x, s[last]));
            }
        }
        if exists|i: int| 0 <= i < s.len() && #[trigger] occurs(x, s[i]) {
            let i = choose|i: int| 0 <= i < s.len() && #[trigger] occurs(x, s[i]);
            if i < last {
                assert(occurs(x, init[i]));
            }
        }
        assert forall|i: int| 0 <= i < s.len() implies #[trigger] term_size(s[i]) <= size_seq(s) by {
            if i < last {
                assert(term_size(init[i]) <= size_seq(init));
            }
        }
    }
}

/// A term that stands in another is no larger than it.
proof fn lemma_occurs_size(x: Term, t: Term)
    requires
        occurs(x, t),
    ensures
        term_size(x) <= term_size(t),
    decreases t,
{
    if x != t {
        match t {
            Term::Fun(_, args) => {
                lemma_occurs_seq(x, args);
                let i = choose|i: int| 0 <= i < args.len() && #[trigger] occurs(x, args[i]);
                lemma_occurs_size(x, args[i]);
            },
            Term::Add(xs) => {
                lemma_occurs_seq(x, xs);
                let i = choose|i: int| 0 <= i < xs.len() && #[trigger] occurs(x, xs[i]);
                lemma_occurs_size(x, xs[i]);
            },
            Term::Mul(xs) => {
                lemma_occurs_seq(x, xs);
                let i = choose|i: int| 0 <= i < xs.len() && #[trigger] occurs(x, xs[i]);
                lemma_occurs_size(x, xs[i]);
            },
            Term::Pow(b, e) => {
                if occurs(x, *b) {
                    lemma_occurs_size(x, *b);
                } else {
                    lemma_occurs_size(x, *e);
                }
            },
            _ => {},
        }
    }
}

/// A slot with no call named by the header does not stand in its own wrapped
/// form, which holds such a call.
proof fn lemma_wrapped_slot_apart(header: Seq<char>, k: Term)
    requires
        k is Fun,
        k->Fun_1.len() == 2,
        header_free(header, k),
    ensures
        !header_free(header, wrapped_slot(k, header)),
        !occurs(k, wrapped_slot(k, header)),
{
    let r = k->Fun_0;
    let a = k->Fun_1;
    let h = Term::Fun(header, seq![a[1]]);
    let ws = seq![a[0], h];
    let w = wrapped_slot(k, header);
    assert(w == Term::Fun(r, ws));
    lemma_unwrap_pointwise(Seq::empty(), header, ws);
    assert(!header_free(header, ws[1]));
    lemma_occurs_seq(k, a);
    lemma_occurs_seq(k, ws);
    lemma_occurs_seq(k, seq![a[1]]);
    assert(size_seq(a) == term_size(a[0]) + term_size(a[1])) by {
        let a1 = a.drop_last();
        assert(a1.drop_last() =~= Seq::<Term>::empty());
        assert(a1.last() == a[0]);
        assert(size_seq(a1.drop_last()) == 0);
        assert(size_seq(a1) == term_size(a[0]));
    }
    if occurs(k, a[0]) {
        lemma_occurs_size(k, a[0]);
    }
    if occurs(k, a[1]) {
        lemma_occurs_size(k, a[1]);
    }
    if occurs(k, h) {
        assert(seq![a[1]][0] == a[1]);
        assert(occurs(k, a[1]));
    }
}

/// Replacing `k` by a term that holds a call named by the header either
/// changes nothing or leaves such a call in the result.
proof fn lemma_subst_marked(header: Seq<char>, s: Term, k: Term, v: Term)
    requires
        !header_free(header, v),
    ensures
        subst(s, k, v) == s || !header_free(header, subst(s, k, v)),
    decreases s,
{
    if s != k {
        match s {
            Term::Fun(f, args) => {
                lemma_subst_seq_marked(header, args, k, v);
            },
            Term::Add(xs) => {
                lemma_subst_seq_marked(header, xs, k, v);
            },
            Term::Mul(xs) => {
                lemma_subst_seq_marked(header, xs, k, v);
            },
            Term::Pow(b, e) => {
                lemma_subst_marked(header, *b, k, v);
                lemma_subst_marked(header, *e, k, v);
            },
            _ => {},
        }
    }
}

proof fn lemma_subst_seq_marked(header: Seq<char>, s: Seq<Term>, k: Term, v: Term)
    requires
        !header_free(header, v),
    ensures
        subst_seq(s, k, v) == s || !header_free_seq(header, subst_seq(s, k, v)),
    decreases s,
{
    let w = subst_seq(s, k, v);
    lemma_subst_pointwise(s, k, v);
    lemma_unwrap_pointwise(Seq::empty(), header, w);
    if exists|i: int| 0 <= i < s.len() && #[trigger] subst(s[i], k, v) != s[i] {
        let i = choose|i: int| 0 <= i < s.len() && #[trigger] subst(s[i], k, v) != s[i];
        lemma_subst_marked(header, s[i], k, v);
        assert(!header_free(header, w[i]));
    } else {
        assert(w =~= s);
    }
}

/// A term with no call named by the header that stands in the result of a
/// replacement by a term with such a call stood before, or stands in what
/// replaced.
proof fn lemma_occurs_subst(header: Seq<char>, x: Term, s: Term, k: Term, v: Term)
    requires
        header_free(header, x),
        !header_free(header, v),
        occurs(x, subst(s, k, v)),
    ensures
        occurs(x, s) || occurs(x, v),
    decreases s,
{
    if s != k {
        let r = subst(s, k, v);
        if x == r {
            lemma_subst_marked(header, s, k, v);
        } else {
            match s {
                Term::Fun(f, args) => {
                    lemma_occurs_seq_subst(header, x, args, k, v);
                },
                Term::Add(xs) => {
                    lemma_occurs_seq_subst(header, x, xs, k, v);
                },
                Term::Mul(xs) => {
                    lemma_occurs_seq_subst(header, x, xs, k, v);
                },
                Term::Pow(b, e) => {
                    if occurs(x, subst(*b, k, v)) {
                        lemma_occurs_subst(header, x, *b, k, v);
                    } else {
                        lemma_occurs_subst(header, x, *e, k, v);
                    }
                },
                _ => {},
            }
        }
    }
}

proof fn lemma_occurs_seq_subst(header: Seq<char>, x: Term, s: Seq<Term>, k: Term, v: Term)
    requires
        header_free(header, x),
        !header_free(header, v),
        occurs_seq(x, subst_seq(s, k, v)),
    ensures
        occurs_seq(x, s) || occurs(x, v),
    decreases s,
{
    let w = subst_seq(s, k, v);
    lemma_subst_pointwise(s, k, v);
    lemma_occurs_seq(x, w);
    lemma_occurs_seq(x, s);
    let i = choose|i: int| 0 <= i < w.len() && #[trigger] occurs(x, w[i]);
    lemma_occurs_subst(header, x, s[i], k, v);
}

/// Replacing `k` by a term that holds a call named by the header, and that
/// `k` does not stand in, leaves no `k`.
proof fn lemma_subst_removes(header: Seq<char>, s: Term, k: Term, v: Term)
    requires
        header_free(header, k),
        !header_free(header, v),
        !occurs(k, v),
    ensures
        !occurs(k, subst(s, k, v)),
    decreases s,
{
    if s != k {
        lemma_subst_marked(header, s, k, v);
        match s {
            Term::Fun(f, args) => {
                lemma_subst_seq_removes(header, args, k, v);
            },
            Term::Add(xs) => {
                lemma_subst_seq_removes(header, xs, k, v);
            },
            Term::Mul(xs) => {
                lemma_subst_seq_removes(header, xs, k, v);
            },
            Term::Pow(b, e) => {
                lemma_subst_removes(header, *b, k, v);
                lemma_subst_removes(header, *e, k, v);
            },
            _ => {},
        }
    }
}

proof fn lemma_subst_seq_removes(header: Seq<char>, s: Seq<Term>, k: Term, v: Term)
    requires
        header_free(header, k),
        !header_free(header, v),
        !occurs(k, v),
    ensures
        !occurs_seq(k, subst_seq(s, k, v)),
    decreases s,
{
    let w = subst_seq(s, k, v);
    lemma_subst_pointwise(s, k, v);
    lemma_occurs_seq(k, w);
    assert forall|i: int| 0 <= i < w.len() implies !#[trigger] occurs(k, w[i]) by {
        lemma_subst_removes(header, s[i], k, v);
    }
}

/// Whether slots can be wrapped one after the other without disturbing each
/// other: none holds a call named by the header, and none stands within the
/// dimension or the index of another.
pub open spec fn keys_apart(keys: Seq<Term>, header: Seq<char>) -> bool {
    &&& forall|j: int| 0 <= j < keys.len() ==> header_free(header, #[trigger] keys[j])
    &&& forall|a: int, b: int|
        0 <= a < keys.len() && 0 <= b < keys.len() && a != b ==> !occurs(
            #[trigger] keys[a],
            wrapped_slot(#[trigger] keys[b], header),
        )
}

proof fn lemma_wrap_keys_removes(header: Seq<char>, t: Term, keys: Seq<Term>)
    requires
        forall|j: int| 0 <= j < keys.len() ==> #[trigger] keys[j] is Fun && keys[j]->Fun_1.len() == 2,
        keys_apart(keys, header),
    ensures
        forall|j: int| 0 <= j < keys.len() ==> !occurs(#[trigger] keys[j], wrap_keys(t, keys, header)),
    decreases keys.len(),
{
    if keys.len() > 0 {
        let n = keys.len() - 1;
        let init = keys.drop_last();
        assert forall|j: int| 0 <= j < init.len() implies #[trigger] init[j] == keys[j] by {}
        assert(keys_apart(init, header)) by {
            assert forall|a: int, b: int|
                0 <= a < init.len() && 0 <= b < init.len() && a != b implies !occurs(
                #[trigger] init[a],
                wrapped_slot(#[trigger] init[b], header),
            ) by {
                assert(init[a] == keys[a] && init[b] == keys[b]);
            }
            assert forall|j: int| 0 <= j < init.len() implies header_free(header, #[trigger] init[j]) by {
                assert(init[j] == keys[j]);
            }
        }
        assert forall|j: int| 0 <= j < init.len() implies #[trigger] init[j] is Fun
            && init[j]->Fun_1.len() == 2 by {
            assert(init[j] == keys[j]);
        }
        lemma_wrap_keys_removes(header, t, init);
        let k = keys[n];
        let wk = wrapped_slot(k, header);
        let before = wrap_keys(t, init, header);
        assert(wrap_keys(t, keys, header) == subst(before, k, wk));
        lemma_wrapped_slot_apart(header, k);
        lemma_subst_removes(header, before, k, wk);
        assert forall|j: int| 0 <= j < keys.len() implies !occurs(
            #[trigger] keys[j],
            wrap_keys(t, keys, header),
        ) by {
            if j < n {
                assert(!occurs(init[j], before));
                assert(!occurs(keys[j], wk));
                if occurs(keys[j], subst(before, k, wk)) {
                    lemma_occurs_subst(header, keys[j], before, k, wk);
                }
            }
        }
    }
}

/// Every contracted index is wrapped wherever it stands: when the contracted
/// indices can be wrapped without disturbing each other (see [`keys_apart`]),
/// none of them is left unwrapped in the result.
pub proof fn law_wrap_dummies_wraps_every_dummy(
    table: Seq<RepModel>,
    t: Term,
    expanded: Term,
    header: Seq<char>,
)
    requires
        first_term(expanded) matches Some(f) ==> keys_apart(
            dummies_of(tally(occurrences(table, f, 0, 1))),
            header,
        ),
    ensures
        first_term(expanded) matches Some(f) ==> forall|j: int|
            0 <= j < dummies_of(tally(occurrences(table, f, 0, 1))).len() ==> !occurs(
                #[trigger] dummies_of(tally(occurrences(table, f, 0, 1)))[j],
                wrap_dummies_spec(table, t, expanded, header),
            ),
{
    match first_term(expanded) {
        Some(f) => {
            let occ = occurrences(table, f, 0, 1);
            let tl = tally(occ);
            let keys = dummies_of(tl);
            lemma_occurrence_slot_keys(table, f, 0, 1);
            lemma_tally_slot_keys(occ);
            lemma_dummies_of(tl);
            assert forall|j: int| 0 <= j < keys.len() implies #[trigger] keys[j] is Fun
                && keys[j]->Fun_1.len() == 2 by {
                let i = choose|i: int|
                    0 <= i < tl.len() && #[trigger] keys[j] == tl[i].0 && tl[i].1 != 1 && tl[i].1
                        != -1;
                assert(tl[i].0 is Fun && tl[i].0->Fun_1.len() == 2);
            }
            lemma_wrap_keys_removes(header, t, keys);
        },
        None => {},
    }
}

} // verus!
