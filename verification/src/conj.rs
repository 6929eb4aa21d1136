//! The physics-aware complex conjugate of an expression.
//!
//! Conjugation follows these rules, everywhere in the expression:
//! - the imaginary unit: `𝑖 -> -𝑖`;
//! - polarization vectors: `eps(p) <-> epsbar(p)`;
//! - spinors: `u(p) <-> ubar(p)`, `v(p) <-> vbar(p)`;
//! - gamma matrices: `gamma(mu, a, b) -> -gamma(mu, b, a)`;
//! - `gamma5(a, b) -> gamma5(b, a)`;
//! - color generators: `t(i, a, b) -> t(i, b, a)`;
//! - color representations: the fundamental and the sextet switch with their
//!   duals, `cof(d, x) <-> dind(cof(d, x))` and likewise for `cos`.
//!
//! A negation `-x` is the product `(-1) * x`; conjugating a negation
//! conjugates `x` and negates the result, cancelling a double negation.
use vstd::prelude::*;
use crate::expr::{Expr, Term, copy_string, lemma_terms_of, lemma_terms_of_push, terms_of, views};
use crate::reps::{dind_name, dind_sym};

verus! {

/// The symbol of the imaginary unit.
pub open spec fn imag_sym() -> Seq<char> {
    "𝑖"@
}

pub open spec fn gamma_sym() -> Seq<char> {
    "gamma"@
}

pub open spec fn gamma5_sym() -> Seq<char> {
    "gamma5"@
}

pub open spec fn generator_sym() -> Seq<char> {
    "t"@
}

/// Whether `f` names a color representation that is not its own dual.
pub open spec fn color_dualizable(f: Seq<char>) -> bool {
    f == "cof"@ || f == "cos"@
}

/// The name of the conjugate of a polarization vector or a spinor; other
/// names stay.
pub open spec fn conj_name(f: Seq<char>) -> Seq<char> {
    if f == "eps"@ {
        "epsbar"@
    } else if f == "epsbar"@ {
        "eps"@
    } else if f == "u"@ {
        "ubar"@
    } else if f == "ubar"@ {
        "u"@
    } else if f == "v"@ {
        "vbar"@
    } else if f == "vbar"@ {
        "v"@
    } else {
        f
    }
}

/// Whether a term is a negation `(-1) * x`.
pub open spec fn is_negation(t: Term) -> bool {
    t matches Term::Mul(xs) && xs.len() == 2 && xs[0] == Term::Num(-1i64)
}

/// The negation of a term: a negation loses its sign, anything else gets one.
pub open spec fn neg_term(z: Term) -> Term {
    if is_negation(z) {
        z->Mul_0[1]
    } else {
        Term::Mul(seq![Term::Num(-1i64), z])
    }
}

/// Whether a term is `dind(rep(...))` for a color representation that is not
/// its own dual.
pub open spec fn is_lowered_color(t: Term) -> bool {
    &&& t matches Term::Fun(f, args)
    &&& f == dind_sym()
    &&& args.len() == 1
    &&& args[0] matches Term::Fun(g, b)
    &&& color_dualizable(g)
}

/// The conjugate of a term.
pub open spec fn conj_term(t: Term) -> Term
    decreases t,
{
    match t {
        Term::Num(n) => t,
        Term::Var(s) => if s == imag_sym() {
            Term::Mul(seq![Term::Num(-1i64), t])
        } else {
            t
        },
        Term::Fun(f, args) => if is_lowered_color(t) {
            Term::Fun(args[0]->Fun_0, conj_seq(args[0]->Fun_1))
        } else {
            let a = conj_seq(args);
            if color_dualizable(f) {
                Term::Fun(dind_sym(), seq![Term::Fun(f, a)])
            } else if f == gamma_sym() && a.len() == 3 {
                Term::Mul(seq![Term::Num(-1i64), Term::Fun(f, seq![a[0], a[2], a[1]])])
            } else if f == gamma5_sym() && a.len() == 2 {
                Term::Fun(f, seq![a[1], a[0]])
            } else if f == generator_sym() && a.len() == 3 {
                Term::Fun(f, seq![a[0], a[2], a[1]])
            } else {
                Term::Fun(conj_name(f), a)
            }
        },
        Term::Add(xs) => Term::Add(conj_seq(xs)),
        Term::Mul(xs) => if xs.len() == 2 && xs[0] == Term::Num(-1i64) {
            neg_term(conj_term(xs[1]))
        } else {
            Term::Mul(conj_seq(xs))
        },
        Term::Pow(b, x) => Term::Pow(Box::new(conj_term(*b)), Box::new(conj_term(*x))),
    }
}

/// The conjugates of a sequence of terms.
pub open spec fn conj_seq(s: Seq<Term>) -> Seq<Term>
    decreases s,
{
    if s.len() == 0 {
        s
    } else {
        conj_seq(s.drop_last()).push(conj_term(s.last()))
    }
}

fn name_of(s: &str) -> (r: String)
    ensures
        r@ == s@,
{
    String::from_str(s)
}

/// The name of the conjugate of a polarization vector or a spinor.
fn conj_name_exec(f: &String) -> (r: String)
    ensures
        r@ == conj_name(f@),
{
    proof {
        reveal_strlit("eps");
        reveal_strlit("epsbar");
        reveal_strlit("u");
        reveal_strlit("ubar");
        reveal_strlit("v");
        reveal_strlit("vbar");
    }
    let eps = name_of("eps");
    let epsbar = name_of("epsbar");
    let u = name_of("u");
    let ubar = name_of("ubar");
    let v = name_of("v");
    let vbar = name_of("vbar");
    if *f == eps {
        epsbar
    } else if *f == epsbar {
        eps
    } else if *f == u {
        ubar
    } else if *f == ubar {
        u
    } else if *f == v {
        vbar
    } else if *f == vbar {
        v
    } else {
        copy_string(f)
    }
}

fn is_color_dualizable(f: &String) -> (r: bool)
    ensures
        r == color_dualizable(f@),
{
    *f == name_of("cof") || *f == name_of("cos")
}

fn minus_one_times(z: Expr) -> (r: Expr)
    ensures
        r@ == Term::Mul(seq![Term::Num(-1i64), z@]),
{
    let v = vec![Expr::Num(-1), z];
    proof {
        lemma_terms_of(v@);
        assert(terms_of(v@) =~= seq![Term::Num(-1i64), z@]);
    }
    Expr::Mul(v)
}

/// The negation of an expression: a negation loses its sign, anything else
/// gets one.
fn neg_exec(z: Expr) -> (r: Expr)
    ensures
        r@ == neg_term(z@),
{
    match z {
        Expr::Mul(mut xs) => {
            proof {
                lemma_terms_of(xs@);
            }
            if xs.len() == 2 && matches!(xs[0], Expr::Num(-1)) {
                let ghost old_xs = xs@;
                let w = xs.pop().unwrap();
                proof {
                    assert(w == old_xs[1]);
                }
                w
            } else {
                minus_one_times(Expr::Mul(xs))
            }
        },
        other => minus_one_times(other),
    }
}

/// Builds `f(args[i0], args[i1], ...)` from three (or two) picked arguments.
fn fun3(f: &String, a: &Vec<Expr>, i: usize, j: usize, k: usize) -> (r: Expr)
    requires
        i < a.len(),
        j < a.len(),
        k < a.len(),
    ensures
        r@ == Term::Fun(f@, seq![views(*a)[i as int], views(*a)[j as int], views(*a)[k as int]]),
{
    proof {
        lemma_terms_of(a@);
    }
    let v = vec![a[i].deep_clone(), a[j].deep_clone(), a[k].deep_clone()];
    proof {
        lemma_terms_of(v@);
        assert(terms_of(v@) =~= seq![views(*a)[i as int], views(*a)[j as int], views(*a)[k as int]]);
    }
    Expr::Fun(copy_string(f), v)
}

fn fun2(f: &String, a: &Vec<Expr>, i: usize, j: usize) -> (r: Expr)
    requires
        i < a.len(),
        j < a.len(),
    ensures
        r@ == Term::Fun(f@, seq![views(*a)[i as int], views(*a)[j as int]]),
{
    proof {
        lemma_terms_of(a@);
    }
    let v = vec![a[i].deep_clone(), a[j].deep_clone()];
    proof {
        lemma_terms_of(v@);
        assert(terms_of(v@) =~= seq![views(*a)[i as int], views(*a)[j as int]]);
    }
    Expr::Fun(copy_string(f), v)
}

/// The physics-aware complex conjugate of an expression (see the module's
/// rules).
pub fn conj_impl(e: &Expr) -> (r: Expr)
    ensures
        r@ == conj_term(e@),
    decreases e,
{
    proof {
        reveal_strlit("gamma");
        reveal_strlit("gamma5");
        reveal_strlit("t");
    }
    match e {
        Expr::Num(n) => Expr::Num(*n),
        Expr::Var(s) => {
            if *s == name_of("𝑖") {
                minus_one_times(Expr::Var(copy_string(s)))
            } else {
                Expr::Var(copy_string(s))
            }
        },
        Expr::Fun(f, args) => {
            proof {
                lemma_terms_of(args@);
            }
            if *f == dind_name() && args.len() == 1 {
                match &args[0] {
                    Expr::Fun(g, b) => {
                        if is_color_dualizable(g) {
                            return Expr::Fun(copy_string(g), conj_all(b));
                        }
                    },
                    _ => {},
                }
            }
            let a = conj_all(args);
            proof {
                lemma_terms_of(a@);
            }
            if is_color_dualizable(f) {
                let inner = vec![Expr::Fun(copy_string(f), a)];
                proof {
                    lemma_terms_of(inner@);
                    assert(terms_of(inner@) =~= seq![terms_of(inner@)[0]]);
                }
                Expr::Fun(dind_name(), inner)
            } else if *f == name_of("gamma") && a.len() == 3 {
                minus_one_times(fun3(f, &a, 0, 2, 1))
            } else if *f == name_of("gamma5") && a.len() == 2 {
                fun2(f, &a, 1, 0)
            } else if *f == name_of("t") && a.len() == 3 {
                fun3(f, &a, 0, 2, 1)
            } else {
                Expr::Fun(conj_name_exec(f), a)
            }
        },
        Expr::Add(xs) => Expr::Add(conj_all(xs)),
        Expr::Mul(xs) => {
            proof {
                lemma_terms_of(xs@);
            }
            if xs.len() == 2 && matches!(xs[0], Expr::Num(-1)) {
                neg_exec(conj_impl(&xs[1]))
            } else {
                Expr::Mul(conj_all(xs))
            }
        },
        Expr::Pow(b, x) => {
            let b2 = conj_impl(b);
            let x2 = conj_impl(x);
            Expr::Pow(Box::new(b2), Box::new(x2))
        },
    }
}

fn conj_all(xs: &Vec<Expr>) -> (r: Vec<Expr>)
    ensures
        views(r) == conj_seq(views(*xs)),
    decreases xs,
{
    let mut r: Vec<Expr> = Vec::new();
    let mut i: usize = 0;
    proof {
        lemma_terms_of(xs@);
        assert(terms_of(xs@).take(0) =~= Seq::<Term>::empty());
        assert(terms_of(r@) =~= Seq::<Term>::empty());
    }
    while i < xs.len()
        invariant
            i <= xs.len(),
            terms_of(xs@).len() == xs.len(),
            forall|j: int| 0 <= j < xs.len() ==> terms_of(xs@)[j] == #[trigger] xs@[j]@,
            terms_of(r@) == conj_seq(terms_of(xs@).take(i as int)),
        decreases xs.len() - i,
    {
        let c = conj_impl(&xs[i]);
        proof {
            lemma_terms_of_push(r@, c);
            assert(terms_of(xs@).take(i + 1).drop_last() =~= terms_of(xs@).take(i as int));
        }
        r.push(c);
        i = i + 1;
    }
    proof {
        assert(terms_of(xs@).take(xs.len() as int) =~= terms_of(xs@));
    }
    r
}

/// Whether a term is `dind(dind(rep(...)))` for a color representation that
/// is not its own dual: the lowered form of an index that is lowered already.
pub open spec fn is_double_lowered(t: Term) -> bool {
    &&& t matches Term::Fun(f, args)
    &&& f == dind_sym()
    &&& args.len() == 1
    &&& is_lowered_color(args[0])
}

/// Whether a term is in the form that conjugation maps back and forth: it
/// holds no negation of a negation, `(-1) * ((-1) * x)`, and no lowered form
/// of a lowered color index, `dind(dind(cof(d, x)))`. Conjugation cancels the
/// one and raises the other, so that twice conjugated they come back shorter.
pub open spec fn conj_normal(t: Term) -> bool
    decreases t,
{
    match t {
        Term::Fun(f, args) => !is_double_lowered(t) && all_conj_normal(args),
        Term::Add(xs) => all_conj_normal(xs),
        Term::Mul(xs) => !(is_negation(t) && is_negation(xs[1])) && all_conj_normal(xs),
        Term::Pow(b, x) => conj_normal(*b) && conj_normal(*x),
        _ => true,
    }
}

pub open spec fn all_conj_normal(s: Seq<Term>) -> bool
    decreases s,
{
    if s.len() == 0 {
        true
    } else {
        all_conj_normal(s.drop_last()) && conj_normal(s.last())
    }
}

proof fn lemma_conj_seq(s: Seq<Term>)
    ensures
        conj_seq(s).len() == s.len(),
        forall|i: int| 0 <= i < s.len() ==> #[trigger] conj_seq(s)[i] == conj_term(s[i]),
        all_conj_normal(s) <==> forall|i: int| 0 <= i < s.len() ==> #[trigger] conj_normal(s[i]),
    decreases s.len(),
{
    if s.len() > 0 {
        let init = s.drop_last();
        lemma_conj_seq(init);
        assert forall|i: int| 0 <= i < init.len() implies #[trigger] init[i] == s[i] by {}
        if forall|i: int| 0 <= i < s.len() ==> #[trigger] conj_normal(s[i]) {
            assert forall|i: int| 0 <= i < init.len() implies #[trigger] conj_normal(init[i]) by {
                assert(conj_normal(s[i]));
            }
            assert(conj_normal(s[s.len() - 1]));
        }
        if all_conj_normal(s) {
            assert forall|i: int| 0 <= i < s.len() implies #[trigger] conj_normal(s[i]) by {
                if i < init.len() {
                    assert(conj_normal(init[i]));
                }
            }
        }
    }
}

/// The names that conjugation exchanges differ from the names it treats
/// otherwise, and from one another.
proof fn lemma_conj_names(f: Seq<char>)
    ensures
        conj_name(conj_name(f)) == f,
        conj_name(f) == dind_sym() <==> f == dind_sym(),
        color_dualizable(conj_name(f)) <==> color_dualizable(f),
        conj_name(f) == gamma_sym() <==> f == gamma_sym(),
        conj_name(f) == gamma5_sym() <==> f == gamma5_sym(),
        conj_name(f) == generator_sym() <==> f == generator_sym(),
        !color_dualizable(dind_sym()),
        !color_dualizable(gamma_sym()),
        !color_dualizable(gamma5_sym()),
        !color_dualizable(generator_sym()),
        dind_sym() != gamma_sym(),
        dind_sym() != gamma5_sym(),
        dind_sym() != generator_sym(),
{
    reveal_strlit("eps");
    reveal_strlit("epsbar");
    reveal_strlit("u");
    reveal_strlit("ubar");
    reveal_strlit("v");
    reveal_strlit("vbar");
    reveal_strlit("dind");
    reveal_strlit("cof");
    reveal_strlit("cos");
    reveal_strlit("gamma");
    reveal_strlit("gamma5");
    reveal_strlit("t");
    assert("eps"@[0] != "cof"@[0]);
    assert("eps"@[0] != "cos"@[0]);
    assert("epsbar"@[0] != "gamma5"@[0]);
    assert("u"@[0] != "v"@[0]);
    assert("u"@[0] != "t"@[0]);
    assert("v"@[0] != "t"@[0]);
    assert("ubar"@[0] != "vbar"@[0]);
    assert("ubar"@[0] != "dind"@[0]);
    assert("vbar"@[0] != "dind"@[0]);
}

/// Conjugating twice gives back the expression, for every expression without
/// a negation of a negation or a lowered form of a lowered color index (see
/// [`conj_normal`]; on those two it does not: conjugating `(-1) * ((-1) * x)`
/// twice gives `x`); and conjugation keeps that form.
pub proof fn law_conj_involution(t: Term)
    requires
        conj_normal(t),
    ensures
        conj_normal(conj_term(t)),
        conj_term(conj_term(t)) == t,
    decreases t, 1nat,
{
    match t {
        Term::Num(n) => {},
        Term::Var(s) => {
            if s == imag_sym() {
                let z = conj_term(t);
                lemma_conj_seq(seq![Term::Num(-1i64), t]);
                assert(z == Term::Mul(seq![Term::Num(-1i64), t]));
                assert(conj_normal(z));
                assert(conj_term(z) == neg_term(conj_term(t)));
            }
        },
        Term::Fun(f, args) => {
            lemma_conj_inv_fun(t);
        },
        Term::Add(xs) => {
            law_conj_seq_involution(xs);
        },
        Term::Mul(xs) => {
            lemma_conj_inv_mul(t);
        },
        Term::Pow(b, x) => {
            law_conj_involution(*b);
            law_conj_involution(*x);
        },
    }
}

proof fn lemma_conj_inv_fun(t: Term)
    requires
        t is Fun,
        conj_normal(t),
    ensures
        conj_normal(conj_term(t)),
        conj_term(conj_term(t)) == t,
    decreases t, 0nat,
{
    let f = t->Fun_0;
    let args = t->Fun_1;
    lemma_conj_seq(args);
    lemma_conj_names(f);
    if is_lowered_color(t) {
        let g = args[0]->Fun_0;
        let b = args[0]->Fun_1;
        assert(conj_normal(args[0]));
        law_conj_seq_involution(b);
        lemma_conj_seq(b);
        lemma_conj_seq(conj_seq(b));
        let z = conj_term(t);
        assert(z == Term::Fun(g, conj_seq(b)));
        lemma_conj_names(g);
        assert(conj_term(z) == Term::Fun(dind_sym(), seq![Term::Fun(g, b)]));
        assert(seq![Term::Fun(g, b)] =~= args);
    } else {
        law_conj_seq_involution(args);
        let a = conj_seq(args);
        lemma_conj_seq(a);
        let z = conj_term(t);
        if color_dualizable(f) {
            let w = Term::Fun(f, a);
            assert(z == Term::Fun(dind_sym(), seq![w]));
            lemma_conj_seq(seq![w]);
            assert(conj_normal(w));
            assert(conj_normal(seq![w][0]));
            assert(conj_normal(z));
            assert(is_lowered_color(z));
            assert(conj_term(z) == Term::Fun(f, conj_seq(a)));
        } else if f == gamma_sym() && a.len() == 3 {
            let p = seq![a[0], a[2], a[1]];
            let w = Term::Fun(f, p);
            assert(z == Term::Mul(seq![Term::Num(-1i64), w]));
            lemma_conj_seq(p);
            lemma_conj_seq(seq![Term::Num(-1i64), w]);
            assert(conj_normal(w));
            assert(conj_normal(seq![Term::Num(-1i64), w][0]));
            assert(conj_normal(seq![Term::Num(-1i64), w][1]));
            assert(!is_negation(w));
            assert(conj_normal(z));
            assert(conj_seq(p) =~= seq![args[0], args[2], args[1]]);
            let q = seq![conj_seq(p)[0], conj_seq(p)[2], conj_seq(p)[1]];
            assert(q =~= args);
            assert(conj_term(w) == Term::Mul(seq![Term::Num(-1i64), Term::Fun(f, q)]));
            assert(conj_term(z) == neg_term(conj_term(w)));
        } else if f == gamma5_sym() && a.len() == 2 {
            let p = seq![a[1], a[0]];
            assert(z == Term::Fun(f, p));
            lemma_conj_seq(p);
            assert(conj_seq(p) =~= seq![args[1], args[0]]);
            assert(seq![conj_seq(p)[1], conj_seq(p)[0]] =~= args);
        } else if f == generator_sym() && a.len() == 3 {
            let p = seq![a[0], a[2], a[1]];
            assert(z == Term::Fun(f, p));
            lemma_conj_seq(p);
            assert(conj_seq(p) =~= seq![args[0], args[2], args[1]]);
            assert(seq![conj_seq(p)[0], conj_seq(p)[2], conj_seq(p)[1]] =~= args);
        } else {
            assert(z == Term::Fun(conj_name(f), a));
            if f == dind_sym() && a.len() == 1 {
                law_conj_involution(args[0]);
                let c = a[0];
                assert(c == conj_term(args[0]));
                if c is Fun {
                    let g = c->Fun_0;
                    let cb = c->Fun_1;
                    lemma_conj_names(g);
                    lemma_conj_seq(cb);
                    if is_lowered_color(c) {
                        // the argument would be a color representation, and `t` lowered
                        let h = cb[0]->Fun_0;
                        lemma_conj_names(h);
                        assert(conj_term(c) == Term::Fun(h, conj_seq(cb[0]->Fun_1)));
                        assert(args[0] == conj_term(c));
                        assert(is_lowered_color(t));
                    } else if color_dualizable(g) {
                        // the argument would be a lowered color index, and `t` double lowered
                        assert(conj_term(c) == Term::Fun(dind_sym(), seq![Term::Fun(g, conj_seq(cb))]));
                        assert(args[0] == conj_term(c));
                        assert(is_lowered_color(args[0]));
                        assert(is_double_lowered(t));
                    }
                }
                assert(!is_lowered_color(z));
                assert(!is_double_lowered(z));
            }
            assert(!is_lowered_color(z));
            assert(conj_normal(z));
            assert(conj_term(z) == Term::Fun(conj_name(conj_name(f)), conj_seq(a)));
        }
    }
}

proof fn lemma_conj_inv_mul(t: Term)
    requires
        t is Mul,
        conj_normal(t),
    ensures
        conj_normal(conj_term(t)),
        conj_term(conj_term(t)) == t,
    decreases t, 0nat,
{
    let xs = t->Mul_0;
    lemma_conj_seq(xs);
    if xs.len() == 2 && xs[0] == Term::Num(-1i64) {
        let w = xs[1];
        assert(conj_normal(w));
        assert(!is_negation(w));
        law_conj_involution(w);
        let z = conj_term(w);
        assert(conj_term(t) == neg_term(z));
        if is_negation(z) {
            let ys = z->Mul_0;
            let zp = ys[1];
            lemma_conj_seq(ys);
            assert(conj_normal(zp));
            assert(conj_term(t) == zp);
            assert(conj_term(z) == neg_term(conj_term(zp)));
            if is_negation(conj_term(zp)) {
                let us = conj_term(zp)->Mul_0;
                assert(us[1] == w);
                assert(us =~= xs);
            } else {
                assert(w == Term::Mul(seq![Term::Num(-1i64), conj_term(zp)]));
                assert(is_negation(w));
            }
        } else {
            let m = seq![Term::Num(-1i64), z];
            lemma_conj_seq(m);
            assert(conj_normal(m[0]));
            assert(conj_normal(m[1]));
            assert(conj_term(t) == Term::Mul(m));
            assert(conj_normal(Term::Mul(m)));
            assert(conj_term(Term::Mul(m)) == neg_term(w));
            assert(m.len() == 2);
            assert(seq![Term::Num(-1i64), w] =~= xs);
        }
    } else {
        law_conj_seq_involution(xs);
        let c = conj_seq(xs);
        lemma_conj_seq(c);
        if c.len() == 2 && c[0] == Term::Num(-1i64) {
            assert(conj_seq(c)[0] == conj_term(c[0]));
            assert(xs[0] == Term::Num(-1i64));
        }
        assert(conj_term(t) == Term::Mul(c));
        assert(conj_term(Term::Mul(c)) == Term::Mul(conj_seq(c)));
    }
}

/// Conjugating a sequence twice gives it back (see [`law_conj_involution`]).
pub proof fn law_conj_seq_involution(s: Seq<Term>)
    requires
        all_conj_normal(s),
    ensures
        all_conj_normal(conj_seq(s)),
        conj_seq(conj_seq(s)) == s,
    decreases s, 1nat,
{
    lemma_conj_seq(s);
    lemma_conj_seq(conj_seq(s));
    assert forall|i: int| 0 <= i < s.len() implies conj_normal(#[trigger] conj_seq(s)[i])
        && conj_seq(conj_seq(s))[i] == s[i] by {
        law_conj_involution(s[i]);
    }
    assert(conj_seq(conj_seq(s)) =~= s);
}

} // verus!
