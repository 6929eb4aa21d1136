//! The rewriting rules of the algebraic simplifications, as data.
//!
//! A rule rewrites what matches its left-hand side into its right-hand side.
//! Names that end in `_` are wildcards: `x_` matches one expression, `x__`
//! one or more and `x___` zero or more; a function whose name is a wildcard
//! matches any function. The wildcards listed as atomic only match a number
//! or a variable. Products, powers, sums and quotients are written with
//! [`Term::Mul`], [`Term::Pow`] and [`Term::Add`]: `a - b` is `a + (-1) b`
//! and `a / b` is `a b^(-1)`.
//!
//! The metric and dot-product rules are made for each representation of the
//! table: first for the self-dual ones, then for those with an inline metric,
//! then for the dualizable ones, each group in the order of the table.
use vstd::prelude::*;
use crate::expr::{Expr, Term, lemma_terms_of, terms_of, views};
use crate::reps::{LibraryRep, RepModel, RepOrientation, dind_sym, dual_rep, rep_symbolic};
use crate::representations::{RepTable, rep_views};
use crate::tooling::{lemma_occurs_seq, lemma_subst_pointwise, occurs, subst, subst_seq};

verus! {

/// A rewriting rule.
#[derive(Debug)]
pub struct Rule {
    pub lhs: Expr,
    pub rhs: Expr,
    /// The wildcards that only match a number or a variable.
    pub atomic: Vec<String>,
}

pub struct RuleModel {
    pub lhs: Term,
    pub rhs: Term,
    pub atomic: Seq<Seq<char>>,
}

impl View for Rule {
    type V = RuleModel;

    open spec fn view(&self) -> RuleModel {
        RuleModel { lhs: self.lhs@, rhs: self.rhs@, atomic: self.atomic@.map_values(|s: String| s@) }
    }
}

pub open spec fn rules_view(v: Seq<Rule>) -> Seq<RuleModel> {
    v.map_values(|r: Rule| r@)
}

/// A rule without atomic wildcards.
pub open spec fn rule(lhs: Term, rhs: Term) -> RuleModel {
    RuleModel { lhs, rhs, atomic: Seq::empty() }
}

/// A wildcard, or any symbol, as a term.
pub open spec fn wc(name: Seq<char>) -> Term {
    Term::Var(name)
}

pub open spec fn call(f: Seq<char>, args: Seq<Term>) -> Term {
    Term::Fun(f, args)
}

pub open spec fn square(t: Term) -> Term {
    Term::Pow(Box::new(t), Box::new(Term::Num(2i64)))
}

/// `a - b`.
pub open spec fn minus(a: Term, b: Term) -> Term {
    Term::Add(seq![a, Term::Mul(seq![Term::Num(-1i64), b])])
}

/// `a / b`.
pub open spec fn over(a: Term, b: Term) -> Term {
    Term::Mul(seq![a, Term::Pow(Box::new(b), Box::new(Term::Num(-1i64)))])
}

// Executable builders, each with the term it builds.
fn var(name: &str) -> (r: Expr)
    ensures
        r@ == wc(name@),
{
    Expr::Var(String::from_str(name))
}

fn v1(a: Expr) -> (r: Vec<Expr>)
    ensures
        views(r) == seq![a@],
{
    let v = vec![a];
    proof {
        lemma_terms_of(v@);
        assert(terms_of(v@) =~= seq![a@]);
    }
    v
}

fn v2(a: Expr, b: Expr) -> (r: Vec<Expr>)
    ensures
        views(r) == seq![a@, b@],
{
    let v = vec![a, b];
    proof {
        lemma_terms_of(v@);
        assert(terms_of(v@) =~= seq![a@, b@]);
    }
    v
}

fn v3(a: Expr, b: Expr, c: Expr) -> (r: Vec<Expr>)
    ensures
        views(r) == seq![a@, b@, c@],
{
    let v = vec![a, b, c];
    proof {
        lemma_terms_of(v@);
        assert(terms_of(v@) =~= seq![a@, b@, c@]);
    }
    v
}

fn v4(a: Expr, b: Expr, c: Expr, d: Expr) -> (r: Vec<Expr>)
    ensures
        views(r) == seq![a@, b@, c@, d@],
{
    let v = vec![a, b, c, d];
    proof {
        lemma_terms_of(v@);
        assert(terms_of(v@) =~= seq![a@, b@, c@, d@]);
    }
    v
}

fn v6(a: Expr, b: Expr, c: Expr, d: Expr, e: Expr, f: Expr) -> (r: Vec<Expr>)
    ensures
        views(r) == seq![a@, b@, c@, d@, e@, f@],
{
    let v = vec![a, b, c, d, e, f];
    proof {
        lemma_terms_of(v@);
        assert(terms_of(v@) =~= seq![a@, b@, c@, d@, e@, f@]);
    }
    v
}

fn fun(f: &str, args: Vec<Expr>) -> (r: Expr)
    ensures
        r@ == call(f@, views(args)),
{
    Expr::Fun(String::from_str(f), args)
}

fn times(a: Expr, b: Expr) -> (r: Expr)
    ensures
        r@ == Term::Mul(seq![a@, b@]),
{
    Expr::Mul(v2(a, b))
}

fn mul3(a: Expr, b: Expr, c: Expr) -> (r: Expr)
    ensures
        r@ == Term::Mul(seq![a@, b@, c@]),
{
    Expr::Mul(v3(a, b, c))
}

fn sq(a: Expr) -> (r: Expr)
    ensures
        r@ == square(a@),
{
    let two = Expr::Num(2);
    assert(two@ == Term::Num(2i64));
    let r = Expr::Pow(Box::new(a), Box::new(two));
    assert(r@ == Term::Pow(Box::new(a@), Box::new(two@)));
    r
}

fn minus_e(a: Expr, b: Expr) -> (r: Expr)
    ensures
        r@ == minus(a@, b@),
{
    Expr::Add(v2(a, times(Expr::Num(-1), b)))
}

fn over_e(a: Expr, b: Expr) -> (r: Expr)
    ensures
        r@ == over(a@, b@),
{
    let m = Expr::Num(-1);
    assert(m@ == Term::Num(-1i64));
    let p = Expr::Pow(Box::new(b), Box::new(m));
    assert(p@ == Term::Pow(Box::new(b@), Box::new(m@)));
    times(a, p)
}

fn plain(lhs: Expr, rhs: Expr) -> (r: Rule)
    ensures
        r@ == rule(lhs@, rhs@),
{
    let r = Rule { lhs, rhs, atomic: Vec::new() };
    assert(r@.atomic =~= Seq::<Seq<char>>::empty());
    r
}

/// A slot of a representation with the given arguments.
fn slot(r: &LibraryRep, args: Vec<Expr>) -> (e: Expr)
    ensures
        e@ == rep_symbolic(r@, views(args)),
{
    r.to_symbolic(args)
}

/// Appends a rule to a list of rules.
fn add_rule(rules: &mut Vec<Rule>, r: Rule)
    ensures
        rules_view(final(rules)@) == rules_view(old(rules)@).push(r@),
{
    let ghost before = rules@;
    rules.push(r);
    assert(rules_view(rules@) =~= rules_view(before).push(r@));
}

// ---------------------------------------------------------------------------
// Metric rules.

/// The metric and identity rules of a self-dual representation `r`: an
/// identity or a metric contracted with any tensor renames the tensor's index,
/// the square of a metric and the trace of a metric or an identity give the
/// dimension.
pub open spec fn metric_rules_self_dual(r: RepModel) -> Seq<RuleModel> {
    let ra = rep_symbolic(r, seq![wc("a__"@)]);
    let ri = rep_symbolic(r, seq![wc("i__"@)]);
    let fi = call("f_"@, seq![wc("a___"@), ri, wc("b___"@)]);
    let fa = call("f_"@, seq![wc("a___"@), ra, wc("b___"@)]);
    let di = rep_symbolic(r, seq![wc("d_"@), wc("i_"@)]);
    let da = rep_symbolic(r, seq![wc("d_"@), wc("a_"@)]);
    seq![
        rule(Term::Mul(seq![call("id"@, seq![ra, ri]), fi]), fa),
        rule(Term::Mul(seq![call("g"@, seq![ra, ri]), fi]), fa),
        rule(square(call("g"@, seq![di, da])), wc("d_"@)),
        rule(call("g"@, seq![di, di]), wc("d_"@)),
        rule(square(call("id"@, seq![di, di])), wc("d_"@)),
    ]
}

/// The metric and identity rules of a dualizable representation `r`, whose
/// dual is `dual_rep(r)`: contractions of an identity or a metric with a
/// tensor, the square of an identity, the trace of a metric, and two metrics
/// lowering and raising an index into an identity.
pub open spec fn metric_rules_dualizable(r: RepModel) -> Seq<RuleModel> {
    let d = dual_rep(r);
    let ra = rep_symbolic(r, seq![wc("a__"@)]);
    let ri = rep_symbolic(r, seq![wc("i__"@)]);
    let rb = rep_symbolic(r, seq![wc("b__"@)]);
    let da = rep_symbolic(d, seq![wc("a__"@)]);
    let di = rep_symbolic(d, seq![wc("i__"@)]);
    let f_ri = call("f_"@, seq![wc("a___"@), ri, wc("b___"@)]);
    let f_ra = call("f_"@, seq![wc("a___"@), ra, wc("b___"@)]);
    let f_di = call("f_"@, seq![wc("a___"@), di, wc("b___"@)]);
    let f_da = call("f_"@, seq![wc("a___"@), da, wc("b___"@)]);
    let r_di = rep_symbolic(r, seq![wc("d_"@), wc("i_"@)]);
    let d_da = rep_symbolic(d, seq![wc("d_"@), wc("a_"@)]);
    let d_di = rep_symbolic(d, seq![wc("d_"@), wc("i_"@)]);
    seq![
        rule(Term::Mul(seq![call("id"@, seq![ra, di]), f_ri]), f_ra),
        rule(square(call("id"@, seq![r_di, d_da])), wc("d_"@)),
        rule(call("g"@, seq![r_di, d_di]), wc("d_"@)),
        rule(Term::Mul(seq![call("id"@, seq![da, ri]), f_di]), f_da),
        rule(Term::Mul(seq![call("g"@, seq![ra, ri]), f_di]), f_ra),
        rule(Term::Mul(seq![call("g"@, seq![da, di]), f_ri]), f_da),
        rule(
            Term::Mul(seq![call("g"@, seq![da, di]), call("g"@, seq![ri, rb])]),
            call("id"@, seq![da, rb]),
        ),
    ]
}

/// Which family of rules is made for a representation.
#[derive(Debug)]
pub enum RuleFamily {
    MetricSelfDual,
    MetricDualizable,
    DotsSelfDual,
    DotsDualizable,
}

pub open spec fn family_rules(fam: RuleFamily, r: RepModel) -> Seq<RuleModel> {
    match fam {
        RuleFamily::MetricSelfDual => metric_rules_self_dual(r),
        RuleFamily::MetricDualizable => metric_rules_dualizable(r),
        RuleFamily::DotsSelfDual => dots_rules_self_dual(r),
        RuleFamily::DotsDualizable => dots_rules_dualizable(r),
    }
}

/// The rules of a family for each representation of the table with the given
/// orientation, in the order of the table.
pub open spec fn per_rep(t: Seq<RepModel>, o: RepOrientation, fam: RuleFamily) -> Seq<RuleModel>
    decreases t.len(),
{
    if t.len() == 0 {
        Seq::empty()
    } else {
        per_rep(t.drop_last(), o, fam) + if t.last().orientation == o {
            family_rules(fam, t.last())
        } else {
            Seq::empty()
        }
    }
}

/// The metric rules of a table.
pub open spec fn metric_rules_spec(t: Seq<RepModel>) -> Seq<RuleModel> {
    per_rep(t, RepOrientation::SelfDual, RuleFamily::MetricSelfDual) + per_rep(
        t,
        RepOrientation::InlineMetric,
        RuleFamily::MetricSelfDual,
    ) + per_rep(t, RepOrientation::Up, RuleFamily::MetricDualizable)
}

fn metric_self_dual_exec(r: &LibraryRep, rules: &mut Vec<Rule>)
    ensures
        rules_view(final(rules)@) == rules_view(old(rules)@) + metric_rules_self_dual(r@),
{
    let ghost start = rules_view(rules@);
    let f_i = fun(
        "f_",
        v3(var("a___"), slot(r, v1(var("i__"))), var("b___")),
    );
    let f_a = fun(
        "f_",
        v3(var("a___"), slot(r, v1(var("a__"))), var("b___")),
    );
    add_rule(
        rules,
        plain(
            times(fun("id", v2(slot(r, v1(var("a__"))), slot(r, v1(var("i__"))))), f_i),
            f_a,
        ),
    );
    let f_i = fun(
        "f_",
        v3(var("a___"), slot(r, v1(var("i__"))), var("b___")),
    );
    let f_a = fun(
        "f_",
        v3(var("a___"), slot(r, v1(var("a__"))), var("b___")),
    );
    add_rule(
        rules,
        plain(
            times(fun("g", v2(slot(r, v1(var("a__"))), slot(r, v1(var("i__"))))), f_i),
            f_a,
        ),
    );
    add_rule(
        rules,
        plain(
            sq(
                fun(
                    "g",
                    v2(slot(r, v2(var("d_"), var("i_"))), slot(r, v2(var("d_"), var("a_")))),
                ),
            ),
            var("d_"),
        ),
    );
    add_rule(
        rules,
        plain(
            fun("g", v2(slot(r, v2(var("d_"), var("i_"))), slot(r, v2(var("d_"), var("i_"))))),
            var("d_"),
        ),
    );
    add_rule(
        rules,
        plain(
            sq(
                fun(
                    "id",
                    v2(slot(r, v2(var("d_"), var("i_"))), slot(r, v2(var("d_"), var("i_")))),
                ),
            ),
            var("d_"),
        ),
    );
    assert(rules_view(rules@) =~= start + metric_rules_self_dual(r@));
}

fn metric_dualizable_exec(r: &LibraryRep, rules: &mut Vec<Rule>)
    ensures
        rules_view(final(rules)@) == rules_view(old(rules)@) + metric_rules_dualizable(r@),
{
    let ghost start = rules_view(rules@);
    let d = r.dual();
    add_rule(
        rules,
        plain(
            times(
                fun("id", v2(slot(r, v1(var("a__"))), slot(&d, v1(var("i__"))))),
                fun("f_", v3(var("a___"), slot(r, v1(var("i__"))), var("b___"))),
            ),
            fun("f_", v3(var("a___"), slot(r, v1(var("a__"))), var("b___"))),
        ),
    );
    add_rule(
        rules,
        plain(
            sq(
                fun(
                    "id",
                    v2(slot(r, v2(var("d_"), var("i_"))), slot(&d, v2(var("d_"), var("a_")))),
                ),
            ),
            var("d_"),
        ),
    );
    add_rule(
        rules,
        plain(
            fun("g", v2(slot(r, v2(var("d_"), var("i_"))), slot(&d, v2(var("d_"), var("i_"))))),
            var("d_"),
        ),
    );
    add_rule(
        rules,
        plain(
            times(
                fun("id", v2(slot(&d, v1(var("a__"))), slot(r, v1(var("i__"))))),
                fun("f_", v3(var("a___"), slot(&d, v1(var("i__"))), var("b___"))),
            ),
            fun("f_", v3(var("a___"), slot(&d, v1(var("a__"))), var("b___"))),
        ),
    );
    add_rule(
        rules,
        plain(
            times(
                fun("g", v2(slot(r, v1(var("a__"))), slot(r, v1(var("i__"))))),
                fun("f_", v3(var("a___"), slot(&d, v1(var("i__"))), var("b___"))),
            ),
            fun("f_", v3(var("a___"), slot(r, v1(var("a__"))), var("b___"))),
        ),
    );
    add_rule(
        rules,
        plain(
            times(
                fun("g", v2(slot(&d, v1(var("a__"))), slot(&d, v1(var("i__"))))),
                fun("f_", v3(var("a___"), slot(r, v1(var("i__"))), var("b___"))),
            ),
            fun("f_", v3(var("a___"), slot(&d, v1(var("a__"))), var("b___"))),
        ),
    );
    add_rule(
        rules,
        plain(
            times(
                fun("g", v2(slot(&d, v1(var("a__"))), slot(&d, v1(var("i__"))))),
                fun("g", v2(slot(r, v1(var("i__"))), slot(r, v1(var("b__"))))),
            ),
            fun("id", v2(slot(&d, v1(var("a__"))), slot(r, v1(var("b__"))))),
        ),
    );
    assert(rules_view(rules@) =~= start + metric_rules_dualizable(r@));
}

// ---------------------------------------------------------------------------
// Dot-product rules.

/// A rule whose listed wildcards only match numbers or variables.
pub open spec fn atomic_rule(lhs: Term, rhs: Term, atomic: Seq<Seq<char>>) -> RuleModel {
    RuleModel { lhs, rhs, atomic }
}

/// The dot-product rules of a self-dual representation `r`: two vectors, or a
/// vector with itself, contracted over an index of `r` become `dot(f, g)`;
/// a vector `f(x, index)` with a further argument `x` becomes `f(x)` in it.
pub open spec fn dots_rules_self_dual(r: RepModel) -> Seq<RuleModel> {
    let ii = rep_symbolic(r, seq![wc("i__"@)]);
    let fx = call("f_"@, seq![wc("x_"@)]);
    let gy = call("g_"@, seq![wc("y_"@)]);
    seq![
        rule(
            Term::Mul(seq![call("f_"@, seq![ii]), call("g_"@, seq![ii])]),
            call("dot"@, seq![wc("f_"@), wc("g_"@)]),
        ),
        atomic_rule(
            square(call("f_"@, seq![ii])),
            call("dot"@, seq![wc("f_"@), wc("f_"@)]),
            seq!["x_"@],
        ),
        atomic_rule(
            Term::Mul(
                seq![call("f_"@, seq![wc("x_"@), ii]), call("g_"@, seq![wc("y_"@), ii])],
            ),
            call("dot"@, seq![fx, gy]),
            seq!["x_"@, "y_"@],
        ),
        atomic_rule(
            square(call("f_"@, seq![wc("x_"@), ii])),
            call("dot"@, seq![fx, fx]),
            seq!["x_"@],
        ),
    ]
}

/// The dot-product rule of a dualizable representation `r`: an upper and a
/// lower index contracted between two vectors.
pub open spec fn dots_rules_dualizable(r: RepModel) -> Seq<RuleModel> {
    seq![
        atomic_rule(
            Term::Mul(
                seq![
                    call("f_"@, seq![wc("x_"@), rep_symbolic(r, seq![wc("i__"@)])]),
                    call("g_"@, seq![wc("y_"@), rep_symbolic(dual_rep(r), seq![wc("i__"@)])]),
                ],
            ),
            call("dot"@, seq![call("f_"@, seq![wc("x_"@)]), call("g_"@, seq![wc("y_"@)])]),
            seq!["x_"@, "y_"@],
        ),
    ]
}

/// The dot-product rules of a table.
pub open spec fn dots_rules_spec(t: Seq<RepModel>) -> Seq<RuleModel> {
    per_rep(t, RepOrientation::SelfDual, RuleFamily::DotsSelfDual) + per_rep(
        t,
        RepOrientation::InlineMetric,
        RuleFamily::DotsSelfDual,
    ) + per_rep(t, RepOrientation::Up, RuleFamily::DotsDualizable)
}

fn names1(a: &str) -> (r: Vec<String>)
    ensures
        r@.map_values(|s: String| s@) == seq![a@],
{
    let v = vec![String::from_str(a)];
    assert(v@.map_values(|s: String| s@) =~= seq![a@]);
    v
}

fn names2(a: &str, b: &str) -> (r: Vec<String>)
    ensures
        r@.map_values(|s: String| s@) == seq![a@, b@],
{
    let v = vec![String::from_str(a), String::from_str(b)];
    assert(v@.map_values(|s: String| s@) =~= seq![a@, b@]);
    v
}

fn dots_self_dual_exec(r: &LibraryRep, rules: &mut Vec<Rule>)
    ensures
        rules_view(final(rules)@) == rules_view(old(rules)@) + dots_rules_self_dual(r@),
{
    let ghost start = rules_view(rules@);
    add_rule(
        rules,
        plain(
            times(fun("f_", v1(slot(r, v1(var("i__"))))), fun("g_", v1(slot(r, v1(var("i__")))))),
            fun("dot", v2(var("f_"), var("g_"))),
        ),
    );
    add_rule(
        rules,
        Rule {
            lhs: sq(fun("f_", v1(slot(r, v1(var("i__")))))),
            rhs: fun("dot", v2(var("f_"), var("f_"))),
            atomic: names1("x_"),
        },
    );
    add_rule(
        rules,
        Rule {
            lhs: times(
                fun("f_", v2(var("x_"), slot(r, v1(var("i__"))))),
                fun("g_", v2(var("y_"), slot(r, v1(var("i__"))))),
            ),
            rhs: fun("dot", v2(fun("f_", v1(var("x_"))), fun("g_", v1(var("y_"))))),
            atomic: names2("x_", "y_"),
        },
    );
    add_rule(
        rules,
        Rule {
            lhs: sq(fun("f_", v2(var("x_"), slot(r, v1(var("i__")))))),
            rhs: fun("dot", v2(fun("f_", v1(var("x_"))), fun("f_", v1(var("x_"))))),
            atomic: names1("x_"),
        },
    );
    assert(rules_view(rules@) =~= start + dots_rules_self_dual(r@));
}

fn dots_dualizable_exec(r: &LibraryRep, rules: &mut Vec<Rule>)
    ensures
        rules_view(final(rules)@) == rules_view(old(rules)@) + dots_rules_dualizable(r@),
{
    let ghost start = rules_view(rules@);
    let d = r.dual();
    add_rule(
        rules,
        Rule {
            lhs: times(
                fun("f_", v2(var("x_"), slot(r, v1(var("i__"))))),
                fun("g_", v2(var("y_"), slot(&d, v1(var("i__"))))),
            ),
            rhs: fun("dot", v2(fun("f_", v1(var("x_"))), fun("g_", v1(var("y_"))))),
            atomic: names2("x_", "y_"),
        },
    );
    assert(rules_view(rules@) =~= start + dots_rules_dualizable(r@));
}

/// Appends the rules of a family for each representation of the table with
/// orientation `o`.
fn add_per_rep(table: &RepTable, o: RepOrientation, fam: RuleFamily, rules: &mut Vec<Rule>)
    ensures
        rules_view(final(rules)@) == rules_view(old(rules)@) + per_rep(table.model(), o, fam),
{
    let ghost start = rules_view(rules@);
    let reps = table.entries();
    let mut i: usize = 0;
    proof {
        assert(table.model().take(0) =~= Seq::<RepModel>::empty());
        assert(start + Seq::<RuleModel>::empty() =~= start);
    }
    while i < reps.len()
        invariant
            i <= reps.len(),
            table.model() == rep_views(reps@),
            rules_view(rules@) == start + per_rep(table.model().take(i as int), o, fam),
        decreases reps.len() - i,
    {
        let r = &reps[i];
        proof {
            let t = table.model().take(i + 1);
            assert(t.drop_last() =~= table.model().take(i as int));
            assert(t.last() == r@);
        }
        let ghost mid = rules_view(rules@);
        if r.orientation == o {
            match fam {
                RuleFamily::MetricSelfDual => metric_self_dual_exec(r, rules),
                RuleFamily::MetricDualizable => metric_dualizable_exec(r, rules),
                RuleFamily::DotsSelfDual => dots_self_dual_exec(r, rules),
                RuleFamily::DotsDualizable => dots_dualizable_exec(r, rules),
            }
            proof {
                assert(rules_view(rules@) =~= start + per_rep(table.model().take(i + 1), o, fam));
            }
        } else {
            proof {
                assert(per_rep(table.model().take(i + 1), o, fam) =~= per_rep(
                    table.model().take(i as int),
                    o,
                    fam,
                ) + Seq::<RuleModel>::empty());
            }
        }
        i = i + 1;
    }
    proof {
        assert(table.model().take(reps.len() as int) =~= table.model());
    }
}

/// The rules that simplify metrics and identities: see [`metric_rules_spec`].
pub fn metric_rules(table: &RepTable) -> (r: Vec<Rule>)
    ensures
        rules_view(r@) == metric_rules_spec(table.model()),
{
    let mut rules: Vec<Rule> = Vec::new();
    proof {
        assert(rules_view(rules@) =~= Seq::<RuleModel>::empty());
    }
    add_per_rep(table, RepOrientation::SelfDual, RuleFamily::MetricSelfDual, &mut rules);
    add_per_rep(table, RepOrientation::InlineMetric, RuleFamily::MetricSelfDual, &mut rules);
    add_per_rep(table, RepOrientation::Up, RuleFamily::MetricDualizable, &mut rules);
    proof {
        assert(rules_view(rules@) =~= metric_rules_spec(table.model()));
    }
    rules
}

/// The rules that turn contracted vectors into dot products: see
/// [`dots_rules_spec`].
pub fn dots_rules(table: &RepTable) -> (r: Vec<Rule>)
    ensures
        rules_view(r@) == dots_rules_spec(table.model()),
{
    let mut rules: Vec<Rule> = Vec::new();
    proof {
        assert(rules_view(rules@) =~= Seq::<RuleModel>::empty());
    }
    add_per_rep(table, RepOrientation::SelfDual, RuleFamily::DotsSelfDual, &mut rules);
    add_per_rep(table, RepOrientation::InlineMetric, RuleFamily::DotsSelfDual, &mut rules);
    add_per_rep(table, RepOrientation::Up, RuleFamily::DotsDualizable, &mut rules);
    proof {
        assert(rules_view(rules@) =~= dots_rules_spec(table.model()));
    }
    rules
}

// ---------------------------------------------------------------------------
// Gamma-matrix rules.

pub open spec fn gamma(a: Term, b: Term, c: Term) -> Term {
    call("gamma"@, seq![a, b, c])
}

pub open spec fn chain(args: Seq<Term>) -> Term {
    call("gamma_chain"@, args)
}

/// The rules that write the chiral projectors with `gamma5`, join products of
/// gamma matrices into chains, and drop a gamma matrix traced over its
/// spinor indices.
pub open spec fn gamma_rules_spec() -> Seq<RuleModel> {
    let a = wc("a_"@);
    let b = wc("b_"@);
    let c = wc("c_"@);
    let d = wc("d_"@);
    let e = wc("e_"@);
    let y = wc("y_"@);
    let id_ab = call("id"@, seq![a, b]);
    let g5_ab = call("gamma5"@, seq![a, b]);
    seq![
        rule(call("projp"@, seq![a, b]), over(minus(id_ab, g5_ab), Term::Num(2i64))),
        rule(call("projm"@, seq![a, b]), over(Term::Add(seq![id_ab, g5_ab]), Term::Num(2i64))),
        rule(Term::Mul(seq![gamma(a, b, c), gamma(d, c, e)]), chain(seq![a, d, b, e])),
        rule(gamma(a, b, b), Term::Num(0i64)),
        rule(
            Term::Mul(seq![chain(seq![wc("a__"@), a, b]), chain(seq![wc("b__"@), b, c])]),
            chain(seq![wc("a__"@), wc("b__"@), a, c]),
        ),
        rule(
            Term::Mul(seq![chain(seq![wc("a__"@), a, b]), gamma(y, b, c)]),
            chain(seq![wc("a__"@), y, a, c]),
        ),
        rule(
            Term::Mul(seq![gamma(a, a, b), chain(seq![wc("y__"@), b, c])]),
            chain(seq![a, wc("y__"@), a, c]),
        ),
    ]
}

/// The rules on chains: a contracted pair of neighbouring Minkowski indices
/// gives the dimension, a chain without Lorentz indices is the identity, and
/// an index met again two places later is moved next to its partner by the
/// Clifford relation.
pub open spec fn chain_rules_spec() -> Seq<RuleModel> {
    let a = wc("a_"@);
    let b = wc("b_"@);
    let mink_da = call("mink"@, seq![wc("d_"@), a]);
    seq![
        rule(
            chain(seq![wc("a___"@), mink_da, mink_da, wc("b__"@)]),
            Term::Mul(seq![chain(seq![wc("a___"@), wc("b__"@)]), wc("d_"@)]),
        ),
        rule(chain(seq![a, b]), call("id"@, seq![a, b])),
        rule(
            chain(seq![wc("a___"@), a, wc("b___"@), b, a, wc("a__"@)]),
            minus(
                Term::Mul(
                    seq![chain(seq![wc("a___"@), b, wc("b___"@), wc("a__"@)]), Term::Num(2i64)],
                ),
                chain(seq![wc("a___"@), a, wc("b___"@), a, b, wc("a__"@)]),
            ),
        ),
    ]
}

/// A chain whose two spinor indices are the same is a trace.
pub open spec fn trace_rule_spec() -> RuleModel {
    rule(
        chain(seq![wc("a__"@), wc("x_"@), wc("x_"@)]),
        call("gamma_trace"@, seq![wc("a__"@)]),
    )
}

/// The square of a gamma matrix with a Minkowski index is four times the
/// dimension.
pub open spec fn gamma_square_rule_spec() -> RuleModel {
    rule(
        square(call("gamma"@, seq![call("mink"@, seq![wc("d_"@), wc("b_"@)]), wc("a__"@)])),
        Term::Mul(seq![wc("d_"@), Term::Num(4i64)]),
    )
}

fn plus(a: Expr, b: Expr) -> (r: Expr)
    ensures
        r@ == Term::Add(seq![a@, b@]),
{
    Expr::Add(v2(a, b))
}

fn gamma_e(a: Expr, b: Expr, c: Expr) -> (r: Expr)
    ensures
        r@ == gamma(a@, b@, c@),
{
    fun("gamma", v3(a, b, c))
}

/// The rules of [`gamma_rules_spec`].
pub fn gamma_rules() -> (r: Vec<Rule>)
    ensures
        rules_view(r@) == gamma_rules_spec(),
{
    let mut rules: Vec<Rule> = Vec::new();
    proof {
        assert(rules_view(rules@) =~= Seq::<RuleModel>::empty());
    }
    add_rule(
        &mut rules,
        plain(
            fun("projp", v2(var("a_"), var("b_"))),
            over_e(
                minus_e(fun("id", v2(var("a_"), var("b_"))), fun("gamma5", v2(var("a_"), var("b_")))),
                Expr::Num(2),
            ),
        ),
    );
    add_rule(
        &mut rules,
        plain(
            fun("projm", v2(var("a_"), var("b_"))),
            over_e(
                plus(fun("id", v2(var("a_"), var("b_"))), fun("gamma5", v2(var("a_"), var("b_")))),
                Expr::Num(2),
            ),
        ),
    );
    add_rule(
        &mut rules,
        plain(
            times(gamma_e(var("a_"), var("b_"), var("c_")), gamma_e(var("d_"), var("c_"), var("e_"))),
            fun("gamma_chain", v4(var("a_"), var("d_"), var("b_"), var("e_"))),
        ),
    );
    add_rule(&mut rules, plain(gamma_e(var("a_"), var("b_"), var("b_")), Expr::Num(0)));
    add_rule(
        &mut rules,
        plain(
            times(
                fun("gamma_chain", v3(var("a__"), var("a_"), var("b_"))),
                fun("gamma_chain", v3(var("b__"), var("b_"), var("c_"))),
            ),
            fun("gamma_chain", v4(var("a__"), var("b__"), var("a_"), var("c_"))),
        ),
    );
    add_rule(
        &mut rules,
        plain(
            times(
                fun("gamma_chain", v3(var("a__"), var("a_"), var("b_"))),
                gamma_e(var("y_"), var("b_"), var("c_")),
            ),
            fun("gamma_chain", v4(var("a__"), var("y_"), var("a_"), var("c_"))),
        ),
    );
    add_rule(
        &mut rules,
        plain(
            times(
                gamma_e(var("a_"), var("a_"), var("b_")),
                fun("gamma_chain", v3(var("y__"), var("b_"), var("c_"))),
            ),
            fun("gamma_chain", v4(var("a_"), var("y__"), var("a_"), var("c_"))),
        ),
    );
    proof {
        assert(rules_view(rules@) =~= gamma_rules_spec());
    }
    rules
}

/// The rules of [`chain_rules_spec`].
pub fn chain_rules() -> (r: Vec<Rule>)
    ensures
        rules_view(r@) == chain_rules_spec(),
{
    let mut rules: Vec<Rule> = Vec::new();
    proof {
        assert(rules_view(rules@) =~= Seq::<RuleModel>::empty());
    }
    add_rule(
        &mut rules,
        plain(
            fun(
                "gamma_chain",
                v4(
                    var("a___"),
                    fun("mink", v2(var("d_"), var("a_"))),
                    fun("mink", v2(var("d_"), var("a_"))),
                    var("b__"),
                ),
            ),
            times(fun("gamma_chain", v2(var("a___"), var("b__"))), var("d_")),
        ),
    );
    add_rule(
        &mut rules,
        plain(fun("gamma_chain", v2(var("a_"), var("b_"))), fun("id", v2(var("a_"), var("b_")))),
    );
    add_rule(
        &mut rules,
        plain(
            fun(
                "gamma_chain",
                v6(var("a___"), var("a_"), var("b___"), var("b_"), var("a_"), var("a__")),
            ),
            minus_e(
                times(
                    fun("gamma_chain", v4(var("a___"), var("b_"), var("b___"), var("a__"))),
                    Expr::Num(2),
                ),
                fun(
                    "gamma_chain",
                    v6(var("a___"), var("a_"), var("b___"), var("a_"), var("b_"), var("a__")),
                ),
            ),
        ),
    );
    proof {
        assert(rules_view(rules@) =~= chain_rules_spec());
    }
    rules
}

/// The rule of [`trace_rule_spec`].
pub fn trace_rule() -> (r: Rule)
    ensures
        r@ == trace_rule_spec(),
{
    plain(
        fun("gamma_chain", v3(var("a__"), var("x_"), var("x_"))),
        fun("gamma_trace", v1(var("a__"))),
    )
}

/// The rule of [`gamma_square_rule_spec`].
pub fn gamma_square_rule() -> (r: Rule)
    ensures
        r@ == gamma_square_rule_spec(),
{
    plain(
        sq(fun("gamma", v2(fun("mink", v2(var("d_"), var("b_"))), var("a__")))),
        times(var("d_"), Expr::Num(4)),
    )
}

// ---------------------------------------------------------------------------
// Color rules.

/// An index of the fundamental representation, `cof(x)`.
pub open spec fn cof(x: Term) -> Term {
    call("cof"@, seq![x])
}

/// An index of the antifundamental representation, `dind(cof(x))`.
pub open spec fn coaf(x: Term) -> Term {
    call("dind"@, seq![cof(x)])
}

/// An index of the adjoint representation, `coad(x)`.
pub open spec fn coad(x: Term) -> Term {
    call("coad"@, seq![x])
}

/// A generator `t(adjoint, fundamental, antifundamental)`.
pub open spec fn tgen(a: Term, b: Term, c: Term) -> Term {
    call("t"@, seq![a, b, c])
}

pub open spec fn idt(a: Term, b: Term) -> Term {
    call("id"@, seq![a, b])
}

/// The rules of color algebra: contractions with identities, traces of
/// identities, traces of one and two generators, the Fierz identity, a
/// generator between two contracted generators, and the square of the
/// structure constant. `Nc` is the number of colors and `TR` the
/// normalisation of the generators.
pub open spec fn color_rules_spec() -> Seq<RuleModel> {
    let a = wc("a_"@);
    let b = wc("b_"@);
    let c = wc("c_"@);
    let d = wc("d_"@);
    let e = wc("e_"@);
    let i = wc("i_"@);
    let nc = wc("Nc"@);
    let tr = wc("TR"@);
    let f_ = |x: Term| call("f_"@, seq![wc("a___"@), x, wc("c___"@)]);
    let nc2m1 = minus(Term::Mul(seq![nc, nc]), Term::Num(1i64));
    seq![
        rule(Term::Mul(seq![f_(cof(b)), idt(coaf(b), cof(c))]), f_(cof(c))),
        rule(Term::Mul(seq![f_(coaf(b)), idt(cof(b), coaf(c))]), f_(coaf(c))),
        rule(Term::Mul(seq![f_(coad(b)), idt(coad(b), coad(a))]), f_(coad(a))),
        rule(Term::Mul(seq![f_(coad(a)), idt(coad(b), coad(a))]), f_(coad(b))),
        rule(idt(coaf(a), cof(a)), nc),
        rule(idt(cof(a), coaf(a)), nc),
        rule(idt(coad(a), coad(a)), nc2m1),
        rule(tgen(a, cof(b), coaf(b)), Term::Num(0i64)),
        rule(
            Term::Mul(seq![tgen(a, cof(c), coaf(e)), tgen(b, cof(e), coaf(c))]),
            Term::Mul(seq![tr, idt(a, b)]),
        ),
        rule(square(tgen(a, cof(c), coaf(e))), Term::Mul(seq![tr, idt(a, a)])),
        rule(
            Term::Mul(seq![tgen(e, a, b), tgen(e, c, d)]),
            Term::Mul(
                seq![
                    tr,
                    minus(
                        Term::Mul(seq![idt(a, d), idt(c, b)]),
                        over(Term::Mul(seq![idt(a, b), idt(c, d)]), nc),
                    ),
                ],
            ),
        ),
        rule(
            Term::Mul(seq![tgen(i, a, coaf(b)), tgen(e, cof(b), coaf(c)), tgen(i, cof(c), d)]),
            Term::Mul(
                seq![Term::Mul(seq![Term::Num(-1i64), over(tr, nc)]), tgen(e, a, d)],
            ),
        ),
        rule(
            square(call("f"@, seq![coad(a), coad(b), coad(c)])),
            Term::Mul(seq![nc, nc2m1]),
        ),
    ]
}

/// The structure constant written with generators:
/// `f(a, b, c) = -𝑖 (t(a) t(b) t(c) - t(a) t(c) t(b)) / TR`, traced over
/// fundamental indices `i(a, b, c)`, `j(a, b, c)` and `k(a, b, c)`.
pub open spec fn structure_constant_rule_spec() -> RuleModel {
    let a = coad(wc("a_"@));
    let b = coad(wc("b_"@));
    let c = coad(wc("c_"@));
    let abc = seq![wc("a_"@), wc("b_"@), wc("c_"@)];
    let ii = call("i"@, abc);
    let jj = call("j"@, abc);
    let kk = call("k"@, abc);
    rule(
        call("f"@, seq![a, b, c]),
        Term::Mul(
            seq![
                over(
                    minus(
                        Term::Mul(
                            seq![
                                tgen(a, cof(ii), coaf(jj)),
                                tgen(b, cof(jj), coaf(kk)),
                                tgen(c, cof(kk), coaf(ii)),
                            ],
                        ),
                        Term::Mul(
                            seq![
                                tgen(a, cof(ii), coaf(jj)),
                                tgen(c, cof(jj), coaf(kk)),
                                tgen(b, cof(kk), coaf(ii)),
                            ],
                        ),
                    ),
                    wc("TR"@),
                ),
                Term::Mul(seq![Term::Num(-1i64), wc("𝑖"@)]),
            ],
        ),
    )
}

fn cof_e(x: Expr) -> (r: Expr)
    ensures
        r@ == cof(x@),
{
    fun("cof", v1(x))
}

fn coaf_e(x: Expr) -> (r: Expr)
    ensures
        r@ == coaf(x@),
{
    fun("dind", v1(cof_e(x)))
}

fn coad_e(x: Expr) -> (r: Expr)
    ensures
        r@ == coad(x@),
{
    fun("coad", v1(x))
}

fn t_e(a: Expr, b: Expr, c: Expr) -> (r: Expr)
    ensures
        r@ == tgen(a@, b@, c@),
{
    fun("t", v3(a, b, c))
}

fn id_e(a: Expr, b: Expr) -> (r: Expr)
    ensures
        r@ == idt(a@, b@),
{
    fun("id", v2(a, b))
}

fn f_e(x: Expr) -> (r: Expr)
    ensures
        r@ == call("f_"@, seq![wc("a___"@), x@, wc("c___"@)]),
{
    fun("f_", v3(var("a___"), x, var("c___")))
}

fn nc2m1_e() -> (r: Expr)
    ensures
        r@ == minus(Term::Mul(seq![wc("Nc"@), wc("Nc"@)]), Term::Num(1i64)),
{
    minus_e(times(var("Nc"), var("Nc")), Expr::Num(1))
}

/// The rules of [`color_rules_spec`].
pub fn color_rules() -> (r: Vec<Rule>)
    ensures
        rules_view(r@) == color_rules_spec(),
{
    let mut rules: Vec<Rule> = Vec::new();
    proof {
        assert(rules_view(rules@) =~= Seq::<RuleModel>::empty());
    }
    add_rule(
        &mut rules,
        plain(
            times(f_e(cof_e(var("b_"))), id_e(coaf_e(var("b_")), cof_e(var("c_")))),
            f_e(cof_e(var("c_"))),
        ),
    );
    add_rule(
        &mut rules,
        plain(
            times(f_e(coaf_e(var("b_"))), id_e(cof_e(var("b_")), coaf_e(var("c_")))),
            f_e(coaf_e(var("c_"))),
        ),
    );
    add_rule(
        &mut rules,
        plain(
            times(f_e(coad_e(var("b_"))), id_e(coad_e(var("b_")), coad_e(var("a_")))),
            f_e(coad_e(var("a_"))),
        ),
    );
    add_rule(
        &mut rules,
        plain(
            times(f_e(coad_e(var("a_"))), id_e(coad_e(var("b_")), coad_e(var("a_")))),
            f_e(coad_e(var("b_"))),
        ),
    );
    add_rule(&mut rules, plain(id_e(coaf_e(var("a_")), cof_e(var("a_"))), var("Nc")));
    add_rule(&mut rules, plain(id_e(cof_e(var("a_")), coaf_e(var("a_"))), var("Nc")));
    add_rule(&mut rules, plain(id_e(coad_e(var("a_")), coad_e(var("a_"))), nc2m1_e()));
    add_rule(
        &mut rules,
        plain(t_e(var("a_"), cof_e(var("b_")), coaf_e(var("b_"))), Expr::Num(0)),
    );
    add_rule(
        &mut rules,
        plain(
            times(
                t_e(var("a_"), cof_e(var("c_")), coaf_e(var("e_"))),
                t_e(var("b_"), cof_e(var("e_")), coaf_e(var("c_"))),
            ),
            times(var("TR"), id_e(var("a_"), var("b_"))),
        ),
    );
    add_rule(
        &mut rules,
        plain(
            sq(t_e(var("a_"), cof_e(var("c_")), coaf_e(var("e_")))),
            times(var("TR"), id_e(var("a_"), var("a_"))),
        ),
    );
    add_rule(
        &mut rules,
        plain(
            times(t_e(var("e_"), var("a_"), var("b_")), t_e(var("e_"), var("c_"), var("d_"))),
            times(
                var("TR"),
                minus_e(
                    times(id_e(var("a_"), var("d_")), id_e(var("c_"), var("b_"))),
                    over_e(times(id_e(var("a_"), var("b_")), id_e(var("c_"), var("d_"))), var("Nc")),
                ),
            ),
        ),
    );
    add_rule(
        &mut rules,
        plain(
            mul3(
                t_e(var("i_"), var("a_"), coaf_e(var("b_"))),
                t_e(var("e_"), cof_e(var("b_")), coaf_e(var("c_"))),
                t_e(var("i_"), cof_e(var("c_")), var("d_")),
            ),
            times(
                times(Expr::Num(-1), over_e(var("TR"), var("Nc"))),
                t_e(var("e_"), var("a_"), var("d_")),
            ),
        ),
    );
    add_rule(
        &mut rules,
        plain(
            sq(fun("f", v3(coad_e(var("a_")), coad_e(var("b_")), coad_e(var("c_"))))),
            times(var("Nc"), nc2m1_e()),
        ),
    );
    proof {
        assert(rules_view(rules@) =~= color_rules_spec());
    }
    rules
}

fn ijk(f: &str) -> (r: Expr)
    ensures
        r@ == call(f@, seq![wc("a_"@), wc("b_"@), wc("c_"@)]),
{
    fun(f, v3(var("a_"), var("b_"), var("c_")))
}

/// The rule of [`structure_constant_rule_spec`].
pub fn structure_constant_rule() -> (r: Rule)
    ensures
        r@ == structure_constant_rule_spec(),
{
    let first = mul3(
        t_e(coad_e(var("a_")), cof_e(ijk("i")), coaf_e(ijk("j"))),
        t_e(coad_e(var("b_")), cof_e(ijk("j")), coaf_e(ijk("k"))),
        t_e(coad_e(var("c_")), cof_e(ijk("k")), coaf_e(ijk("i"))),
    );
    let second = mul3(
        t_e(coad_e(var("a_")), cof_e(ijk("i")), coaf_e(ijk("j"))),
        t_e(coad_e(var("c_")), cof_e(ijk("j")), coaf_e(ijk("k"))),
        t_e(coad_e(var("b_")), cof_e(ijk("k")), coaf_e(ijk("i"))),
    );
    plain(
        fun("f", v3(coad_e(var("a_")), coad_e(var("b_")), coad_e(var("c_")))),
        times(over_e(minus_e(first, second), var("TR")), times(Expr::Num(-1), var("𝑖"))),
    )
}

// ---------------------------------------------------------------------------
// What the rules mean.

/// The value of a polynomial term when the variable `x` stands for `n`:
/// numbers are their value, sums add and products multiply; other variables,
/// calls and powers count zero.
pub open spec fn value_at(t: Term, x: Seq<char>, n: int) -> int
    decreases t,
{
    match t {
        Term::Num(k) => k as int,
        Term::Var(s) => if s == x {
            n
        } else {
            0
        },
        Term::Add(xs) => sum_at(xs, x, n),
        Term::Mul(xs) => product_at(xs, x, n),
        _ => 0,
    }
}

pub open spec fn sum_at(s: Seq<Term>, x: Seq<char>, n: int) -> int
    decreases s,
{
    if s.len() == 0 {
        0
    } else {
        sum_at(s.drop_last(), x, n) + value_at(s.last(), x, n)
    }
}

pub open spec fn product_at(s: Seq<Term>, x: Seq<char>, n: int) -> int
    decreases s,
{
    if s.len() == 0 {
        1
    } else {
        product_at(s.drop_last(), x, n) * value_at(s.last(), x, n)
    }
}

proof fn lemma_value_pair(a: Term, b: Term, x: Seq<char>, n: int)
    ensures
        sum_at(seq![a, b], x, n) == value_at(a, x, n) + value_at(b, x, n),
        product_at(seq![a, b], x, n) == value_at(a, x, n) * value_at(b, x, n),
{
    let s = seq![a, b];
    assert(s.drop_last() =~= seq![a]);
    assert(seq![a].drop_last() =~= Seq::<Term>::empty());
    assert(sum_at(Seq::<Term>::empty(), x, n) == 0);
    assert(product_at(Seq::<Term>::empty(), x, n) == 1);
    assert(seq![a].last() == a);
    assert(s.last() == b);
    assert(sum_at(seq![a], x, n) == value_at(a, x, n));
    assert(product_at(seq![a], x, n) == value_at(a, x, n));
}

/// Tracing the identity of a representation of SU(Nc) gives its dimension:
/// `id(coad(a), coad(a))` gives `Nc² - 1` and the fundamental traces
/// `id(dind(cof(a)), cof(a))` and `id(cof(a), dind(cof(a)))` give `Nc`, for
/// every number of colors `n`; each of these traces has a rule. The square of
/// the structure constant gives `Nc (Nc² - 1)`, and a generator is traceless.
pub proof fn law_color_traces_give_dimensions(n: int)
    ensures
        exists|j: int|
            0 <= j < color_rules_spec().len() && #[trigger] color_rules_spec()[j].lhs == idt(
                coad(wc("a_"@)),
                coad(wc("a_"@)),
            ),
        forall|j: int|
            0 <= j < color_rules_spec().len() && #[trigger] color_rules_spec()[j].lhs == idt(
                coad(wc("a_"@)),
                coad(wc("a_"@)),
            ) ==> value_at(color_rules_spec()[j].rhs, "Nc"@, n) == n * n - 1,
        exists|j: int|
            0 <= j < color_rules_spec().len() && #[trigger] color_rules_spec()[j].lhs == idt(
                coaf(wc("a_"@)),
                cof(wc("a_"@)),
            ),
        exists|j: int|
            0 <= j < color_rules_spec().len() && #[trigger] color_rules_spec()[j].lhs == idt(
                cof(wc("a_"@)),
                coaf(wc("a_"@)),
            ),
        forall|j: int|
            0 <= j < color_rules_spec().len() && (#[trigger] color_rules_spec()[j].lhs == idt(
                coaf(wc("a_"@)),
                cof(wc("a_"@)),
            ) || color_rules_spec()[j].lhs == idt(cof(wc("a_"@)), coaf(wc("a_"@))))
                ==> value_at(color_rules_spec()[j].rhs, "Nc"@, n) == n,
        forall|j: int|
            0 <= j < color_rules_spec().len() && #[trigger] color_rules_spec()[j].lhs == square(
                call("f"@, seq![coad(wc("a_"@)), coad(wc("b_"@)), coad(wc("c_"@))]),
            ) ==> value_at(color_rules_spec()[j].rhs, "Nc"@, n) == n * (n * n - 1),
        forall|j: int|
            0 <= j < color_rules_spec().len() && #[trigger] color_rules_spec()[j].lhs == tgen(
                wc("a_"@),
                cof(wc("b_"@)),
                coaf(wc("b_"@)),
            ) ==> value_at(color_rules_spec()[j].rhs, "Nc"@, n) == 0,
{
    let rs = color_rules_spec();
    let a = wc("a_"@);
    let nc = wc("Nc"@);
    let nn = Term::Mul(seq![nc, nc]);
    let m1 = Term::Mul(seq![Term::Num(-1i64), Term::Num(1i64)]);
    let nc2m1 = minus(nn, Term::Num(1i64));
    lemma_value_pair(nc, nc, "Nc"@, n);
    lemma_value_pair(Term::Num(-1i64), Term::Num(1i64), "Nc"@, n);
    lemma_value_pair(nn, m1, "Nc"@, n);
    lemma_value_pair(nc, nc2m1, "Nc"@, n);
    assert(value_at(nc2m1, "Nc"@, n) == n * n - 1);
    assert(value_at(Term::Mul(seq![nc, nc2m1]), "Nc"@, n) == n * (n * n - 1));
    reveal_strlit("cof");
    reveal_strlit("coad");
    reveal_strlit("dind");
    reveal_strlit("id");
    reveal_strlit("t");
    reveal_strlit("f");
    assert(rs[6].lhs == idt(coad(a), coad(a)));
    assert(rs[4].lhs == idt(coaf(a), cof(a)));
    assert(rs[5].lhs == idt(cof(a), coaf(a)));
    assert forall|j: int| 0 <= j < rs.len() && #[trigger] rs[j].lhs == idt(coad(a), coad(a)) implies value_at(
        rs[j].rhs,
        "Nc"@,
        n,
    ) == n * n - 1 by {
        if j == 4 || j == 5 {
            assert("dind"@[0] != "coad"@[0]);
            assert(rs[j].lhs->Fun_1[0]->Fun_0 != "coad"@);
        } else if j == 7 {
            assert(rs[j].lhs->Fun_1.len() == 3);
        }
    }
    assert forall|j: int|
        0 <= j < rs.len() && (#[trigger] rs[j].lhs == idt(coaf(a), cof(a)) || rs[j].lhs == idt(
            cof(a),
            coaf(a),
        )) implies value_at(rs[j].rhs, "Nc"@, n) == n by {
        if j == 6 {
            assert("dind"@[0] != "coad"@[0]);
            assert(rs[j].lhs->Fun_1[0]->Fun_0 == "coad"@);
        } else if j == 7 {
            assert(rs[j].lhs->Fun_1.len() == 3);
        }
    }
    assert forall|j: int|
        0 <= j < rs.len() && #[trigger] rs[j].lhs == square(
            call("f"@, seq![coad(wc("a_"@)), coad(wc("b_"@)), coad(wc("c_"@))]),
        ) implies value_at(rs[j].rhs, "Nc"@, n) == n * (n * n - 1) by {
        if j == 9 {
            assert(rs[j].lhs->Pow_0->Fun_0 == "t"@);
        }
    }
}

/// Contracting a metric or an identity `m(x, y)` of a self-dual or
/// inline-metric representation with a tensor renames the summed slot `y`
/// into the free slot `x` in the tensor: the result is the tensor with `y`
/// replaced by `x`, `y` is gone from it and `x` stands in it.
pub proof fn law_metric_contraction_renames(r: RepModel, j: int)
    requires
        r.orientation == RepOrientation::SelfDual || r.orientation == RepOrientation::InlineMetric,
        0 <= j < metric_rules_self_dual(r).len(),
        metric_rules_self_dual(r)[j].lhs is Mul,
        metric_rules_self_dual(r)[j].lhs->Mul_0.len() == 2,
        metric_rules_self_dual(r)[j].lhs->Mul_0[0] is Fun,
        metric_rules_self_dual(r)[j].lhs->Mul_0[0]->Fun_1.len() == 2,
        metric_rules_self_dual(r)[j].lhs->Mul_0[0]->Fun_0 == "g"@
            || metric_rules_self_dual(r)[j].lhs->Mul_0[0]->Fun_0 == "id"@,
    ensures
        ({
            let ru = metric_rules_self_dual(r)[j];
            let xs = ru.lhs->Mul_0;
            let ms = xs[0]->Fun_1;
            &&& ru.rhs == subst(xs[1], ms[1], ms[0])
            &&& !occurs(ms[1], ru.rhs)
            &&& occurs(ms[0], ru.rhs)
        }),
{
    let ra = rep_symbolic(r, seq![wc("a__"@)]);
    let ri = rep_symbolic(r, seq![wc("i__"@)]);
    let fi = call("f_"@, seq![wc("a___"@), ri, wc("b___"@)]);
    let fa = call("f_"@, seq![wc("a___"@), ra, wc("b___"@)]);
    let rs = metric_rules_self_dual(r);
    reveal_strlit("a__");
    reveal_strlit("i__");
    assert("a__"@[1] != "i__"@[1] || "a__"@[0] != "i__"@[0]);
    assert("a__"@ != "i__"@);
    assert(ra == Term::Fun(r.name, seq![wc("a__"@)]));
    assert(ri == Term::Fun(r.name, seq![wc("i__"@)]));
    assert(ra->Fun_1[0] != ri->Fun_1[0]);
    assert(ra != ri);
    assert(j == 0 || j == 1);
    assert(rs[j].lhs->Mul_0[1] == fi);
    assert(rs[j].lhs->Mul_0[0]->Fun_1 == seq![ra, ri]);
    assert(rs[j].rhs == fa);
    let fs = seq![wc("a___"@), ri, wc("b___"@)];
    lemma_subst_pointwise(fs, ri, ra);
    assert(subst_seq(fs, ri, ra) =~= seq![wc("a___"@), ra, wc("b___"@)]);
    assert(subst(fi, ri, ra) == fa);
    let gs = seq![wc("a___"@), ra, wc("b___"@)];
    lemma_occurs_seq(ri, gs);
    lemma_occurs_seq(ri, seq![wc("a__"@)]);
    lemma_occurs_seq(ra, gs);
    assert(occurs(ra, gs[1]));
    assert(!occurs(ri, ra));
}

/// Whether `t` is the vector named `f`: the wildcard `f` itself or a call of it.
pub open spec fn names_vector(t: Term, f: Seq<char>) -> bool {
    t == Term::Var(f) || (t matches Term::Fun(h, _) && h == f)
}

/// Whether `t` is `dot(x, y)` with `x` the vector `f` and `y` the vector `g`.
pub open spec fn dot_of(t: Term, f: Seq<char>, g: Seq<char>) -> bool {
    t matches Term::Fun(d, ys) && d == "dot"@ && ys.len() == 2 && names_vector(ys[0], f)
        && names_vector(ys[1], g)
}

/// Whether a dot-product rule keeps both contracted vectors: a product of two
/// vectors becomes the dot product of the first with the second, and the
/// square of a vector the dot product of the vector with itself.
pub open spec fn keeps_both_vectors(ru: RuleModel) -> bool {
    match ru.lhs {
        Term::Mul(xs) => xs.len() == 2 && xs[0] is Fun && xs[1] is Fun ==> dot_of(
            ru.rhs,
            xs[0]->Fun_0,
            xs[1]->Fun_0,
        ),
        Term::Pow(b, e) => *b is Fun ==> dot_of(ru.rhs, b->Fun_0, b->Fun_0),
        _ => true,
    }
}

/// Every dot-product rule, of every representation, turns two vectors
/// contracted over an index into the dot product of the two, in their order,
/// and a vector contracted with itself into its dot product with itself.
pub proof fn law_dots_keep_both_vectors(r: RepModel)
    ensures
        forall|j: int|
            0 <= j < dots_rules_self_dual(r).len() ==> keeps_both_vectors(
                #[trigger] dots_rules_self_dual(r)[j],
            ),
        forall|j: int|
            0 <= j < dots_rules_dualizable(r).len() ==> keeps_both_vectors(
                #[trigger] dots_rules_dualizable(r)[j],
            ),
{
    let s = dots_rules_self_dual(r);
    let d = dots_rules_dualizable(r);
    assert(keeps_both_vectors(s[0]));
    assert(keeps_both_vectors(s[1]));
    assert(keeps_both_vectors(s[2]));
    assert(keeps_both_vectors(s[3]));
    assert(keeps_both_vectors(d[0]));
}

/// The slot that an index contracts with: the lower form `dind(s)` of an
/// upper slot `s`, and the upper slot of a lower form.
pub open spec fn contracting_slot(y: Term) -> Term {
    if y matches Term::Fun(f, a) && f == dind_sym() && a.len() == 1 {
        y->Fun_1[0]
    } else {
        Term::Fun(dind_sym(), seq![y])
    }
}

proof fn lemma_f3_subst(ri: Term, ra: Term)
    requires
        ri != wc("a___"@),
        ri != wc("b___"@),
        ri is Fun,
        ri->Fun_1.len() == 1,
    ensures
        subst(call("f_"@, seq![wc("a___"@), ri, wc("b___"@)]), ri, ra) == call(
            "f_"@,
            seq![wc("a___"@), ra, wc("b___"@)],
        ),
{
    let fs = seq![wc("a___"@), ri, wc("b___"@)];
    lemma_subst_pointwise(fs, ri, ra);
    assert(subst_seq(fs, ri, ra) =~= seq![wc("a___"@), ra, wc("b___"@)]);
}

/// Contracting a metric or an identity `m(x, y)` of a dualizable
/// representation with a tensor `f_(.., z, ..)` whose slot `z` contracts with
/// `y` (an upper slot with a lower one, or a lower with an upper) puts the
/// free slot `x` in place of `z`.
pub proof fn law_dualizable_contraction_renames(r: RepModel, j: int)
    requires
        r.orientation == RepOrientation::Up,
        r.name != dind_sym(),
        0 <= j < metric_rules_dualizable(r).len(),
        metric_rules_dualizable(r)[j].lhs is Mul,
        metric_rules_dualizable(r)[j].lhs->Mul_0.len() == 2,
        metric_rules_dualizable(r)[j].lhs->Mul_0[0] is Fun,
        metric_rules_dualizable(r)[j].lhs->Mul_0[0]->Fun_1.len() == 2,
        metric_rules_dualizable(r)[j].lhs->Mul_0[1] is Fun,
        metric_rules_dualizable(r)[j].lhs->Mul_0[1]->Fun_0 == "f_"@,
    ensures
        ({
            let ru = metric_rules_dualizable(r)[j];
            let xs = ru.lhs->Mul_0;
            let ms = xs[0]->Fun_1;
            ru.rhs == subst(xs[1], contracting_slot(ms[1]), ms[0])
        }),
{
    let d = dual_rep(r);
    let ra = rep_symbolic(r, seq![wc("a__"@)]);
    let ri = rep_symbolic(r, seq![wc("i__"@)]);
    let da = rep_symbolic(d, seq![wc("a__"@)]);
    let di = rep_symbolic(d, seq![wc("i__"@)]);
    let rs = metric_rules_dualizable(r);
    reveal_strlit("f_");
    reveal_strlit("g");
    reveal_strlit("id");
    reveal_strlit("dind");
    assert(ri == Term::Fun(r.name, seq![wc("i__"@)]));
    assert(di == Term::Fun(dind_sym(), seq![ri]));
    assert(da == Term::Fun(dind_sym(), seq![ra]));
    assert(contracting_slot(ri) == di);
    assert(contracting_slot(di) == ri);
    lemma_f3_subst(ri, ra);
    lemma_f3_subst(di, da);
    lemma_f3_subst(ri, da);
    lemma_f3_subst(di, ra);
    if j == 6 {
        assert(rs[j].lhs->Mul_0[1]->Fun_0 == "g"@);
        assert("g"@.len() != "f_"@.len());
    }
}

/// The trace of a metric or an identity, `m(rep(d, i), rep(d, i))`, and the
/// square of one give the dimension `d` of its slots, for every self-dual,
/// inline-metric or dualizable representation.
pub proof fn law_metric_traces_give_dimension(r: RepModel)
    requires
        r.orientation != RepOrientation::Down,
    ensures
        forall|j: int|
            0 <= j < metric_rules_self_dual(r).len() ==> #[trigger] dimension_rule(
                metric_rules_self_dual(r)[j],
            ),
        forall|j: int|
            0 <= j < metric_rules_dualizable(r).len() ==> #[trigger] dimension_rule(
                metric_rules_dualizable(r)[j],
            ),
{
    let s = metric_rules_self_dual(r);
    let d = metric_rules_dualizable(r);
    assert(dimension_rule(s[0]));
    assert(dimension_rule(s[1]));
    assert(dimension_rule(s[2]));
    assert(dimension_rule(s[3]));
    assert(dimension_rule(s[4]));
    assert(dimension_rule(d[0]));
    assert(dimension_rule(d[1]));
    assert(dimension_rule(d[2]));
    assert(dimension_rule(d[3]));
    assert(dimension_rule(d[4]));
    assert(dimension_rule(d[5]));
    assert(dimension_rule(d[6]));
}

/// The call that a rule traces: the left-hand side when it is a call, the
/// base of the left-hand side when it is a power.
pub open spec fn traced_call(lhs: Term) -> Term {
    match lhs {
        Term::Pow(b, _) => *b,
        _ => lhs,
    }
}

/// Whether a rule that traces a call of two slots gives the dimension of
/// its first slot: the first argument of the slot, under `dind` for a lower
/// one. Rules on products are not traces.
pub open spec fn dimension_rule(ru: RuleModel) -> bool {
    let c = traced_call(ru.lhs);
    !(ru.lhs is Mul) && c is Fun && c->Fun_1.len() == 2 ==> ru.rhs == slot_dimension(c->Fun_1[0])
}

/// The dimension of a slot `rep(d, i)` or `dind(rep(d, i))`.
pub open spec fn slot_dimension(s: Term) -> Term {
    if s matches Term::Fun(f, a) && f == dind_sym() && a.len() == 1 {
        s->Fun_1[0]->Fun_1[0]
    } else {
        s->Fun_1[0]
    }
}

} // verus!
