use symbolica_community::color::{color_outcome, ColorError};
use symbolica_community::expr::{expr_eq, Expr};
use symbolica_community::gamma::{gamma_chain_accumulator, gamma_tracer};
use symbolica_community::representations::initialize;
use symbolica_community::rules::{
    chain_rules, color_rules, dots_rules, gamma_rules, gamma_square_rule, metric_rules,
    structure_constant_rule, trace_rule,
};

fn v(s: &str) -> Expr {
    Expr::Var(s.to_string())
}

fn n(i: i64) -> Expr {
    Expr::Num(i)
}

fn f(name: &str, args: Vec<Expr>) -> Expr {
    Expr::Fun(name.to_string(), args)
}

fn mink(d: i64, i: &str) -> Expr {
    f("mink", vec![n(d), v(i)])
}

fn assert_same(a: &Expr, b: &Expr) {
    assert!(expr_eq(a, b), "got {:?}, expected {:?}", a, b);
}

#[test]
fn gamma_chain_anticommutes_the_first_descent() {
    let chain = f("gamma_chain", vec![mink(4, "nu"), mink(4, "mu"), v("b1"), v("b2")]);
    let r = gamma_chain_accumulator(&chain, &vec![true]).unwrap();
    let expected = Expr::Add(vec![
        Expr::Mul(vec![
            n(2),
            f("g", vec![mink(4, "mu"), mink(4, "nu")]),
            f("gamma_chain", vec![v("b1"), v("b2")]),
        ]),
        Expr::Mul(vec![n(-1), f("gamma_chain", vec![mink(4, "mu"), mink(4, "nu"), v("b1"), v("b2")])]),
    ]);
    assert_same(&r, &expected);
}

#[test]
fn gamma_chain_picks_the_first_descent_among_lorentz_indices() {
    let chain = f("gamma_chain", vec![v("a"), v("c"), v("b"), v("s1"), v("s2")]);
    let r = gamma_chain_accumulator(&chain, &vec![false, true]).unwrap();
    let expected = Expr::Add(vec![
        Expr::Mul(vec![
            n(2),
            f("g", vec![v("b"), v("c")]),
            f("gamma_chain", vec![v("a"), v("s1"), v("s2")]),
        ]),
        Expr::Mul(vec![n(-1), f("gamma_chain", vec![v("a"), v("b"), v("c"), v("s1"), v("s2")])]),
    ]);
    assert_same(&r, &expected);
}

#[test]
fn gamma_chain_in_order_is_left() {
    let chain = f("gamma_chain", vec![mink(4, "mu"), mink(4, "nu"), v("b1"), v("b2")]);
    assert!(gamma_chain_accumulator(&chain, &vec![false]).is_none());
    let short = f("gamma_chain", vec![mink(4, "mu"), v("b1"), v("b2")]);
    assert!(gamma_chain_accumulator(&short, &vec![true, true]).is_none());
    assert!(gamma_chain_accumulator(&f("gamma", vec![v("a"), v("b"), v("c"), v("d")]), &vec![true]).is_none());
    let chain = f("gamma_chain", vec![v("a"), v("b"), v("c"), v("s1"), v("s2")]);
    assert!(gamma_chain_accumulator(&chain, &vec![false]).is_none());
}

#[test]
fn gamma_trace_of_two() {
    let tr = f("gamma_trace", vec![mink(4, "mu"), mink(4, "nu")]);
    let r = gamma_tracer(&tr).unwrap();
    let expected = Expr::Add(vec![Expr::Mul(vec![n(1), n(4), f("g", vec![mink(4, "mu"), mink(4, "nu")])])]);
    assert_same(&r, &expected);
}

#[test]
fn gamma_trace_of_a_repeated_index_is_the_dimension() {
    let tr = f("gamma_trace", vec![f("mink", vec![v("dim"), v("mu")]), f("mink", vec![v("dim"), v("mu")])]);
    let r = gamma_tracer(&tr).unwrap();
    assert_same(&r, &Expr::Add(vec![Expr::Mul(vec![n(1), n(4), v("dim")])]));
}

#[test]
fn gamma_trace_of_four() {
    let tr = f("gamma_trace", vec![v("a"), v("b"), v("c"), v("d")]);
    let r = gamma_tracer(&tr).unwrap();
    let expected = Expr::Add(vec![
        Expr::Mul(vec![n(1), f("g", vec![v("a"), v("b")]), f("gamma_trace", vec![v("c"), v("d")])]),
        Expr::Mul(vec![n(-1), f("g", vec![v("a"), v("c")]), f("gamma_trace", vec![v("b"), v("d")])]),
        Expr::Mul(vec![n(1), f("g", vec![v("a"), v("d")]), f("gamma_trace", vec![v("b"), v("c")])]),
    ]);
    assert_same(&r, &expected);
}

#[test]
fn gamma_trace_of_one_or_none() {
    assert_same(&gamma_tracer(&f("gamma_trace", vec![v("a")])).unwrap(), &n(0));
    assert_same(&gamma_tracer(&f("gamma_trace", vec![])).unwrap(), &n(0));
    assert!(gamma_tracer(&f("gamma_chain", vec![v("a")])).is_none());
}

#[test]
fn color_outcome_fully_simplified() {
    let e = Expr::Mul(vec![v("Nc"), v("TR")]);
    match color_outcome(e) {
        Ok(x) => assert_same(&x, &Expr::Mul(vec![v("Nc"), v("TR")])),
        Err(_) => panic!("no color index is left"),
    }
}

#[test]
fn color_outcome_not_fully_simplified() {
    let e = Expr::Mul(vec![v("TR"), f("t", vec![v("a"), f("cof", vec![n(3), v("i")]), v("j")])]);
    match color_outcome(e) {
        Err(ColorError::NotFully(x)) => assert_same(
            &x,
            &Expr::Mul(vec![v("TR"), f("t", vec![v("a"), f("cof", vec![n(3), v("i")]), v("j")])]),
        ),
        Ok(_) => panic!("a color index is left"),
    }
    assert!(color_outcome(f("dind", vec![f("cos", vec![n(6), v("i")])])).is_err());
    assert!(color_outcome(f("p", vec![f("coad", vec![n(8), v("a")])])).is_err());
}

#[test]
fn rule_tables_for_the_library() {
    let t = initialize();
    assert_eq!(metric_rules(&t).len(), 3 * 5 + 5 + 4 * 7);
    assert_eq!(dots_rules(&t).len(), 3 * 4 + 4 + 4);
    assert_eq!(gamma_rules().len(), 7);
    assert_eq!(chain_rules().len(), 3);
    assert_eq!(color_rules().len(), 13);
}

#[test]
fn the_trace_and_square_rules() {
    let r = trace_rule();
    assert_same(&r.lhs, &f("gamma_chain", vec![v("a__"), v("x_"), v("x_")]));
    assert_same(&r.rhs, &f("gamma_trace", vec![v("a__")]));
    assert!(r.atomic.is_empty());
    let s = gamma_square_rule();
    assert_same(&s.rhs, &Expr::Mul(vec![v("d_"), n(4)]));
    let c = structure_constant_rule();
    assert_same(
        &c.lhs,
        &f("f", vec![f("coad", vec![v("a_")]), f("coad", vec![v("b_")]), f("coad", vec![v("c_")])]),
    );
}

#[test]
fn metric_rules_start_with_the_euclidean_identity() {
    let t = initialize();
    let rules = metric_rules(&t);
    let first = &rules[0];
    let euc = |x: &str| f("euc", vec![v(x)]);
    assert_same(
        &first.lhs,
        &Expr::Mul(vec![
            f("id", vec![euc("a__"), euc("i__")]),
            f("f_", vec![v("a___"), euc("i__"), v("b___")]),
        ]),
    );
    assert_same(&first.rhs, &f("f_", vec![v("a___"), euc("a__"), v("b___")]));
    let dots = dots_rules(&t);
    assert_eq!(dots[2].atomic, vec!["x_".to_string(), "y_".to_string()]);
}
