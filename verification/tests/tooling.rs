use symbolica_community::conj::conj_impl;
use symbolica_community::cook::{cook_function, cook_indices, decimal_string, CookingError};
use symbolica_community::expr::{expr_eq, Expr};
use symbolica_community::representations::initialize;
use symbolica_community::trace::trace;
use symbolica_community::tooling::{list_dangling_impl, wrap_dummies_impl, wrap_indices_impl};

fn v(s: &str) -> Expr {
    Expr::Var(s.to_string())
}

fn n(i: i64) -> Expr {
    Expr::Num(i)
}

fn f(name: &str, args: Vec<Expr>) -> Expr {
    Expr::Fun(name.to_string(), args)
}

fn mul(xs: Vec<Expr>) -> Expr {
    Expr::Mul(xs)
}

fn mink(d: i64, i: Expr) -> Expr {
    f("mink", vec![n(d), i])
}

fn lor(d: i64, i: Expr) -> Expr {
    f("lor", vec![n(d), i])
}

fn dind(x: Expr) -> Expr {
    f("dind", vec![x])
}

fn assert_same(a: &Expr, b: &Expr) {
    assert!(expr_eq(a, b), "got {:?}, expected {:?}", a, b);
}

fn assert_all_same(a: &[Expr], b: &[Expr]) {
    assert_eq!(a.len(), b.len(), "got {:?}, expected {:?}", a, b);
    for (x, y) in a.iter().zip(b.iter()) {
        assert_same(x, y);
    }
}

#[test]
fn wrap_indices_wraps_plain_slots() {
    let t = initialize();
    let e = f("p", vec![mink(4, v("mu"))]);
    let r = wrap_indices_impl(&t, &e, &"left".to_string());
    assert_same(&r, &f("p", vec![mink(4, f("left", vec![v("mu")]))]));

    let e = mul(vec![f("p", vec![mink(4, n(1))]), f("q", vec![lor(4, v("nu")), dind(lor(4, v("rho")))])]);
    let r = wrap_indices_impl(&t, &e, &"h".to_string());
    let expected = mul(vec![
        f("p", vec![mink(4, f("h", vec![n(1)]))]),
        f("q", vec![lor(4, f("h", vec![v("nu")])), dind(lor(4, f("h", vec![v("rho")])))]),
    ]);
    assert_same(&r, &expected);
}

#[test]
fn wrap_indices_leaves_structured_indices_and_bare_slots() {
    let t = initialize();
    let e = f("q", vec![mink(4, f("g", vec![v("nu")]))]);
    let r = wrap_indices_impl(&t, &e, &"left".to_string());
    assert_same(&r, &e);
    let bare = mink(4, v("mu"));
    let r = wrap_indices_impl(&t, &bare, &"left".to_string());
    assert_same(&r, &bare);
    let unknown = f("p", vec![f("flavor", vec![n(4), v("mu")])]);
    let r = wrap_indices_impl(&t, &unknown, &"left".to_string());
    assert_same(&r, &unknown);
}

#[test]
fn wrap_indices_twice_is_once() {
    let t = initialize();
    let e = mul(vec![f("p", vec![mink(4, v("mu"))]), f("gamma", vec![mink(4, v("mu")), f("bis", vec![n(4), n(1)]), f("bis", vec![n(4), n(2)])])]);
    let once = wrap_indices_impl(&t, &e, &"left".to_string());
    let twice = wrap_indices_impl(&t, &once, &"left".to_string());
    assert_same(&once, &twice);
}

#[test]
fn cook_function_joins_names() {
    let r = cook_function(&f("f", vec![v("a"), v("b")])).unwrap();
    assert_same(&r, &v("f_a_b"));
    let r = cook_function(&f("f", vec![v("a"), f("g", vec![v("b")]), n(12)])).unwrap();
    assert_same(&r, &v("f_a_g_b_12"));
    let r = cook_function(&f("h", vec![])).unwrap();
    assert_same(&r, &v("h"));
}

#[test]
fn cook_function_refuses() {
    assert_eq!(cook_function(&v("x")).unwrap_err(), CookingError::NotAFunction);
    assert_eq!(cook_function(&n(3)).unwrap_err(), CookingError::NotAFunction);
    let sum = Expr::Add(vec![v("x"), v("y")]);
    assert_eq!(cook_function(&f("f", vec![sum])).unwrap_err(), CookingError::NotCookable);
    assert_eq!(cook_function(&f("f", vec![n(-1)])).unwrap_err(), CookingError::NotCookable);
}

#[test]
fn decimal_strings() {
    assert_eq!(decimal_string(0), "0");
    assert_eq!(decimal_string(7), "7");
    assert_eq!(decimal_string(1203), "1203");
}

#[test]
fn cook_indices_flattens_structured_indices() {
    let t = initialize();
    let e = f("p", vec![mink(4, f("f", vec![f("g", vec![v("mu")])]))]);
    let r = cook_indices(&t, &e);
    assert_same(&r, &f("p", vec![mink(4, v("f_g_mu"))]));
    let again = cook_indices(&t, &r);
    assert_same(&again, &r);
    let plain = f("p", vec![mink(4, v("mu"))]);
    assert_same(&cook_indices(&t, &plain), &plain);
}

#[test]
fn list_dangling_open_indices() {
    let t = initialize();
    let e = mul(vec![f("p", vec![mink(4, v("mu"))]), f("q", vec![mink(4, v("nu"))])]);
    let r = list_dangling_impl(&t, &e);
    assert_all_same(&r, &[mink(4, v("mu")), mink(4, v("nu"))]);
}

#[test]
fn list_dangling_contracted_indices() {
    let t = initialize();
    let e = mul(vec![f("p", vec![mink(4, v("mu"))]), f("q", vec![mink(4, v("mu"))])]);
    assert!(list_dangling_impl(&t, &e).is_empty());
    let e = mul(vec![f("p", vec![lor(4, v("mu"))]), f("q", vec![dind(lor(4, v("mu")))])]);
    assert!(list_dangling_impl(&t, &e).is_empty());
}

#[test]
fn list_dangling_lowered_indices() {
    let t = initialize();
    let e = mul(vec![f("p", vec![lor(4, v("mu"))]), f("q", vec![dind(lor(4, v("nu")))])]);
    let r = list_dangling_impl(&t, &e);
    assert_all_same(&r, &[lor(4, v("mu")), dind(lor(4, v("nu")))]);
}

#[test]
fn list_dangling_reads_the_first_term() {
    let t = initialize();
    let e = Expr::Add(vec![
        f("p", vec![mink(4, v("mu"))]),
        f("q", vec![mink(4, v("nu"))]),
    ]);
    let r = list_dangling_impl(&t, &e);
    assert_all_same(&r, &[mink(4, v("mu"))]);
    assert!(list_dangling_impl(&t, &Expr::Add(vec![])).is_empty());
}

#[test]
fn wrap_dummies_wraps_only_contracted_indices() {
    let t = initialize();
    let e = mul(vec![
        f("p", vec![mink(4, v("mu"))]),
        f("q", vec![mink(4, v("mu"))]),
        f("r", vec![mink(4, v("nu"))]),
    ]);
    let r = wrap_dummies_impl(&t, &e, &e, &"in".to_string());
    let w = mink(4, f("in", vec![v("mu")]));
    let expected = mul(vec![
        f("p", vec![w]),
        f("q", vec![mink(4, f("in", vec![v("mu")]))]),
        f("r", vec![mink(4, v("nu"))]),
    ]);
    assert_same(&r, &expected);
}

#[test]
fn wrap_dummies_wraps_lowered_forms() {
    let t = initialize();
    let e = mul(vec![f("p", vec![lor(4, v("mu"))]), f("q", vec![dind(lor(4, v("mu")))])]);
    let r = wrap_dummies_impl(&t, &e, &e, &"in".to_string());
    let expected = mul(vec![
        f("p", vec![lor(4, f("in", vec![v("mu")]))]),
        f("q", vec![dind(lor(4, f("in", vec![v("mu")])))]),
    ]);
    assert_same(&r, &expected);
    let open = mul(vec![f("p", vec![lor(4, v("mu"))]), f("q", vec![lor(4, v("nu"))])]);
    assert_same(&wrap_dummies_impl(&t, &open, &open, &"in".to_string()), &open);
}

#[test]
fn wrap_dummies_can_be_undone() {
    let t = initialize();
    let e = mul(vec![
        f("p", vec![mink(4, v("mu")), lor(4, v("rho"))]),
        f("q", vec![mink(4, v("mu"))]),
        f("r", vec![dind(lor(4, v("rho"))), mink(4, v("nu"))]),
    ]);
    let r = wrap_dummies_impl(&t, &e, &e, &"in".to_string());
    assert!(!expr_eq(&r, &e));
    assert_same(&unwrap("in", &r), &e);
    assert!(!stands_in(&mink(4, v("mu")), &r));
    assert!(!stands_in(&lor(4, v("rho")), &r));
    assert!(stands_in(&mink(4, v("nu")), &r));
}

fn stands_in(x: &Expr, e: &Expr) -> bool {
    expr_eq(x, e)
        || match e {
            Expr::Fun(_, xs) | Expr::Add(xs) | Expr::Mul(xs) => xs.iter().any(|a| stands_in(x, a)),
            Expr::Pow(b, p) => stands_in(x, b) || stands_in(x, p),
            _ => false,
        }
}

#[test]
fn trace_gives_the_expression_back() {
    let e = mul(vec![f("gamma", vec![mink(4, v("mu")), v("a"), v("a")]), n(2)]);
    assert_same(&trace(&e), &e);
}

fn neg(x: Expr) -> Expr {
    mul(vec![n(-1), x])
}

#[test]
fn conj_rules() {
    assert_same(&conj_impl(&v("𝑖")), &neg(v("𝑖")));
    assert_same(&conj_impl(&v("x")), &v("x"));
    assert_same(&conj_impl(&f("u", vec![v("p")])), &f("ubar", vec![v("p")]));
    assert_same(&conj_impl(&f("vbar", vec![v("p")])), &f("v", vec![v("p")]));
    assert_same(&conj_impl(&f("eps", vec![v("k")])), &f("epsbar", vec![v("k")]));
    assert_same(
        &conj_impl(&f("gamma", vec![v("mu"), v("a"), v("b")])),
        &neg(f("gamma", vec![v("mu"), v("b"), v("a")])),
    );
    assert_same(
        &conj_impl(&f("gamma5", vec![v("a"), v("b")])),
        &f("gamma5", vec![v("b"), v("a")]),
    );
    let cof = |x: &str| f("cof", vec![n(3), v(x)]);
    assert_same(&conj_impl(&cof("i")), &dind(cof("i")));
    assert_same(&conj_impl(&dind(cof("i"))), &cof("i"));
    assert_same(
        &conj_impl(&f("t", vec![v("a"), cof("i"), dind(cof("j"))])),
        &f("t", vec![v("a"), cof("j"), dind(cof("i"))]),
    );
}

#[test]
fn conj_of_a_negation() {
    let g = f("gamma", vec![v("mu"), v("a"), v("b")]);
    assert_same(&conj_impl(&neg(g)), &f("gamma", vec![v("mu"), v("b"), v("a")]));
    assert_same(&conj_impl(&neg(v("𝑖"))), &v("𝑖"));
    assert_same(&conj_impl(&neg(v("x"))), &neg(v("x")));
}

#[test]
fn conj_twice_gives_back() {
    let e = Expr::Add(vec![
        mul(vec![v("𝑖"), f("u", vec![v("p")]), f("gamma", vec![mink(4, v("mu")), f("bis", vec![n(4), n(1)]), f("bis", vec![n(4), n(2)])])]),
        Expr::Pow(Box::new(f("eps", vec![v("k")])), Box::new(n(2))),
        f("t", vec![f("coad", vec![n(8), v("a")]), f("cof", vec![n(3), v("i")]), dind(f("cof", vec![n(3), v("j")]))]),
    ]);
    let once = conj_impl(&e);
    assert!(!expr_eq(&once, &e));
    let twice = conj_impl(&once);
    assert_same(&twice, &e);
    let lowered_twice = dind(dind(v("x")));
    assert_same(&conj_impl(&conj_impl(&lowered_twice)), &lowered_twice);
}

fn unwrap(header: &str, e: &Expr) -> Expr {
    match e {
        Expr::Fun(f, args) if f == header && args.len() == 1 => unwrap(header, &args[0]),
        Expr::Fun(f, args) => Expr::Fun(f.clone(), args.iter().map(|a| unwrap(header, a)).collect()),
        Expr::Add(xs) => Expr::Add(xs.iter().map(|a| unwrap(header, a)).collect()),
        Expr::Mul(xs) => Expr::Mul(xs.iter().map(|a| unwrap(header, a)).collect()),
        Expr::Pow(b, x) => Expr::Pow(Box::new(unwrap(header, b)), Box::new(unwrap(header, x))),
        Expr::Num(n) => Expr::Num(*n),
        Expr::Var(s) => Expr::Var(s.clone()),
    }
}

fn plain_slot_left(e: &Expr, reps: &[&str]) -> bool {
    match e {
        Expr::Fun(_, args) => args.iter().any(|a| {
            let plain = matches!(a, Expr::Fun(r, xs) if reps.contains(&r.as_str()) && xs.len() == 2
                && matches!(xs[1], Expr::Num(_) | Expr::Var(_)));
            plain || plain_slot_left(a, reps)
        }),
        Expr::Add(xs) | Expr::Mul(xs) => xs.iter().any(|a| plain_slot_left(a, reps)),
        Expr::Pow(b, x) => plain_slot_left(b, reps) || plain_slot_left(x, reps),
        _ => false,
    }
}

#[test]
fn wrapping_leaves_no_plain_index_and_unwraps_back() {
    let t = initialize();
    let reps = ["euc", "mink", "lor", "spf", "bis", "coad", "cof", "cos"];
    let e = Expr::Add(vec![
        mul(vec![
            f("p", vec![mink(4, v("mu"))]),
            f("gamma", vec![mink(4, v("mu")), f("bis", vec![n(4), n(1)]), f("bis", vec![n(4), v("j")])]),
        ]),
        f("q", vec![dind(lor(4, v("nu"))), f("g", vec![f("cof", vec![n(3), n(2)])])]),
    ]);
    assert!(plain_slot_left(&e, &reps));
    let r = wrap_indices_impl(&t, &e, &"left".to_string());
    assert!(!plain_slot_left(&r, &reps));
    assert_same(&unwrap("left", &r), &e);
}
