//! Symbolic expressions as plain values.
//!
//! An [`Expr`] is the library's own form of a symbolic expression: integers,
//! variables, function calls, sums, products and powers. Its view is the
//! mathematical [`Term`], over which every contract of the library speaks.
use vstd::prelude::*;

verus! {

/// The mathematical model of a symbolic expression.
pub enum Term {
    Num(i64),
    Var(Seq<char>),
    Fun(Seq<char>, Seq<Term>),
    Add(Seq<Term>),
    Mul(Seq<Term>),
    Pow(Box<Term>, Box<Term>),
}

/// A symbolic expression.
#[derive(Debug)]
pub enum Expr {
    /// An integer.
    Num(i64),
    /// A variable, by its symbol name.
    Var(String),
    /// A function call `f(args...)`.
    Fun(String, Vec<Expr>),
    /// A sum of terms.
    Add(Vec<Expr>),
    /// A product of factors.
    Mul(Vec<Expr>),
    /// A power `base^exponent`.
    Pow(Box<Expr>, Box<Expr>),
}

pub open spec fn term_of(e: Expr) -> Term
    decreases e,
{
    match e {
        Expr::Num(n) => Term::Num(n),
        Expr::Var(s) => Term::Var(s@),
        Expr::Fun(f, args) => Term::Fun(f@, terms_of(args@)),
        Expr::Add(xs) => Term::Add(terms_of(xs@)),
        Expr::Mul(xs) => Term::Mul(terms_of(xs@)),
        Expr::Pow(b, x) => Term::Pow(Box::new(term_of(*b)), Box::new(term_of(*x))),
    }
}

pub open spec fn terms_of(s: Seq<Expr>) -> Seq<Term>
    decreases s,
{
    if s.len() == 0 {
        Seq::empty()
    } else {
        terms_of(s.drop_last()).push(term_of(s.last()))
    }
}

impl View for Expr {
    type V = Term;

    open spec fn view(&self) -> Term {
        term_of(*self)
    }
}

/// The views of a vector of expressions.
pub open spec fn views(v: Vec<Expr>) -> Seq<Term> {
    terms_of(v@)
}

/// `terms_of` maps each element to its view.
pub broadcast proof fn lemma_terms_of(s: Seq<Expr>)
    ensures
        #[trigger] terms_of(s).len() == s.len(),
        forall|i: int| 0 <= i < s.len() ==> #[trigger] terms_of(s)[i] == term_of(s[i]),
    decreases s.len(),
{
    if s.len() > 0 {
        lemma_terms_of(s.drop_last());
    }
}

/// `terms_of` distributes over pushing one more element.
pub proof fn lemma_terms_of_push(s: Seq<Expr>, e: Expr)
    ensures
        terms_of(s.push(e)) == terms_of(s).push(term_of(e)),
{
    assert(s.push(e).drop_last() =~= s);
}

/// Two sequences of expressions have equal views exactly when they agree pointwise.
pub proof fn lemma_terms_of_eq(a: Seq<Expr>, b: Seq<Expr>)
    ensures
        (terms_of(a) == terms_of(b)) <==> (a.len() == b.len() && forall|i: int|
            0 <= i < a.len() ==> term_of(a[i]) == term_of(b[i])),
{
    lemma_terms_of(a);
    lemma_terms_of(b);
    if a.len() == b.len() && forall|i: int| 0 <= i < a.len() ==> term_of(a[i]) == term_of(b[i]) {
        assert(terms_of(a) =~= terms_of(b));
    }
    if terms_of(a) == terms_of(b) {
        assert forall|i: int| 0 <= i < a.len() implies term_of(a[i]) == term_of(b[i]) by {
            assert(terms_of(a)[i] == terms_of(b)[i]);
        }
    }
}

/// A copy of a string with the same characters.
pub fn copy_string(s: &String) -> (r: String)
    ensures
        r@ == s@,
{
    s.clone()
}

impl Expr {
    /// A deep copy of the expression.
    pub fn deep_clone(&self) -> (r: Expr)
        ensures
            r@ == self@,
        decreases self,
    {
        match self {
            Expr::Num(n) => Expr::Num(*n),
            Expr::Var(s) => Expr::Var(copy_string(s)),
            Expr::Fun(f, args) => Expr::Fun(copy_string(f), clone_all(args)),
            Expr::Add(xs) => Expr::Add(clone_all(xs)),
            Expr::Mul(xs) => Expr::Mul(clone_all(xs)),
            Expr::Pow(b, x) => {
                let b2 = b.deep_clone();
                let x2 = x.deep_clone();
                Expr::Pow(Box::new(b2), Box::new(x2))
            },
        }
    }
}

/// A deep copy of every expression of a vector.
pub fn clone_all(v: &Vec<Expr>) -> (r: Vec<Expr>)
    ensures
        views(r) == views(*v),
    decreases v,
{
    let mut r: Vec<Expr> = Vec::new();
    let mut i: usize = 0;
    while i < v.len()
        invariant
            i <= v.len(),
            r.len() == i,
            forall|j: int| 0 <= j < i ==> term_of(#[trigger] r@[j]) == term_of(v@[j]),
        decreases v.len() - i,
    {
        let c = v[i].deep_clone();
        r.push(c);
        i = i + 1;
    }
    proof {
        lemma_terms_of_eq(r@, v@);
    }
    r
}

/// Whether two expressions are structurally equal.
pub fn expr_eq(a: &Expr, b: &Expr) -> (r: bool)
    ensures
        r == (a@ == b@),
    decreases a,
{
    match (a, b) {
        (Expr::Num(x), Expr::Num(y)) => *x == *y,
        (Expr::Var(x), Expr::Var(y)) => *x == *y,
        (Expr::Fun(f, xs), Expr::Fun(g, ys)) => {
            if *f == *g {
                all_eq(xs, ys)
            } else {
                false
            }
        },
        (Expr::Add(xs), Expr::Add(ys)) => all_eq(xs, ys),
        (Expr::Mul(xs), Expr::Mul(ys)) => all_eq(xs, ys),
        (Expr::Pow(b1, e1), Expr::Pow(b2, e2)) => {
            if expr_eq(b1, b2) {
                expr_eq(e1, e2)
            } else {
                false
            }
        },
        _ => false,
    }
}

/// Whether two vectors of expressions are pointwise structurally equal.
pub fn all_eq(xs: &Vec<Expr>, ys: &Vec<Expr>) -> (r: bool)
    ensures
        r == (views(*xs) == views(*ys)),
    decreases xs,
{
    proof {
        lemma_terms_of_eq(xs@, ys@);
    }
    if xs.len() != ys.len() {
        return false;
    }
    let mut i: usize = 0;
    while i < xs.len()
        invariant
            i <= xs.len(),
            xs.len() == ys.len(),
            forall|j: int| 0 <= j < i ==> term_of(#[trigger] xs@[j]) == term_of(ys@[j]),
        decreases xs.len() - i,
    {
        if !expr_eq(&xs[i], &ys[i]) {
            proof {
                lemma_terms_of_eq(xs@, ys@);
            }
            return false;
        }
        i = i + 1;
    }
    true
}

} // verus!
