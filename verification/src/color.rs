//! The verdict of color simplification: an expression is fully simplified
//! when no color index is left in it.
use vstd::prelude::*;
use crate::expr::{Expr, Term, lemma_terms_of};

verus! {

/// Color simplification left explicit color indices; the partially
/// simplified expression is kept.
#[derive(Debug)]
pub enum ColorError {
    NotFully(Expr),
}

/// Whether `f` names a color representation: the adjoint, the fundamental or
/// the sextet.
pub open spec fn is_color_rep(f: Seq<char>) -> bool {
    f == "coad"@ || f == "cof"@ || f == "cos"@
}

/// Whether a color index `coad(...)`, `cof(...)` or `cos(...)` occurs in a term,
/// at any depth (a lowered one `dind(cof(...))` included).
pub open spec fn has_color_index(t: Term) -> bool
    decreases t,
{
    match t {
        Term::Fun(f, args) => is_color_rep(f) || any_color_index(args),
        Term::Add(xs) => any_color_index(xs),
        Term::Mul(xs) => any_color_index(xs),
        Term::Pow(b, x) => has_color_index(*b) || has_color_index(*x),
        _ => false,
    }
}

pub open spec fn any_color_index(s: Seq<Term>) -> bool
    decreases s,
{
    if s.len() == 0 {
        false
    } else {
        any_color_index(s.drop_last()) || has_color_index(s.last())
    }
}

fn is_color_rep_exec(f: &String) -> (r: bool)
    ensures
        r == is_color_rep(f@),
{
    *f == String::from_str("coad") || *f == String::from_str("cof") || *f == String::from_str("cos")
}

fn has_color_index_exec(e: &Expr) -> (r: bool)
    ensures
        r == has_color_index(e@),
    decreases e,
{
    match e {
        Expr::Fun(f, args) => is_color_rep_exec(f) || any_color_index_exec(args),
        Expr::Add(xs) => any_color_index_exec(xs),
        Expr::Mul(xs) => any_color_index_exec(xs),
        Expr::Pow(b, x) => has_color_index_exec(b) || has_color_index_exec(x),
        _ => false,
    }
}

fn any_color_index_exec(xs: &Vec<Expr>) -> (r: bool)
    ensures
        r == any_color_index(crate::expr::views(*xs)),
    decreases xs,
{
    proof {
        lemma_terms_of(xs@);
    }
    let ghost s = crate::expr::views(*xs);
    let mut i: usize = 0;
    proof {
        assert(s.take(0) =~= Seq::<Term>::empty());
    }
    while i < xs.len()
        invariant
            i <= xs.len(),
            s == crate::expr::views(*xs),
            s.len() == xs.len(),
            forall|j: int| 0 <= j < xs.len() ==> s[j] == #[trigger] xs@[j]@,
            !any_color_index(s.take(i as int)),
        decreases xs.len() - i,
    {
        proof {
            assert(s.take(i + 1).drop_last() =~= s.take(i as int));
        }
        if has_color_index_exec(&xs[i]) {
            proof {
                lemma_any_color_prefix(s, i as int + 1);
            }
            return true;
        }
        i = i + 1;
    }
    proof {
        assert(s.take(xs.len() as int) =~= s);
    }
    false
}

/// A color index in a prefix is a color index in the whole sequence.
proof fn lemma_any_color_prefix(s: Seq<Term>, k: int)
    requires
        0 <= k <= s.len(),
        any_color_index(s.take(k)),
    ensures
        any_color_index(s),
    decreases s.len() - k,
{
    if k < s.len() {
        assert(s.take(k + 1).drop_last() =~= s.take(k));
        lemma_any_color_prefix(s, k + 1);
    } else {
        assert(s.take(k) =~= s);
    }
}

/// The outcome of color simplification on its final expression: the
/// expression when no color index is left in it, `NotFully` with the
/// expression otherwise.
pub fn color_outcome(e: Expr) -> (r: Result<Expr, ColorError>)
    ensures
        match r {
            Ok(x) => !has_color_index(e@) && x@ == e@,
            Err(ColorError::NotFully(x)) => has_color_index(e@) && x@ == e@,
        },
{
    if has_color_index_exec(&e) {
        Err(ColorError::NotFully(e))
    } else {
        Ok(e)
    }
}

} // verus!
