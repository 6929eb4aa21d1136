//! The trace of an expression.
use vstd::prelude::*;
use crate::expr::Expr;

verus! {

/// The trace of an expression. No trace is taken yet: the expression comes
/// back as it is.
pub fn trace(a: &Expr) -> (r: Expr)
    ensures
        r@ == a@,
{
    a.deep_clone()
}

} // verus!
