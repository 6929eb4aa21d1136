//! Representations: the kinds of index that a tensor slot carries.
//!
//! A representation is either self-dual (its indices contract with indices of
//! the same representation), carries an inline metric (self-dual as well), or is
//! dualizable, in which case it comes in an upper and a lower form and an upper
//! index contracts only with a lower one. The lower form of a dualizable
//! representation is written symbolically as `dind(rep(dim, index))`.
use vstd::prelude::*;
use crate::expr::{Expr, Term, copy_string, lemma_terms_of, terms_of, views};

verus! {

/// The symbol that marks a lowered (dual) index of a dualizable representation.
pub open spec fn dind_sym() -> Seq<char> {
    "dind"@
}

/// The name of the symbol that marks a lowered index.
pub fn dind_name() -> (r: String)
    ensures
        r@ == dind_sym(),
{
    String::from_str("dind")
}

/// How a representation relates to its dual.
#[derive(Clone, Copy, Debug, PartialEq, Eq, Structural)]
pub enum RepOrientation {
    /// Its own dual.
    SelfDual,
    /// Its own dual, with a metric that is not the identity.
    InlineMetric,
    /// The upper (base) form of a dualizable representation.
    Up,
    /// The lower (dual) form of a dualizable representation.
    Down,
}

/// A representation of the library, known by its name.
#[derive(Debug)]
pub struct LibraryRep {
    pub name: String,
    pub orientation: RepOrientation,
}

/// The model of a representation: its name and orientation.
pub struct RepModel {
    pub name: Seq<char>,
    pub orientation: RepOrientation,
}

impl View for LibraryRep {
    type V = RepModel;

    open spec fn view(&self) -> RepModel {
        RepModel { name: self.name@, orientation: self.orientation }
    }
}

/// The dual orientation: upper and lower swap, self-dual ones stay.
pub open spec fn dual_orientation(o: RepOrientation) -> RepOrientation {
    match o {
        RepOrientation::Up => RepOrientation::Down,
        RepOrientation::Down => RepOrientation::Up,
        other => other,
    }
}

/// The dual of a representation.
pub open spec fn dual_rep(r: RepModel) -> RepModel {
    RepModel { name: r.name, orientation: dual_orientation(r.orientation) }
}

/// Whether a representation is its own dual.
pub open spec fn is_self_dual_rep(r: RepModel) -> bool {
    r.orientation == RepOrientation::SelfDual || r.orientation == RepOrientation::InlineMetric
}

/// Whether an index of `a` contracts with an index of `b`.
pub open spec fn rep_matches(a: RepModel, b: RepModel) -> bool {
    a.name == b.name && match (a.orientation, b.orientation) {
        (RepOrientation::SelfDual, RepOrientation::SelfDual) => true,
        (RepOrientation::InlineMetric, RepOrientation::InlineMetric) => true,
        (RepOrientation::Up, RepOrientation::Down) => true,
        (RepOrientation::Down, RepOrientation::Up) => true,
        _ => false,
    }
}

/// The symbolic form `rep(args...)` of a representation applied to arguments;
/// the lower form of a dualizable representation is wrapped in `dind`.
pub open spec fn rep_symbolic(r: RepModel, args: Seq<Term>) -> Term {
    if r.orientation == RepOrientation::Down {
        Term::Fun(dind_sym(), seq![Term::Fun(r.name, args)])
    } else {
        Term::Fun(r.name, args)
    }
}

impl LibraryRep {
    /// A representation with the given name and orientation.
    pub fn new(name: &str, orientation: RepOrientation) -> (r: LibraryRep)
        ensures
            r@ == (RepModel { name: name@, orientation }),
    {
        LibraryRep { name: String::from_str(name), orientation }
    }

    /// A copy of the representation.
    pub fn copy(&self) -> (r: LibraryRep)
        ensures
            r@ == self@,
    {
        LibraryRep { name: copy_string(&self.name), orientation: self.orientation }
    }

    /// The dual representation.
    pub fn dual(&self) -> (r: LibraryRep)
        ensures
            r@ == dual_rep(self@),
    {
        let o = match self.orientation {
            RepOrientation::Up => RepOrientation::Down,
            RepOrientation::Down => RepOrientation::Up,
            other => other,
        };
        LibraryRep { name: copy_string(&self.name), orientation: o }
    }

    /// Whether the representation is its own dual.
    pub fn is_self_dual(&self) -> (r: bool)
        ensures
            r == is_self_dual_rep(self@),
    {
        self.orientation == RepOrientation::SelfDual || self.orientation
            == RepOrientation::InlineMetric
    }

    /// Whether an index of this representation contracts with one of `other`.
    pub fn matches(&self, other: &LibraryRep) -> (r: bool)
        ensures
            r == rep_matches(self@, other@),
    {
        if self.name != other.name {
            return false;
        }
        match (self.orientation, other.orientation) {
            (RepOrientation::SelfDual, RepOrientation::SelfDual) => true,
            (RepOrientation::InlineMetric, RepOrientation::InlineMetric) => true,
            (RepOrientation::Up, RepOrientation::Down) => true,
            (RepOrientation::Down, RepOrientation::Up) => true,
            _ => false,
        }
    }

    /// Whether two representations are the same.
    pub fn same(&self, other: &LibraryRep) -> (r: bool)
        ensures
            r == (self@ == other@),
    {
        self.name == other.name && self.orientation == other.orientation
    }

    /// The symbolic form of the representation applied to `args`.
    pub fn to_symbolic(&self, args: Vec<Expr>) -> (r: Expr)
        ensures
            r@ == rep_symbolic(self@, views(args)),
    {
        let inner = Expr::Fun(copy_string(&self.name), args);
        if self.orientation == RepOrientation::Down {
            let v = vec![inner];
            proof {
                lemma_terms_of(v@);
                assert(terms_of(v@) =~= seq![inner@]);
            }
            Expr::Fun(dind_name(), v)
        } else {
            inner
        }
    }
}

/// Taking the dual twice gives back the representation.
pub proof fn law_dual_involution(r: RepModel)
    ensures
        dual_rep(dual_rep(r)) == r,
{
}

/// Contraction is symmetric, and every representation contracts with its dual.
pub proof fn law_matches_dual(a: RepModel, b: RepModel)
    ensures
        rep_matches(a, b) == rep_matches(b, a),
        rep_matches(a, dual_rep(a)),
        rep_matches(a, b) ==> b == dual_rep(a),
{
}

/// A representation is its own dual exactly when it is self-dual.
pub proof fn law_self_dual_fixed(r: RepModel)
    ensures
        is_self_dual_rep(r) <==> dual_rep(r) == r,
{
}

} // verus!
