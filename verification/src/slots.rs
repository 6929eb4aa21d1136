//! Dimensions, abstract indices, dimensioned representations and slots.
use vstd::prelude::*;
use crate::expr::{Expr, Term, copy_string, lemma_terms_of, terms_of, views};
use crate::reps::{LibraryRep, RepModel, dual_rep, rep_symbolic};

verus! {

/// The dimension of a representation: a number or a symbol.
#[derive(Debug)]
pub enum Dimension {
    Concrete(usize),
    Symbolic(String),
}

pub enum DimModel {
    Concrete(usize),
    Symbolic(Seq<char>),
}

impl View for Dimension {
    type V = DimModel;

    open spec fn view(&self) -> DimModel {
        match self {
            Dimension::Concrete(n) => DimModel::Concrete(*n),
            Dimension::Symbolic(s) => DimModel::Symbolic(s@),
        }
    }
}

/// The symbolic form of a dimension.
pub open spec fn dim_term(d: DimModel) -> Term {
    match d {
        DimModel::Concrete(n) => Term::Num(n as i64),
        DimModel::Symbolic(s) => Term::Var(s),
    }
}

impl Dimension {
    pub fn copy(&self) -> (r: Dimension)
        ensures
            r@ == self@,
    {
        match self {
            Dimension::Concrete(n) => Dimension::Concrete(*n),
            Dimension::Symbolic(s) => Dimension::Symbolic(copy_string(s)),
        }
    }

    /// The symbolic form of the dimension.
    pub fn to_symbolic(&self) -> (r: Expr)
        ensures
            r@ == dim_term(self@),
    {
        match self {
            Dimension::Concrete(n) => Expr::Num(*n as i64),
            Dimension::Symbolic(s) => Expr::Var(copy_string(s)),
        }
    }
}

/// The name of an index: a number (upper or lowered) or a symbol.
#[derive(Debug)]
pub enum AbstractIndex {
    Normal(usize),
    Dualize(usize),
    Symbol(String),
}

pub enum AindModel {
    Normal(usize),
    Dualize(usize),
    Symbol(Seq<char>),
}

impl View for AbstractIndex {
    type V = AindModel;

    open spec fn view(&self) -> AindModel {
        match self {
            AbstractIndex::Normal(n) => AindModel::Normal(*n),
            AbstractIndex::Dualize(n) => AindModel::Dualize(*n),
            AbstractIndex::Symbol(s) => AindModel::Symbol(s@),
        }
    }
}

/// The index named by a signed integer: negative integers name lowered indices.
pub open spec fn aind_of_int(i: int) -> AindModel {
    if i < 0 {
        AindModel::Dualize((-i) as usize)
    } else {
        AindModel::Normal(i as usize)
    }
}

/// Negation on 64-bit integers, where the least one is its own negation.
pub open spec fn neg_i64(x: i64) -> i64 {
    if x == i64::MIN {
        i64::MIN
    } else {
        (-x) as i64
    }
}

/// The symbolic form of an index.
pub open spec fn aind_term(a: AindModel) -> Term {
    match a {
        AindModel::Normal(v) => Term::Num(v as i64),
        AindModel::Dualize(v) => Term::Num(neg_i64(v as i64)),
        AindModel::Symbol(s) => Term::Var(s),
    }
}

/// The index that a symbolic expression names, if it names one: integers
/// (read as 32-bit) and variables do.
pub open spec fn aind_of_term(t: Term) -> Option<AindModel> {
    match t {
        Term::Num(n) => Some(aind_of_int((n as i32) as int)),
        Term::Var(s) => Some(AindModel::Symbol(s)),
        _ => None,
    }
}

impl AbstractIndex {
    pub fn copy(&self) -> (r: AbstractIndex)
        ensures
            r@ == self@,
    {
        match self {
            AbstractIndex::Normal(n) => AbstractIndex::Normal(*n),
            AbstractIndex::Dualize(n) => AbstractIndex::Dualize(*n),
            AbstractIndex::Symbol(s) => AbstractIndex::Symbol(copy_string(s)),
        }
    }

    /// The index named by a signed integer.
    pub fn from_isize(i: isize) -> (r: AbstractIndex)
        ensures
            r@ == aind_of_int(i as int),
    {
        if i < 0 {
            let m: usize = (-(i + 1)) as usize;
            AbstractIndex::Dualize(m + 1)
        } else {
            AbstractIndex::Normal(i as usize)
        }
    }

    /// The index named by a symbol.
    pub fn from_symbol(s: &String) -> (r: AbstractIndex)
        ensures
            r@ == AindModel::Symbol(s@),
    {
        AbstractIndex::Symbol(copy_string(s))
    }

    /// The symbolic form of the index.
    pub fn to_atom(&self) -> (r: Expr)
        ensures
            r@ == aind_term(self@),
    {
        match self {
            AbstractIndex::Normal(v) => Expr::Num(*v as i64),
            AbstractIndex::Dualize(v) => {
                let x: i64 = *v as i64;
                if x == i64::MIN {
                    Expr::Num(i64::MIN)
                } else {
                    Expr::Num(-x)
                }
            },
            AbstractIndex::Symbol(s) => Expr::Var(copy_string(s)),
        }
    }

    /// The index that a symbolic expression names, if it names one.
    pub fn from_expr(e: &Expr) -> (r: Option<AbstractIndex>)
        ensures
            match (r, aind_of_term(e@)) {
                (Some(x), Some(y)) => x@ == y,
                (None, None) => true,
                _ => false,
            },
    {
        match e {
            Expr::Num(n) => {
                let v: i32 = *n as i32;
                let w: i64 = v as i64;
                if w < 0 {
                    let m: usize = (-(w + 1)) as usize;
                    Some(AbstractIndex::Dualize(m + 1))
                } else {
                    Some(AbstractIndex::Normal(w as usize))
                }
            },
            Expr::Var(s) => Some(AbstractIndex::Symbol(copy_string(s))),
            _ => None,
        }
    }
}

/// A representation together with its dimension.
#[derive(Debug)]
pub struct Representation {
    pub rep: LibraryRep,
    pub dim: Dimension,
}

pub struct RepresentationModel {
    pub rep: RepModel,
    pub dim: DimModel,
}

impl View for Representation {
    type V = RepresentationModel;

    open spec fn view(&self) -> RepresentationModel {
        RepresentationModel { rep: self.rep@, dim: self.dim@ }
    }
}

/// The dual of a dimensioned representation: same dimension, dual representation.
pub open spec fn dual_representation(r: RepresentationModel) -> RepresentationModel {
    RepresentationModel { rep: dual_rep(r.rep), dim: r.dim }
}

/// The symbolic form `rep(dim, args...)`.
pub open spec fn representation_symbolic(r: RepresentationModel, args: Seq<Term>) -> Term {
    rep_symbolic(r.rep, seq![dim_term(r.dim)] + args)
}

impl Representation {
    pub fn copy(&self) -> (r: Representation)
        ensures
            r@ == self@,
    {
        Representation { rep: self.rep.copy(), dim: self.dim.copy() }
    }

    /// The dual representation, of the same dimension.
    pub fn dual(&self) -> (r: Representation)
        ensures
            r@ == dual_representation(self@),
    {
        Representation { rep: self.rep.dual(), dim: self.dim.copy() }
    }

    /// The symbolic form `rep(dim, args...)`.
    pub fn to_symbolic(&self, args: Vec<Expr>) -> (r: Expr)
        ensures
            r@ == representation_symbolic(self@, views(args)),
    {
        let mut all: Vec<Expr> = Vec::new();
        all.push(self.dim.to_symbolic());
        let ghost first = all@;
        let mut rest = args;
        let ghost rest0 = rest@;
        all.append(&mut rest);
        proof {
            lemma_terms_of(all@);
            lemma_terms_of(first);
            lemma_terms_of(rest0);
            assert(terms_of(all@) =~= seq![dim_term(self.dim@)] + terms_of(rest0));
        }
        self.rep.to_symbolic(all)
    }

    /// A slot of this representation with the given index.
    pub fn slot(&self, aind: AbstractIndex) -> (r: Slot)
        ensures
            r@ == (SlotModel { rep: self@, aind: aind@ }),
    {
        Slot { rep: self.copy(), aind }
    }
}

/// A slot of a tensor: a dimensioned representation and an abstract index.
#[derive(Debug)]
pub struct Slot {
    pub rep: Representation,
    pub aind: AbstractIndex,
}

pub struct SlotModel {
    pub rep: RepresentationModel,
    pub aind: AindModel,
}

impl View for Slot {
    type V = SlotModel;

    open spec fn view(&self) -> SlotModel {
        SlotModel { rep: self.rep@, aind: self.aind@ }
    }
}

/// The symbolic form `rep(dim, index)` of a slot.
pub open spec fn slot_term(s: SlotModel) -> Term {
    representation_symbolic(s.rep, seq![aind_term(s.aind)])
}

/// The dual of a slot: same index, dual representation.
pub open spec fn dual_slot(s: SlotModel) -> SlotModel {
    SlotModel { rep: dual_representation(s.rep), aind: s.aind }
}

impl Slot {
    pub fn copy(&self) -> (r: Slot)
        ensures
            r@ == self@,
    {
        Slot { rep: self.rep.copy(), aind: self.aind.copy() }
    }

    /// The symbolic form of the slot.
    pub fn to_atom(&self) -> (r: Expr)
        ensures
            r@ == slot_term(self@),
    {
        let a = self.aind.to_atom();
        let v = vec![a];
        proof {
            lemma_terms_of(v@);
            assert(terms_of(v@) =~= seq![aind_term(self.aind@)]);
        }
        self.rep.to_symbolic(v)
    }

    /// The dual slot.
    pub fn dual(&self) -> (r: Slot)
        ensures
            r@ == dual_slot(self@),
    {
        Slot { rep: self.rep.dual(), aind: self.aind.copy() }
    }
}

} // verus!
