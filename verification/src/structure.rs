//! Tensor structures: the "shape" of a tensor as a list of representations
//! ([`TensorKey`]), or as a list of slots that also carry abstract indices
//! ([`IndexedStructure`]), each with an optional name and optional additional
//! non-indexed arguments.
use vstd::prelude::*;
use crate::expr::{Expr, Term, copy_string, clone_all, lemma_terms_of, lemma_terms_of_push, terms_of, views};
use crate::reps::{LibraryRep, RepOrientation, RepModel, dual_rep};
use crate::slots::{
    AbstractIndex, AindModel, DimModel, Dimension, Representation, RepresentationModel, Slot,
    SlotModel, dual_representation, dual_slot, slot_term,
};

verus! {

/// Which family of gamma-matrix symbols a structure is named by.
#[derive(Clone, Copy, Debug, PartialEq, Eq, Structural, Hash)]
pub enum TensorNamespace {
    Weyl,
    Algebra,
}

/// A structure of representations, with an optional name and optional
/// additional arguments.
#[derive(Debug)]
pub struct TensorKey {
    pub name: Option<String>,
    pub args: Option<Vec<Expr>>,
    pub reps: Vec<Representation>,
}

/// A structure of slots, with an optional name and optional additional arguments.
#[derive(Debug)]
pub struct IndexedStructure {
    pub name: Option<String>,
    pub args: Option<Vec<Expr>>,
    pub slots: Vec<Slot>,
}

pub struct KeyModel {
    pub name: Option<Seq<char>>,
    pub args: Option<Seq<Term>>,
    pub reps: Seq<RepresentationModel>,
}

pub struct IndexedModel {
    pub name: Option<Seq<char>>,
    pub args: Option<Seq<Term>>,
    pub slots: Seq<SlotModel>,
}

pub open spec fn name_view(n: Option<String>) -> Option<Seq<char>> {
    match n {
        Some(s) => Some(s@),
        None => None,
    }
}

pub open spec fn args_view(a: Option<Vec<Expr>>) -> Option<Seq<Term>> {
    match a {
        Some(v) => Some(views(v)),
        None => None,
    }
}

pub open spec fn reps_view(v: Seq<Representation>) -> Seq<RepresentationModel> {
    v.map_values(|r: Representation| r@)
}

pub open spec fn slots_view(v: Seq<Slot>) -> Seq<SlotModel> {
    v.map_values(|s: Slot| s@)
}

impl View for TensorKey {
    type V = KeyModel;

    open spec fn view(&self) -> KeyModel {
        KeyModel {
            name: name_view(self.name),
            args: args_view(self.args),
            reps: reps_view(self.reps@),
        }
    }
}

impl View for IndexedStructure {
    type V = IndexedModel;

    open spec fn view(&self) -> IndexedModel {
        IndexedModel {
            name: name_view(self.name),
            args: args_view(self.args),
            slots: slots_view(self.slots@),
        }
    }
}

pub fn copy_name(n: &Option<String>) -> (r: Option<String>)
    ensures
        name_view(r) == name_view(*n),
{
    match n {
        Some(s) => Some(copy_string(s)),
        None => None,
    }
}

pub fn copy_args(a: &Option<Vec<Expr>>) -> (r: Option<Vec<Expr>>)
    ensures
        args_view(r) == args_view(*a),
{
    match a {
        Some(v) => Some(clone_all(v)),
        None => None,
    }
}

pub fn copy_reps(v: &Vec<Representation>) -> (r: Vec<Representation>)
    ensures
        reps_view(r@) == reps_view(v@),
{
    let mut r: Vec<Representation> = Vec::new();
    let mut i: usize = 0;
    while i < v.len()
        invariant
            i <= v.len(),
            r.len() == i,
            forall|j: int| 0 <= j < i ==> #[trigger] r@[j]@ == v@[j]@,
        decreases v.len() - i,
    {
        r.push(v[i].copy());
        i = i + 1;
    }
    assert(reps_view(r@) =~= reps_view(v@));
    r
}

pub fn copy_slots(v: &Vec<Slot>) -> (r: Vec<Slot>)
    ensures
        slots_view(r@) == slots_view(v@),
{
    let mut r: Vec<Slot> = Vec::new();
    let mut i: usize = 0;
    while i < v.len()
        invariant
            i <= v.len(),
            r.len() == i,
            forall|j: int| 0 <= j < i ==> #[trigger] r@[j]@ == v@[j]@,
        decreases v.len() - i,
    {
        r.push(v[i].copy());
        i = i + 1;
    }
    assert(slots_view(r@) =~= slots_view(v@));
    r
}

/// The Minkowski representation of the given dimension.
pub open spec fn mink_model(d: DimModel) -> RepresentationModel {
    RepresentationModel { rep: RepModel { name: "mink"@, orientation: RepOrientation::InlineMetric }, dim: d }
}

/// The bispinor representation of the given dimension.
pub open spec fn bis_model(d: DimModel) -> RepresentationModel {
    RepresentationModel { rep: RepModel { name: "bis"@, orientation: RepOrientation::SelfDual }, dim: d }
}

/// The Euclidean representation of the given dimension.
pub open spec fn euc_model(d: DimModel) -> RepresentationModel {
    RepresentationModel { rep: RepModel { name: "euc"@, orientation: RepOrientation::SelfDual }, dim: d }
}

pub fn mink_rep(dim: Dimension) -> (r: Representation)
    ensures
        r@ == mink_model(dim@),
{
    Representation { rep: LibraryRep::new("mink", RepOrientation::InlineMetric), dim }
}

pub fn bis_rep(dim: Dimension) -> (r: Representation)
    ensures
        r@ == bis_model(dim@),
{
    Representation { rep: LibraryRep::new("bis", RepOrientation::SelfDual), dim }
}

pub fn euc_rep(dim: Dimension) -> (r: Representation)
    ensures
        r@ == euc_model(dim@),
{
    Representation { rep: LibraryRep::new("euc", RepOrientation::SelfDual), dim }
}

/// The names of the gamma matrix, gamma5 and the two chiral projectors in each
/// namespace.
pub open spec fn gamma_name(ns: TensorNamespace) -> Seq<char> {
    match ns {
        TensorNamespace::Algebra => "gamma"@,
        TensorNamespace::Weyl => "weyl_gamma"@,
    }
}

pub open spec fn gamma5_name(ns: TensorNamespace) -> Seq<char> {
    match ns {
        TensorNamespace::Algebra => "gamma5"@,
        TensorNamespace::Weyl => "weyl_gamma5"@,
    }
}

pub open spec fn projm_name(ns: TensorNamespace) -> Seq<char> {
    match ns {
        TensorNamespace::Algebra => "projm"@,
        TensorNamespace::Weyl => "weyl_projm"@,
    }
}

pub open spec fn projp_name(ns: TensorNamespace) -> Seq<char> {
    match ns {
        TensorNamespace::Algebra => "projp"@,
        TensorNamespace::Weyl => "weyl_projp"@,
    }
}

/// A named structure without additional arguments.
pub open spec fn named_key(name: Seq<char>, reps: Seq<RepresentationModel>) -> KeyModel {
    KeyModel { name: Some(name), args: None, reps }
}

/// Why a structure operation was refused.
#[derive(Debug)]
pub enum StructureError {
    /// The separator `;` was given more than once.
    RepeatedSeparator,
    /// The structure has no name.
    NoName,
    /// The number of indices given differs from the order of the structure.
    WrongNumberOfIndices(usize, usize),
    /// The argument cannot be read as an abstract index; the flag tells
    /// whether cooking was asked for.
    NotAnIndex(Expr, bool),
    /// A name, a dimension or an index must be a symbol.
    NotASymbol(Expr),
    /// The separator `;` cannot be an index.
    SeparatorAsIndex,
}

/// The error of converting a structure without a name into a key.
#[derive(Clone, Copy, Debug, PartialEq, Eq, Structural)]
pub enum SpensoError {
    NoName,
}

/// A structure of representations (a "TensorStructure").
#[derive(Debug)]
pub struct SpensoStucture {
    pub structure: TensorKey,
}

/// A structure of slots (a "TensorIndices").
#[derive(Debug)]
pub struct SpensoIndices {
    pub structure: IndexedStructure,
}

/// A representation with its dimension (a "Representation").
#[derive(Debug)]
pub struct SpensoRepresentation {
    pub representation: Representation,
}

/// A slot (a "Slot").
#[derive(Debug)]
pub struct SpensoSlot {
    pub slot: Slot,
}

/// A structure with or without indices.
#[derive(Debug)]
pub enum PossiblyIndexed {
    Unindexed(SpensoStucture),
    Indexed(SpensoIndices),
}

fn str_string(s: &str) -> (r: String)
    ensures
        r@ == s@,
{
    String::from_str(s)
}

fn four() -> (r: Dimension)
    ensures
        r@ == DimModel::Concrete(4),
{
    Dimension::Concrete(4)
}

impl SpensoStucture {
    /// The identity `id(rep, dual rep)` of a representation.
    pub fn id(rep: SpensoRepresentation) -> (r: SpensoStucture)
        ensures
            r.structure@ == named_key(
                "id"@,
                seq![rep.representation@, dual_representation(rep.representation@)],
            ),
    {
        let d = rep.representation.dual();
        let reps = vec![rep.representation, d];
        let r = SpensoStucture {
            structure: TensorKey { name: Some(str_string("id")), args: None, reps },
        };
        assert(r.structure@.reps =~= seq![rep.representation@, dual_representation(rep.representation@)]);
        r
    }

    /// The metric `g(rep, rep)` of a representation.
    pub fn metric(rep: SpensoRepresentation) -> (r: SpensoStucture)
        ensures
            r.structure@ == named_key("g"@, seq![rep.representation@, rep.representation@]),
    {
        let c = rep.representation.copy();
        let reps = vec![rep.representation, c];
        let r = SpensoStucture {
            structure: TensorKey { name: Some(str_string("g")), args: None, reps },
        };
        assert(r.structure@.reps =~= seq![rep.representation@, rep.representation@]);
        r
    }

    /// The four-dimensional gamma matrix `gamma(mink(4), bis(4), bis(4))`.
    #[allow(non_snake_case)]
    pub fn gamma4D(namespace: TensorNamespace) -> (r: SpensoStucture)
        ensures
            r.structure@ == named_key(
                gamma_name(namespace),
                seq![
                    mink_model(DimModel::Concrete(4)),
                    bis_model(DimModel::Concrete(4)),
                    bis_model(DimModel::Concrete(4)),
                ],
            ),
    {
        let name = match namespace {
            TensorNamespace::Algebra => str_string("gamma"),
            TensorNamespace::Weyl => str_string("weyl_gamma"),
        };
        let reps = vec![mink_rep(four()), bis_rep(four()), bis_rep(four())];
        let r = SpensoStucture { structure: TensorKey { name: Some(name), args: None, reps } };
        assert(r.structure@.reps =~= seq![
            mink_model(DimModel::Concrete(4)),
            bis_model(DimModel::Concrete(4)),
            bis_model(DimModel::Concrete(4)),
        ]);
        r
    }

    /// The gamma matrix of symbolic dimension `dim`:
    /// `gamma(mink(dim), bis(4), bis(4))`; `dim` must be a symbol.
    #[allow(non_snake_case)]
    pub fn gammadD(dim: &Expr) -> (r: Result<SpensoStucture, StructureError>)
        ensures
            match dim@ {
                Term::Var(v) => r matches Ok(s) && s.structure@ == named_key(
                    "gamma"@,
                    seq![
                        mink_model(DimModel::Symbolic(v)),
                        bis_model(DimModel::Concrete(4)),
                        bis_model(DimModel::Concrete(4)),
                    ],
                ),
                _ => r matches Err(StructureError::NotASymbol(e)) && e@ == dim@,
            },
    {
        match dim {
            Expr::Var(v) => {
                let reps = vec![
                    mink_rep(Dimension::Symbolic(copy_string(v))),
                    bis_rep(four()),
                    bis_rep(four()),
                ];
                let r = SpensoStucture {
                    structure: TensorKey { name: Some(str_string("gamma")), args: None, reps },
                };
                assert(r.structure@.reps =~= seq![
                    mink_model(DimModel::Symbolic(v@)),
                    bis_model(DimModel::Concrete(4)),
                    bis_model(DimModel::Concrete(4)),
                ]);
                Ok(r)
            },
            _ => Err(StructureError::NotASymbol(dim.deep_clone())),
        }
    }

    /// The structure `name(bis(4), bis(4))` of a four-by-four spinor matrix.
    fn spinor_matrix(name: String) -> (r: SpensoStucture)
        ensures
            r.structure@ == named_key(
                name@,
                seq![bis_model(DimModel::Concrete(4)), bis_model(DimModel::Concrete(4))],
            ),
    {
        let reps = vec![bis_rep(four()), bis_rep(four())];
        let r = SpensoStucture { structure: TensorKey { name: Some(name), args: None, reps } };
        assert(r.structure@.reps =~= seq![
            bis_model(DimModel::Concrete(4)),
            bis_model(DimModel::Concrete(4)),
        ]);
        r
    }

    /// The structure of gamma5, `gamma5(bis(4), bis(4))`.
    pub fn gamma5(namespace: TensorNamespace) -> (r: SpensoStucture)
        ensures
            r.structure@ == named_key(
                gamma5_name(namespace),
                seq![bis_model(DimModel::Concrete(4)), bis_model(DimModel::Concrete(4))],
            ),
    {
        let name = match namespace {
            TensorNamespace::Algebra => str_string("gamma5"),
            TensorNamespace::Weyl => str_string("weyl_gamma5"),
        };
        Self::spinor_matrix(name)
    }

    /// The structure of the negative-chirality projector, `projm(bis(4), bis(4))`.
    pub fn projm(namespace: TensorNamespace) -> (r: SpensoStucture)
        ensures
            r.structure@ == named_key(
                projm_name(namespace),
                seq![bis_model(DimModel::Concrete(4)), bis_model(DimModel::Concrete(4))],
            ),
    {
        let name = match namespace {
            TensorNamespace::Algebra => str_string("projm"),
            TensorNamespace::Weyl => str_string("weyl_projm"),
        };
        Self::spinor_matrix(name)
    }

    /// The structure of the positive-chirality projector, `projp(bis(4), bis(4))`.
    pub fn projp(namespace: TensorNamespace) -> (r: SpensoStucture)
        ensures
            r.structure@ == named_key(
                projp_name(namespace),
                seq![bis_model(DimModel::Concrete(4)), bis_model(DimModel::Concrete(4))],
            ),
    {
        let name = match namespace {
            TensorNamespace::Algebra => str_string("projp"),
            TensorNamespace::Weyl => str_string("weyl_projp"),
        };
        Self::spinor_matrix(name)
    }
}

impl SpensoRepresentation {
    /// The bispinor representation of the given dimension.
    pub fn bis(dimension: Dimension) -> (r: SpensoRepresentation)
        ensures
            r.representation@ == bis_model(dimension@),
    {
        SpensoRepresentation { representation: bis_rep(dimension) }
    }

    /// The Euclidean representation of the given dimension.
    pub fn euc(dimension: Dimension) -> (r: SpensoRepresentation)
        ensures
            r.representation@ == euc_model(dimension@),
    {
        SpensoRepresentation { representation: euc_rep(dimension) }
    }

    /// The Minkowski representation of the given dimension.
    pub fn mink(dimension: Dimension) -> (r: SpensoRepresentation)
        ensures
            r.representation@ == mink_model(dimension@),
    {
        SpensoRepresentation { representation: mink_rep(dimension) }
    }
}

/// The dual of every representation.
pub open spec fn dual_reps(s: Seq<RepresentationModel>) -> Seq<RepresentationModel> {
    s.map_values(|r: RepresentationModel| dual_representation(r))
}

/// The dual of every slot.
pub open spec fn dual_slots(s: Seq<SlotModel>) -> Seq<SlotModel> {
    s.map_values(|x: SlotModel| dual_slot(x))
}

impl TensorKey {
    pub fn copy(&self) -> (r: TensorKey)
        ensures
            r@ == self@,
    {
        TensorKey { name: copy_name(&self.name), args: copy_args(&self.args), reps: copy_reps(&self.reps) }
    }

    /// The number of representations.
    pub fn order(&self) -> (r: usize)
        ensures
            r == self@.reps.len(),
    {
        self.reps.len()
    }

    /// The structure with every representation replaced by its dual.
    pub fn dual(&self) -> (r: TensorKey)
        ensures
            r@ == (KeyModel { reps: dual_reps(self@.reps), ..self@ }),
    {
        let mut reps: Vec<Representation> = Vec::new();
        let mut i: usize = 0;
        while i < self.reps.len()
            invariant
                i <= self.reps.len(),
                reps.len() == i,
                forall|j: int| 0 <= j < i ==> #[trigger] reps@[j]@ == dual_representation(self.reps@[j]@),
            decreases self.reps.len() - i,
        {
            reps.push(self.reps[i].dual());
            i = i + 1;
        }
        assert(reps_view(reps@) =~= dual_reps(reps_view(self.reps@)));
        TensorKey { name: copy_name(&self.name), args: copy_args(&self.args), reps }
    }

    /// Assigns the given indices to the representations, in order; refused when
    /// their number differs from the order.
    pub fn to_indexed(&self, indices: &Vec<AbstractIndex>) -> (r: Result<Vec<Slot>, StructureError>)
        ensures
            indices.len() == self.reps.len() ==> (r matches Ok(s) && slots_view(s@) == Seq::new(
                self.reps.len() as nat,
                |i: int| SlotModel { rep: self.reps@[i]@, aind: indices@[i]@ },
            )),
            indices.len() != self.reps.len() ==> (r matches Err(
                StructureError::WrongNumberOfIndices(g, o),
            ) && g == indices.len() && o == self.reps.len()),
    {
        if self.reps.len() != indices.len() {
            return Err(StructureError::WrongNumberOfIndices(indices.len(), self.reps.len()));
        }
        let mut out: Vec<Slot> = Vec::new();
        let mut i: usize = 0;
        while i < indices.len()
            invariant
                i <= indices.len(),
                indices.len() == self.reps.len(),
                out.len() == i,
                forall|j: int| 0 <= j < i ==> #[trigger] out@[j]@ == (SlotModel { rep: self.reps@[j]@, aind: indices@[j]@ }),
            decreases indices.len() - i,
        {
            out.push(self.reps[i].slot(indices[i].copy()));
            i = i + 1;
        }
        assert(slots_view(out@) =~= Seq::new(
            self.reps.len() as nat,
            |i: int| SlotModel { rep: self.reps@[i]@, aind: indices@[i]@ },
        ));
        Ok(out)
    }
}

/// Whether two slots are the same.
pub fn slot_eq(a: &Slot, b: &Slot) -> (r: bool)
    ensures
        r == (a@ == b@),
{
    let same_rep = a.rep.rep.same(&b.rep.rep);
    let same_dim = match (&a.rep.dim, &b.rep.dim) {
        (Dimension::Concrete(x), Dimension::Concrete(y)) => *x == *y,
        (Dimension::Symbolic(x), Dimension::Symbolic(y)) => *x == *y,
        _ => false,
    };
    let same_aind = match (&a.aind, &b.aind) {
        (AbstractIndex::Normal(x), AbstractIndex::Normal(y)) => *x == *y,
        (AbstractIndex::Dualize(x), AbstractIndex::Dualize(y)) => *x == *y,
        (AbstractIndex::Symbol(x), AbstractIndex::Symbol(y)) => *x == *y,
        _ => false,
    };
    same_rep && same_dim && same_aind
}

/// The number of occurrences of a slot in a sequence.
pub open spec fn slot_count(s: Seq<SlotModel>, x: SlotModel) -> nat
    decreases s.len(),
{
    if s.len() == 0 {
        0
    } else {
        slot_count(s.drop_last(), x) + if s.last() == x {
            1nat
        } else {
            0nat
        }
    }
}

/// The slots that occur once, in their order.
pub open spec fn traced_out(s: Seq<SlotModel>) -> Seq<SlotModel> {
    s.filter(|x: SlotModel| slot_count(s, x) == 1)
}

/// A sequence without the elements at two distinct positions.
pub open spec fn remove_two<A>(s: Seq<A>, i: int, j: int) -> Seq<A> {
    let hi = if i < j { j } else { i };
    let lo = if i < j { i } else { j };
    s.remove(hi).remove(lo)
}

fn count_slot(v: &Vec<Slot>, x: &Slot) -> (r: usize)
    ensures
        r == slot_count(slots_view(v@), x@),
{
    let mut c: usize = 0;
    let mut i: usize = 0;
    while i < v.len()
        invariant
            i <= v.len(),
            c == slot_count(slots_view(v@.take(i as int)), x@),
            c <= i,
        decreases v.len() - i,
    {
        proof {
            assert(slots_view(v@.take(i + 1)).drop_last() =~= slots_view(v@.take(i as int)));
        }
        if slot_eq(&v[i], x) {
            c = c + 1;
        }
        i = i + 1;
    }
    assert(v@.take(v.len() as int) =~= v@);
    c
}

impl IndexedStructure {
    pub fn copy(&self) -> (r: IndexedStructure)
        ensures
            r@ == self@,
    {
        IndexedStructure {
            name: copy_name(&self.name),
            args: copy_args(&self.args),
            slots: copy_slots(&self.slots),
        }
    }

    /// The number of slots.
    pub fn order(&self) -> (r: usize)
        ensures
            r == self@.slots.len(),
    {
        self.slots.len()
    }

    /// The structure with every slot replaced by its dual.
    pub fn dual(&self) -> (r: IndexedStructure)
        ensures
            r@ == (IndexedModel { slots: dual_slots(self@.slots), ..self@ }),
    {
        let mut slots: Vec<Slot> = Vec::new();
        let mut i: usize = 0;
        while i < self.slots.len()
            invariant
                i <= self.slots.len(),
                slots.len() == i,
                forall|j: int| 0 <= j < i ==> #[trigger] slots@[j]@ == dual_slot(self.slots@[j]@),
            decreases self.slots.len() - i,
        {
            slots.push(self.slots[i].dual());
            i = i + 1;
        }
        assert(slots_view(slots@) =~= dual_slots(slots_view(self.slots@)));
        IndexedStructure { name: copy_name(&self.name), args: copy_args(&self.args), slots }
    }

    /// Appends the slots of `other`.
    pub fn concat(&mut self, other: &IndexedStructure)
        ensures
            final(self)@ == (IndexedModel { slots: old(self)@.slots + other@.slots, ..old(self)@ }),
    {
        let mut more = copy_slots(&other.slots);
        let ghost before = self.slots@;
        let ghost added = more@;
        self.slots.append(&mut more);
        assert(slots_view(self.slots@) =~= slots_view(before) + slots_view(added));
    }

    /// Removes the two equal slots at positions `i` and `j`.
    pub fn trace(&mut self, i: usize, j: usize)
        requires
            i < old(self).slots.len(),
            j < old(self).slots.len(),
            i != j,
            old(self)@.slots[i as int] == old(self)@.slots[j as int],
        ensures
            final(self)@ == (IndexedModel {
                slots: remove_two(old(self)@.slots, i as int, j as int),
                ..old(self)@
            }),
    {
        let hi = if i < j { j } else { i };
        let lo = if i < j { i } else { j };
        let ghost s0 = self.slots@;
        self.slots.remove(hi);
        let ghost s1 = self.slots@;
        self.slots.remove(lo);
        proof {
            assert(slots_view(s1) =~= slots_view(s0).remove(hi as int));
            assert(slots_view(self.slots@) =~= slots_view(s1).remove(lo as int));
        }
    }

    /// Removes every slot that occurs more than once, keeping the others in order.
    pub fn trace_out(&mut self)
        ensures
            final(self)@ == (IndexedModel { slots: traced_out(old(self)@.slots), ..old(self)@ }),
    {
        let ghost whole = slots_view(self.slots@);
        let mut kept: Vec<Slot> = Vec::new();
        let mut i: usize = 0;
        while i < self.slots.len()
            invariant
                i <= self.slots.len(),
                whole == slots_view(self.slots@),
                slots_view(kept@) == slots_view(self.slots@.take(i as int)).filter(
                    |x: SlotModel| slot_count(whole, x) == 1,
                ),
            decreases self.slots.len() - i,
        {
            proof {
                let t = slots_view(self.slots@.take(i + 1));
                assert(t.drop_last() =~= slots_view(self.slots@.take(i as int)));
                reveal(Seq::filter);
            }
            if count_slot(&self.slots, &self.slots[i]) == 1 {
                kept.push(self.slots[i].copy());
                proof {
                    assert(slots_view(kept@) =~= slots_view(kept@).drop_last().push(self.slots@[i as int]@));
                }
            }
            i = i + 1;
        }
        assert(self.slots@.take(self.slots.len() as int) =~= self.slots@);
        self.slots = kept;
    }

    /// The symbolic form `name(args..., slots...)`; none without a name.
    pub fn to_symbolic(&self) -> (r: Option<Expr>)
        ensures
            r matches Some(e) ==> self@.name is Some && e@ == indexed_term(self@),
            r is None ==> self@.name is None,
    {
        match &self.name {
            None => None,
            Some(n) => {
                let mut all: Vec<Expr> = match &self.args {
                    Some(a) => clone_all(a),
                    None => Vec::new(),
                };
                let ghost first = terms_of(all@);
                proof {
                    assert(first =~= opt_terms(self@.args));
                }
                let mut i: usize = 0;
                while i < self.slots.len()
                    invariant
                        i <= self.slots.len(),
                        terms_of(all@) == first + slots_view(self.slots@.take(i as int)).map_values(
                            |s: SlotModel| slot_term(s),
                        ),
                    decreases self.slots.len() - i,
                {
                    let t = self.slots[i].to_atom();
                    proof {
                        lemma_terms_of_push(all@, t);
                    }
                    all.push(t);
                    proof {
                        assert(slots_view(self.slots@.take(i + 1)).map_values(
                            |s: SlotModel| slot_term(s),
                        ) =~= slots_view(self.slots@.take(i as int)).map_values(
                            |s: SlotModel| slot_term(s),
                        ).push(slot_term(self.slots@[i as int]@)));
                    }
                    i = i + 1;
                }
                assert(self.slots@.take(self.slots.len() as int) =~= self.slots@);
                Some(Expr::Fun(copy_string(n), all))
            },
        }
    }
}

/// The additional arguments, none being the empty sequence.
pub open spec fn opt_terms(a: Option<Seq<Term>>) -> Seq<Term> {
    match a {
        Some(s) => s,
        None => Seq::empty(),
    }
}

/// The symbolic form of a named structure of slots.
pub open spec fn indexed_term(s: IndexedModel) -> Term {
    Term::Fun(
        s.name->Some_0,
        opt_terms(s.args) + s.slots.map_values(|x: SlotModel| slot_term(x)),
    )
}

/// Taking the dual of every slot twice gives back the structure.
pub proof fn law_dual_slots_involution(s: Seq<SlotModel>)
    ensures
        dual_slots(dual_slots(s)) == s,
{
    assert(dual_slots(dual_slots(s)) =~= s);
}

/// Taking the dual of every representation twice gives back the structure.
pub proof fn law_dual_reps_involution(s: Seq<RepresentationModel>)
    ensures
        dual_reps(dual_reps(s)) == s,
{
    assert(dual_reps(dual_reps(s)) =~= s);
}

impl PossiblyIndexed {
    /// The structure with every representation or slot replaced by its dual.
    pub fn dual(&self) -> (r: PossiblyIndexed)
        ensures
            match (self, r) {
                (PossiblyIndexed::Indexed(a), PossiblyIndexed::Indexed(b)) => b.structure@ == (
                IndexedModel { slots: dual_slots(a.structure@.slots), ..a.structure@ }),
                (PossiblyIndexed::Unindexed(a), PossiblyIndexed::Unindexed(b)) => b.structure@ == (
                KeyModel { reps: dual_reps(a.structure@.reps), ..a.structure@ }),
                _ => false,
            },
    {
        match self {
            PossiblyIndexed::Indexed(i) => PossiblyIndexed::Indexed(
                SpensoIndices { structure: i.structure.dual() },
            ),
            PossiblyIndexed::Unindexed(u) => PossiblyIndexed::Unindexed(
                SpensoStucture { structure: u.structure.dual() },
            ),
        }
    }

    /// The indexed structure of the given slots, without name or arguments.
    pub fn from_slots(slots: Vec<Slot>) -> (r: PossiblyIndexed)
        ensures
            r matches PossiblyIndexed::Indexed(x) && x.structure@ == (IndexedModel {
                name: None,
                args: None,
                slots: slots_view(slots@),
            }),
    {
        PossiblyIndexed::Indexed(
            SpensoIndices { structure: IndexedStructure { name: None, args: None, slots } },
        )
    }

    /// The structure of the given representations, without name or arguments.
    pub fn from_reps(reps: Vec<Representation>) -> (r: PossiblyIndexed)
        ensures
            r matches PossiblyIndexed::Unindexed(x) && x.structure@ == (KeyModel {
                name: None,
                args: None,
                reps: reps_view(reps@),
            }),
    {
        PossiblyIndexed::Unindexed(SpensoStucture { structure: TensorKey { name: None, args: None, reps } })
    }

    /// The structure of Euclidean representations of the given dimensions.
    pub fn from_dims(dims: &Vec<usize>) -> (r: PossiblyIndexed)
        ensures
            r matches PossiblyIndexed::Unindexed(x) && x.structure@ == (KeyModel {
                name: None,
                args: None,
                reps: dims@.map_values(|d: usize| euc_model(DimModel::Concrete(d))),
            }),
    {
        let mut reps: Vec<Representation> = Vec::new();
        let mut i: usize = 0;
        while i < dims.len()
            invariant
                i <= dims.len(),
                reps.len() == i,
                forall|j: int| 0 <= j < i ==> #[trigger] reps@[j]@ == euc_model(DimModel::Concrete(dims@[j])),
            decreases dims.len() - i,
        {
            reps.push(euc_rep(Dimension::Concrete(dims[i])));
            i = i + 1;
        }
        assert(reps_view(reps@) =~= dims@.map_values(|d: usize| euc_model(DimModel::Concrete(d))));
        Self::from_reps(reps)
    }

    /// Appends the slots of another indexed structure.
    pub fn concat(&mut self, other: &PossiblyIndexed)
        requires
            *old(self) is Indexed,
            other is Indexed,
        ensures
            match (*old(self), *final(self), *other) {
                (
                    PossiblyIndexed::Indexed(a),
                    PossiblyIndexed::Indexed(b),
                    PossiblyIndexed::Indexed(o),
                ) => b.structure@ == (IndexedModel {
                    slots: a.structure@.slots + o.structure@.slots,
                    ..a.structure@
                }),
                _ => false,
            },
    {
        match (self, other) {
            (PossiblyIndexed::Indexed(i), PossiblyIndexed::Indexed(j)) => {
                i.structure.concat(&j.structure);
            },
            _ => {
                assert(false);
            },
        }
    }

    /// Removes the two equal slots at positions `i` and `j` of an indexed structure.
    pub fn trace(&mut self, i: usize, j: usize)
        requires
            *old(self) matches PossiblyIndexed::Indexed(x) && i < x.structure@.slots.len() && j
                < x.structure@.slots.len() && i != j && x.structure@.slots[i as int]
                == x.structure@.slots[j as int],
        ensures
            match (*old(self), *final(self)) {
                (PossiblyIndexed::Indexed(a), PossiblyIndexed::Indexed(b)) => b.structure@ == (
                IndexedModel {
                    slots: remove_two(a.structure@.slots, i as int, j as int),
                    ..a.structure@
                }),
                _ => false,
            },
    {
        match self {
            PossiblyIndexed::Indexed(s) => {
                proof {
                    assert(s.structure.slots@[i as int]@ == s.structure.slots@[j as int]@);
                }
                s.structure.trace(i, j);
            },
            PossiblyIndexed::Unindexed(_) => {
                assert(false);
            },
        }
    }

    /// Removes every slot that occurs more than once from an indexed structure.
    pub fn trace_out(&mut self)
        requires
            *old(self) is Indexed,
        ensures
            match (*old(self), *final(self)) {
                (PossiblyIndexed::Indexed(a), PossiblyIndexed::Indexed(b)) => b.structure@ == (
                IndexedModel { slots: traced_out(a.structure@.slots), ..a.structure@ }),
                _ => false,
            },
    {
        match self {
            PossiblyIndexed::Indexed(s) => {
                s.structure.trace_out();
            },
            PossiblyIndexed::Unindexed(_) => {
                assert(false);
            },
        }
    }

    /// The named structure of representations of this structure: the
    /// representations of its slots, its name and its arguments; refused
    /// without a name.
    pub fn to_key(&self) -> (r: Result<TensorKey, SpensoError>)
        ensures
            match self {
                PossiblyIndexed::Indexed(x) => match x.structure@.name {
                    None => r matches Err(SpensoError::NoName),
                    Some(_) => r matches Ok(k) && k@ == (KeyModel {
                        name: x.structure@.name,
                        args: x.structure@.args,
                        reps: x.structure@.slots.map_values(|s: SlotModel| s.rep),
                    }),
                },
                PossiblyIndexed::Unindexed(x) => match x.structure@.name {
                    None => r matches Err(SpensoError::NoName),
                    Some(_) => r matches Ok(k) && k@ == x.structure@,
                },
            },
    {
        match self {
            PossiblyIndexed::Indexed(i) => {
                if i.structure.name.is_none() {
                    return Err(SpensoError::NoName);
                }
                let mut reps: Vec<Representation> = Vec::new();
                let mut k: usize = 0;
                while k < i.structure.slots.len()
                    invariant
                        k <= i.structure.slots.len(),
                        reps.len() == k,
                        forall|j: int| 0 <= j < k ==> #[trigger] reps@[j]@ == i.structure.slots@[j]@.rep,
                    decreases i.structure.slots.len() - k,
                {
                    reps.push(i.structure.slots[k].rep.copy());
                    k = k + 1;
                }
                assert(reps_view(reps@) =~= slots_view(i.structure.slots@).map_values(
                    |s: SlotModel| s.rep,
                ));
                Ok(TensorKey { name: copy_name(&i.structure.name), args: copy_args(&i.structure.args), reps })
            },
            PossiblyIndexed::Unindexed(u) => {
                if u.structure.name.is_none() {
                    return Err(SpensoError::NoName);
                }
                Ok(u.structure.copy())
            },
        }
    }
}

/// The slots given by assigning `indices`, in order, to the representations.
pub open spec fn assign_indices(reps: Seq<RepresentationModel>, indices: Seq<AbstractIndex>) -> Seq<
    SlotModel,
> {
    Seq::new(indices.len(), |i: int| SlotModel { rep: reps[i], aind: indices[i]@ })
}

/// What assigning `indices` to a structure of the given name, arguments and
/// representations gives.
pub open spec fn reindexed(
    name: Option<Seq<char>>,
    args: Option<Seq<Term>>,
    reps: Seq<RepresentationModel>,
    indices: Seq<AbstractIndex>,
    r: Result<SpensoIndices, StructureError>,
) -> bool {
    if indices.len() == reps.len() {
        r matches Ok(x) && x.structure@ == (IndexedModel {
            name,
            args,
            slots: assign_indices(reps, indices),
        })
    } else {
        r matches Err(StructureError::WrongNumberOfIndices(g, o)) && g == indices.len() && o
            == reps.len()
    }
}

/// The slots of `reps` with the given indices.
fn slots_with(reps: &Vec<Representation>, indices: &Vec<AbstractIndex>) -> (r: Vec<Slot>)
    requires
        indices.len() == reps.len(),
    ensures
        slots_view(r@) == assign_indices(reps_view(reps@), indices@),
{
    let mut out: Vec<Slot> = Vec::new();
    let mut i: usize = 0;
    while i < indices.len()
        invariant
            i <= indices.len(),
            indices.len() == reps.len(),
            out.len() == i,
            forall|j: int| 0 <= j < i ==> #[trigger] out@[j]@ == (SlotModel {
                rep: reps@[j]@,
                aind: indices@[j]@,
            }),
        decreases indices.len() - i,
    {
        out.push(reps[i].slot(indices[i].copy()));
        i = i + 1;
    }
    assert(slots_view(out@) =~= assign_indices(reps_view(reps@), indices@));
    out
}

/// The representations of the slots, copied.
fn slot_reps_of(slots: &Vec<Slot>) -> (r: Vec<Representation>)
    ensures
        reps_view(r@) == slots_view(slots@).map_values(|s: SlotModel| s.rep),
{
    let mut reps: Vec<Representation> = Vec::new();
    let mut k: usize = 0;
    while k < slots.len()
        invariant
            k <= slots.len(),
            reps.len() == k,
            forall|j: int| 0 <= j < k ==> #[trigger] reps@[j]@ == slots@[j]@.rep,
        decreases slots.len() - k,
    {
        reps.push(slots[k].rep.copy());
        k = k + 1;
    }
    assert(reps_view(reps@) =~= slots_view(slots@).map_values(|s: SlotModel| s.rep));
    reps
}

impl SpensoIndices {
    /// The structure with its indices replaced by `indices`, in order; refused
    /// when their number differs from the order.
    pub fn reindex(&self, indices: &Vec<AbstractIndex>) -> (r: Result<SpensoIndices, StructureError>)
        ensures
            reindexed(
                self.structure@.name,
                self.structure@.args,
                self.structure@.slots.map_values(|s: SlotModel| s.rep),
                indices@,
                r,
            ),
    {
        let reps = slot_reps_of(&self.structure.slots);
        if reps.len() != indices.len() {
            return Err(StructureError::WrongNumberOfIndices(indices.len(), reps.len()));
        }
        let slots = slots_with(&reps, indices);
        Ok(
            SpensoIndices {
                structure: IndexedStructure {
                    name: copy_name(&self.structure.name),
                    args: copy_args(&self.structure.args),
                    slots,
                },
            },
        )
    }

    /// The structure with every slot replaced by its dual.
    pub fn dual(&self) -> (r: SpensoIndices)
        ensures
            r.structure@ == (IndexedModel { slots: dual_slots(self.structure@.slots), ..self.structure@ }),
    {
        SpensoIndices { structure: self.structure.dual() }
    }
}

impl PossiblyIndexed {
    /// The structure with the given indices: those of an indexed structure
    /// are replaced, the representations of an unindexed one get them, in
    /// order; refused when their number differs from the order.
    pub fn reindex(&self, indices: &Vec<AbstractIndex>) -> (r: Result<SpensoIndices, StructureError>)
        ensures
            match self {
                PossiblyIndexed::Indexed(x) => reindexed(
                    x.structure@.name,
                    x.structure@.args,
                    x.structure@.slots.map_values(|s: SlotModel| s.rep),
                    indices@,
                    r,
                ),
                PossiblyIndexed::Unindexed(x) => reindexed(
                    x.structure@.name,
                    x.structure@.args,
                    x.structure@.reps,
                    indices@,
                    r,
                ),
            },
    {
        match self {
            PossiblyIndexed::Indexed(i) => i.reindex(indices),
            PossiblyIndexed::Unindexed(u) => {
                if u.structure.reps.len() != indices.len() {
                    return Err(
                        StructureError::WrongNumberOfIndices(indices.len(), u.structure.reps.len()),
                    );
                }
                let slots = slots_with(&u.structure.reps, indices);
                Ok(
                    SpensoIndices {
                        structure: IndexedStructure {
                            name: copy_name(&u.structure.name),
                            args: copy_args(&u.structure.args),
                            slots,
                        },
                    },
                )
            },
        }
    }

    /// Joins two indexed structures at a contracted pair: the slot at
    /// `positions.0` of this structure and the one at `positions.1` of `other`
    /// are dropped, and the remaining slots of `other` follow those of this
    /// one, which keeps its name and arguments.
    pub fn merge_at(&self, other: &PossiblyIndexed, positions: (usize, usize)) -> (r: PossiblyIndexed)
        requires
            self matches PossiblyIndexed::Indexed(a) && positions.0 < a.structure@.slots.len(),
            other matches PossiblyIndexed::Indexed(b) && positions.1 < b.structure@.slots.len(),
        ensures
            match (self, other, r) {
                (
                    PossiblyIndexed::Indexed(a),
                    PossiblyIndexed::Indexed(b),
                    PossiblyIndexed::Indexed(c),
                ) => c.structure@ == (IndexedModel {
                    slots: a.structure@.slots.remove(positions.0 as int) + b.structure@.slots.remove(
                        positions.1 as int,
                    ),
                    ..a.structure@
                }),
                _ => false,
            },
    {
        match (self, other) {
            (PossiblyIndexed::Indexed(a), PossiblyIndexed::Indexed(b)) => {
                let mut left = copy_slots(&a.structure.slots);
                let mut right = copy_slots(&b.structure.slots);
                let ghost l0 = left@;
                let ghost r0 = right@;
                left.remove(positions.0);
                right.remove(positions.1);
                let ghost l1 = left@;
                let ghost r1 = right@;
                left.append(&mut right);
                proof {
                    assert(slots_view(l1) =~= slots_view(l0).remove(positions.0 as int));
                    assert(slots_view(r1) =~= slots_view(r0).remove(positions.1 as int));
                    assert(slots_view(left@) =~= slots_view(l1) + slots_view(r1));
                }
                PossiblyIndexed::Indexed(
                    SpensoIndices {
                        structure: IndexedStructure {
                            name: copy_name(&a.structure.name),
                            args: copy_args(&a.structure.args),
                            slots: left,
                        },
                    },
                )
            },
            _ => {
                proof {
                    assert(false);
                }
                PossiblyIndexed::Indexed(
                    SpensoIndices { structure: IndexedStructure { name: None, args: None, slots: Vec::new() } },
                )
            },
        }
    }
}

proof fn lemma_count_pos(t: Seq<SlotModel>, x: SlotModel, i: int)
    requires
        0 <= i < t.len(),
        t[i] == x,
    ensures
        slot_count(t, x) >= 1,
    decreases t.len(),
{
    if i < t.len() - 1 {
        lemma_count_pos(t.drop_last(), x, i);
    }
}

proof fn lemma_count_two(t: Seq<SlotModel>, x: SlotModel, i: int, j: int)
    requires
        0 <= i < j < t.len(),
        t[i] == x,
        t[j] == x,
    ensures
        slot_count(t, x) >= 2,
    decreases t.len(),
{
    if j == t.len() - 1 {
        lemma_count_pos(t.drop_last(), x, i);
    } else {
        lemma_count_two(t.drop_last(), x, i, j);
    }
}

proof fn lemma_count_filter(s: Seq<SlotModel>, p: spec_fn(SlotModel) -> bool, x: SlotModel)
    ensures
        slot_count(s.filter(p), x) <= slot_count(s, x),
    decreases s.len(),
{
    if s.len() > 0 {
        let init = s.drop_last();
        lemma_count_filter(init, p, x);
        init.lemma_filter_push(s.last(), p);
        assert(init.push(s.last()) =~= s);
        if p(s.last()) {
            assert(s.filter(p).drop_last() =~= init.filter(p));
        }
    } else {
        assert(s.filter(p) =~= Seq::<SlotModel>::empty()) by {
            reveal(Seq::filter);
        }
    }
}

/// Tracing out leaves no slot twice.
pub proof fn law_traced_out_no_duplicates(s: Seq<SlotModel>)
    ensures
        traced_out(s).no_duplicates(),
{
    let p = |x: SlotModel| slot_count(s, x) == 1;
    let t = s.filter(p);
    assert forall|i: int, j: int| 0 <= i < t.len() && 0 <= j < t.len() && i != j implies t[i]
        != t[j] by {
        if t[i] == t[j] {
            s.lemma_filter_pred(p, i);
            lemma_count_filter(s, p, t[i]);
            if i < j {
                lemma_count_two(t, t[i], i, j);
            } else {
                lemma_count_two(t, t[i], j, i);
            }
        }
    }
}

/// Assigning indices keeps the representations: the representations of the
/// slots are those the indices were assigned to, and the indices are the
/// ones given.
pub proof fn law_reindex_keeps_reps(reps: Seq<RepresentationModel>, indices: Seq<AbstractIndex>)
    requires
        indices.len() == reps.len(),
    ensures
        assign_indices(reps, indices).map_values(|s: SlotModel| s.rep) == reps,
        assign_indices(reps, indices).map_values(|s: SlotModel| s.aind) == indices.map_values(
            |a: AbstractIndex| a@,
        ),
{
    assert(assign_indices(reps, indices).map_values(|s: SlotModel| s.rep) =~= reps);
    assert(assign_indices(reps, indices).map_values(|s: SlotModel| s.aind) =~= indices.map_values(
        |a: AbstractIndex| a@,
    ));
}

} // verus!
