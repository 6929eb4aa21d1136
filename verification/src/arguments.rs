//! Reading user-supplied arguments as indices, dimensions, names and
//! additional arguments of tensor structures, and building symbolic and
//! indexed tensors from them.
use vstd::prelude::*;
use crate::cook::{cook_function, cook_function_spec};
use crate::expr::{Expr, Term, clone_all, copy_string, lemma_terms_of, lemma_terms_of_push, terms_of, views};
use crate::representations::{RepTable, register_outcome, table_after_register};
use crate::reps::{LibraryRep, RepOrientation, RepModel};
use crate::slots::{
    AbstractIndex, AindModel, DimModel, Dimension, Representation, RepresentationModel, Slot,
    SlotModel, aind_of_int, aind_of_term, aind_term, representation_symbolic, slot_term,
};
use crate::structure::{
    IndexedModel, IndexedStructure, KeyModel, SpensoIndices, SpensoRepresentation, SpensoSlot,
    SpensoStucture, StructureError, TensorKey, args_view, copy_args, copy_name, indexed_term,
    name_view, opt_terms, reps_view, slots_view,
};

verus! {

/// The one-character string of `c`.
#[verifier::external_body]
fn char_string(c: char) -> (r: String)
    ensures
        r@ == seq![c],
{
    String::from(c)
}

/// An argument meant as an index: an abstract index, an expression, or the
/// separator `;` that ends the additional arguments.
#[derive(Debug)]
pub enum ConvertibleToAbstractIndex {
    Aind(AbstractIndex),
    Atom(Expr),
    Separator,
}

pub enum IndexArgModel {
    Aind(AindModel),
    Atom(Term),
    Separator,
}

impl View for ConvertibleToAbstractIndex {
    type V = IndexArgModel;

    open spec fn view(&self) -> IndexArgModel {
        match self {
            ConvertibleToAbstractIndex::Aind(a) => IndexArgModel::Aind(a@),
            ConvertibleToAbstractIndex::Atom(e) => IndexArgModel::Atom(e@),
            ConvertibleToAbstractIndex::Separator => IndexArgModel::Separator,
        }
    }
}

pub open spec fn index_args_view(v: Seq<ConvertibleToAbstractIndex>) -> Seq<IndexArgModel> {
    v.map_values(|x: ConvertibleToAbstractIndex| x@)
}

/// A value given where an index is expected: a character, an integer, an
/// expression or a string.
#[derive(Debug)]
pub enum IndexValue {
    Char(char),
    Int(isize),
    Expression(Expr),
    Text(String),
}

pub enum IndexValueModel {
    Char(char),
    Int(isize),
    Expression(Term),
    Text(Seq<char>),
}

impl View for IndexValue {
    type V = IndexValueModel;

    open spec fn view(&self) -> IndexValueModel {
        match self {
            IndexValue::Char(c) => IndexValueModel::Char(*c),
            IndexValue::Int(i) => IndexValueModel::Int(*i),
            IndexValue::Expression(e) => IndexValueModel::Expression(e@),
            IndexValue::Text(s) => IndexValueModel::Text(s@),
        }
    }
}

/// How a value given as an index is read: `;` is the separator, other
/// characters, strings and variables name symbolic indices, integers name
/// numbered indices, and other expressions are kept as expressions.
pub open spec fn read_index_value(v: IndexValueModel) -> IndexArgModel {
    match v {
        IndexValueModel::Char(c) => if c == ';' {
            IndexArgModel::Separator
        } else {
            IndexArgModel::Aind(AindModel::Symbol(seq![c]))
        },
        IndexValueModel::Int(i) => IndexArgModel::Aind(aind_of_int(i as int)),
        IndexValueModel::Expression(t) => match t {
            Term::Var(s) => IndexArgModel::Aind(AindModel::Symbol(s)),
            _ => IndexArgModel::Atom(t),
        },
        IndexValueModel::Text(s) => IndexArgModel::Aind(AindModel::Symbol(s)),
    }
}

impl ConvertibleToAbstractIndex {
    pub fn copy(&self) -> (r: ConvertibleToAbstractIndex)
        ensures
            r@ == self@,
    {
        match self {
            ConvertibleToAbstractIndex::Aind(a) => ConvertibleToAbstractIndex::Aind(a.copy()),
            ConvertibleToAbstractIndex::Atom(e) => ConvertibleToAbstractIndex::Atom(e.deep_clone()),
            ConvertibleToAbstractIndex::Separator => ConvertibleToAbstractIndex::Separator,
        }
    }

    /// Reads a value given as an index.
    pub fn extract_bound(value: &IndexValue) -> (r: ConvertibleToAbstractIndex)
        ensures
            r@ == read_index_value(value@),
    {
        match value {
            IndexValue::Char(c) => {
                if *c == ';' {
                    ConvertibleToAbstractIndex::Separator
                } else {
                    ConvertibleToAbstractIndex::Aind(AbstractIndex::Symbol(char_string(*c)))
                }
            },
            IndexValue::Int(i) => ConvertibleToAbstractIndex::Aind(AbstractIndex::from_isize(*i)),
            IndexValue::Expression(e) => match e {
                Expr::Var(s) => ConvertibleToAbstractIndex::Aind(AbstractIndex::Symbol(copy_string(s))),
                _ => ConvertibleToAbstractIndex::Atom(e.deep_clone()),
            },
            IndexValue::Text(s) => ConvertibleToAbstractIndex::Aind(AbstractIndex::Symbol(copy_string(s))),
        }
    }
}

/// A value given as a dimension: an integer, an expression or a string.
#[derive(Debug)]
pub enum DimensionValue {
    Int(usize),
    Expression(Expr),
    Text(String),
}

/// A dimension read from a user-supplied value.
#[derive(Debug)]
pub struct ConvertibleToDimension(pub Dimension);

/// The namespace of dimensions named by strings.
pub open spec fn dimension_namespace() -> Seq<char> {
    "spenso_python::"@
}

impl ConvertibleToDimension {
    /// Reads a dimension: an integer is a concrete dimension, a variable or a
    /// string names a symbolic one (a string within the `spenso_python`
    /// namespace); other expressions are refused.
    pub fn extract_bound(value: &DimensionValue) -> (r: Result<ConvertibleToDimension, StructureError>)
        ensures
            match value {
                DimensionValue::Int(n) => r matches Ok(d) && d.0@ == DimModel::Concrete(*n),
                DimensionValue::Expression(e) => match e@ {
                    Term::Var(s) => r matches Ok(d) && d.0@ == DimModel::Symbolic(s),
                    _ => r matches Err(StructureError::NotASymbol(x)) && x@ == e@,
                },
                DimensionValue::Text(s) => r matches Ok(d) && d.0@ == DimModel::Symbolic(
                    dimension_namespace() + s@,
                ),
            },
    {
        match value {
            DimensionValue::Int(n) => Ok(ConvertibleToDimension(Dimension::Concrete(*n))),
            DimensionValue::Expression(e) => match e {
                Expr::Var(s) => Ok(ConvertibleToDimension(Dimension::Symbolic(copy_string(s)))),
                _ => Err(StructureError::NotASymbol(e.deep_clone())),
            },
            DimensionValue::Text(s) => {
                let mut name = String::from_str("spenso_python::");
                name.append(s.as_str());
                Ok(ConvertibleToDimension(Dimension::Symbolic(name)))
            },
        }
    }
}

/// How the arguments split at the separator: whether it was met, the
/// arguments before it, and those after it (all of them when there is none);
/// none when the separator occurs twice.
pub open spec fn split_index_args(s: Seq<IndexArgModel>) -> Option<
    (bool, Seq<IndexArgModel>, Seq<IndexArgModel>),
>
    decreases s.len(),
{
    if s.len() == 0 {
        Some((false, Seq::empty(), Seq::empty()))
    } else {
        match split_index_args(s.drop_last()) {
            None => None,
            Some((found, pre, post)) => match s.last() {
                IndexArgModel::Separator => if found {
                    None
                } else {
                    Some((true, pre + post, Seq::empty()))
                },
                x => Some((found, pre, post.push(x))),
            },
        }
    }
}

/// When a prefix has the separator twice, so has the whole sequence.
proof fn lemma_split_prefix_none(s: Seq<IndexArgModel>, k: int)
    requires
        0 <= k <= s.len(),
        split_index_args(s.take(k)) is None,
    ensures
        split_index_args(s) is None,
    decreases s.len() - k,
{
    if k < s.len() {
        assert(s.take(k + 1).drop_last() =~= s.take(k));
        lemma_split_prefix_none(s, k + 1);
    } else {
        assert(s.take(k) =~= s);
    }
}

/// The expression that an argument stands for.
pub open spec fn index_arg_term(a: IndexArgModel) -> Term {
    match a {
        IndexArgModel::Aind(i) => aind_term(i),
        IndexArgModel::Atom(t) => t,
        IndexArgModel::Separator => Term::Num(0),
    }
}

/// The additional arguments and index arguments read from the structure's own
/// arguments, the given index arguments and the explicit extra arguments: the
/// arguments before the separator join the additional ones, those after it are
/// the indices.
pub open spec fn parse_args_spec(
    own: Seq<Term>,
    items: Seq<IndexArgModel>,
    extra: Seq<Term>,
) -> Option<(Seq<Term>, Seq<IndexArgModel>)> {
    match split_index_args(items) {
        None => None,
        Some((found, pre, post)) => Some(
            (own + pre.map_values(|a: IndexArgModel| index_arg_term(a)) + extra, post),
        ),
    }
}

/// The arguments split at the separator keep their order, with no separator
/// left in either part, and the separator appears at most once.
pub proof fn law_split_keeps_order(s: Seq<IndexArgModel>)
    ensures
        match split_index_args(s) {
            Some((found, pre, post)) => {
                &&& (found ==> s == pre + seq![IndexArgModel::Separator] + post)
                &&& (!found ==> pre.len() == 0 && s == post)
                &&& forall|i: int| 0 <= i < pre.len() ==> !(pre[i] is Separator)
                &&& forall|i: int| 0 <= i < post.len() ==> !(post[i] is Separator)
            },
            None => exists|i: int, j: int|
                0 <= i < j < s.len() && s[i] is Separator && s[j] is Separator,
        },
    decreases s.len(),
{
    if s.len() > 0 {
        let init = s.drop_last();
        law_split_keeps_order(init);
        match split_index_args(init) {
            None => {
                let (i, j) = choose|i: int, j: int|
                    0 <= i < j < init.len() && init[i] is Separator && init[j] is Separator;
                assert(s[i] == init[i] && s[j] == init[j]);
            },
            Some((found, pre, post)) => {
                if s.last() is Separator {
                    if found {
                        let k = pre.len() as int;
                        assert(init[k] == (pre + seq![IndexArgModel::Separator] + post)[k]);
                        assert(s[k] is Separator);
                        assert(s[s.len() - 1] is Separator);
                    } else {
                        assert(s =~= init.push(IndexArgModel::Separator));
                        assert(s =~= pre + post + seq![IndexArgModel::Separator] + Seq::<IndexArgModel>::empty());
                        assert forall|i: int| 0 <= i < (pre + post).len() implies !((pre + post)[i] is Separator) by {
                            if i < pre.len() {
                            } else {
                                assert((pre + post)[i] == post[i - pre.len()]);
                            }
                        }
                    }
                } else {
                    if found {
                        assert(s =~= init.push(s.last()));
                        assert(s =~= pre + seq![IndexArgModel::Separator] + post.push(s.last()));
                    } else {
                        assert(s =~= post.push(s.last()));
                    }
                }
            },
        }
    }
}

impl SpensoStucture {
    /// Splits the given index arguments at the separator `;`: the structure's
    /// own arguments, the arguments before the separator and the explicit extra
    /// arguments become the additional arguments; the arguments after the
    /// separator (all of them when there is none) are the indices. A second
    /// separator is refused.
    pub fn parse_args_for_indexing(
        &self,
        args: Vec<ConvertibleToAbstractIndex>,
        extra_args: Option<Vec<Expr>>,
    ) -> (r: Result<(Vec<Expr>, Vec<ConvertibleToAbstractIndex>), StructureError>)
        ensures
            match parse_args_spec(
                opt_terms(self.structure@.args),
                index_args_view(args@),
                opt_terms(args_view(extra_args)),
            ) {
                Some((add, idx)) => r matches Ok((a, i)) && views(a) == add && index_args_view(i@)
                    == idx,
                None => r matches Err(StructureError::RepeatedSeparator),
            },
    {
        let mut pre: Vec<ConvertibleToAbstractIndex> = Vec::new();
        let mut post: Vec<ConvertibleToAbstractIndex> = Vec::new();
        let mut found = false;
        let ghost items = index_args_view(args@);
        let mut k: usize = 0;
        proof {
            assert(items.take(0) =~= Seq::<IndexArgModel>::empty());
            assert(index_args_view(pre@) =~= Seq::<IndexArgModel>::empty());
            assert(index_args_view(post@) =~= Seq::<IndexArgModel>::empty());
        }
        while k < args.len()
            invariant
                k <= args.len(),
                items == index_args_view(args@),
                split_index_args(items.take(k as int)) == Some(
                    (found, index_args_view(pre@), index_args_view(post@)),
                ),
            decreases args.len() - k,
        {
            proof {
                assert(items.take(k + 1).drop_last() =~= items.take(k as int));
                assert(items.take(k + 1).last() == args@[k as int]@);
            }
            match &args[k] {
                ConvertibleToAbstractIndex::Separator => {
                    if found {
                        proof {
                            lemma_split_prefix_none(items, k as int + 1);
                        }
                        return Err(StructureError::RepeatedSeparator);
                    }
                    found = true;
                    let ghost p0 = pre@;
                    let ghost q0 = post@;
                    pre.append(&mut post);
                    proof {
                        assert(index_args_view(pre@) =~= index_args_view(p0) + index_args_view(q0));
                        assert(index_args_view(post@) =~= Seq::<IndexArgModel>::empty());
                    }
                },
                item => {
                    let c = item.copy();
                    let ghost q0 = post@;
                    post.push(c);
                    proof {
                        assert(index_args_view(post@) =~= index_args_view(q0).push(args@[k as int]@));
                    }
                },
            }
            k = k + 1;
        }
        proof {
            assert(items.take(k as int) =~= items);
        }
        let mut additional: Vec<Expr> = match &self.structure.args {
            Some(a) => clone_all(a),
            None => Vec::new(),
        };
        let ghost own = terms_of(additional@);
        proof {
            assert(own =~= opt_terms(self.structure@.args));
        }
        let mut i: usize = 0;
        while i < pre.len()
            invariant
                i <= pre.len(),
                terms_of(additional@) == own + index_args_view(pre@).take(i as int).map_values(
                    |a: IndexArgModel| index_arg_term(a),
                ),
            decreases pre.len() - i,
        {
            let t = match &pre[i] {
                ConvertibleToAbstractIndex::Aind(a) => a.to_atom(),
                ConvertibleToAbstractIndex::Atom(e) => e.deep_clone(),
                ConvertibleToAbstractIndex::Separator => Expr::Num(0),
            };
            proof {
                lemma_terms_of_push(additional@, t);
                assert(index_args_view(pre@).take(i + 1).map_values(
                    |a: IndexArgModel| index_arg_term(a),
                ) =~= index_args_view(pre@).take(i as int).map_values(
                    |a: IndexArgModel| index_arg_term(a),
                ).push(index_arg_term(pre@[i as int]@)));
            }
            additional.push(t);
            i = i + 1;
        }
        assert(index_args_view(pre@).take(pre.len() as int) =~= index_args_view(pre@));
        let ghost mid = terms_of(additional@);
        match extra_args {
            Some(mut e) => {
                let ghost ev = terms_of(e@);
                proof {
                    lemma_terms_of(additional@);
                    lemma_terms_of(e@);
                }
                let ghost a0 = additional@;
                let ghost e0 = e@;
                additional.append(&mut e);
                proof {
                    lemma_terms_of(additional@);
                    assert(terms_of(additional@) =~= terms_of(a0) + terms_of(e0));
                }
            },
            None => {
                assert(mid + Seq::<Term>::empty() =~= mid);
            },
        }
        Ok((additional, post))
    }
}

/// The model of a structure error.
pub enum ErrModel {
    RepeatedSeparator,
    NoName,
    WrongNumberOfIndices(usize, usize),
    NotAnIndex(Term, bool),
    NotASymbol(Term),
    SeparatorAsIndex,
}

impl View for StructureError {
    type V = ErrModel;

    open spec fn view(&self) -> ErrModel {
        match self {
            StructureError::RepeatedSeparator => ErrModel::RepeatedSeparator,
            StructureError::NoName => ErrModel::NoName,
            StructureError::WrongNumberOfIndices(g, o) => ErrModel::WrongNumberOfIndices(*g, *o),
            StructureError::NotAnIndex(e, c) => ErrModel::NotAnIndex(e@, *c),
            StructureError::NotASymbol(e) => ErrModel::NotASymbol(e@),
            StructureError::SeparatorAsIndex => ErrModel::SeparatorAsIndex,
        }
    }
}

/// The model of a result whose error is a structure error.
pub open spec fn result_view<T: View>(r: Result<T, StructureError>) -> Result<T::V, ErrModel> {
    match r {
        Ok(x) => Ok(x@),
        Err(e) => Err(e@),
    }
}

/// The symbolic tensor `name(additional..., rep_1(dim_1, i_1), ...)` built from
/// a structure and the given arguments; refused for a repeated separator, a
/// structure without a name, or a number of indices that differs from the order.
pub open spec fn symbolic_spec(
    key: KeyModel,
    items: Seq<IndexArgModel>,
    extra: Seq<Term>,
) -> Result<Term, ErrModel> {
    match parse_args_spec(opt_terms(key.args), items, extra) {
        None => Err(ErrModel::RepeatedSeparator),
        Some((add, idx)) => match key.name {
            None => Err(ErrModel::NoName),
            Some(name) => if key.reps.len() != idx.len() {
                Err(ErrModel::WrongNumberOfIndices(idx.len() as usize, key.reps.len() as usize))
            } else {
                Ok(
                    Term::Fun(
                        name,
                        add + Seq::new(
                            idx.len(),
                            |i: int|
                                representation_symbolic(
                                    key.reps[i],
                                    seq![index_arg_term(idx[i])],
                                ),
                        ),
                    ),
                )
            },
        },
    }
}

/// The index argument after cooking, when cooking is asked for and the
/// argument is a call that can be cooked.
pub open spec fn cooked_index_arg(t: Term, cook: bool) -> Term {
    if cook {
        match cook_function_spec(t) {
            Ok(v) => v,
            Err(_) => t,
        }
    } else {
        t
    }
}

/// The abstract indices that the index arguments name, or the first argument
/// that names none.
pub open spec fn resolve_indices(s: Seq<IndexArgModel>, cook: bool) -> Result<Seq<AindModel>, Term>
    decreases s.len(),
{
    if s.len() == 0 {
        Ok(Seq::empty())
    } else {
        match resolve_indices(s.drop_last(), cook) {
            Err(t) => Err(t),
            Ok(r) => match s.last() {
                IndexArgModel::Aind(a) => Ok(r.push(a)),
                IndexArgModel::Atom(t) => match aind_of_term(cooked_index_arg(t, cook)) {
                    Some(a) => Ok(r.push(a)),
                    None => Err(t),
                },
                IndexArgModel::Separator => Ok(r),
            },
        }
    }
}

/// The indexed structure built from a structure and the given arguments.
pub open spec fn index_spec(
    key: KeyModel,
    items: Seq<IndexArgModel>,
    extra: Seq<Term>,
    cook: bool,
) -> Result<IndexedModel, ErrModel> {
    match parse_args_spec(opt_terms(key.args), items, extra) {
        None => Err(ErrModel::RepeatedSeparator),
        Some((add, idx)) => match resolve_indices(idx, cook) {
            Err(t) => Err(ErrModel::NotAnIndex(t, cook)),
            Ok(inds) => if inds.len() != key.reps.len() {
                Err(ErrModel::WrongNumberOfIndices(inds.len() as usize, key.reps.len() as usize))
            } else {
                Ok(
                    IndexedModel {
                        name: key.name,
                        args: if add.len() == 0 {
                            None
                        } else {
                            Some(add)
                        },
                        slots: Seq::new(
                            inds.len(),
                            |i: int| SlotModel { rep: key.reps[i], aind: inds[i] },
                        ),
                    },
                )
            },
        },
    }
}

/// Cooks an index argument when asked to.
fn cook_index_atom(e: &Expr, cook: bool) -> (r: Expr)
    ensures
        r@ == cooked_index_arg(e@, cook),
{
    if cook {
        match cook_function(e) {
            Ok(v) => v,
            Err(_) => e.deep_clone(),
        }
    } else {
        e.deep_clone()
    }
}

impl SpensoStucture {
    /// The symbolic tensor of this structure with the given arguments (see
    /// [`SpensoStucture::parse_args_for_indexing`] for how they are split).
    pub fn symbolic(
        &self,
        args: Vec<ConvertibleToAbstractIndex>,
        extra_args: Option<Vec<Expr>>,
    ) -> (r: Result<Expr, StructureError>)
        ensures
            result_view(r) == symbolic_spec(
                self.structure@,
                index_args_view(args@),
                opt_terms(args_view(extra_args)),
            ),
    {
        let ghost items = index_args_view(args@);
        let ghost extra = opt_terms(args_view(extra_args));
        let (additional, indices) = match self.parse_args_for_indexing(args, extra_args) {
            Ok(p) => p,
            Err(e) => return Err(e),
        };
        let name = match &self.structure.name {
            Some(n) => copy_string(n),
            None => return Err(StructureError::NoName),
        };
        if self.structure.reps.len() != indices.len() {
            return Err(StructureError::WrongNumberOfIndices(indices.len(), self.structure.reps.len()));
        }
        let mut all = additional;
        let ghost add = terms_of(all@);
        let ghost idx = index_args_view(indices@);
        let ghost reps = reps_view(self.structure.reps@);
        let mut i: usize = 0;
        while i < indices.len()
            invariant
                i <= indices.len(),
                indices.len() == self.structure.reps.len(),
                idx == index_args_view(indices@),
                reps == reps_view(self.structure.reps@),
                terms_of(all@) == add + Seq::new(
                    i as nat,
                    |k: int| representation_symbolic(reps[k], seq![index_arg_term(idx[k])]),
                ),
            decreases indices.len() - i,
        {
            let t = match &indices[i] {
                ConvertibleToAbstractIndex::Aind(a) => a.to_atom(),
                ConvertibleToAbstractIndex::Atom(e) => e.deep_clone(),
                ConvertibleToAbstractIndex::Separator => Expr::Num(0),
            };
            let v = vec![t];
            proof {
                lemma_terms_of(v@);
                assert(terms_of(v@) =~= seq![index_arg_term(idx[i as int])]);
            }
            let slot = self.structure.reps[i].to_symbolic(v);
            proof {
                lemma_terms_of_push(all@, slot);
            }
            all.push(slot);
            proof {
                assert(terms_of(all@) =~= add + Seq::new(
                    (i + 1) as nat,
                    |k: int| representation_symbolic(reps[k], seq![index_arg_term(idx[k])]),
                ));
            }
            i = i + 1;
        }
        Ok(Expr::Fun(name, all))
    }

    /// The indexed structure of this structure with the given arguments as
    /// indices (see [`SpensoStucture::parse_args_for_indexing`] for how they
    /// are split). With `cook_indices`, an index argument that is a call is
    /// first cooked into a variable. Refused for a repeated separator, an
    /// argument that names no index, or a number of indices that differs from
    /// the order.
    pub fn index(
        &self,
        args: Vec<ConvertibleToAbstractIndex>,
        extra_args: Option<Vec<Expr>>,
        cook_indices: bool,
    ) -> (r: Result<SpensoIndices, StructureError>)
        ensures
            match (r, index_spec(
                self.structure@,
                index_args_view(args@),
                opt_terms(args_view(extra_args)),
                cook_indices,
            )) {
                (Ok(x), Ok(y)) => x.structure@ == y,
                (Err(x), Err(y)) => x@ == y,
                _ => false,
            },
    {
        let ghost items = index_args_view(args@);
        let ghost extra = opt_terms(args_view(extra_args));
        let (additional, indices) = match self.parse_args_for_indexing(args, extra_args) {
            Ok(p) => p,
            Err(e) => return Err(e),
        };
        let ghost idx = index_args_view(indices@);
        let ghost add = views(additional);
        let mut resolved: Vec<AbstractIndex> = Vec::new();
        let mut i: usize = 0;
        proof {
            assert(idx.take(0) =~= Seq::<IndexArgModel>::empty());
            assert(resolved@.map_values(|a: AbstractIndex| a@) =~= Seq::<AindModel>::empty());
        }
        while i < indices.len()
            invariant
                i <= indices.len(),
                idx == index_args_view(indices@),
                parse_args_spec(opt_terms(self.structure@.args), items, extra) == Some((add, idx)),
                items == index_args_view(args@),
                extra == opt_terms(args_view(extra_args)),
                resolve_indices(idx.take(i as int), cook_indices) == Ok::<Seq<AindModel>, Term>(
                    resolved@.map_values(|a: AbstractIndex| a@),
                ),
            decreases indices.len() - i,
        {
            proof {
                assert(idx.take(i + 1).drop_last() =~= idx.take(i as int));
                assert(idx.take(i + 1).last() == indices@[i as int]@);
            }
            let ghost before = resolved@;
            match &indices[i] {
                ConvertibleToAbstractIndex::Aind(a) => {
                    resolved.push(a.copy());
                },
                ConvertibleToAbstractIndex::Atom(e) => {
                    let converted = cook_index_atom(e, cook_indices);
                    match AbstractIndex::from_expr(&converted) {
                        Some(a) => resolved.push(a),
                        None => {
                            proof {
                                assert(idx.take(i + 1).last() == IndexArgModel::Atom(e@));
                                assert(resolve_indices(idx.take(i + 1), cook_indices) == Err::<
                                    Seq<AindModel>,
                                    Term,
                                >(e@));
                                lemma_resolve_prefix_err(idx, i as int + 1, cook_indices);
                            }
                            return Err(StructureError::NotAnIndex(e.deep_clone(), cook_indices));
                        },
                    }
                },
                ConvertibleToAbstractIndex::Separator => {},
            }
            proof {
                assert(resolved@.map_values(|a: AbstractIndex| a@) =~= resolve_indices(
                    idx.take(i + 1),
                    cook_indices,
                )->Ok_0);
            }
            i = i + 1;
        }
        proof {
            assert(idx.take(indices.len() as int) =~= idx);
        }
        let args_opt = if additional.len() == 0 {
            None
        } else {
            Some(additional)
        };
        match self.structure.to_indexed(&resolved) {
            Ok(slots) => {
                let r = SpensoIndices {
                    structure: IndexedStructure { name: copy_name(&self.structure.name), args: args_opt, slots },
                };
                proof {
                    let inds = resolved@.map_values(|a: AbstractIndex| a@);
                    assert(r.structure@.slots =~= Seq::new(
                        inds.len(),
                        |k: int| SlotModel { rep: self.structure@.reps[k], aind: inds[k] },
                    ));
                }
                Ok(r)
            },
            Err(e) => Err(e),
        }
    }
}

/// Once a prefix of the index arguments names no index, neither does the whole.
proof fn lemma_resolve_prefix_err(s: Seq<IndexArgModel>, k: int, cook: bool)
    requires
        0 <= k <= s.len(),
        resolve_indices(s.take(k), cook) is Err,
    ensures
        resolve_indices(s, cook) == resolve_indices(s.take(k), cook),
    decreases s.len() - k,
{
    if k < s.len() {
        assert(s.take(k + 1).drop_last() =~= s.take(k));
        lemma_resolve_prefix_err(s, k + 1, cook);
    } else {
        assert(s.take(k) =~= s);
    }
}

/// An argument of an indexed structure: a slot or an additional expression.
#[derive(Debug)]
pub enum SlotOrExpr {
    Slot(Slot),
    Expression(Expr),
}

/// An argument of a structure: a representation or an additional expression.
#[derive(Debug)]
pub enum RepOrExpr {
    Rep(Representation),
    Expression(Expr),
}

/// The slots among the arguments, in order.
pub open spec fn slots_among(v: Seq<SlotOrExpr>) -> Seq<SlotModel>
    decreases v.len(),
{
    if v.len() == 0 {
        Seq::empty()
    } else {
        match v.last() {
            SlotOrExpr::Slot(s) => slots_among(v.drop_last()).push(s@),
            SlotOrExpr::Expression(_) => slots_among(v.drop_last()),
        }
    }
}

/// The expressions among the arguments, in order.
pub open spec fn exprs_among_slots(v: Seq<SlotOrExpr>) -> Seq<Term>
    decreases v.len(),
{
    if v.len() == 0 {
        Seq::empty()
    } else {
        match v.last() {
            SlotOrExpr::Slot(_) => exprs_among_slots(v.drop_last()),
            SlotOrExpr::Expression(e) => exprs_among_slots(v.drop_last()).push(e@),
        }
    }
}

/// The representations among the arguments, in order.
pub open spec fn reps_among(v: Seq<RepOrExpr>) -> Seq<RepresentationModel>
    decreases v.len(),
{
    if v.len() == 0 {
        Seq::empty()
    } else {
        match v.last() {
            RepOrExpr::Rep(r) => reps_among(v.drop_last()).push(r@),
            RepOrExpr::Expression(_) => reps_among(v.drop_last()),
        }
    }
}

/// The expressions among the arguments, in order.
pub open spec fn exprs_among_reps(v: Seq<RepOrExpr>) -> Seq<Term>
    decreases v.len(),
{
    if v.len() == 0 {
        Seq::empty()
    } else {
        match v.last() {
            RepOrExpr::Rep(_) => exprs_among_reps(v.drop_last()),
            RepOrExpr::Expression(e) => exprs_among_reps(v.drop_last()).push(e@),
        }
    }
}

/// No additional arguments when there are none.
pub open spec fn nonempty_args(a: Seq<Term>) -> Option<Seq<Term>> {
    if a.len() == 0 {
        None
    } else {
        Some(a)
    }
}

impl SpensoIndices {
    /// The indexed structure named by `name` (which must be a variable), with
    /// the given slots and the given expressions as additional arguments.
    pub fn from_list(name: &Expr, additional_args: Vec<SlotOrExpr>) -> (r: Result<SpensoIndices, StructureError>)
        ensures
            match name@ {
                Term::Var(n) => r matches Ok(x) && x.structure@ == (IndexedModel {
                    name: Some(n),
                    args: nonempty_args(exprs_among_slots(additional_args@)),
                    slots: slots_among(additional_args@),
                }),
                _ => r matches Err(StructureError::NotASymbol(e)) && e@ == name@,
            },
    {
        let mut args: Vec<Expr> = Vec::new();
        let mut slots: Vec<Slot> = Vec::new();
        let mut i: usize = 0;
        proof {
            assert(additional_args@.take(0) =~= Seq::<SlotOrExpr>::empty());
            assert(slots_view(slots@) =~= Seq::<SlotModel>::empty());
            assert(terms_of(args@) =~= Seq::<Term>::empty());
        }
        while i < additional_args.len()
            invariant
                i <= additional_args.len(),
                slots_view(slots@) == slots_among(additional_args@.take(i as int)),
                terms_of(args@) == exprs_among_slots(additional_args@.take(i as int)),
            decreases additional_args.len() - i,
        {
            proof {
                assert(additional_args@.take(i + 1).drop_last() =~= additional_args@.take(i as int));
            }
            match &additional_args[i] {
                SlotOrExpr::Slot(s) => {
                    let ghost before = slots@;
                    slots.push(s.copy());
                    proof {
                        assert(slots_view(slots@) =~= slots_view(before).push(s@));
                    }
                },
                SlotOrExpr::Expression(e) => {
                    let c = e.deep_clone();
                    proof {
                        lemma_terms_of_push(args@, c);
                    }
                    args.push(c);
                },
            }
            i = i + 1;
        }
        proof {
            assert(additional_args@.take(additional_args.len() as int) =~= additional_args@);
        }
        let args_opt = if args.len() == 0 {
            None
        } else {
            Some(args)
        };
        match name {
            Expr::Var(v) => Ok(
                SpensoIndices {
                    structure: IndexedStructure { name: Some(copy_string(v)), args: args_opt, slots },
                },
            ),
            _ => Err(StructureError::NotASymbol(name.deep_clone())),
        }
    }

    /// The symbolic tensor `name(args..., slots...)`; refused without a name.
    pub fn to_expression(&self) -> (r: Result<Expr, StructureError>)
        ensures
            match self.structure@.name {
                Some(_) => r matches Ok(e) && e@ == indexed_term(self.structure@),
                None => r matches Err(StructureError::NoName),
            },
    {
        match self.structure.to_symbolic() {
            Some(e) => Ok(e),
            None => Err(StructureError::NoName),
        }
    }
}

impl SpensoStucture {
    /// The structure of the given representations, with the given expressions
    /// as additional arguments and the given name, which must be a variable.
    pub fn from_list(additional_args: Vec<RepOrExpr>, name: Option<Expr>) -> (r: Result<
        SpensoStucture,
        StructureError,
    >)
        ensures
            match name {
                None => r matches Ok(x) && x.structure@ == (KeyModel {
                    name: None,
                    args: nonempty_args(exprs_among_reps(additional_args@)),
                    reps: reps_among(additional_args@),
                }),
                Some(n) => match n@ {
                    Term::Var(v) => r matches Ok(x) && x.structure@ == (KeyModel {
                        name: Some(v),
                        args: nonempty_args(exprs_among_reps(additional_args@)),
                        reps: reps_among(additional_args@),
                    }),
                    _ => r matches Err(StructureError::NotASymbol(e)) && e@ == n@,
                },
            },
    {
        let mut args: Vec<Expr> = Vec::new();
        let mut reps: Vec<Representation> = Vec::new();
        let mut i: usize = 0;
        proof {
            assert(additional_args@.take(0) =~= Seq::<RepOrExpr>::empty());
            assert(reps_view(reps@) =~= Seq::<RepresentationModel>::empty());
            assert(terms_of(args@) =~= Seq::<Term>::empty());
        }
        while i < additional_args.len()
            invariant
                i <= additional_args.len(),
                reps_view(reps@) == reps_among(additional_args@.take(i as int)),
                terms_of(args@) == exprs_among_reps(additional_args@.take(i as int)),
            decreases additional_args.len() - i,
        {
            proof {
                assert(additional_args@.take(i + 1).drop_last() =~= additional_args@.take(i as int));
            }
            match &additional_args[i] {
                RepOrExpr::Rep(x) => {
                    let ghost before = reps@;
                    reps.push(x.copy());
                    proof {
                        assert(reps_view(reps@) =~= reps_view(before).push(x@));
                    }
                },
                RepOrExpr::Expression(e) => {
                    let c = e.deep_clone();
                    proof {
                        lemma_terms_of_push(args@, c);
                    }
                    args.push(c);
                },
            }
            i = i + 1;
        }
        proof {
            assert(additional_args@.take(additional_args.len() as int) =~= additional_args@);
        }
        let args_opt = if args.len() == 0 {
            None
        } else {
            Some(args)
        };
        let key_name = match &name {
            None => None,
            Some(n) => match n {
                Expr::Var(v) => Some(copy_string(v)),
                _ => return Err(StructureError::NotASymbol(n.deep_clone())),
            },
        };
        Ok(SpensoStucture { structure: TensorKey { name: key_name, args: args_opt, reps } })
    }
}

/// What calling a representation on an index gives: a slot for an abstract
/// index, an expression `rep(dim, expr)` for any other expression.
#[derive(Debug)]
pub enum RepresentationCall {
    Slot(SpensoSlot),
    Expression(Expr),
}

impl SpensoRepresentation {
    /// Calls the representation on an index: an abstract index gives a slot,
    /// another expression gives `rep(dim, expr)`, the separator is refused.
    pub fn call(&self, aind: ConvertibleToAbstractIndex) -> (r: Result<RepresentationCall, StructureError>)
        ensures
            match aind@ {
                IndexArgModel::Separator => r matches Err(StructureError::SeparatorAsIndex),
                IndexArgModel::Aind(a) => r matches Ok(RepresentationCall::Slot(s)) && s.slot@ == (
                SlotModel { rep: self.representation@, aind: a }),
                IndexArgModel::Atom(t) => r matches Ok(RepresentationCall::Expression(e)) && e@
                    == representation_symbolic(self.representation@, seq![t]),
            },
    {
        match aind {
            ConvertibleToAbstractIndex::Separator => Err(StructureError::SeparatorAsIndex),
            ConvertibleToAbstractIndex::Aind(a) => Ok(
                RepresentationCall::Slot(SpensoSlot { slot: self.representation.slot(a) }),
            ),
            ConvertibleToAbstractIndex::Atom(e) => {
                let ghost t = e@;
                let v = vec![e];
                proof {
                    lemma_terms_of(v@);
                    assert(terms_of(v@) =~= seq![t]);
                }
                Ok(RepresentationCall::Expression(self.representation.to_symbolic(v)))
            },
        }
    }

    /// The symbolic form `rep(dim)` of the representation.
    pub fn to_expression(&self) -> (r: Expr)
        ensures
            r@ == representation_symbolic(self.representation@, Seq::empty()),
    {
        let v: Vec<Expr> = Vec::new();
        assert(terms_of(v@) =~= Seq::<Term>::empty());
        self.representation.to_symbolic(v)
    }

    /// Registers a representation of the given name (self-dual or dualizable)
    /// in the table and gives it the dimension.
    pub fn register_new(
        table: &mut RepTable,
        name: &str,
        dimension: ConvertibleToDimension,
        is_self_dual: bool,
    ) -> (r: SpensoRepresentation)
        requires
            register_outcome(old(table).model(), name@, is_self_dual) is Ok,
        ensures
            r.representation@ == (RepresentationModel {
                rep: register_outcome(old(table).model(), name@, is_self_dual)->Ok_0,
                dim: dimension.0@,
            }),
            final(table).model() == table_after_register(old(table).model(), name@, is_self_dual),
    {
        match table.register(name, is_self_dual) {
            Ok(rep) => SpensoRepresentation { representation: Representation { rep, dim: dimension.0 } },
            Err(_) => {
                assert(false);
                SpensoRepresentation {
                    representation: Representation { rep: LibraryRep::new(name, RepOrientation::SelfDual), dim: dimension.0 },
                }
            },
        }
    }
}

/// How a value given as the index of a new slot is read: integers name
/// numbered indices; variables, strings and characters name symbolic ones;
/// other expressions are refused.
pub open spec fn read_slot_index(v: IndexValueModel) -> Result<AindModel, ErrModel> {
    match v {
        IndexValueModel::Int(i) => Ok(aind_of_int(i as int)),
        IndexValueModel::Expression(t) => match t {
            Term::Var(s) => Ok(AindModel::Symbol(s)),
            _ => Err(ErrModel::NotASymbol(t)),
        },
        IndexValueModel::Text(s) => Ok(AindModel::Symbol(s)),
        IndexValueModel::Char(c) => Ok(AindModel::Symbol(seq![c])),
    }
}

impl SpensoSlot {
    /// Registers a representation of the given name (dualizable when `dual`,
    /// self-dual otherwise) and makes a slot of it with the given dimension and
    /// index.
    pub fn register_new(
        table: &mut RepTable,
        name: &str,
        dimension: usize,
        aind: &IndexValue,
        dual: bool,
    ) -> (r: Result<SpensoSlot, StructureError>)
        requires
            register_outcome(old(table).model(), name@, !dual) is Ok,
        ensures
            final(table).model() == table_after_register(old(table).model(), name@, !dual),
            match read_slot_index(aind@) {
                Ok(a) => r matches Ok(s) && s.slot@ == (SlotModel {
                    rep: RepresentationModel {
                        rep: register_outcome(old(table).model(), name@, !dual)->Ok_0,
                        dim: DimModel::Concrete(dimension),
                    },
                    aind: a,
                }),
                Err(e) => r matches Err(x) && x@ == e,
            },
    {
        let rep = match table.register(name, !dual) {
            Ok(rep) => rep,
            Err(_) => {
                assert(false);
                LibraryRep::new(name, RepOrientation::SelfDual)
            },
        };
        let representation = Representation { rep, dim: Dimension::Concrete(dimension) };
        let a = match aind {
            IndexValue::Int(i) => AbstractIndex::from_isize(*i),
            IndexValue::Expression(e) => match e {
                Expr::Var(v) => AbstractIndex::Symbol(copy_string(v)),
                _ => return Err(StructureError::NotASymbol(e.deep_clone())),
            },
            IndexValue::Text(t) => AbstractIndex::Symbol(copy_string(t)),
            IndexValue::Char(c) => AbstractIndex::Symbol(char_string(*c)),
        };
        Ok(SpensoSlot { slot: Slot { rep: representation, aind: a } })
    }

    /// The symbolic form `rep(dim, index)` of the slot.
    pub fn to_expression(&self) -> (r: Expr)
        ensures
            r@ == slot_term(self.slot@),
    {
        self.slot.to_atom()
    }
}

/// Something that can stand in arithmetic with structures: an expression or
/// an indexed structure.
#[derive(Debug)]
pub enum ArithmeticStructure {
    Convertible(Expr),
    Structure(SpensoIndices),
    Expression(Expr),
}

impl ArithmeticStructure {
    /// The expression it stands for; an indexed structure needs a name.
    pub fn to_expression(self) -> (r: Result<Expr, StructureError>)
        ensures
            match self {
                ArithmeticStructure::Convertible(e) => r matches Ok(x) && x@ == e@,
                ArithmeticStructure::Expression(e) => r matches Ok(x) && x@ == e@,
                ArithmeticStructure::Structure(s) => match s.structure@.name {
                    Some(_) => r matches Ok(x) && x@ == indexed_term(s.structure@),
                    None => r matches Err(StructureError::NoName),
                },
            },
    {
        match self {
            ArithmeticStructure::Convertible(e) => Ok(e),
            ArithmeticStructure::Structure(s) => s.to_expression(),
            ArithmeticStructure::Expression(e) => Ok(e),
        }
    }
}

/// A symbol given by its name or by an expression.
#[derive(Debug)]
pub enum ConvertibleToSymbol {
    Name(String),
    Symbol(Expr),
}

impl ConvertibleToSymbol {
    /// The symbol's name: a given name as it is, or the name of a variable;
    /// other expressions are refused.
    pub fn symbol(&self) -> (r: Result<String, StructureError>)
        ensures
            match self {
                ConvertibleToSymbol::Name(n) => r matches Ok(s) && s@ == n@,
                ConvertibleToSymbol::Symbol(e) => match e@ {
                    Term::Var(v) => r matches Ok(s) && s@ == v,
                    _ => r matches Err(StructureError::NotASymbol(x)) && x@ == e@,
                },
            },
    {
        match self {
            ConvertibleToSymbol::Name(n) => Ok(copy_string(n)),
            ConvertibleToSymbol::Symbol(e) => match e {
                Expr::Var(v) => Ok(copy_string(v)),
                _ => Err(StructureError::NotASymbol(e.deep_clone())),
            },
        }
    }
}

/// Arguments that are all abstract indices resolve to those indices.
proof fn lemma_resolve_abstract(s: Seq<IndexArgModel>, cook: bool)
    requires
        forall|i: int| 0 <= i < s.len() ==> #[trigger] s[i] is Aind,
    ensures
        resolve_indices(s, cook) == Ok::<Seq<AindModel>, Term>(
            s.map_values(|a: IndexArgModel| a->Aind_0),
        ),
    decreases s.len(),
{
    if s.len() > 0 {
        let init = s.drop_last();
        assert forall|i: int| 0 <= i < init.len() implies #[trigger] init[i] is Aind by {
            assert(init[i] == s[i]);
        }
        lemma_resolve_abstract(init, cook);
        assert(s[s.len() - 1] is Aind);
        assert(s.map_values(|a: IndexArgModel| a->Aind_0) =~= init.map_values(
            |a: IndexArgModel| a->Aind_0,
        ).push(s.last()->Aind_0));
    } else {
        assert(s.map_values(|a: IndexArgModel| a->Aind_0) =~= Seq::<AindModel>::empty());
    }
}

/// Indexing a named structure with abstract indices and writing the result
/// symbolically gives the structure's symbolic tensor for the same
/// arguments; the two are refused alike.
pub proof fn law_index_agrees_with_symbolic(
    key: KeyModel,
    items: Seq<IndexArgModel>,
    extra: Seq<Term>,
    cook: bool,
)
    requires
        key.name is Some,
        forall|i: int| 0 <= i < items.len() ==> !(#[trigger] items[i] is Atom),
    ensures
        match (symbolic_spec(key, items, extra), index_spec(key, items, extra, cook)) {
            (Ok(t), Ok(m)) => indexed_term(m) == t,
            (Err(a), Err(b)) => a == b,
            _ => false,
        },
{
    law_split_keeps_order(items);
    match split_index_args(items) {
        None => {},
        Some((found, pre, post)) => {
            assert forall|i: int| 0 <= i < post.len() implies #[trigger] post[i] is Aind by {
                if found {
                    assert(items == pre + seq![IndexArgModel::Separator] + post);
                    assert(post[i] == items[pre.len() + 1 + i]);
                } else {
                    assert(post[i] == items[i]);
                }
            }
            lemma_resolve_abstract(post, cook);
            let add = opt_terms(key.args) + pre.map_values(|a: IndexArgModel| index_arg_term(a))
                + extra;
            let inds = post.map_values(|a: IndexArgModel| a->Aind_0);
            if inds.len() == key.reps.len() {
                let m = index_spec(key, items, extra, cook)->Ok_0;
                let slots = Seq::new(
                    inds.len(),
                    |i: int| SlotModel { rep: key.reps[i], aind: inds[i] },
                );
                assert(m.slots == slots);
                assert(opt_terms(m.args) =~= add);
                assert(m.slots.map_values(|x: SlotModel| slot_term(x)) =~= Seq::new(
                    post.len(),
                    |i: int| representation_symbolic(key.reps[i], seq![index_arg_term(post[i])]),
                ));
            }
        },
    }
}

} // verus!
