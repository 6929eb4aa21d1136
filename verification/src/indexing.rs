//! Concrete indexing of tensor structures: sizes, row-major strides, and the
//! conversion between flat positions and lists of indices.
use vstd::prelude::*;
use crate::slots::{DimModel, Dimension, Representation, RepresentationModel, Slot, SlotModel};
use crate::structure::{SpensoIndices, SpensoStucture, reps_view, slots_view};

verus! {

/// The product of the dimensions.
pub open spec fn prod(ds: Seq<usize>) -> nat
    decreases ds.len(),
{
    if ds.len() == 0 {
        1
    } else {
        (ds[0] as nat) * prod(ds.skip(1))
    }
}

/// The row-major stride of position `k`: the product of the later dimensions.
pub open spec fn stride(ds: Seq<usize>, k: int) -> nat {
    prod(ds.skip(k + 1))
}

/// The flat position of the first `n` indices, in row-major order.
pub open spec fn flat_prefix(ds: Seq<usize>, idx: Seq<usize>, n: int) -> nat
    decreases n,
{
    if n <= 0 {
        0
    } else {
        flat_prefix(ds, idx, n - 1) + (idx[n - 1] as nat) * stride(ds, n - 1)
    }
}

/// The flat position of a list of indices, in row-major order.
pub open spec fn flat_of(ds: Seq<usize>, idx: Seq<usize>) -> nat {
    flat_prefix(ds, idx, idx.len() as int)
}

/// The list of indices of a flat position, in row-major order.
pub open spec fn expand_of(i: nat, ds: Seq<usize>) -> Seq<usize>
    decreases ds.len(),
{
    if ds.len() == 0 {
        Seq::empty()
    } else {
        let s = prod(ds.skip(1));
        seq![(i / s) as usize] + expand_of(i % s, ds.skip(1))
    }
}

/// Every index lies within its dimension.
pub open spec fn in_bounds(ds: Seq<usize>, idx: Seq<usize>) -> bool {
    idx.len() == ds.len() && forall|k: int| 0 <= k < ds.len() ==> idx[k] < ds[k]
}

/// Every stride and the size fit in a machine word.
pub open spec fn strides_fit(ds: Seq<usize>) -> bool {
    forall|k: int| 0 <= k <= ds.len() ==> prod(#[trigger] ds.skip(k)) <= usize::MAX
}

/// No stride is zero: every dimension after the first is positive.
pub open spec fn strides_nonzero(ds: Seq<usize>) -> bool {
    forall|k: int| 1 <= k < ds.len() ==> #[trigger] ds[k] > 0
}

/// Why a concrete index could not be computed.
#[derive(Clone, Copy, Debug, PartialEq, Eq, Structural)]
pub enum IndexingError {
    /// A dimension is symbolic.
    SymbolicDimension,
    /// The number of indices (first) differs from the order (second).
    MismatchedOrder(usize, usize),
    /// An index, or the flat position, is out of bounds.
    OutOfBounds,
}

/// The concrete dimensions of the representations, if none is symbolic.
pub open spec fn concrete_dims(reps: Seq<RepresentationModel>) -> Option<Seq<usize>> {
    if forall|k: int| 0 <= k < reps.len() ==> #[trigger] reps[k].dim is Concrete {
        Some(reps.map_values(|r: RepresentationModel| r.dim->Concrete_0))
    } else {
        None
    }
}

/// The concrete dimensions of the representations, if none is symbolic.
pub fn dims_of(reps: &Vec<Representation>) -> (r: Option<Vec<usize>>)
    ensures
        match (r, concrete_dims(reps_view(reps@))) {
            (Some(v), Some(d)) => v@ == d,
            (None, None) => true,
            _ => false,
        },
{
    let mut out: Vec<usize> = Vec::new();
    let mut i: usize = 0;
    while i < reps.len()
        invariant
            i <= reps.len(),
            out.len() == i,
            forall|k: int| 0 <= k < i ==> #[trigger] reps@[k]@.dim == DimModel::Concrete(out@[k]),
        decreases reps.len() - i,
    {
        match &reps[i].dim {
            Dimension::Concrete(n) => out.push(*n),
            Dimension::Symbolic(_) => {
                assert(!(reps_view(reps@)[i as int].dim is Concrete));
                return None;
            },
        }
        i = i + 1;
    }
    assert(out@ =~= reps_view(reps@).map_values(|r: RepresentationModel| r.dim->Concrete_0));
    Some(out)
}

proof fn lemma_prod_unfold(ds: Seq<usize>, k: int)
    requires
        0 <= k < ds.len(),
    ensures
        prod(ds.skip(k)) == (ds[k] as nat) * prod(ds.skip(k + 1)),
{
    assert(ds.skip(k).skip(1) =~= ds.skip(k + 1));
}

/// The size: the product of the dimensions.
pub fn size_of(ds: &Vec<usize>) -> (r: usize)
    requires
        strides_fit(ds@),
    ensures
        r == prod(ds@),
{
    let mut s: usize = 1;
    let mut i: usize = ds.len();
    assert(ds@.skip(ds.len() as int) =~= Seq::<usize>::empty());
    while i > 0
        invariant
            i <= ds.len(),
            s == prod(ds@.skip(i as int)),
            strides_fit(ds@),
        decreases i,
    {
        proof {
            lemma_prod_unfold(ds@, i - 1);
            assert(prod(ds@.skip(i - 1)) <= usize::MAX);
        }
        s = ds[i - 1] * s;
        i = i - 1;
    }
    assert(ds@.skip(0) =~= ds@);
    s
}

/// The row-major strides: position `k` has the product of the later dimensions.
pub fn strides_of(ds: &Vec<usize>) -> (r: Vec<usize>)
    requires
        strides_fit(ds@),
    ensures
        r.len() == ds.len(),
        forall|k: int| 0 <= k < ds.len() ==> #[trigger] r@[k] == stride(ds@, k),
{
    let n = ds.len();
    let mut r: Vec<usize> = Vec::new();
    let mut j: usize = 0;
    while j < n
        invariant
            j <= n,
            n == ds.len(),
            r.len() == j,
            forall|k: int| 0 <= k < j ==> r@[k] == 1,
        decreases n - j,
    {
        r.push(1);
        j = j + 1;
    }
    if n == 0 {
        return r;
    }
    let mut i: usize = n - 1;
    proof {
        assert(ds@.skip(n as int) =~= Seq::<usize>::empty());
    }
    while i > 0
        invariant
            i < n,
            n == ds.len(),
            r.len() == n,
            strides_fit(ds@),
            forall|k: int| i <= k < n ==> #[trigger] r@[k] == stride(ds@, k),
        decreases i,
    {
        proof {
            lemma_prod_unfold(ds@, i as int);
            assert(prod(ds@.skip(i as int)) <= usize::MAX);
        }
        let v = ds[i] * r[i];
        r.set(i - 1, v);
        i = i - 1;
    }
    r
}

proof fn lemma_prod_nonzero(ds: Seq<usize>, k: int)
    requires
        0 <= k <= ds.len(),
        forall|j: int| k <= j < ds.len() ==> #[trigger] ds[j] > 0,
    ensures
        prod(ds.skip(k)) > 0,
    decreases ds.len() - k,
{
    if k < ds.len() {
        lemma_prod_nonzero(ds, k + 1);
        lemma_prod_unfold(ds, k);
        assert((ds[k] as nat) * prod(ds.skip(k + 1)) > 0) by (nonlinear_arith)
            requires
                ds[k] > 0,
                prod(ds.skip(k + 1)) > 0,
        ;
    } else {
        assert(ds.skip(k) =~= Seq::<usize>::empty());
    }
}

/// A partial flat position plus the stride left to fill stays within the size.
proof fn lemma_flat_prefix_bound(ds: Seq<usize>, idx: Seq<usize>, n: int)
    requires
        in_bounds(ds, idx),
        0 <= n <= ds.len(),
    ensures
        flat_prefix(ds, idx, n) + prod(ds.skip(n)) <= prod(ds),
    decreases n,
{
    if n == 0 {
        assert(ds.skip(0) =~= ds);
    } else {
        lemma_flat_prefix_bound(ds, idx, n - 1);
        lemma_prod_unfold(ds, n - 1);
        let p = prod(ds.skip(n));
        let d = ds[n - 1] as nat;
        let x = idx[n - 1] as nat;
        assert(x * p + p <= d * p) by (nonlinear_arith)
            requires
                x < d,
        ;
    }
}

/// The flat position of a list of indices: refused when their number differs
/// from the order or when one is out of bounds.
pub fn flat_index(ds: &Vec<usize>, idx: &Vec<usize>) -> (r: Result<usize, IndexingError>)
    requires
        strides_fit(ds@),
    ensures
        idx.len() != ds.len() ==> r == Err::<usize, IndexingError>(
            IndexingError::MismatchedOrder(idx.len(), ds.len()),
        ),
        idx.len() == ds.len() && !in_bounds(ds@, idx@) ==> r == Err::<usize, IndexingError>(
            IndexingError::OutOfBounds,
        ),
        in_bounds(ds@, idx@) ==> r == Ok::<usize, IndexingError>(flat_of(ds@, idx@) as usize)
            && flat_of(ds@, idx@) < prod(ds@),
{
    let strides = strides_of(ds);
    if idx.len() != ds.len() {
        return Err(IndexingError::MismatchedOrder(idx.len(), ds.len()));
    }
    let mut k: usize = 0;
    while k < ds.len()
        invariant
            k <= ds.len(),
            idx.len() == ds.len(),
            forall|j: int| 0 <= j < k ==> idx@[j] < ds@[j],
        decreases ds.len() - k,
    {
        if idx[k] >= ds[k] {
            return Err(IndexingError::OutOfBounds);
        }
        k = k + 1;
    }
    assert(in_bounds(ds@, idx@));
    let mut acc: usize = 0;
    let mut i: usize = 0;
    while i < idx.len()
        invariant
            i <= idx.len(),
            idx.len() == ds.len(),
            strides.len() == ds.len(),
            forall|k: int| 0 <= k < ds.len() ==> #[trigger] strides@[k] == stride(ds@, k),
            in_bounds(ds@, idx@),
            strides_fit(ds@),
            acc == flat_prefix(ds@, idx@, i as int),
        decreases idx.len() - i,
    {
        proof {
            lemma_flat_prefix_bound(ds@, idx@, i + 1);
            assert(ds@.skip(0) =~= ds@);
            assert(prod(ds@.skip(0)) <= usize::MAX);
        }
        acc = acc + idx[i] * strides[i];
        i = i + 1;
    }
    proof {
        lemma_flat_prefix_bound(ds@, idx@, ds.len() as int);
        assert(ds@.skip(ds.len() as int) =~= Seq::<usize>::empty());
    }
    Ok(acc)
}

/// The list of indices of a flat position: refused when the position is out
/// of bounds.
pub fn expanded_index(ds: &Vec<usize>, flat: usize) -> (r: Result<Vec<usize>, IndexingError>)
    requires
        strides_fit(ds@),
        strides_nonzero(ds@),
    ensures
        flat < prod(ds@) ==> (r matches Ok(v) && v@ == expand_of(flat as nat, ds@)),
        flat >= prod(ds@) ==> r == Err::<Vec<usize>, IndexingError>(IndexingError::OutOfBounds),
{
    let strides = strides_of(ds);
    let mut out: Vec<usize> = Vec::new();
    let mut rem: usize = flat;
    let mut i: usize = 0;
    proof {
        assert(ds@.skip(0) =~= ds@);
        assert(out@ + expand_of(rem as nat, ds@.skip(0)) =~= expand_of(flat as nat, ds@));
    }
    while i < strides.len()
        invariant
            i <= strides.len(),
            strides.len() == ds.len(),
            forall|k: int| 0 <= k < ds.len() ==> #[trigger] strides@[k] == stride(ds@, k),
            strides_nonzero(ds@),
            out@ + expand_of(rem as nat, ds@.skip(i as int)) == expand_of(flat as nat, ds@),
        decreases strides.len() - i,
    {
        proof {
            lemma_prod_nonzero(ds@, i + 1);
            assert(ds@.skip(i as int).skip(1) =~= ds@.skip(i + 1));
        }
        let s = strides[i];
        let ghost before = out@;
        out.push(rem / s);
        proof {
            assert(expand_of(rem as nat, ds@.skip(i as int)) =~= seq![(rem / s) as usize]
                + expand_of((rem % s) as nat, ds@.skip(i + 1)));
            assert(out@ + expand_of((rem % s) as nat, ds@.skip(i + 1)) =~= before + expand_of(
                rem as nat,
                ds@.skip(i as int),
            ));
        }
        rem = rem % s;
        i = i + 1;
    }
    proof {
        assert(ds@.skip(ds.len() as int) =~= Seq::<usize>::empty());
        assert(out@ =~= expand_of(flat as nat, ds@));
    }
    if flat < size_of(ds) {
        Ok(out)
    } else {
        Err(IndexingError::OutOfBounds)
    }
}

/// The flat position splits into the first index times its stride plus the
/// flat position of the remaining indices in the remaining dimensions.
proof fn lemma_flat_split(ds: Seq<usize>, idx: Seq<usize>, n: int)
    requires
        1 <= n <= idx.len(),
        idx.len() == ds.len(),
    ensures
        flat_prefix(ds, idx, n) == (idx[0] as nat) * prod(ds.skip(1)) + flat_prefix(
            ds.skip(1),
            idx.skip(1),
            n - 1,
        ),
    decreases n,
{
    assert(flat_prefix(ds, idx, n) == flat_prefix(ds, idx, n - 1) + (idx[n - 1] as nat) * stride(
        ds,
        n - 1,
    ));
    if n > 1 {
        lemma_flat_split(ds, idx, n - 1);
        assert(ds.skip(n) =~= ds.skip(1).skip(n - 1));
        assert(idx[n - 1] == idx.skip(1)[n - 2]);
        assert(flat_prefix(ds.skip(1), idx.skip(1), n - 1) == flat_prefix(
            ds.skip(1),
            idx.skip(1),
            n - 2,
        ) + (idx.skip(1)[n - 2] as nat) * stride(ds.skip(1), n - 2));
    } else {
        assert(flat_prefix(ds, idx, 0) == 0);
        assert(flat_prefix(ds.skip(1), idx.skip(1), 0) == 0);
    }
}

/// Reading the indices back from the flat position of in-bounds indices gives
/// the indices.
pub proof fn law_expand_of_flat(ds: Seq<usize>, idx: Seq<usize>)
    requires
        in_bounds(ds, idx),
    ensures
        expand_of(flat_of(ds, idx), ds) == idx,
    decreases ds.len(),
{
    if ds.len() > 0 {
        let rest = ds.skip(1);
        let ri = idx.skip(1);
        assert(in_bounds(rest, ri));
        law_expand_of_flat(rest, ri);
        lemma_flat_split(ds, idx, idx.len() as int);
        lemma_flat_prefix_bound(rest, ri, rest.len() as int);
        assert(rest.skip(rest.len() as int) =~= Seq::<usize>::empty());
        assert(rest.skip(0) =~= rest);
        let s = prod(rest);
        let f = flat_of(rest, ri);
        let x = idx[0] as nat;
        assert(f < s);
        vstd::arithmetic::div_mod::lemma_fundamental_div_mod_converse(
            (x * s + f) as int,
            s as int,
            x as int,
            f as int,
        );
        assert(flat_of(ds, idx) == x * s + f);
        assert(expand_of(flat_of(ds, idx), ds) =~= seq![idx[0]] + ri);
        assert(seq![idx[0]] + ri =~= idx);
    } else {
        assert(idx =~= Seq::<usize>::empty());
    }
}

/// The indices of a flat position within the size are in bounds, and their
/// flat position is that position.
pub proof fn law_flat_of_expand(ds: Seq<usize>, i: nat)
    requires
        strides_nonzero(ds),
        i < prod(ds),
    ensures
        in_bounds(ds, expand_of(i, ds)),
        flat_of(ds, expand_of(i, ds)) == i,
    decreases ds.len(),
{
    if ds.len() > 0 {
        let rest = ds.skip(1);
        assert(strides_nonzero(rest));
        lemma_prod_nonzero(ds, 1);
        assert(ds.skip(1) =~= rest);
        let s = prod(rest);
        let q = i / s;
        let r = i % s;
        vstd::arithmetic::div_mod::lemma_fundamental_div_mod(i as int, s as int);
        vstd::arithmetic::div_mod::lemma_mod_pos_bound(i as int, s as int);
        assert(q < ds[0]) by (nonlinear_arith)
            requires
                i < (ds[0] as nat) * s,
                i == s * q + r,
                0 <= r,
                s > 0,
        ;
        law_flat_of_expand(rest, r);
        let e = expand_of(i, ds);
        let er = expand_of(r, rest);
        assert(e =~= seq![q as usize] + er);
        assert(e.skip(1) =~= er);
        assert(in_bounds(ds, e)) by {
            assert forall|k: int| 0 <= k < ds.len() implies e[k] < ds[k] by {
                if k > 0 {
                    assert(e[k] == er[k - 1]);
                    assert(ds[k] == rest[k - 1]);
                }
            }
        }
        lemma_flat_split(ds, e, e.len() as int);
        assert(flat_of(ds, e) == q * s + r) by (nonlinear_arith)
            requires
                flat_of(ds, e) == (e[0] as nat) * s + flat_of(rest, er),
                e[0] == q,
                flat_of(rest, er) == r,
        ;
        assert(q * s == s * q) by (nonlinear_arith);
    }
}

/// The positions `lo, lo + step, ...` below `hi`.
pub open spec fn positions(lo: nat, hi: nat, step: nat) -> Seq<nat>
    decreases hi - lo,
{
    if lo >= hi || step == 0 {
        Seq::empty()
    } else if lo + step >= hi {
        seq![lo]
    } else {
        seq![lo] + positions(lo + step, hi, step)
    }
}

/// A machine-word reading of an integer that is at least -1, where -1 wraps
/// around to the largest word.
pub open spec fn wrap_word(x: int) -> nat {
    if x < 0 {
        usize::MAX as nat
    } else {
        x as nat
    }
}

/// The range and step that a normalised slice `(start, stop, step,
/// slicelength)` walks: ends that are negative are counted from the slice
/// length, and a negative step walks from the end bound up to the start bound.
pub open spec fn slice_walk(start: int, stop: int, step: int, slicelength: int) -> (nat, nat, nat) {
    let s = if start < 0 {
        wrap_word(slicelength + start)
    } else {
        start as nat
    };
    let e = if stop < 0 {
        wrap_word(slicelength + stop)
    } else {
        stop as nat
    };
    if step < 0 {
        (e, s, (-step) as nat)
    } else {
        (s, e, step as nat)
    }
}

/// What indexing a structure gives: the list of indices of a flat position,
/// the flat position of a list of indices, or the lists of indices of the
/// positions of a slice.
#[derive(Debug)]
pub enum SliceOrIntOrExpanded {
    Int(usize),
    Expanded(Vec<usize>),
    /// A slice normalised to the structure's size: start, stop, step and the
    /// number of positions it covers.
    Slice(isize, isize, isize, isize),
}

#[derive(Debug)]
pub enum ItemValue {
    Indices(Vec<usize>),
    Flat(usize),
    IndexList(Vec<Vec<usize>>),
}

/// The lists of indices at the positions of a slice; refused when a position
/// is out of bounds.
pub open spec fn slice_items(ds: Seq<usize>, start: int, stop: int, step: int, slicelength: int) -> Result<
    Seq<Seq<usize>>,
    IndexingError,
> {
    let (lo, hi, st) = slice_walk(start, stop, step, slicelength);
    let ps = positions(lo, hi, st);
    if forall|k: int| 0 <= k < ps.len() ==> #[trigger] ps[k] < prod(ds) {
        Ok(ps.map_values(|p: nat| expand_of(p, ds)))
    } else {
        Err(IndexingError::OutOfBounds)
    }
}

proof fn lemma_positions_step(lo: nat, hi: nat, step: nat)
    requires
        lo < hi,
        step > 0,
    ensures
        positions(lo, hi, step) == seq![lo] + positions(lo + step, hi, step),
        lo + step >= hi ==> positions(lo + step, hi, step) == Seq::<nat>::empty(),
{
    if lo + step >= hi {
        assert(positions(lo, hi, step) =~= seq![lo] + Seq::<nat>::empty());
    }
}

fn word_of(x: isize) -> (r: usize)
    requires
        x >= -1,
    ensures
        r as nat == wrap_word(x as int),
{
    if x < 0 {
        usize::MAX
    } else {
        x as usize
    }
}

/// The lists of indices at the positions of a normalised slice.
pub fn slice_indices(
    ds: &Vec<usize>,
    start: isize,
    stop: isize,
    step: isize,
    slicelength: isize,
) -> (r: Result<Vec<Vec<usize>>, IndexingError>)
    requires
        strides_fit(ds@),
        strides_nonzero(ds@) || slice_empty(start as int, stop as int, step as int, slicelength as int),
        step != 0,
        step > isize::MIN,
        start >= -1,
        stop >= -1,
        0 <= slicelength <= isize::MAX / 2,
    ensures
        match (r, slice_items(ds@, start as int, stop as int, step as int, slicelength as int)) {
            (Ok(v), Ok(w)) => v@.map_values(|x: Vec<usize>| x@) == w,
            (Err(x), Err(y)) => x == y,
            _ => false,
        },
{
    let s = if start < 0 {
        word_of(slicelength + start)
    } else {
        start as usize
    };
    let e = if stop < 0 {
        word_of(slicelength + stop)
    } else {
        stop as usize
    };
    let (lo, hi, st) = if step < 0 {
        (e, s, (-step) as usize)
    } else {
        (s, e, step as usize)
    };
    assert(slice_walk(start as int, stop as int, step as int, slicelength as int) == (
        lo as nat,
        hi as nat,
        st as nat,
    ));
    let ghost all = positions(lo as nat, hi as nat, st as nat);
    let ghost size = prod(ds@);
    let mut out: Vec<Vec<usize>> = Vec::new();
    let ghost mut visited: Seq<nat> = Seq::empty();
    let mut i = lo;
    let mut go = lo < hi;
    proof {
        if !go {
            assert(all =~= Seq::<nat>::empty());
        }
        assert(visited + positions(i as nat, hi as nat, st as nat) =~= all);
    }
    proof {
        if !strides_nonzero(ds@) {
            assert(all.len() == 0);
        }
    }
    while go
        invariant
            st > 0,
            strides_fit(ds@),
            all.len() > 0 ==> strides_nonzero(ds@),
            size == prod(ds@),
            all == positions(lo as nat, hi as nat, st as nat),
            slice_walk(start as int, stop as int, step as int, slicelength as int) == (
                lo as nat,
                hi as nat,
                st as nat,
            ),
            go ==> i < hi,
            go ==> all == visited + positions(i as nat, hi as nat, st as nat),
            !go ==> all == visited,
            forall|k: int| 0 <= k < visited.len() ==> #[trigger] visited[k] < size,
            out@.map_values(|x: Vec<usize>| x@) == visited.map_values(|p: nat| expand_of(p, ds@)),
        decreases hi - i + if go { 1int } else { 0int },
    {
        proof {
            lemma_positions_step(i as nat, hi as nat, st as nat);
        }
        match expanded_index(ds, i) {
            Ok(v) => {
                let ghost before = out@;
                out.push(v);
                proof {
                    assert(out@.map_values(|x: Vec<usize>| x@) =~= before.map_values(
                        |x: Vec<usize>| x@,
                    ).push(expand_of(i as nat, ds@)));
                    assert(visited.push(i as nat).map_values(|p: nat| expand_of(p, ds@))
                        =~= visited.map_values(|p: nat| expand_of(p, ds@)).push(
                        expand_of(i as nat, ds@),
                    ));
                    assert(visited.push(i as nat) + positions((i + st) as nat, hi as nat, st as nat)
                        =~= visited + (seq![i as nat] + positions((i + st) as nat, hi as nat, st as nat)));
                    visited = visited.push(i as nat);
                }
            },
            Err(err) => {
                proof {
                    let k = visited.len() as int;
                    assert(all[k] == i as nat);
                    assert(!(all[k] < prod(ds@)));
                }
                return Err(err);
            },
        }
        if hi - i <= st {
            go = false;
            proof {
                assert(visited =~= all);
            }
        } else {
            i = i + st;
        }
    }
    Ok(out)
}

/// The size of a structure whose dimensions are all concrete.
pub open spec fn structure_size(reps: Seq<RepresentationModel>) -> nat {
    prod(concrete_dims(reps)->Some_0)
}

/// What indexing a structure of the given dimensions by `item` gives.
/// What indexing a structure of dimensions `ds` by `item` gives, as a
/// relation between the item and the result.
pub open spec fn item_result(
    ds: Seq<usize>,
    item: SliceOrIntOrExpanded,
    r: Result<ItemValue, IndexingError>,
) -> bool {
    match item {
        SliceOrIntOrExpanded::Int(i) => if (i as nat) < prod(ds) {
            r matches Ok(ItemValue::Indices(v)) && v@ == expand_of(i as nat, ds)
        } else {
            r == Err::<ItemValue, IndexingError>(IndexingError::OutOfBounds)
        },
        SliceOrIntOrExpanded::Expanded(v) => if v.len() != ds.len() {
            r == Err::<ItemValue, IndexingError>(
                IndexingError::MismatchedOrder(v.len(), ds.len() as usize),
            )
        } else if !in_bounds(ds, v@) {
            r == Err::<ItemValue, IndexingError>(IndexingError::OutOfBounds)
        } else {
            r matches Ok(ItemValue::Flat(f)) && f == flat_of(ds, v@)
        },
        SliceOrIntOrExpanded::Slice(start, stop, step, n) => match (
            r,
            slice_items(ds, start as int, stop as int, step as int, n as int),
        ) {
            (Ok(ItemValue::IndexList(v)), Ok(w)) => v@.map_values(|x: Vec<usize>| x@) == w,
            (Err(x), Err(y)) => x == y,
            _ => false,
        },
    }
}

/// Whether a normalised slice walks over no position.
pub open spec fn slice_empty(start: int, stop: int, step: int, slicelength: int) -> bool {
    let (lo, hi, st) = slice_walk(start, stop, step, slicelength);
    positions(lo, hi, st).len() == 0
}

/// Whether indexing by `item` is defined: a flat position, and a slice that
/// walks over some position, are read through the strides, which must then
/// be nonzero; a list of indices is checked against the dimensions alone.
pub open spec fn item_defined(ds: Seq<usize>, item: SliceOrIntOrExpanded) -> bool {
    match item {
        SliceOrIntOrExpanded::Int(_) => strides_nonzero(ds),
        SliceOrIntOrExpanded::Expanded(_) => true,
        SliceOrIntOrExpanded::Slice(start, stop, step, n) => strides_nonzero(ds) || slice_empty(
            start as int,
            stop as int,
            step as int,
            n as int,
        ),
    }
}

/// Whether a slice item is normalised: a nonzero step, bounds of at least -1
/// and a number of positions that leaves room for arithmetic.
pub open spec fn item_normalised(item: SliceOrIntOrExpanded) -> bool {
    item matches SliceOrIntOrExpanded::Slice(start, stop, step, n) ==> step != 0 && step
        > isize::MIN && start >= -1 && stop >= -1 && 0 <= n <= isize::MAX / 2
}

/// Whether every dimension after the first is nonzero.
fn strides_nonzero_exec(ds: &Vec<usize>) -> (r: bool)
    ensures
        r == strides_nonzero(ds@),
{
    let mut k: usize = 1;
    while k < ds.len()
        invariant
            1 <= k,
            forall|j: int| 1 <= j < k && j < ds.len() ==> #[trigger] ds@[j] > 0,
        decreases ds.len() - k,
    {
        if ds[k] == 0 {
            return false;
        }
        k = k + 1;
    }
    true
}

/// Whether indexing a structure of the given dimensions by `item` is
/// defined: see [`item_defined`].
pub fn is_item_defined(ds: &Vec<usize>, item: &SliceOrIntOrExpanded) -> (r: bool)
    requires
        item_normalised(*item),
    ensures
        r == item_defined(ds@, *item),
{
    match item {
        SliceOrIntOrExpanded::Int(_) => strides_nonzero_exec(ds),
        SliceOrIntOrExpanded::Expanded(_) => true,
        SliceOrIntOrExpanded::Slice(start, stop, step, n) => {
            if strides_nonzero_exec(ds) {
                return true;
            }
            let s = if *start < 0 {
                word_of(*n + *start)
            } else {
                *start as usize
            };
            let e = if *stop < 0 {
                word_of(*n + *stop)
            } else {
                *stop as usize
            };
            let (lo, hi) = if *step < 0 {
                (e, s)
            } else {
                (s, e)
            };
            let st: usize = if *step < 0 {
                (-*step) as usize
            } else {
                *step as usize
            };
            assert(slice_walk(*start as int, *stop as int, *step as int, *n as int) == (
                lo as nat,
                hi as nat,
                st as nat,
            ));
            if lo < hi {
                assert(positions(lo as nat, hi as nat, st as nat).len() > 0);
            }
            lo >= hi
        },
    }
}

/// What indexing a structure of the given dimensions by `item` gives.
pub fn get_item(ds: &Vec<usize>, item: &SliceOrIntOrExpanded) -> (r: Result<ItemValue, IndexingError>)
    requires
        strides_fit(ds@),
        item_defined(ds@, *item),
        item_normalised(*item),
    ensures
        item_result(ds@, *item, r),
{
    proof {
        assert(ds@.skip(0) =~= ds@);
    }
    match item {
        SliceOrIntOrExpanded::Int(i) => match expanded_index(ds, *i) {
            Ok(v) => {
                Ok(ItemValue::Indices(v))
            },
            Err(e) => Err(e),
        },
        SliceOrIntOrExpanded::Expanded(v) => match flat_index(ds, v) {
            Ok(f) => Ok(ItemValue::Flat(f)),
            Err(e) => Err(e),
        },
        SliceOrIntOrExpanded::Slice(start, stop, step, n) => match slice_indices(
            ds,
            *start,
            *stop,
            *step,
            *n,
        ) {
            Ok(v) => Ok(ItemValue::IndexList(v)),
            Err(e) => Err(e),
        },
    }
}

impl SpensoStucture {
    /// The number of components: the product of the dimensions, which must all
    /// be concrete.
    pub fn __len__(&self) -> (r: usize)
        requires
            concrete_dims(reps_view(self.structure.reps@)) matches Some(ds) && strides_fit(ds),
        ensures
            r == structure_size(reps_view(self.structure.reps@)),
    {
        match dims_of(&self.structure.reps) {
            Some(ds) => size_of(&ds),
            None => 0,
        }
    }

    /// Indexes the structure: see [`get_item`]; refused when a dimension is symbolic.
    pub fn __getitem__(&self, item: &SliceOrIntOrExpanded) -> (r: Result<ItemValue, IndexingError>)
        requires
            concrete_dims(reps_view(self.structure.reps@)) matches Some(ds) ==> strides_fit(ds)
                && item_defined(ds, *item),
            item_normalised(*item),
        ensures
            match concrete_dims(reps_view(self.structure.reps@)) {
                Some(ds) => item_result(ds, *item, r),
                None => r == Err::<ItemValue, IndexingError>(IndexingError::SymbolicDimension),
            },
    {
        match dims_of(&self.structure.reps) {
            Some(ds) => get_item(&ds, item),
            None => Err(IndexingError::SymbolicDimension),
        }
    }
}

/// The representations of a list of slots.
pub open spec fn slot_reps(slots: Seq<SlotModel>) -> Seq<RepresentationModel> {
    slots.map_values(|s: SlotModel| s.rep)
}

/// The representations of a list of slots, copied.
fn reps_of_slots(slots: &Vec<Slot>) -> (r: Vec<Representation>)
    ensures
        reps_view(r@) == slot_reps(slots_view(slots@)),
{
    let mut r: Vec<Representation> = Vec::new();
    let mut i: usize = 0;
    while i < slots.len()
        invariant
            i <= slots.len(),
            r.len() == i,
            forall|j: int| 0 <= j < i ==> #[trigger] r@[j]@ == slots@[j].rep@,
        decreases slots.len() - i,
    {
        r.push(slots[i].rep.copy());
        i = i + 1;
    }
    assert(reps_view(r@) =~= slot_reps(slots_view(slots@)));
    r
}

impl SpensoIndices {
    /// The number of components: the product of the dimensions of the slots,
    /// which must all be concrete.
    pub fn __len__(&self) -> (r: usize)
        requires
            concrete_dims(slot_reps(slots_view(self.structure.slots@))) matches Some(ds)
                && strides_fit(ds),
        ensures
            r == structure_size(slot_reps(slots_view(self.structure.slots@))),
    {
        let reps = reps_of_slots(&self.structure.slots);
        match dims_of(&reps) {
            Some(ds) => size_of(&ds),
            None => 0,
        }
    }

    /// Indexes the structure by the dimensions of its slots: see [`get_item`];
    /// refused when a dimension is symbolic.
    pub fn __getitem__(&self, item: &SliceOrIntOrExpanded) -> (r: Result<ItemValue, IndexingError>)
        requires
            concrete_dims(slot_reps(slots_view(self.structure.slots@))) matches Some(ds)
                ==> strides_fit(ds) && item_defined(ds, *item),
            item_normalised(*item),
        ensures
            match concrete_dims(slot_reps(slots_view(self.structure.slots@))) {
                Some(ds) => item_result(ds, *item, r),
                None => r == Err::<ItemValue, IndexingError>(IndexingError::SymbolicDimension),
            },
    {
        let reps = reps_of_slots(&self.structure.slots);
        match dims_of(&reps) {
            Some(ds) => get_item(&ds, item),
            None => Err(IndexingError::SymbolicDimension),
        }
    }
}

} // verus!
