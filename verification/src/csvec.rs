//! Compressed sparse vectors and the ordered merge-iteration protocol that
//! combines two of them.
//!
//! A sparse vector stores, for a logical dimension `dim`, the sorted sequence
//! of coordinates that carry an explicit value together with the parallel
//! sequence of those values. The structural invariant — index and value
//! storage of equal length, indices strictly increasing and below the
//! dimension — is validated once at every construction boundary that accepts
//! external data and relied upon afterwards, never re-checked.
//!
//! Storage is either owned ([`CsVec`]) or borrowed ([`CsVecView`]); a
//! borrowed view can always be copied into an owned vector and an owned
//! vector can always produce a borrowed view of itself.

use vstd::prelude::*;

use crate::errors::SprsError;
use crate::scalar::Scalar;

verus! {

/// Whether `s` is strictly increasing.
pub open spec fn str_sorted(s: Seq<usize>) -> bool {
    forall|i: int, j: int| 0 <= i < j < s.len() ==> s[i] < s[j]
}

/// Whether every element of `s` lies below `dim`.
pub open spec fn below_dim(s: Seq<usize>, dim: usize) -> bool {
    forall|i: int| 0 <= i < s.len() ==> s[i] < dim
}

/// A sparse vector owning its index and value storage.
#[derive(PartialEq, Debug)]
pub struct CsVec<N> {
    dim: usize,
    indices: Vec<usize>,
    data: Vec<N>,
}

/// A read-only sparse vector borrowing its index and value storage; its
/// lifetime is tied to the buffers it references.
#[derive(PartialEq, Debug)]
pub struct CsVecView<'a, N> {
    dim: usize,
    indices: &'a [usize],
    data: &'a [N],
}

impl<N> CsVec<N> {
    /// The declared dimension.
    pub closed spec fn spec_dim(&self) -> usize {
        self.dim
    }

    /// The stored coordinate sequence.
    pub closed spec fn spec_indices(&self) -> Seq<usize> {
        self.indices@
    }

    /// The stored value sequence.
    pub closed spec fn spec_data(&self) -> Seq<N> {
        self.data@
    }

    /// The stored non-zeros as (coordinate, value) pairs, in storage order.
    pub open spec fn entries(&self) -> Seq<(usize, N)> {
        Seq::new(self.spec_indices().len(), |k: int| (self.spec_indices()[k], self.spec_data()[k]))
    }

    /// The structural invariant: parallel storage of equal length, indices
    /// strictly increasing and all below the dimension.
    pub open spec fn wf(&self) -> bool {
        &&& self.spec_indices().len() == self.spec_data().len()
        &&& str_sorted(self.spec_indices())
        &&& below_dim(self.spec_indices(), self.spec_dim())
    }
}

impl<'a, N> CsVecView<'a, N> {
    /// The declared dimension.
    pub closed spec fn spec_dim(&self) -> usize {
        self.dim
    }

    /// The stored coordinate sequence.
    pub closed spec fn spec_indices(&self) -> Seq<usize> {
        self.indices@
    }

    /// The stored value sequence.
    pub closed spec fn spec_data(&self) -> Seq<N> {
        self.data@
    }

    /// The stored non-zeros as (coordinate, value) pairs, in storage order.
    pub open spec fn entries(&self) -> Seq<(usize, N)> {
        Seq::new(self.spec_indices().len(), |k: int| (self.spec_indices()[k], self.spec_data()[k]))
    }

    /// The structural invariant; see [`CsVec::wf`].
    pub open spec fn wf(&self) -> bool {
        &&& self.spec_indices().len() == self.spec_data().len()
        &&& str_sorted(self.spec_indices())
        &&& below_dim(self.spec_indices(), self.spec_dim())
    }
}

/// Classify `indices` against the structural invariant for dimension `dim`:
/// sortedness is reported first, then bounds.
fn check_index_slice(dim: usize, indices: &[usize]) -> (r: Result<(), SprsError>)
    ensures
        r is Ok <==> str_sorted(indices@) && below_dim(indices@, dim),
        r == Err::<(), SprsError>(SprsError::NonSortedIndices) <==> !str_sorted(indices@),
        r == Err::<(), SprsError>(SprsError::OutOfBoundsIndex) <==> str_sorted(indices@)
            && !below_dim(indices@, dim),
{
    let n = indices.len();
    let mut i: usize = 1;
    while i < n
        invariant
            1 <= i,
            n == indices@.len(),
            forall|p: int, q: int| 0 <= p < q < i ==> indices@[p] < indices@[q],
        decreases n - i,
    {
        if indices[i - 1] >= indices[i] {
            return Err(SprsError::NonSortedIndices);
        }
        assert(forall|p: int, q: int| 0 <= p < q < i + 1 ==> indices@[p] < indices@[q]) by {
            assert(forall|p: int| 0 <= p < i - 1 ==> #[trigger] indices@[p] < indices@[i - 1]);
        }
        i = i + 1;
    }
    let mut j: usize = 0;
    while j < n
        invariant
            n == indices@.len(),
            str_sorted(indices@),
            forall|p: int| 0 <= p < j ==> indices@[p] < dim,
        decreases n - j,
    {
        if indices[j] >= dim {
            return Err(SprsError::OutOfBoundsIndex);
        }
        j = j + 1;
    }
    Ok(())
}

impl<'a, N> CsVecView<'a, N> {
    /// Create a borrowed sparse vector over slice data, validating the
    /// structural invariant.
    pub fn new_borrowed(n: usize, indices: &'a [usize], data: &'a [N]) -> (r: Result<
        CsVecView<'a, N>,
        SprsError,
    >)
        requires
            indices@.len() == data@.len(),
        ensures
            r is Ok <==> str_sorted(indices@) && below_dim(indices@, n),
            r matches Ok(v) ==> v.wf() && v.spec_dim() == n && v.spec_indices() == indices@
                && v.spec_data() == data@,
            r == Err::<CsVecView<'a, N>, SprsError>(SprsError::NonSortedIndices) <==> !str_sorted(
                indices@,
            ),
            r == Err::<CsVecView<'a, N>, SprsError>(SprsError::OutOfBoundsIndex) <==> str_sorted(
                indices@,
            ) && !below_dim(indices@, n),
    {
        match check_index_slice(n, indices) {
            Ok(_) => Ok(CsVecView { dim: n, indices, data }),
            Err(e) => Err(e),
        }
    }

    /// Check the sparse structure, namely that the indices are strictly
    /// sorted and all lower than the dimension.
    pub fn check_structure(&self) -> (r: Result<(), SprsError>)
        ensures
            r is Ok <==> str_sorted(self.spec_indices()) && below_dim(
                self.spec_indices(),
                self.spec_dim(),
            ),
    {
        check_index_slice(self.dim, self.indices)
    }

    /// Create a borrowed sparse vector over slice data without checking
    /// the structure. For internal use only: the result is valid only if
    /// the caller's data already satisfies the structural invariant.
    pub fn _new_borrowed_unchecked(n: usize, indices: &'a [usize], data: &'a [N]) -> (r: CsVecView<
        'a,
        N,
    >)
        ensures
            r.spec_dim() == n,
            r.spec_indices() == indices@,
            r.spec_data() == data@,
    {
        CsVecView { dim: n, indices, data }
    }
}

impl<N> CsVec<N> {
    /// Create an owning sparse vector from vector data, validating the
    /// structural invariant.
    pub fn new_owned(n: usize, indices: Vec<usize>, data: Vec<N>) -> (r: Result<
        CsVec<N>,
        SprsError,
    >)
        requires
            indices@.len() == data@.len(),
        ensures
            r is Ok <==> str_sorted(indices@) && below_dim(indices@, n),
            r matches Ok(v) ==> v.wf() && v.spec_dim() == n && v.spec_indices() == indices@
                && v.spec_data() == data@,
            r == Err::<CsVec<N>, SprsError>(SprsError::NonSortedIndices) <==> !str_sorted(indices@),
            r == Err::<CsVec<N>, SprsError>(SprsError::OutOfBoundsIndex) <==> str_sorted(indices@)
                && !below_dim(indices@, n),
    {
        match check_index_slice(n, indices.as_slice()) {
            Ok(_) => Ok(CsVec { dim: n, indices, data }),
            Err(e) => Err(e),
        }
    }

    /// Create an empty sparse vector of dimension `dim`, ready for
    /// incremental construction through [`CsVec::append`].
    pub fn empty(dim: usize) -> (r: CsVec<N>)
        ensures
            r.wf(),
            r.spec_dim() == dim,
            r.spec_indices() == Seq::<usize>::empty(),
            r.spec_data() == Seq::<N>::empty(),
    {
        CsVec { dim, indices: Vec::new(), data: Vec::new() }
    }

    /// Append an element to the sparse vector, for incremental construction.
    /// The appended coordinate must keep the structure intact: it must be
    /// strictly greater than the last stored coordinate and below the
    /// dimension. Violating that is a caller bug, excluded by precondition.
    pub fn append(&mut self, ind: usize, val: N)
        requires
            old(self).wf(),
            old(self).spec_indices().len() > 0 ==> ind > old(self).spec_indices().last(),
            ind < old(self).spec_dim(),
        ensures
            final(self).wf(),
            final(self).spec_dim() == old(self).spec_dim(),
            final(self).spec_indices() == old(self).spec_indices().push(ind),
            final(self).spec_data() == old(self).spec_data().push(val),
    {
        self.indices.push(ind);
        self.data.push(val);
        proof {
            let s = self.spec_indices();
            assert forall|i: int, j: int| 0 <= i < j < s.len() implies s[i] < s[j] by {
                if j == s.len() - 1 && s.len() > 1 {
                    assert(old(self).spec_indices()[i] <= old(self).spec_indices().last());
                }
            }
        }
    }

    /// Reserve room for `size` additional non-zeros; no semantic effect.
    pub fn reserve(&mut self, size: usize)
        ensures
            final(self).spec_dim() == old(self).spec_dim(),
            final(self).spec_indices() == old(self).spec_indices(),
            final(self).spec_data() == old(self).spec_data(),
    {
        self.indices.reserve(size);
        self.data.reserve(size);
    }

    /// Reserve room for exactly `exact_size` additional non-zeros; no
    /// semantic effect.
    pub fn reserve_exact(&mut self, exact_size: usize)
        ensures
            final(self).spec_dim() == old(self).spec_dim(),
            final(self).spec_indices() == old(self).spec_indices(),
            final(self).spec_data() == old(self).spec_data(),
    {
        vec_reserve_exact(&mut self.indices, exact_size);
        vec_reserve_exact(&mut self.data, exact_size);
    }

    /// Discard all stored non-zeros; the dimension is unchanged.
    pub fn clear(&mut self)
        ensures
            final(self).wf(),
            final(self).spec_dim() == old(self).spec_dim(),
            final(self).spec_indices() == Seq::<usize>::empty(),
            final(self).spec_data() == Seq::<N>::empty(),
    {
        self.indices.clear();
        self.data.clear();
    }

    /// Check the sparse structure, namely that the indices are strictly
    /// sorted and all lower than the dimension.
    pub fn check_structure(&self) -> (r: Result<(), SprsError>)
        ensures
            r is Ok <==> str_sorted(self.spec_indices()) && below_dim(
                self.spec_indices(),
                self.spec_dim(),
            ),
    {
        check_index_slice(self.dim, self.indices.as_slice())
    }

    /// Produce a read-only view over the same data, without copying.
    pub fn borrowed<'a>(&'a self) -> (r: CsVecView<'a, N>)
        ensures
            r.spec_dim() == self.spec_dim(),
            r.spec_indices() == self.spec_indices(),
            r.spec_data() == self.spec_data(),
            self.wf() ==> r.wf(),
    {
        CsVecView { dim: self.dim, indices: self.indices.as_slice(), data: self.data.as_slice() }
    }

    /// The underlying indices.
    pub fn indices(&self) -> (r: &[usize])
        ensures
            r@ == self.spec_indices(),
    {
        self.indices.as_slice()
    }

    /// The underlying non-zero values.
    pub fn data(&self) -> (r: &[N])
        ensures
            r@ == self.spec_data(),
    {
        self.data.as_slice()
    }

    /// The dimension of this vector.
    pub fn dim(&self) -> (r: usize)
        ensures
            r == self.spec_dim(),
    {
        self.dim
    }

    /// The non-zero count of this vector.
    pub fn nnz(&self) -> (r: usize)
        ensures
            r == self.spec_data().len(),
    {
        self.data.len()
    }
}

impl<N: Copy> CsVec<N> {
    /// Allocate a new owned vector equal to this one.
    pub fn to_owned(&self) -> (r: CsVec<N>)
        ensures
            r.spec_dim() == self.spec_dim(),
            r.spec_indices() == self.spec_indices(),
            r.spec_data() == self.spec_data(),
            self.wf() ==> r.wf(),
    {
        CsVec {
            dim: self.dim,
            indices: vstd::slice::slice_to_vec(self.indices.as_slice()),
            data: vstd::slice::slice_to_vec(self.data.as_slice()),
        }
    }
}

impl<'a, N> CsVecView<'a, N> {
    /// The underlying indices.
    pub fn indices(&self) -> (r: &'a [usize])
        ensures
            r@ == self.spec_indices(),
    {
        self.indices
    }

    /// The underlying non-zero values.
    pub fn data(&self) -> (r: &'a [N])
        ensures
            r@ == self.spec_data(),
    {
        self.data
    }

    /// The dimension of this vector.
    pub fn dim(&self) -> (r: usize)
        ensures
            r == self.spec_dim(),
    {
        self.dim
    }

    /// The non-zero count of this vector.
    pub fn nnz(&self) -> (r: usize)
        ensures
            r == self.spec_data().len(),
    {
        self.data.len()
    }

    /// Produce a read-only view aliasing the same data.
    pub fn borrowed(&self) -> (r: CsVecView<'a, N>)
        ensures
            r == *self,
    {
        CsVecView { dim: self.dim, indices: self.indices, data: self.data }
    }
}

impl<'a, N: Copy> CsVecView<'a, N> {
    /// Allocate an independent owned copy of this view.
    pub fn to_owned(&self) -> (r: CsVec<N>)
        ensures
            r.spec_dim() == self.spec_dim(),
            r.spec_indices() == self.spec_indices(),
            r.spec_data() == self.spec_data(),
            self.wf() ==> r.wf(),
    {
        CsVec {
            dim: self.dim,
            indices: vstd::slice::slice_to_vec(self.indices),
            data: vstd::slice::slice_to_vec(self.data),
        }
    }
}

/// An iterator over the non-zero elements of a sparse vector, in ascending
/// coordinate order. It is re-derivable from the container: iterating does
/// not consume the vector.
pub struct VectorIterator<'a, N> {
    dim: usize,
    indices: &'a [usize],
    data: &'a [N],
    pos: usize,
}

/// One element of the union merge of two sparse vectors: a coordinate
/// stored by both inputs, by the left input only, or by the right only.
#[derive(PartialEq, Debug)]
pub enum NnzEither<N1, N2> {
    Both((usize, N1, N2)),
    Left((usize, N1)),
    Right((usize, N2)),
}

/// An iterator over the non-zeros of either of two vector iterators,
/// ordered by coordinate, such that the sum of the vectors may be computed.
pub struct NnzOrZip<'a, N1, N2> {
    left: VectorIterator<'a, N1>,
    right: VectorIterator<'a, N2>,
}

/// An iterator over the coordinates stored by both of two vector iterators,
/// ordered, yielding the coordinate with both values.
pub struct NnzZip<'a, N1, N2> {
    left: VectorIterator<'a, N1>,
    right: VectorIterator<'a, N2>,
}

/// The coordinate carried by a union-merge element.
pub open spec fn either_index<N1, N2>(e: NnzEither<N1, N2>) -> usize {
    match e {
        NnzEither::Both((i, _, _)) => i,
        NnzEither::Left((i, _)) => i,
        NnzEither::Right((i, _)) => i,
    }
}

/// Whether a sequence of (coordinate, value) pairs has strictly increasing
/// coordinates.
pub open spec fn pairs_sorted<N>(s: Seq<(usize, N)>) -> bool {
    forall|i: int, j: int| 0 <= i < j < s.len() ==> s[i].0 < s[j].0
}

/// The union merge of two (coordinate, value) sequences: one element per
/// coordinate appearing in either input. At each step the lower pending
/// coordinate is emitted as `Left` or `Right` and its side advances; equal
/// pending coordinates always merge into `Both` and both sides advance;
/// when one side is exhausted the other drains. This tie-break rule is the
/// defining contract of the union combinator.
pub open spec fn union_seq<N1, N2>(a: Seq<(usize, N1)>, b: Seq<(usize, N2)>) -> Seq<
    NnzEither<N1, N2>,
>
    decreases a.len() + b.len(),
{
    if a.len() == 0 && b.len() == 0 {
        Seq::empty()
    } else if b.len() == 0 {
        seq![NnzEither::Left(a[0])] + union_seq(a.skip(1), b)
    } else if a.len() == 0 {
        seq![NnzEither::Right(b[0])] + union_seq(a, b.skip(1))
    } else if a[0].0 < b[0].0 {
        seq![NnzEither::Left(a[0])] + union_seq(a.skip(1), b)
    } else if b[0].0 < a[0].0 {
        seq![NnzEither::Right(b[0])] + union_seq(a, b.skip(1))
    } else {
        seq![NnzEither::Both((a[0].0, a[0].1, b[0].1))] + union_seq(a.skip(1), b.skip(1))
    }
}

/// The intersection merge of two (coordinate, value) sequences: one triple
/// per coordinate appearing in both inputs, in merge order; coordinates
/// present on one side only are skipped.
pub open spec fn inter_seq<N1, N2>(a: Seq<(usize, N1)>, b: Seq<(usize, N2)>) -> Seq<
    (usize, N1, N2),
>
    decreases a.len() + b.len(),
{
    if a.len() == 0 || b.len() == 0 {
        Seq::empty()
    } else if a[0].0 < b[0].0 {
        inter_seq(a.skip(1), b)
    } else if b[0].0 < a[0].0 {
        inter_seq(a, b.skip(1))
    } else {
        seq![(a[0].0, a[0].1, b[0].1)] + inter_seq(a.skip(1), b.skip(1))
    }
}

impl<'a, N> VectorIterator<'a, N> {
    /// The dimension the iterated vector was declared with.
    pub closed spec fn spec_dim(&self) -> usize {
        self.dim
    }

    /// The (coordinate, value) pairs not yet yielded, in order.
    pub closed spec fn remaining(&self) -> Seq<(usize, N)> {
        Seq::new(
            (self.indices@.len() - self.pos) as nat,
            |k: int| (self.indices@[self.pos + k], self.data@[self.pos + k]),
        )
    }

    /// Well-formedness: the iterated storage satisfies the structural
    /// invariant and the cursor is in range.
    pub closed spec fn wf_it(&self) -> bool {
        &&& self.indices@.len() == self.data@.len()
        &&& self.pos <= self.indices@.len()
        &&& str_sorted(self.indices@)
        &&& below_dim(self.indices@, self.dim)
    }
}

/// What well-formedness gives of the pairs still to come: strictly
/// increasing coordinates, all below the declared dimension.
proof fn lemma_iter_remaining<N>(it: &VectorIterator<N>)
    requires
        it.wf_it(),
    ensures
        pairs_sorted(it.remaining()),
        forall|k: int| 0 <= k < it.remaining().len() ==> (#[trigger] it.remaining()[k]).0
            < it.spec_dim(),
{
}

impl<'a, N: Copy> VectorIterator<'a, N> {
    /// Yield the next (coordinate, value) pair, advancing the iterator.
    pub fn next(&mut self) -> (r: Option<(usize, N)>)
        requires
            old(self).wf_it(),
        ensures
            final(self).wf_it(),
            final(self).spec_dim() == old(self).spec_dim(),
            old(self).remaining().len() == 0 ==> r is None
                && final(self).remaining() == old(self).remaining(),
            old(self).remaining().len() > 0 ==> r == Some(old(self).remaining()[0])
                && final(self).remaining() == old(self).remaining().skip(1),
    {
        if self.pos < self.indices.len() {
            let i = *vstd::slice::slice_index_get(self.indices, self.pos);
            let v = *vstd::slice::slice_index_get(self.data, self.pos);
            self.pos = self.pos + 1;
            proof {
                assert(self.remaining() =~= old(self).remaining().skip(1));
            }
            Some((i, v))
        } else {
            None
        }
    }

    /// Look at the next pair without advancing.
    pub fn peek(&self) -> (r: Option<(usize, N)>)
        requires
            self.wf_it(),
        ensures
            self.remaining().len() == 0 ==> r is None,
            self.remaining().len() > 0 ==> r == Some(self.remaining()[0]),
    {
        if self.pos < self.indices.len() {
            let i = *vstd::slice::slice_index_get(self.indices, self.pos);
            let v = *vstd::slice::slice_index_get(self.data, self.pos);
            Some((i, v))
        } else {
            None
        }
    }

    /// The exact number of pairs still to come, as a lower and upper bound.
    pub fn size_hint(&self) -> (r: (usize, Option<usize>))
        requires
            self.wf_it(),
        ensures
            r.0 == self.remaining().len(),
            r.1 == Some(r.0),
    {
        let n = self.indices.len() - self.pos;
        (n, Some(n))
    }

    /// Lock-step this iterator with `other`, yielding the coordinates
    /// stored as non-zeros in both, with both values, in ascending
    /// coordinate order. Useful for vector dot product. The two iterated
    /// vectors must share their declared dimension: that is a caller
    /// contract, not user-input validation.
    pub fn nnz_zip<M: Copy>(self, other: VectorIterator<'a, M>) -> (r: NnzZip<'a, N, M>)
        requires
            self.wf_it(),
            other.wf_it(),
            self.spec_dim() == other.spec_dim(),
        ensures
            r.wf_zip(),
            r.lrem() == self.remaining(),
            r.rrem() == other.remaining(),
            r.spec_dim() == self.spec_dim(),
    {
        NnzZip { left: self, right: other }
    }

    /// Lock-step this iterator with `other`, yielding one tagged element
    /// per coordinate stored as a non-zero in either, in ascending
    /// coordinate order. This is useful for implementing, e.g., addition of
    /// vectors. The two iterated vectors must share their declared
    /// dimension: that is a caller contract, not user-input validation.
    pub fn nnz_or_zip<M: Copy>(self, other: VectorIterator<'a, M>) -> (r: NnzOrZip<'a, N, M>)
        requires
            self.wf_it(),
            other.wf_it(),
            self.spec_dim() == other.spec_dim(),
        ensures
            r.wf_or(),
            r.lrem() == self.remaining(),
            r.rrem() == other.remaining(),
            r.spec_dim() == self.spec_dim(),
    {
        NnzOrZip { left: self, right: other }
    }
}

/// Keep the elements of a union merge carried by both sides, as triples.
pub fn filter_both_nnz<N: Copy, M: Copy>(elem: NnzEither<N, M>) -> (r: Option<(usize, N, M)>)
    ensures
        elem matches NnzEither::Both(t) ==> r == Some(t),
        !(elem matches NnzEither::Both(_)) ==> r is None,
{
    match elem {
        NnzEither::Both((ind, lval, rval)) => Some((ind, lval, rval)),
        _ => None,
    }
}

impl<'a, N1, N2> NnzOrZip<'a, N1, N2> {
    /// The pairs the left side has still to yield.
    pub closed spec fn lrem(&self) -> Seq<(usize, N1)> {
        self.left.remaining()
    }

    /// The pairs the right side has still to yield.
    pub closed spec fn rrem(&self) -> Seq<(usize, N2)> {
        self.right.remaining()
    }

    /// The shared dimension of the two iterated vectors.
    pub closed spec fn spec_dim(&self) -> usize {
        self.left.spec_dim()
    }

    /// Well-formedness: both sides well-formed, over one dimension.
    pub closed spec fn wf_or(&self) -> bool {
        &&& self.left.wf_it()
        &&& self.right.wf_it()
        &&& self.left.spec_dim() == self.right.spec_dim()
    }
}

impl<'a, N1: Copy, N2: Copy> NnzOrZip<'a, N1, N2> {
    /// Yield the next element of the union merge: the head of
    /// `union_seq(lrem, rrem)`, advancing the side (or sides) it came from.
    pub fn next(&mut self) -> (r: Option<NnzEither<N1, N2>>)
        requires
            old(self).wf_or(),
        ensures
            final(self).wf_or(),
            final(self).spec_dim() == old(self).spec_dim(),
            union_seq(old(self).lrem(), old(self).rrem()).len() == 0 ==> r is None
                && final(self).lrem() == old(self).lrem()
                && final(self).rrem() == old(self).rrem(),
            union_seq(old(self).lrem(), old(self).rrem()).len() > 0 ==> r == Some(
                union_seq(old(self).lrem(), old(self).rrem())[0],
            ) && union_seq(final(self).lrem(), final(self).rrem()) == union_seq(
                old(self).lrem(),
                old(self).rrem(),
            ).skip(1),
    {
        let ghost a = self.lrem();
        let ghost b = self.rrem();
        match (self.left.peek(), self.right.peek()) {
            (None, None) => {
                assert(union_seq(a, b).len() == 0);
                None
            },
            (Some(p), None) => {
                let _ = self.left.next();
                proof {
                    assert(union_seq(a, b) == seq![NnzEither::Left(p)] + union_seq(a.skip(1), b));
                    assert(union_seq(self.lrem(), self.rrem()) =~= union_seq(a, b).skip(1));
                }
                Some(NnzEither::Left(p))
            },
            (None, Some(q)) => {
                let _ = self.right.next();
                proof {
                    assert(union_seq(a, b) == seq![NnzEither::Right(q)] + union_seq(a, b.skip(1)));
                    assert(union_seq(self.lrem(), self.rrem()) =~= union_seq(a, b).skip(1));
                }
                Some(NnzEither::Right(q))
            },
            (Some(p), Some(q)) => {
                if p.0 < q.0 {
                    let _ = self.left.next();
                    proof {
                        assert(union_seq(a, b) == seq![NnzEither::Left(p)] + union_seq(
                            a.skip(1),
                            b,
                        ));
                        assert(union_seq(self.lrem(), self.rrem()) =~= union_seq(a, b).skip(1));
                    }
                    Some(NnzEither::Left(p))
                } else if q.0 < p.0 {
                    let _ = self.right.next();
                    proof {
                        assert(union_seq(a, b) == seq![NnzEither::Right(q)] + union_seq(
                            a,
                            b.skip(1),
                        ));
                        assert(union_seq(self.lrem(), self.rrem()) =~= union_seq(a, b).skip(1));
                    }
                    Some(NnzEither::Right(q))
                } else {
                    let _ = self.left.next();
                    let _ = self.right.next();
                    proof {
                        assert(union_seq(a, b) == seq![NnzEither::Both((p.0, p.1, q.1))]
                            + union_seq(a.skip(1), b.skip(1)));
                        assert(union_seq(self.lrem(), self.rrem()) =~= union_seq(a, b).skip(1));
                    }
                    Some(NnzEither::Both((p.0, p.1, q.1)))
                }
            },
        }
    }

    /// Bounds on the number of union-merge elements still to come: at least
    /// the longer side, at most the sum of both sides.
    pub fn size_hint(&self) -> (r: (usize, Option<usize>))
        requires
            self.wf_or(),
        ensures
            r.0 == if self.lrem().len() >= self.rrem().len() {
                self.lrem().len()
            } else {
                self.rrem().len()
            },
            self.lrem().len() + self.rrem().len() <= usize::MAX ==> r.1 == Some(
                (self.lrem().len() + self.rrem().len()) as usize,
            ),
            self.lrem().len() + self.rrem().len() > usize::MAX ==> r.1 is None,
            r.0 <= union_seq(self.lrem(), self.rrem()).len(),
            union_seq(self.lrem(), self.rrem()).len() <= self.lrem().len() + self.rrem().len(),
    {
        proof {
            lemma_union_len(self.lrem(), self.rrem());
        }
        let (llo, _) = self.left.size_hint();
        let (rlo, _) = self.right.size_hint();
        let lower = if llo >= rlo {
            llo
        } else {
            rlo
        };
        let upper = if llo <= usize::MAX - rlo {
            Some(llo + rlo)
        } else {
            None
        };
        (lower, upper)
    }
}

impl<'a, N1, N2> NnzZip<'a, N1, N2> {
    /// The pairs the left side has still to yield.
    pub closed spec fn lrem(&self) -> Seq<(usize, N1)> {
        self.left.remaining()
    }

    /// The pairs the right side has still to yield.
    pub closed spec fn rrem(&self) -> Seq<(usize, N2)> {
        self.right.remaining()
    }

    /// The shared dimension of the two iterated vectors.
    pub closed spec fn spec_dim(&self) -> usize {
        self.left.spec_dim()
    }

    /// Well-formedness: both sides well-formed, over one dimension.
    pub closed spec fn wf_zip(&self) -> bool {
        &&& self.left.wf_it()
        &&& self.right.wf_it()
        &&& self.left.spec_dim() == self.right.spec_dim()
    }
}

impl<'a, N1: Copy, N2: Copy> NnzZip<'a, N1, N2> {
    /// Yield the next intersection element: the head of
    /// `inter_seq(lrem, rrem)`, skipping coordinates stored on one side
    /// only and advancing past everything consumed.
    pub fn next(&mut self) -> (r: Option<(usize, N1, N2)>)
        requires
            old(self).wf_zip(),
        ensures
            final(self).wf_zip(),
            final(self).spec_dim() == old(self).spec_dim(),
            inter_seq(old(self).lrem(), old(self).rrem()).len() == 0 ==> r is None,
            inter_seq(old(self).lrem(), old(self).rrem()).len() > 0 ==> r == Some(
                inter_seq(old(self).lrem(), old(self).rrem())[0],
            ) && inter_seq(final(self).lrem(), final(self).rrem()) == inter_seq(
                old(self).lrem(),
                old(self).rrem(),
            ).skip(1),
        decreases old(self).lrem().len() + old(self).rrem().len(),
    {
        let ghost a = self.lrem();
        let ghost b = self.rrem();
        match (self.left.peek(), self.right.peek()) {
            (Some(p), Some(q)) => {
                if p.0 < q.0 {
                    let _ = self.left.next();
                    assert(inter_seq(self.lrem(), self.rrem()) == inter_seq(a, b));
                    self.next()
                } else if q.0 < p.0 {
                    let _ = self.right.next();
                    assert(inter_seq(self.lrem(), self.rrem()) == inter_seq(a, b));
                    self.next()
                } else {
                    let _ = self.left.next();
                    let _ = self.right.next();
                    proof {
                        assert(inter_seq(a, b) == seq![(p.0, p.1, q.1)] + inter_seq(
                            a.skip(1),
                            b.skip(1),
                        ));
                        assert(inter_seq(self.lrem(), self.rrem()) =~= inter_seq(a, b).skip(1));
                    }
                    Some((p.0, p.1, q.1))
                }
            },
            _ => None,
        }
    }
}

/// The union merge is never shorter than either input and never longer
/// than both together.
pub proof fn lemma_union_len<N1, N2>(a: Seq<(usize, N1)>, b: Seq<(usize, N2)>)
    ensures
        union_seq(a, b).len() >= a.len(),
        union_seq(a, b).len() >= b.len(),
        union_seq(a, b).len() <= a.len() + b.len(),
    decreases a.len() + b.len(),
{
    if a.len() == 0 && b.len() == 0 {
    } else if b.len() == 0 {
        lemma_union_len(a.skip(1), b);
    } else if a.len() == 0 {
        lemma_union_len(a, b.skip(1));
    } else if a[0].0 < b[0].0 {
        lemma_union_len(a.skip(1), b);
    } else if b[0].0 < a[0].0 {
        lemma_union_len(a, b.skip(1));
    } else {
        lemma_union_len(a.skip(1), b.skip(1));
    }
}

/// Every coordinate of the union merge comes from one of the inputs.
pub proof fn lemma_union_members<N1, N2>(a: Seq<(usize, N1)>, b: Seq<(usize, N2)>)
    ensures
        forall|k: int|
            0 <= k < union_seq(a, b).len() ==> (exists|i: int|
                0 <= i < a.len() && a[i].0 == either_index(#[trigger] union_seq(a, b)[k]))
                || (exists|j: int|
                0 <= j < b.len() && b[j].0 == either_index(union_seq(a, b)[k])),
    decreases a.len() + b.len(),
{
    let u = union_seq(a, b);
    if a.len() == 0 && b.len() == 0 {
    } else {
        if b.len() == 0 || (a.len() > 0 && a[0].0 < b[0].0) {
            lemma_union_members(a.skip(1), b);
            assert forall|k: int| 0 <= k < u.len() implies (exists|i: int|
                0 <= i < a.len() && a[i].0 == either_index(#[trigger] u[k])) || (exists|j: int|
                0 <= j < b.len() && b[j].0 == either_index(u[k])) by {
                if k == 0 {
                    assert(a[0].0 == either_index(u[0]));
                } else {
                    let ut = union_seq(a.skip(1), b);
                    assert(u[k] == ut[k - 1]);
                    if exists|i: int| 0 <= i < a.skip(1).len() && a.skip(1)[i].0 == either_index(
                        ut[k - 1],
                    ) {
                        let i = choose|i: int|
                            0 <= i < a.skip(1).len() && a.skip(1)[i].0 == either_index(ut[k - 1]);
                        assert(a[i + 1].0 == either_index(u[k]));
                    }
                }
            }
        } else if a.len() == 0 || (b.len() > 0 && b[0].0 < a[0].0) {
            lemma_union_members(a, b.skip(1));
            assert forall|k: int| 0 <= k < u.len() implies (exists|i: int|
                0 <= i < a.len() && a[i].0 == either_index(#[trigger] u[k])) || (exists|j: int|
                0 <= j < b.len() && b[j].0 == either_index(u[k])) by {
                if k == 0 {
                    assert(b[0].0 == either_index(u[0]));
                } else {
                    let ut = union_seq(a, b.skip(1));
                    assert(u[k] == ut[k - 1]);
                    if exists|j: int| 0 <= j < b.skip(1).len() && b.skip(1)[j].0 == either_index(
                        ut[k - 1],
                    ) {
                        let j = choose|j: int|
                            0 <= j < b.skip(1).len() && b.skip(1)[j].0 == either_index(ut[k - 1]);
                        assert(b[j + 1].0 == either_index(u[k]));
                    }
                }
            }
        } else {
            lemma_union_members(a.skip(1), b.skip(1));
            assert forall|k: int| 0 <= k < u.len() implies (exists|i: int|
                0 <= i < a.len() && a[i].0 == either_index(#[trigger] u[k])) || (exists|j: int|
                0 <= j < b.len() && b[j].0 == either_index(u[k])) by {
                if k == 0 {
                    assert(a[0].0 == either_index(u[0]));
                } else {
                    let ut = union_seq(a.skip(1), b.skip(1));
                    assert(u[k] == ut[k - 1]);
                    if exists|i: int| 0 <= i < a.skip(1).len() && a.skip(1)[i].0 == either_index(
                        ut[k - 1],
                    ) {
                        let i = choose|i: int|
                            0 <= i < a.skip(1).len() && a.skip(1)[i].0 == either_index(ut[k - 1]);
                        assert(a[i + 1].0 == either_index(u[k]));
                    } else {
                        let j = choose|j: int|
                            0 <= j < b.skip(1).len() && b.skip(1)[j].0 == either_index(ut[k - 1]);
                        assert(b[j + 1].0 == either_index(u[k]));
                    }
                }
            }
        }
    }
}

/// Over inputs with strictly increasing coordinates, the union merge's
/// coordinates are strictly increasing as well: the merged stream is
/// ascending and holds each coordinate once.
pub proof fn lemma_union_sorted<N1, N2>(a: Seq<(usize, N1)>, b: Seq<(usize, N2)>)
    requires
        pairs_sorted(a),
        pairs_sorted(b),
    ensures
        forall|p: int, q: int|
            0 <= p < q < union_seq(a, b).len() ==> either_index(#[trigger] union_seq(a, b)[p])
                < either_index(#[trigger] union_seq(a, b)[q]),
    decreases a.len() + b.len(),
{
    let u = union_seq(a, b);
    if a.len() == 0 && b.len() == 0 {
    } else {
        let (at, bt, head): (Seq<(usize, N1)>, Seq<(usize, N2)>, usize) = if b.len() == 0 || (
        a.len() > 0 && a[0].0 < b[0].0) {
            (a.skip(1), b, a[0].0)
        } else if a.len() == 0 || b[0].0 < a[0].0 {
            (a, b.skip(1), b[0].0)
        } else {
            (a.skip(1), b.skip(1), a[0].0)
        };
        let ut = union_seq(at, bt);
        assert(u == seq![u[0]] + ut);
        assert(either_index(u[0]) == head);
        lemma_union_sorted(at, bt);
        lemma_union_members(at, bt);
        assert forall|q: int| 1 <= q < u.len() implies head < either_index(u[q]) by {
            assert(u[q] == ut[q - 1]);
            if exists|i: int| 0 <= i < at.len() && at[i].0 == either_index(ut[q - 1]) {
                let i = choose|i: int| 0 <= i < at.len() && at[i].0 == either_index(ut[q - 1]);
                assert(at[i].0 > head);
            } else {
                let j = choose|j: int| 0 <= j < bt.len() && bt[j].0 == either_index(ut[q - 1]);
                assert(bt[j].0 > head);
            }
        }
        assert forall|p: int, q: int| 0 <= p < q < u.len() implies either_index(
            #[trigger] u[p],
        ) < either_index(#[trigger] u[q]) by {
            if p == 0 {
            } else {
                assert(u[p] == ut[p - 1] && u[q] == ut[q - 1]);
            }
        }
    }
}

impl<N> CsVec<N> {
    /// Iterate over the non-zero values, in ascending coordinate order.
    pub fn iter<'a>(&'a self) -> (r: VectorIterator<'a, N>)
        ensures
            self.wf() ==> r.wf_it(),
            r.spec_dim() == self.spec_dim(),
            r.remaining() == self.entries(),
    {
        let r = VectorIterator {
            dim: self.dim,
            indices: self.indices.as_slice(),
            data: self.data.as_slice(),
            pos: 0,
        };
        proof {
            assert(r.remaining() =~= self.entries());
        }
        r
    }
}

impl<'a, N> CsVecView<'a, N> {
    /// Iterate over the non-zero values, in ascending coordinate order.
    pub fn iter(&self) -> (r: VectorIterator<'a, N>)
        ensures
            self.wf() ==> r.wf_it(),
            r.spec_dim() == self.spec_dim(),
            r.remaining() == self.entries(),
    {
        let r = VectorIterator { dim: self.dim, indices: self.indices, data: self.data, pos: 0 };
        proof {
            assert(r.remaining() =~= self.entries());
        }
        r
    }
}

/// One step of the left fold that sums the pairwise products of an
/// intersection merge.
pub open spec fn dot_fold<N: Scalar>(acc: N, s: Seq<(usize, N, N)>) -> N
    decreases s.len(),
{
    if s.len() == 0 {
        acc
    } else {
        dot_fold(acc.sp_add(s[0].1.sp_mul(s[0].2)), s.skip(1))
    }
}

/// The dot product of two sparse vectors given as entry sequences: the sum,
/// from the additive identity, of the products at every coordinate stored
/// by both.
pub open spec fn spec_dot<N: Scalar>(a: Seq<(usize, N)>, b: Seq<(usize, N)>) -> N {
    dot_fold(N::sp_zero(), inter_seq(a, b))
}

/// The (coordinate, value) pair an elementwise combination stores for one
/// union-merge element: at `Both` coordinates the two values are combined;
/// at one-sided coordinates the missing side is the additive identity, so
/// the stored side passes through combined with zero. With `subtract` the
/// combination is subtraction, otherwise addition.
pub open spec fn merge_value<N: Scalar>(e: NnzEither<N, N>, subtract: bool) -> (usize, N) {
    match e {
        NnzEither::Both((i, x, y)) => (i, if subtract { x.sp_sub(y) } else { x.sp_add(y) }),
        NnzEither::Left((i, x)) => (
            i,
            if subtract {
                x.sp_sub(N::sp_zero())
            } else {
                x.sp_add(N::sp_zero())
            },
        ),
        NnzEither::Right((i, y)) => (
            i,
            if subtract {
                N::sp_zero().sp_sub(y)
            } else {
                N::sp_zero().sp_add(y)
            },
        ),
    }
}

/// The entry sequence of an elementwise combination of two sparse vectors.
pub open spec fn spec_merge<N: Scalar>(
    a: Seq<(usize, N)>,
    b: Seq<(usize, N)>,
    subtract: bool,
) -> Seq<(usize, N)> {
    Seq::new(union_seq(a, b).len(), |k: int| merge_value(union_seq(a, b)[k], subtract))
}

/// The entry sequence of the elementwise sum of two sparse vectors.
pub open spec fn spec_add<N: Scalar>(a: Seq<(usize, N)>, b: Seq<(usize, N)>) -> Seq<(usize, N)> {
    spec_merge(a, b, false)
}

/// The entry sequence of the elementwise difference of two sparse vectors.
pub open spec fn spec_sub<N: Scalar>(a: Seq<(usize, N)>, b: Seq<(usize, N)>) -> Seq<(usize, N)> {
    spec_merge(a, b, true)
}

/// Drain an intersection iterator, multiplying the value pairs and summing
/// from the additive identity.
#[verifier::loop_isolation(false)]
fn dot_drain<'a, N: Scalar>(zip: NnzZip<'a, N, N>) -> (r: N)
    requires
        zip.wf_zip(),
    ensures
        r == dot_fold(N::sp_zero(), inter_seq(zip.lrem(), zip.rrem())),
{
    let ghost whole = inter_seq(zip.lrem(), zip.rrem());
    let mut it = zip;
    let mut acc = N::zero();
    loop
        invariant
            it.wf_zip(),
            dot_fold(acc, inter_seq(it.lrem(), it.rrem())) == dot_fold(N::sp_zero(), whole),
        decreases inter_seq(it.lrem(), it.rrem()).len(),
    {
        match it.next() {
            None => {
                return acc;
            },
            Some((_, lval, rval)) => {
                acc = acc.plus(lval.times(rval));
            },
        }
    }
}

impl<N: Scalar> CsVec<N> {
    /// The dot product of two sparse vectors of one dimension: the
    /// intersection merge's value pairs multiplied pairwise and summed from
    /// the additive identity, which is the result when the intersection is
    /// empty.
    pub fn dot(&self, rhs: &CsVec<N>) -> (r: N)
        requires
            self.wf(),
            rhs.wf(),
            self.spec_dim() == rhs.spec_dim(),
        ensures
            r == spec_dot(self.entries(), rhs.entries()),
    {
        dot_drain(self.iter().nnz_zip(rhs.iter()))
    }

    /// The elementwise combination behind addition and subtraction: a new
    /// owned vector over the union merge of both inputs. Its coordinate
    /// sequence inherits the union combinator's ordering guarantee, so the
    /// result is valid without re-sorting.
    fn merge_with(&self, rhs: &CsVec<N>, subtract: bool) -> (r: CsVec<N>)
        requires
            self.wf(),
            rhs.wf(),
            self.spec_dim() == rhs.spec_dim(),
        ensures
            r.wf(),
            r.spec_dim() == self.spec_dim(),
            r.entries() == spec_merge(self.entries(), rhs.entries(), subtract),
    {
        let mut res = CsVec::empty(self.dim());
        let mut it = self.iter().nnz_or_zip(rhs.iter());
        loop
            invariant
                it.wf_or(),
                it.spec_dim() == self.spec_dim(),
                res.wf(),
                res.spec_dim() == self.spec_dim(),
                res.entries() + Seq::new(
                    union_seq(it.lrem(), it.rrem()).len(),
                    |k: int| merge_value(union_seq(it.lrem(), it.rrem())[k], subtract),
                ) == spec_merge(self.entries(), rhs.entries(), subtract),
                res.spec_indices().len() > 0 ==> forall|k: int|
                    0 <= k < union_seq(it.lrem(), it.rrem()).len() ==> either_index(
                        #[trigger] union_seq(it.lrem(), it.rrem())[k],
                    ) > res.spec_indices().last(),
            decreases union_seq(it.lrem(), it.rrem()).len(),
        {
            let ghost a = it.lrem();
            let ghost b = it.rrem();
            let ghost u = union_seq(a, b);
            let ghost prev = res.entries();
            proof {
                lemma_iter_remaining(&it.left);
                lemma_iter_remaining(&it.right);
                lemma_union_sorted(a, b);
                lemma_union_members(a, b);
            }
            match it.next() {
                None => {
                    proof {
                        assert(res.entries() + Seq::new(
                            u.len(),
                            |k: int| merge_value(u[k], subtract),
                        ) =~= res.entries());
                    }
                    return res;
                },
                Some(e) => {
                    let (ind, val): (usize, N) = match e {
                        NnzEither::Both((i, x, y)) => (
                            i,
                            if subtract {
                                x.minus(y)
                            } else {
                                x.plus(y)
                            },
                        ),
                        NnzEither::Left((i, x)) => (
                            i,
                            if subtract {
                                x.minus(N::zero())
                            } else {
                                x.plus(N::zero())
                            },
                        ),
                        NnzEither::Right((i, y)) => (
                            i,
                            if subtract {
                                N::zero().minus(y)
                            } else {
                                N::zero().plus(y)
                            },
                        ),
                    };
                    proof {
                        assert(e == u[0]);
                        assert((ind, val) == merge_value(u[0], subtract));
                        assert(either_index(u[0]) == ind);
                    }
                    res.append(ind, val);
                    proof {
                        assert(res.entries() =~= prev.push((ind, val)));
                        let ut = union_seq(it.lrem(), it.rrem());
                        assert(ut == u.skip(1));
                        assert(Seq::new(u.len(), |k: int| merge_value(u[k], subtract))
                            =~= seq![merge_value(u[0], subtract)] + Seq::new(
                            ut.len(),
                            |k: int| merge_value(ut[k], subtract),
                        ));
                        assert(res.entries() + Seq::new(
                            ut.len(),
                            |k: int| merge_value(ut[k], subtract),
                        ) =~= prev + Seq::new(u.len(), |k: int| merge_value(u[k], subtract)));
                    }
                },
            }
        }
    }

    /// The elementwise sum of two sparse vectors of one dimension.
    pub fn add(&self, rhs: &CsVec<N>) -> (r: CsVec<N>)
        requires
            self.wf(),
            rhs.wf(),
            self.spec_dim() == rhs.spec_dim(),
        ensures
            r.wf(),
            r.spec_dim() == self.spec_dim(),
            r.entries() == spec_add(self.entries(), rhs.entries()),
    {
        self.merge_with(rhs, false)
    }

    /// The elementwise difference of two sparse vectors of one dimension.
    pub fn sub(&self, rhs: &CsVec<N>) -> (r: CsVec<N>)
        requires
            self.wf(),
            rhs.wf(),
            self.spec_dim() == rhs.spec_dim(),
        ensures
            r.wf(),
            r.spec_dim() == self.spec_dim(),
            r.entries() == spec_sub(self.entries(), rhs.entries()),
    {
        self.merge_with(rhs, true)
    }
}

impl<'a, N: Scalar> CsVecView<'a, N> {
    /// The dot product of two sparse vector views of one dimension; see
    /// [`CsVec::dot`].
    pub fn dot<'b>(&self, rhs: &CsVecView<'b, N>) -> (r: N)
        requires
            self.wf(),
            rhs.wf(),
            self.spec_dim() == rhs.spec_dim(),
        ensures
            r == spec_dot(self.entries(), rhs.entries()),
    {
        dot_drain(self.iter().nnz_zip(rhs.iter()))
    }
}

/// Swapping the two inputs of the intersection merge swaps the two values
/// in every emitted triple and changes nothing else.
pub proof fn lemma_inter_swap<N1, N2>(a: Seq<(usize, N1)>, b: Seq<(usize, N2)>)
    ensures
        inter_seq(b, a).len() == inter_seq(a, b).len(),
        forall|k: int|
            0 <= k < inter_seq(a, b).len() ==> #[trigger] inter_seq(b, a)[k] == (
                inter_seq(a, b)[k].0,
                inter_seq(a, b)[k].2,
                inter_seq(a, b)[k].1,
            ),
    decreases a.len() + b.len(),
{
    if a.len() == 0 || b.len() == 0 {
    } else if a[0].0 < b[0].0 {
        lemma_inter_swap(a.skip(1), b);
    } else if b[0].0 < a[0].0 {
        lemma_inter_swap(a, b.skip(1));
    } else {
        lemma_inter_swap(a.skip(1), b.skip(1));
        assert(inter_seq(a, b) == seq![(a[0].0, a[0].1, b[0].1)] + inter_seq(
            a.skip(1),
            b.skip(1),
        ));
        assert(inter_seq(b, a) == seq![(b[0].0, b[0].1, a[0].1)] + inter_seq(
            b.skip(1),
            a.skip(1),
        ));
    }
}

/// Folding the product sum over two triple sequences whose value pairs are
/// pointwise swapped gives the same result, because multiplication
/// commutes.
proof fn lemma_dot_fold_swapped<N: Scalar>(acc: N, s: Seq<(usize, N, N)>, t: Seq<(usize, N, N)>)
    requires
        t.len() == s.len(),
        forall|k: int| 0 <= k < s.len() ==> #[trigger] t[k] == (s[k].0, s[k].2, s[k].1),
    ensures
        dot_fold(acc, t) == dot_fold(acc, s),
    decreases s.len(),
{
    if s.len() > 0 {
        N::mul_commutes(s[0].1, s[0].2);
        lemma_dot_fold_swapped(acc.sp_add(s[0].1.sp_mul(s[0].2)), s.skip(1), t.skip(1));
    }
}

/// At a coordinate stored by one side only, the elementwise sum stores the
/// stored pair unchanged: the missing side is the additive identity, which
/// is neutral.
pub proof fn lemma_merge_one_sided<N: Scalar>(e: NnzEither<N, N>)
    ensures
        e matches NnzEither::Left(p) ==> merge_value(e, false) == p,
        e matches NnzEither::Right(p) ==> merge_value(e, false) == p,
    {
    match e {
        NnzEither::Left((_i, x)) => {
            N::zero_neutral(x);
        },
        NnzEither::Right((_i, y)) => {
            N::zero_neutral(y);
        },
        NnzEither::Both(_) => {},
    }
}

/// The dot product is commutative: for all sparse vectors of one
/// dimension, `a.dot(b)` equals `b.dot(a)`.
pub proof fn lemma_dot_commutative<N: Scalar>(a: &CsVec<N>, b: &CsVec<N>)
    requires
        a.wf(),
        b.wf(),
        a.spec_dim() == b.spec_dim(),
    ensures
        spec_dot(a.entries(), b.entries()) == spec_dot(b.entries(), a.entries()),
{
    lemma_inter_swap(a.entries(), b.entries());
    lemma_dot_fold_swapped(
        N::sp_zero(),
        inter_seq(a.entries(), b.entries()),
        inter_seq(b.entries(), a.entries()),
    );
}

/// The storage order of a compressed matrix view: non-zeros of each row
/// stored contiguously (`CSR`) or of each column (`CSC`).
#[derive(Clone, Copy, PartialEq, Eq, Structural, Debug)]
pub enum CompressedStorage {
    CSR,
    CSC,
}

/// A non-owning view of a compressed matrix with a single storage strip:
/// the shape a sparse vector's storage takes when reinterpreted as a
/// one-row or one-column matrix. The offset pair delimits the strip inside
/// the index and value slices. Constructed only over storage whose
/// structural invariant has already been validated; the view itself
/// validates nothing.
pub struct CsMatView<'a, N> {
    storage: CompressedStorage,
    nrows: usize,
    ncols: usize,
    indptr: (usize, usize),
    indices: &'a [usize],
    data: &'a [N],
}

impl<'a, N> CsMatView<'a, N> {
    /// The storage order.
    pub closed spec fn spec_storage(&self) -> CompressedStorage {
        self.storage
    }

    /// The number of rows.
    pub closed spec fn spec_rows(&self) -> usize {
        self.nrows
    }

    /// The number of columns.
    pub closed spec fn spec_cols(&self) -> usize {
        self.ncols
    }

    /// The offset pair delimiting the single strip.
    pub closed spec fn spec_indptr(&self) -> (usize, usize) {
        self.indptr
    }

    /// The viewed coordinate sequence.
    pub closed spec fn spec_indices(&self) -> Seq<usize> {
        self.indices@
    }

    /// The viewed value sequence.
    pub closed spec fn spec_data(&self) -> Seq<N> {
        self.data@
    }
}

impl<N> CsVec<N> {
    /// View this vector as a matrix with only one row, reinterpreting its
    /// storage without copying. Safe because the view is taken into a
    /// vector whose structural invariant has necessarily been checked:
    /// sorted in-bounds indices are exactly what a compressed row strip
    /// requires.
    pub fn row_view<'a>(&'a self) -> (r: CsMatView<'a, N>)
        requires
            self.wf(),
        ensures
            r.spec_storage() == CompressedStorage::CSR,
            r.spec_rows() == 1,
            r.spec_cols() == self.spec_dim(),
            r.spec_indptr() == (0usize, self.spec_indices().len() as usize),
            r.spec_indices() == self.spec_indices(),
            r.spec_data() == self.spec_data(),
    {
        CsMatView {
            storage: CompressedStorage::CSR,
            nrows: 1,
            ncols: self.dim,
            indptr: (0, self.indices.len()),
            indices: self.indices.as_slice(),
            data: self.data.as_slice(),
        }
    }

    /// View this vector as a matrix with only one column, reinterpreting
    /// its storage without copying; see [`CsVec::row_view`].
    pub fn col_view<'a>(&'a self) -> (r: CsMatView<'a, N>)
        requires
            self.wf(),
        ensures
            r.spec_storage() == CompressedStorage::CSC,
            r.spec_rows() == self.spec_dim(),
            r.spec_cols() == 1,
            r.spec_indptr() == (0usize, self.spec_indices().len() as usize),
            r.spec_indices() == self.spec_indices(),
            r.spec_data() == self.spec_data(),
    {
        CsMatView {
            storage: CompressedStorage::CSC,
            nrows: self.dim,
            ncols: 1,
            indptr: (0, self.indices.len()),
            indices: self.indices.as_slice(),
            data: self.data.as_slice(),
        }
    }
}

impl<'a, N> CsMatView<'a, N> {
    /// The storage order of this view.
    pub fn storage(&self) -> (r: CompressedStorage)
        ensures
            r == self.spec_storage(),
    {
        self.storage
    }

    /// The number of rows.
    pub fn rows(&self) -> (r: usize)
        ensures
            r == self.spec_rows(),
    {
        self.nrows
    }

    /// The number of columns.
    pub fn cols(&self) -> (r: usize)
        ensures
            r == self.spec_cols(),
    {
        self.ncols
    }

    /// The offset pair delimiting the single strip.
    pub fn indptr(&self) -> (r: (usize, usize))
        ensures
            r == self.spec_indptr(),
    {
        self.indptr
    }

    /// The viewed indices.
    pub fn indices(&self) -> (r: &'a [usize])
        ensures
            r@ == self.spec_indices(),
    {
        self.indices
    }

    /// The viewed values.
    pub fn data(&self) -> (r: &'a [N])
        ensures
            r@ == self.spec_data(),
    {
        self.data
    }
}

/// How a matrix-times-vector product should be delegated to the external
/// product collaborators.
#[derive(Clone, Copy, PartialEq, Eq, Structural, Debug)]
pub enum MatVecRoute {
    /// The specialized direct sparse matrix-vector routine.
    DirectRowMajor,
    /// The generic path: reinterpret the vector as a one-column matrix and
    /// take the matrix-matrix product.
    ViaColView,
}

/// The delegation policy for multiplying a matrix by a sparse vector: when
/// the matrix's storage order directly matches the product's traversal (a
/// row-major matrix), prefer the specialized direct routine for its better
/// asymptotic behavior; otherwise fall back to the generic path through
/// the vector's one-column view.
pub fn mat_vec_route(storage: CompressedStorage) -> (r: MatVecRoute)
    ensures
        r == MatVecRoute::DirectRowMajor <==> storage == CompressedStorage::CSR,
        r == MatVecRoute::ViaColView <==> storage == CompressedStorage::CSC,
{
    match storage {
        CompressedStorage::CSR => MatVecRoute::DirectRowMajor,
        CompressedStorage::CSC => MatVecRoute::ViaColView,
    }
}

/// Relies on Vec::reserve_exact: a capacity-only request, the contents are
/// unchanged.
#[verifier::external_body]
fn vec_reserve_exact<T>(v: &mut Vec<T>, additional: usize)
    ensures
        final(v)@ == old(v)@,
{
    v.reserve_exact(additional);
}

/// The structural invariant in words: in every valid sparse vector the
/// coordinate sequence is strictly increasing and every coordinate lies
/// below the dimension.
pub proof fn lemma_valid_structure<N>(v: &CsVec<N>)
    requires
        v.wf(),
    ensures
        forall|i: int, j: int|
            0 <= i < j < v.spec_indices().len() ==> v.spec_indices()[i] < v.spec_indices()[j],
        forall|i: int| 0 <= i < v.spec_indices().len() ==> v.spec_indices()[i] < v.spec_dim(),
{
}

} // verus!
