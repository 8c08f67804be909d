//! Dense matrices of binary64 words, as they are stored and exchanged.

use vstd::prelude::*;

verus! {

/// A dense matrix. Its entries are binary64 words in column-major order:
/// the entry in row `r` and column `c` stands at `c * rows + r`.
///
/// The fields are open, so a value of this type may be ill-formed: nothing
/// here makes the entries fill the shape. A matrix that is part of a
/// [`crate::network::Network`] always does.
#[derive(Debug, PartialEq, Eq)]
pub struct Matrix {
    pub rows: usize,
    pub cols: usize,
    pub entries: Vec<u64>,
}

/// What a matrix holds.
pub struct MatrixView {
    pub rows: nat,
    pub cols: nat,
    pub entries: Seq<u64>,
}

impl MatrixView {
    /// Whether the matrix has `rows` rows and `cols` columns and holds one
    /// entry for each place.
    pub open spec fn shaped(self, rows: nat, cols: nat) -> bool {
        &&& self.rows == rows
        &&& self.cols == cols
        &&& self.entries.len() == rows * cols
    }
}

impl View for Matrix {
    type V = MatrixView;

    open spec fn view(&self) -> MatrixView {
        MatrixView { rows: self.rows as nat, cols: self.cols as nat, entries: self.entries@ }
    }
}

/// What each matrix of a sequence holds.
pub open spec fn views(matrices: Seq<Matrix>) -> Seq<MatrixView> {
    Seq::new(matrices.len(), |i: int| matrices[i]@)
}

/// Copies the elements of `source` from `from` up to `to`.
pub(crate) fn copy_range<T: Copy>(source: &Vec<T>, from: usize, to: usize) -> (copy: Vec<T>)
    requires
        from <= to <= source.len(),
    ensures
        copy@ == source@.subrange(from as int, to as int),
{
    let mut copy: Vec<T> = Vec::new();
    let mut i: usize = from;
    while i < to
        invariant
            from <= i <= to <= source.len(),
            copy@ == source@.subrange(from as int, i as int),
        decreases to - i,
    {
        copy.push(source[i]);
        i = i + 1;
    }
    copy
}

impl Matrix {
    /// Tells whether the matrix has the given shape and its entries fill it.
    pub fn is_shaped(&self, rows: usize, cols: usize) -> (shaped: bool)
        ensures
            shaped == self@.shaped(rows as nat, cols as nat),
    {
        if self.rows != rows || self.cols != cols {
            return false;
        }
        let len: usize = self.entries.len();
        match rows.checked_mul(cols) {
            Some(places) => len == places,
            None => false,
        }
    }

    /// A copy of the matrix, entry for entry.
    pub fn duplicate(&self) -> (copy: Matrix)
        ensures
            copy@ == self@,
    {
        let entries = copy_range(&self.entries, 0, self.entries.len());
        assert(self.entries@.subrange(0, self.entries@.len() as int) =~= self.entries@);
        Matrix { rows: self.rows, cols: self.cols, entries }
    }
}

/// Copies of the matrices of `source`, in their order.
pub(crate) fn duplicate_all(source: &Vec<Matrix>) -> (copy: Vec<Matrix>)
    ensures
        views(copy@) == views(source@),
{
    let mut copy: Vec<Matrix> = Vec::new();
    let mut i: usize = 0;
    while i < source.len()
        invariant
            i <= source.len(),
            copy.len() == i,
            forall|j: int| 0 <= j < i ==> copy@[j]@ == source@[j]@,
        decreases source.len() - i,
    {
        copy.push(source[i].duplicate());
        i = i + 1;
    }
    assert(views(copy@) =~= views(source@));
    copy
}

} // verus!
