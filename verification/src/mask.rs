//! The boolean mask of a batch and the count of its masked frames.
use vstd::prelude::*;
use crate::error::MaskError;

verus! {

/// The number of `true` entries of a row.
pub open spec fn count_true(row: Seq<bool>) -> nat
    decreases row.len(),
{
    if row.len() == 0 {
        0
    } else {
        count_true(row.drop_last()) + if row.last() {
            1nat
        } else {
            0nat
        }
    }
}

/// A row without a `true` entry counts zero.
pub proof fn lemma_count_true_of_unset(row: Seq<bool>)
    requires
        forall|i: int| 0 <= i < row.len() ==> !row[i],
    ensures
        count_true(row) == 0,
    decreases row.len(),
{
    if row.len() > 0 {
        lemma_count_true_of_unset(row.drop_last());
    }
}

/// Setting one entry raises the count by one where the entry was unset, and
/// leaves it where the entry was set already.
pub proof fn lemma_count_true_after_set(row: Seq<bool>, i: int)
    requires
        0 <= i < row.len(),
    ensures
        count_true(row.update(i, true)) == count_true(row) + if row[i] {
            0nat
        } else {
            1nat
        },
    decreases row.len(),
{
    if i == row.len() - 1 {
        assert(row.update(i, true).drop_last() =~= row.drop_last());
    } else {
        assert(row.update(i, true).drop_last() =~= row.drop_last().update(i, true));
        lemma_count_true_after_set(row.drop_last(), i);
    }
}

/// A row that has every `true` entry of another counts at least as many.
pub proof fn lemma_count_true_monotonic(fewer: Seq<bool>, more: Seq<bool>)
    requires
        fewer.len() == more.len(),
        forall|i: int| 0 <= i < fewer.len() && fewer[i] ==> more[i],
    ensures
        count_true(fewer) <= count_true(more),
    decreases fewer.len(),
{
    if fewer.len() > 0 {
        lemma_count_true_monotonic(fewer.drop_last(), more.drop_last());
    }
}

/// A row with a `true` entry counts at least one.
pub proof fn lemma_count_true_positive(row: Seq<bool>, i: int)
    requires
        0 <= i < row.len(),
        row[i],
    ensures
        count_true(row) >= 1,
    decreases row.len(),
{
    if i < row.len() - 1 {
        lemma_count_true_positive(row.drop_last(), i);
    }
}

/// A dense boolean matrix of `batch` rows and `seq` columns; `true` marks a
/// masked frame. Every row has the same number of columns, also where there
/// is no row at all.
#[derive(Debug)]
pub struct Mask {
    rows: Vec<Vec<bool>>,
    seq: usize,
}

impl View for Mask {
    type V = Seq<Seq<bool>>;

    closed spec fn view(&self) -> Seq<Seq<bool>> {
        Seq::new(self.rows@.len(), |b: int| self.rows@[b]@)
    }
}

impl Mask {
    #[verifier::type_invariant]
    closed spec fn rectangular(self) -> bool {
        forall|b: int| 0 <= b < self.rows@.len() ==> (#[trigger] self.rows@[b])@.len() == self.seq
    }

    /// The number of columns.
    pub closed spec fn seq_len(self) -> nat {
        self.seq as nat
    }

    /// The matrix has `batch` rows of `seq` columns each.
    pub open spec fn has_shape(self, batch: int, seq: int) -> bool {
        &&& self@.len() == batch
        &&& self.seq_len() == seq
        &&& forall|b: int| 0 <= b < self@.len() ==> (#[trigger] self@[b]).len() == seq
    }

    /// Every entry of the matrix is `value`.
    pub open spec fn is_constant(self, value: bool) -> bool {
        forall|b: int, t: int|
            0 <= b < self@.len() && 0 <= t < self@[b].len() ==> #[trigger] self@[b][t] == value
    }

    /// A matrix of `batch` rows and `seq` columns whose entries are all
    /// `value`.
    pub fn filled(batch: usize, seq: usize, value: bool) -> (mask: Mask)
        ensures
            mask.has_shape(batch as int, seq as int),
            mask.is_constant(value),
    {
        let mut rows: Vec<Vec<bool>> = Vec::new();
        let mut b: usize = 0;
        while b < batch
            invariant
                b <= batch,
                rows@.len() == b,
                forall|i: int| 0 <= i < b ==> (#[trigger] rows@[i])@.len() == seq,
                forall|i: int, t: int|
                    0 <= i < b && 0 <= t < seq ==> #[trigger] rows@[i]@[t] == value,
            decreases batch - b,
        {
            let mut row: Vec<bool> = Vec::new();
            let mut t: usize = 0;
            while t < seq
                invariant
                    t <= seq,
                    row@.len() == t,
                    forall|j: int| 0 <= j < t ==> row@[j] == value,
                decreases seq - t,
            {
                row.push(value);
                t += 1;
            }
            rows.push(row);
            b += 1;
        }
        Mask { rows, seq }
    }

    /// Makes a matrix of rows that are known to be `seq` entries long.
    pub(crate) fn assemble(rows: Vec<Vec<bool>>, seq: usize) -> (mask: Mask)
        requires
            forall|b: int| 0 <= b < rows@.len() ==> (#[trigger] rows@[b])@.len() == seq,
        ensures
            mask.has_shape(rows@.len() as int, seq as int),
            forall|b: int| 0 <= b < rows@.len() ==> #[trigger] mask@[b] == rows@[b]@,
    {
        Mask { rows, seq }
    }

    /// Takes the rows of a matrix of `seq` columns. Rows of any other length
    /// are refused with `ShapeMismatch`.
    pub fn from_rows(rows: Vec<Vec<bool>>, seq: usize) -> (res: Result<Mask, MaskError>)
        ensures
            res is Ok <==> (forall|b: int|
                0 <= b < rows@.len() ==> (#[trigger] rows@[b])@.len() == seq),
            res matches Ok(mask) ==> mask.has_shape(rows@.len() as int, seq as int) && (forall|
                b: int,
            | 0 <= b < rows@.len() ==> #[trigger] mask@[b] == rows@[b]@),
            res matches Err(e) ==> e == MaskError::ShapeMismatch,
    {
        let mut b: usize = 0;
        while b < rows.len()
            invariant
                b <= rows@.len(),
                forall|i: int| 0 <= i < b ==> (#[trigger] rows@[i])@.len() == seq,
            decreases rows@.len() - b,
        {
            if rows[b].len() != seq {
                return Err(MaskError::ShapeMismatch);
            }
            b += 1;
        }
        Ok(Self::assemble(rows, seq))
    }

    /// The extents of the matrix: the number of rows, then of columns.
    pub fn dims(&self) -> (d: [usize; 2])
        ensures
            d[0] == self@.len(),
            d[1] == self.seq_len(),
            self.has_shape(d[0] as int, d[1] as int),
    {
        proof {
            use_type_invariant(self);
        }
        [self.rows.len(), self.seq]
    }

    /// The rows of the matrix, each `seq_len()` entries long.
    pub fn rows(&self) -> (rows: &Vec<Vec<bool>>)
        ensures
            rows@.len() == self@.len(),
            forall|b: int| 0 <= b < rows@.len() ==> (#[trigger] rows@[b])@ == self@[b],
            self.has_shape(rows@.len() as int, self.seq_len() as int),
    {
        proof {
            use_type_invariant(self);
        }
        &self.rows
    }

    /// The entry in row `b` and column `t`, where there is one.
    pub fn get(&self, b: usize, t: usize) -> (bit: Option<bool>)
        ensures
            bit is Some <==> b < self@.len() && t < self.seq_len(),
            bit matches Some(value) ==> value == self@[b as int][t as int],
    {
        proof {
            use_type_invariant(self);
        }
        if b < self.rows.len() && t < self.seq {
            Some(self.rows[b][t])
        } else {
            None
        }
    }

    /// The number of masked frames in row `b`, where there is such a row.
    pub fn count_row(&self, b: usize) -> (count: Option<usize>)
        ensures
            count is Some <==> b < self@.len(),
            count matches Some(n) ==> n == count_true(self@[b as int]),
    {
        proof {
            use_type_invariant(self);
        }
        if b >= self.rows.len() {
            return None;
        }
        let row = &self.rows[b];
        let mut n: usize = 0;
        let mut t: usize = 0;
        while t < row.len()
            invariant
                t <= row@.len(),
                n == count_true(row@.take(t as int)),
                n <= t,
            decreases row@.len() - t,
        {
            assert(row@.take(t as int + 1).drop_last() =~= row@.take(t as int));
            if row[t] {
                n += 1;
            }
            t += 1;
        }
        assert(row@.take(t as int) =~= row@);
        Some(n)
    }
}

} // verus!
