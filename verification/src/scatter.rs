//! From start positions to masked frames.
use vstd::prelude::*;
use vstd::arithmetic::div_mod::{
    lemma_fundamental_div_mod, lemma_fundamental_div_mod_converse, lemma_mod_bound,
};
use crate::mask::{
    count_true, lemma_count_true_after_set, lemma_count_true_monotonic,
    lemma_count_true_of_unset, Mask,
};
use crate::strategy::BlockMask;

verus! {

/// The column that offset `offset` of a span starting at `start` is written
/// to in a row of `width` columns: `start + offset`, held back to the last
/// column where it would leave the row.
pub open spec fn scatter_index(start: int, offset: int, width: int) -> int {
    if start + offset < width - 1 {
        start + offset
    } else {
        width - 1
    }
}

/// The columns that the spans of one row are written to, span after span and
/// within a span offset after offset: entry `s * span_len + k` belongs to
/// offset `k` of span `s`.
pub open spec fn flat_indices(starts: Seq<usize>, span_len: int, width: int) -> Seq<int> {
    Seq::new(
        (starts.len() * span_len) as nat,
        |j: int| scatter_index(starts[j / span_len] as int, j % span_len, width),
    )
}

/// A row of `width` entries in which exactly the columns among `indices` are
/// set.
pub open spec fn scattered(indices: Seq<int>, width: int) -> Seq<bool> {
    Seq::new(width as nat, |t: int| indices.contains(t))
}

/// The mask of one row: a frame is masked exactly where a span reaches it.
pub open spec fn mask_row(starts: Seq<usize>, span_len: int, width: int) -> Seq<bool> {
    scattered(flat_indices(starts, span_len, width), width)
}

/// The mask of a batch, row by row.
pub open spec fn mask_of(placement: Seq<Seq<usize>>, span_len: int, width: int) -> Seq<
    Seq<bool>,
> {
    Seq::new(placement.len(), |b: int| mask_row(placement[b], span_len, width))
}

/// Offset `k` of span `s` has the place `s * span_len + k` among the flat
/// indices.
pub proof fn lemma_flat_index(starts: Seq<usize>, span_len: int, width: int, s: int, k: int)
    requires
        0 <= s < starts.len(),
        0 <= k < span_len,
    ensures
        0 <= s * span_len + k < starts.len() * span_len,
        flat_indices(starts, span_len, width).len() == starts.len() * span_len,
        flat_indices(starts, span_len, width)[s * span_len + k] == scatter_index(
            starts[s] as int,
            k,
            width,
        ),
{
    let j = s * span_len + k;
    assert(0 <= s * span_len) by (nonlinear_arith)
        requires
            0 <= s,
            0 < span_len,
    ;
    assert(s * span_len + span_len <= starts.len() * span_len) by (nonlinear_arith)
        requires
            s + 1 <= starts.len(),
            0 < span_len,
    ;
    assert(j == s * span_len + k);
    lemma_fundamental_div_mod_converse(j, span_len, s, k);
}

/// Every flat index is a column of the row.
pub proof fn lemma_flat_indices_in_row(starts: Seq<usize>, span_len: int, width: int)
    requires
        0 < span_len,
        0 < width,
    ensures
        forall|j: int|
            0 <= j < flat_indices(starts, span_len, width).len() ==> 0 <= (
            #[trigger] flat_indices(starts, span_len, width)[j]) < width,
{
    assert forall|j: int| 0 <= j < flat_indices(starts, span_len, width).len() implies 0 <= (
    #[trigger] flat_indices(starts, span_len, width)[j]) < width by {
        assert(0 <= j % span_len) by (nonlinear_arith)
            requires
                0 < span_len,
        ;
    }
}

/// What one more entry adds to a prefix of a sequence.
proof fn lemma_take_one_more(indices: Seq<int>, j: int, t: int)
    requires
        0 <= j < indices.len(),
    ensures
        indices.take(j + 1).contains(t) <==> indices.take(j).contains(t) || indices[j] == t,
{
    let longer = indices.take(j + 1);
    let shorter = indices.take(j);
    if longer.contains(t) {
        let i = choose|i: int| 0 <= i < longer.len() && longer[i] == t;
        if i < j {
            assert(shorter[i] == t);
        }
    }
    if shorter.contains(t) {
        let i = choose|i: int| 0 <= i < shorter.len() && shorter[i] == t;
        assert(longer[i] == t);
    }
    if indices[j] == t {
        assert(longer[j] == t);
    }
}

/// Setting the columns among `indices` sets at most one entry for each index,
/// and exactly one for each where no column occurs twice among them, and only
/// there.
pub proof fn lemma_scattered_count(indices: Seq<int>, width: int)
    requires
        forall|j: int| 0 <= j < indices.len() ==> 0 <= #[trigger] indices[j] < width,
    ensures
        count_true(scattered(indices, width)) <= indices.len(),
        count_true(scattered(indices, width)) == indices.len() <==> indices.no_duplicates(),
    decreases indices.len(),
{
    if indices.len() == 0 {
        lemma_count_true_of_unset(scattered(indices, width));
    } else {
        let front = indices.drop_last();
        let last = indices.last();
        lemma_scattered_count(front, width);
        assert(scattered(indices, width) =~= scattered(front, width).update(last, true)) by {
            assert forall|t: int| 0 <= t < width implies indices.contains(t) == (front.contains(t)
                || t == last) by {
                assert(front =~= indices.take(indices.len() - 1));
                assert(indices.take(indices.len() as int) =~= indices);
                lemma_take_one_more(indices, indices.len() - 1, t);
            }
        }
        lemma_count_true_after_set(scattered(front, width), last);
        if indices.no_duplicates() {
            assert(front.no_duplicates());
            if front.contains(last) {
                let i = choose|i: int| 0 <= i < front.len() && front[i] == last;
                assert(indices[i] == indices[indices.len() - 1]);
            }
        }
        if front.no_duplicates() && !front.contains(last) {
            assert forall|i: int, j: int|
                0 <= i < indices.len() && 0 <= j < indices.len() && i != j implies indices[i]
                != indices[j] by {
                if i == indices.len() - 1 {
                    assert(front[j] == indices[j]);
                } else if j == indices.len() - 1 {
                    assert(front[i] == indices[i]);
                } else {
                    assert(front[i] == indices[i]);
                    assert(front[j] == indices[j]);
                }
            }
        }
    }
}

/// A frame is masked exactly where some offset of some span is written to
/// its column.
pub proof fn lemma_mask_row_entry(starts: Seq<usize>, span_len: int, width: int, t: int)
    requires
        0 < span_len,
        0 <= t < width,
    ensures
        mask_row(starts, span_len, width)[t] <==> exists|s: int, k: int|
            0 <= s < starts.len() && 0 <= k < span_len && #[trigger] scatter_index(
                starts[s] as int,
                k,
                width,
            ) == t,
{
    let flat = flat_indices(starts, span_len, width);
    if flat.contains(t) {
        let j = choose|j: int| 0 <= j < flat.len() && flat[j] == t;
        let s = j / span_len;
        let k = j % span_len;
        lemma_fundamental_div_mod(j, span_len);
        lemma_mod_bound(j, span_len);
        assert(0 <= s < starts.len()) by (nonlinear_arith)
            requires
                j == span_len * s + k,
                0 <= k < span_len,
                0 <= j < starts.len() * span_len,
        ;
        assert(scatter_index(starts[s] as int, k, width) == t);
    }
    if exists|s: int, k: int|
        0 <= s < starts.len() && 0 <= k < span_len && #[trigger] scatter_index(
            starts[s] as int,
            k,
            width,
        ) == t {
        let (s, k) = choose|s: int, k: int|
            0 <= s < starts.len() && 0 <= k < span_len && #[trigger] scatter_index(
                starts[s] as int,
                k,
                width,
            ) == t;
        lemma_flat_index(starts, span_len, width, s, k);
        assert(flat[s * span_len + k] == t);
    }
}

/// The spans of one row mask at most `span_len` frames each. They mask
/// exactly that many each where no two writes fall on one column, that is
/// where no spans overlap and none is held back at the last column, and only
/// there.
pub proof fn lemma_masked_frames_bounded(starts: Seq<usize>, span_len: int, width: int)
    requires
        0 < span_len,
        0 < width,
    ensures
        count_true(mask_row(starts, span_len, width)) <= starts.len() * span_len,
        count_true(mask_row(starts, span_len, width)) == starts.len() * span_len
            <==> flat_indices(starts, span_len, width).no_duplicates(),
{
    lemma_flat_indices_in_row(starts, span_len, width);
    lemma_scattered_count(flat_indices(starts, span_len, width), width);
    assert(0 <= starts.len() * span_len) by (nonlinear_arith)
        requires
            0 <= starts.len(),
            0 < span_len,
    ;
}

/// More spans after the same first ones mask every frame that the first ones
/// mask, and so at least as many frames.
pub proof fn lemma_more_spans_mask_more(
    fewer: Seq<usize>,
    more: Seq<usize>,
    span_len: int,
    width: int,
)
    requires
        0 < span_len,
        0 < width,
        fewer.len() <= more.len(),
        forall|s: int| 0 <= s < fewer.len() ==> fewer[s] == more[s],
    ensures
        forall|t: int|
            0 <= t < width && mask_row(fewer, span_len, width)[t] ==> #[trigger] mask_row(
                more,
                span_len,
                width,
            )[t],
        count_true(mask_row(fewer, span_len, width)) <= count_true(
            mask_row(more, span_len, width),
        ),
{
    assert forall|t: int|
        0 <= t < width && mask_row(fewer, span_len, width)[t] implies #[trigger] mask_row(
        more,
        span_len,
        width,
    )[t] by {
        lemma_mask_row_entry(fewer, span_len, width, t);
        lemma_mask_row_entry(more, span_len, width, t);
        let (s, k) = choose|s: int, k: int|
            0 <= s < fewer.len() && 0 <= k < span_len && #[trigger] scatter_index(
                fewer[s] as int,
                k,
                width,
            ) == t;
        assert(scatter_index(more[s] as int, k, width) == t);
    }
    lemma_count_true_monotonic(
        mask_row(fewer, span_len, width),
        mask_row(more, span_len, width),
    );
}

impl BlockMask {
    /// Writes the spans of one row into a fresh row of `width` columns.
    fn scatter_row(starts: &Vec<usize>, span_len: usize, width: usize) -> (row: Vec<bool>)
        requires
            0 < span_len,
            0 < width,
        ensures
            row@ == mask_row(starts@, span_len as int, width as int),
    {
        let ghost flat = flat_indices(starts@, span_len as int, width as int);
        let mut row: Vec<bool> = Vec::new();
        let mut t: usize = 0;
        while t < width
            invariant
                t <= width,
                row@.len() == t,
                forall|i: int| 0 <= i < t ==> !row@[i],
            decreases width - t,
        {
            row.push(false);
            t += 1;
        }
        let count = starts.len();
        let mut s: usize = 0;
        assert(flat.take(0) =~= Seq::<int>::empty());
        while s < count
            invariant
                0 < span_len,
                0 < width,
                s <= count,
                count == starts@.len(),
                row@.len() == width,
                flat == flat_indices(starts@, span_len as int, width as int),
                forall|i: int|
                    0 <= i < width ==> row@[i] == flat.take(s * span_len).contains(i),
            decreases count - s,
        {
            let start = starts[s];
            let mut k: usize = 0;
            while k < span_len
                invariant
                    0 < span_len,
                    0 < width,
                    s < count,
                    count == starts@.len(),
                    start == starts@[s as int],
                    k <= span_len,
                    row@.len() == width,
                    flat == flat_indices(starts@, span_len as int, width as int),
                    forall|i: int|
                        0 <= i < width ==> row@[i] == flat.take(s * span_len + k).contains(i),
                decreases span_len - k,
            {
                let column = if start < width - 1 && k < width - 1 - start {
                    start + k
                } else {
                    width - 1
                };
                proof {
                    lemma_flat_index(starts@, span_len as int, width as int, s as int, k as int);
                    let j = s * span_len + k;
                    assert(flat[j] == column);
                    assert forall|i: int| 0 <= i < width implies (row@.update(
                        column as int,
                        true,
                    )[i] == flat.take(j + 1).contains(i)) by {
                        lemma_take_one_more(flat, j, i);
                    }
                }
                row.set(column, true);
                k += 1;
            }
            proof {
                assert(s * span_len + span_len == (s + 1) * span_len) by (nonlinear_arith);
            }
            s += 1;
        }
        proof {
            assert(flat.len() == count * span_len);
            assert(flat.take(s * span_len) =~= flat);
            assert(row@ =~= mask_row(starts@, span_len as int, width as int));
        }
        row
    }

    /// Builds the mask of a batch from the start positions of its spans:
    /// every span sets `span_len` frames from its start on, and a frame that
    /// would fall behind the last column is written to the last column.
    pub fn scatter_spans(placement: &Vec<Vec<usize>>, span_len: usize, max_seq_len: usize) -> (mask:
        Mask)
        requires
            0 < span_len,
            0 < max_seq_len,
        ensures
            mask.has_shape(placement@.len() as int, max_seq_len as int),
            mask@ == mask_of(placement.deep_view(), span_len as int, max_seq_len as int),
    {
        let mut rows: Vec<Vec<bool>> = Vec::new();
        let mut b: usize = 0;
        while b < placement.len()
            invariant
                0 < span_len,
                0 < max_seq_len,
                b <= placement@.len(),
                rows@.len() == b,
                forall|i: int|
                    0 <= i < b ==> (#[trigger] rows@[i])@ == mask_row(
                        placement@[i]@,
                        span_len as int,
                        max_seq_len as int,
                    ),
            decreases placement@.len() - b,
        {
            let row = Self::scatter_row(&placement[b], span_len, max_seq_len);
            rows.push(row);
            b += 1;
        }
        let mask = Mask::assemble(rows, max_seq_len);
        proof {
            assert forall|i: int| 0 <= i < placement@.len() implies #[trigger] placement.deep_view()[i]
                == placement@[i]@ by {
                assert(placement.deep_view()[i] =~= placement@[i]@);
            }
            assert(mask@ =~= mask_of(
                placement.deep_view(),
                span_len as int,
                max_seq_len as int,
            ));
        }
        mask
    }
}

} // verus!
