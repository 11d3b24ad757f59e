//! Where the spans of every example start, and how rows are filled up to a
//! common number of spans.
use vstd::prelude::*;
use rand::rngs::StdRng;
use crate::config::BlockMaskConfig;
use crate::fraction::Fraction;
use crate::rng::draw_below;
use crate::mask::{count_true, lemma_count_true_monotonic, lemma_count_true_positive};
use crate::scatter::{
    flat_indices, lemma_flat_index, lemma_mask_row_entry, lemma_masked_frames_bounded,
    lemma_more_spans_mask_more, mask_row, scatter_index,
};
use crate::span_count::{
    lemma_num_spans_bounds, lemma_num_spans_monotonic_in_len, lemma_num_spans_monotonic_in_prob,
    max_spans, num_spans,
};
use crate::strategy::BlockMask;

verus! {

/// The number of equal steps into which the jitter divides `[0, 1)`.
pub const JITTER_STEPS: u32 = 0x80_0000;

/// The start of a span is drawn from the whole numbers below this bound:
/// `len - span_len - 1`, and 1 where that leaves no position, so that a
/// span of an example which is barely longer than a span starts at its first
/// frame.
pub open spec fn start_bound(len: int, span_len: int) -> int {
    if len - span_len - 1 >= 1 {
        len - span_len - 1
    } else {
        1
    }
}

/// The start position that fills a row up to the number of spans of the
/// batch: the first start that the example drew, and the last column where it
/// drew none.
pub open spec fn dummy_start(drawn: Seq<usize>, max_seq_len: int) -> int {
    if drawn.len() > 0 {
        drawn[0] as int
    } else {
        max_seq_len - 1
    }
}

/// The starts of one row brought to exactly `count` entries: cut where there
/// are more, filled with the dummy start where there are fewer.
pub open spec fn padded(drawn: Seq<usize>, count: int, max_seq_len: int) -> Seq<usize> {
    Seq::new(
        count as nat,
        |i: int|
            if i < drawn.len() {
                drawn[i]
            } else {
                dummy_start(drawn, max_seq_len) as usize
            },
    )
}

/// `row` is a placement for an example of `len` valid frames: it has as many
/// entries as every row of the batch, the entries of its own spans lie below
/// the bound from which they were drawn, and all further entries are the
/// dummy start.
pub open spec fn is_row_placement(
    row: Seq<usize>,
    len: int,
    config: BlockMaskConfig,
    max_seq_len: int,
    eps: Fraction,
) -> bool {
    let own = num_spans(config, max_seq_len, eps, len);
    &&& row.len() == max_spans(config, max_seq_len, eps)
    &&& own <= row.len()
    &&& forall|i: int| 0 <= i < own ==> (#[trigger] row[i]) < start_bound(len, config.span_len as int)
    &&& row == padded(row.take(own), row.len() as int, max_seq_len)
}

/// `placement` holds a placement for every example of the batch.
pub open spec fn is_placement(
    placement: Seq<Seq<usize>>,
    seq_lens: Seq<u32>,
    config: BlockMaskConfig,
    max_seq_len: int,
    eps: Fraction,
) -> bool {
    &&& placement.len() == seq_lens.len()
    &&& forall|b: int|
        0 <= b < placement.len() ==> is_row_placement(
            #[trigger] placement[b],
            seq_lens[b] as int,
            config,
            max_seq_len,
            eps,
        )
}

/// A span of an example's own lies wholly inside the example's valid frames,
/// whatever start was drawn for it, so none of its frames is held back at the
/// last column.
pub proof fn lemma_own_spans_stay_inside(
    config: BlockMaskConfig,
    max_seq_len: int,
    eps: Fraction,
    len: int,
    start: int,
    offset: int,
)
    requires
        config.is_well_formed(),
        eps.is_jitter(),
        0 <= len <= max_seq_len,
        num_spans(config, max_seq_len, eps, len) > 0,
        0 <= start < start_bound(len, config.span_len as int),
        0 <= offset < config.span_len,
    ensures
        start + offset < len,
        scatter_index(start, offset, max_seq_len) == start + offset,
{
    lemma_num_spans_bounds(config, max_seq_len, eps, len);
}

/// An example that is exactly one span long receives at most one span; that
/// span starts at the first frame and ends at the example's last.
pub proof fn lemma_minimal_example(
    config: BlockMaskConfig,
    max_seq_len: int,
    eps: Fraction,
    len: int,
    start: int,
    offset: int,
)
    requires
        config.is_well_formed(),
        eps.is_jitter(),
        len == config.span_len,
        len <= max_seq_len,
        0 <= start < start_bound(len, config.span_len as int),
        0 <= offset < config.span_len,
    ensures
        num_spans(config, max_seq_len, eps, len) <= 1,
        start == 0,
        scatter_index(start, offset, max_seq_len) == offset,
        offset < len,
{
}

/// Filling a row up never takes a masked frame away. Copies of a start that
/// the example drew mask nothing new. A row without a span of its own, filled
/// up with the last column, masks the last frame alone.
pub proof fn lemma_padding_is_harmless(
    drawn: Seq<usize>,
    count: int,
    span_len: int,
    max_seq_len: int,
)
    requires
        0 < span_len,
        0 < max_seq_len <= usize::MAX,
        drawn.len() <= count,
    ensures
        forall|t: int|
            0 <= t < max_seq_len && mask_row(drawn, span_len, max_seq_len)[t] ==> #[trigger] mask_row(
                padded(drawn, count, max_seq_len),
                span_len,
                max_seq_len,
            )[t],
        drawn.len() > 0 ==> mask_row(padded(drawn, count, max_seq_len), span_len, max_seq_len)
            == mask_row(drawn, span_len, max_seq_len),
        drawn.len() == 0 ==> forall|t: int|
            0 <= t < max_seq_len ==> (#[trigger] mask_row(
                padded(drawn, count, max_seq_len),
                span_len,
                max_seq_len,
            )[t] <==> count > 0 && t == max_seq_len - 1),
{
    let full = padded(drawn, count, max_seq_len);
    assert forall|t: int| 0 <= t < max_seq_len implies (mask_row(drawn, span_len, max_seq_len)[t]
        ==> #[trigger] mask_row(full, span_len, max_seq_len)[t]) && (drawn.len() > 0
        ==> mask_row(full, span_len, max_seq_len)[t] == mask_row(drawn, span_len, max_seq_len)[t])
        && (drawn.len() == 0 ==> (mask_row(full, span_len, max_seq_len)[t] <==> count > 0 && t
        == max_seq_len - 1)) by {
        lemma_mask_row_entry(drawn, span_len, max_seq_len, t);
        lemma_mask_row_entry(full, span_len, max_seq_len, t);
        if mask_row(drawn, span_len, max_seq_len)[t] {
            let (s, k) = choose|s: int, k: int|
                0 <= s < drawn.len() && 0 <= k < span_len && #[trigger] scatter_index(
                    drawn[s] as int,
                    k,
                    max_seq_len,
                ) == t;
            assert(scatter_index(full[s] as int, k, max_seq_len) == t);
        }
        if mask_row(full, span_len, max_seq_len)[t] {
            let (s, k) = choose|s: int, k: int|
                0 <= s < full.len() && 0 <= k < span_len && #[trigger] scatter_index(
                    full[s] as int,
                    k,
                    max_seq_len,
                ) == t;
            if drawn.len() > 0 {
                if s < drawn.len() {
                    assert(scatter_index(drawn[s] as int, k, max_seq_len) == t);
                } else {
                    assert(scatter_index(drawn[0] as int, k, max_seq_len) == t);
                }
            }
        }
        if drawn.len() == 0 && count > 0 && t == max_seq_len - 1 {
            assert(scatter_index(full[0] as int, 0, max_seq_len) == t);
        }
    }
    if drawn.len() > 0 {
        assert(mask_row(full, span_len, max_seq_len) =~= mask_row(drawn, span_len, max_seq_len));
    }
}

/// What holds of the mask of every row that a placement admits: it masks at
/// most `span_len` frames for each span of the batch; where the example has a
/// span of its own, it masks valid frames of the example only, the same that
/// its own spans mask; and where it has none, it masks the last frame of the
/// padded row, and that only where the batch has a span at all.
pub proof fn lemma_row_placement_mask(
    row: Seq<usize>,
    len: int,
    config: BlockMaskConfig,
    max_seq_len: int,
    eps: Fraction,
)
    requires
        config.valid_for(max_seq_len),
        max_seq_len <= usize::MAX,
        eps.is_jitter(),
        0 <= len <= max_seq_len,
        is_row_placement(row, len, config, max_seq_len, eps),
    ensures
        count_true(mask_row(row, config.span_len as int, max_seq_len)) <= max_spans(
            config,
            max_seq_len,
            eps,
        ) * config.span_len,
        num_spans(config, max_seq_len, eps, len) > 0 ==> mask_row(
            row,
            config.span_len as int,
            max_seq_len,
        ) == mask_row(
            row.take(num_spans(config, max_seq_len, eps, len)),
            config.span_len as int,
            max_seq_len,
        ),
        num_spans(config, max_seq_len, eps, len) > 0 ==> forall|t: int|
            0 <= t < max_seq_len && #[trigger] mask_row(
                row,
                config.span_len as int,
                max_seq_len,
            )[t] ==> t < len,
        num_spans(config, max_seq_len, eps, len) == 0 ==> forall|t: int|
            0 <= t < max_seq_len ==> (#[trigger] mask_row(
                row,
                config.span_len as int,
                max_seq_len,
            )[t] <==> row.len() > 0 && t == max_seq_len - 1),
{
    let span_len = config.span_len as int;
    let own = num_spans(config, max_seq_len, eps, len);
    lemma_num_spans_bounds(config, max_seq_len, eps, len);
    lemma_masked_frames_bounded(row, span_len, max_seq_len);
    lemma_padding_is_harmless(row.take(own), row.len() as int, span_len, max_seq_len);
    if own > 0 {
        assert forall|t: int|
            0 <= t < max_seq_len && #[trigger] mask_row(
                row,
                span_len,
                max_seq_len,
            )[t] implies t < len by {
            lemma_mask_row_entry(row.take(own), span_len, max_seq_len, t);
            let (s, k) = choose|s: int, k: int|
                0 <= s < row.take(own).len() && 0 <= k < span_len && #[trigger] scatter_index(
                    row.take(own)[s] as int,
                    k,
                    max_seq_len,
                ) == t;
            assert(row.take(own)[s] == row[s]);
            lemma_own_spans_stay_inside(config, max_seq_len, eps, len, row[s] as int, k);
        }
    }
}

/// A row whose example has exactly one span of its own masks one block of
/// `span_len` frames, from the start of that span on, however far the row was
/// filled up.
pub proof fn lemma_single_span_row(
    row: Seq<usize>,
    len: int,
    config: BlockMaskConfig,
    max_seq_len: int,
    eps: Fraction,
)
    requires
        config.valid_for(max_seq_len),
        max_seq_len <= usize::MAX,
        eps.is_jitter(),
        0 <= len <= max_seq_len,
        is_row_placement(row, len, config, max_seq_len, eps),
        num_spans(config, max_seq_len, eps, len) == 1,
    ensures
        forall|t: int|
            0 <= t < max_seq_len ==> (#[trigger] mask_row(
                row,
                config.span_len as int,
                max_seq_len,
            )[t] <==> row[0] <= t < row[0] + config.span_len),
        row[0] + config.span_len <= len,
        count_true(mask_row(row, config.span_len as int, max_seq_len)) == config.span_len,
{
    let span_len = config.span_len as int;
    let own = row.take(1);
    let flat = flat_indices(own, span_len, max_seq_len);
    lemma_row_placement_mask(row, len, config, max_seq_len, eps);
    assert(own[0] == row[0]);
    assert forall|k: int| 0 <= k < span_len implies #[trigger] flat[k] == row[0] + k by {
        lemma_flat_index(own, span_len, max_seq_len, 0, k);
        lemma_own_spans_stay_inside(config, max_seq_len, eps, len, row[0] as int, k);
    }
    lemma_own_spans_stay_inside(config, max_seq_len, eps, len, row[0] as int, span_len - 1);
    assert(flat.len() == span_len) by {
        lemma_flat_index(own, span_len, max_seq_len, 0, 0);
    }
    assert(flat.no_duplicates());
    lemma_masked_frames_bounded(own, span_len, max_seq_len);
    assert forall|t: int| 0 <= t < max_seq_len implies (#[trigger] mask_row(
        row,
        span_len,
        max_seq_len,
    )[t] <==> row[0] <= t < row[0] + span_len) by {
        if row[0] <= t < row[0] + span_len {
            assert(flat[t - row[0]] == t);
        }
        if flat.contains(t) {
            let j = choose|j: int| 0 <= j < flat.len() && flat[j] == t;
            assert(flat[j] == row[0] + j);
        }
    }
}

/// Raising the masking probability, with the jitter, the length, the rest of
/// the configuration and the draws held fixed, never lowers the number of
/// masked frames of a row. The draws are held fixed where the row of the
/// higher probability begins with the starts that the row of the lower
/// probability drew for its own spans.
pub proof fn lemma_masked_frames_monotonic_in_prob(
    row_lower: Seq<usize>,
    row_higher: Seq<usize>,
    len: int,
    lower: BlockMaskConfig,
    higher: BlockMaskConfig,
    max_seq_len: int,
    eps: Fraction,
)
    requires
        lower.valid_for(max_seq_len),
        higher.valid_for(max_seq_len),
        lower.span_len == higher.span_len,
        lower.min_spans == higher.min_spans,
        lower.mask_prob.at_most(higher.mask_prob),
        max_seq_len <= usize::MAX,
        eps.is_jitter(),
        0 <= len <= max_seq_len,
        is_row_placement(row_lower, len, lower, max_seq_len, eps),
        is_row_placement(row_higher, len, higher, max_seq_len, eps),
        forall|i: int|
            0 <= i < num_spans(lower, max_seq_len, eps, len) ==> row_lower[i] == row_higher[i],
    ensures
        count_true(mask_row(row_lower, lower.span_len as int, max_seq_len)) <= count_true(
            mask_row(row_higher, higher.span_len as int, max_seq_len),
        ),
{
    let span_len = lower.span_len as int;
    let own = num_spans(lower, max_seq_len, eps, len);
    lemma_num_spans_monotonic_in_prob(lower, higher, max_seq_len, eps, len);
    lemma_num_spans_bounds(lower, max_seq_len, eps, len);
    lemma_row_placement_mask(row_lower, len, lower, max_seq_len, eps);
    if own > 0 {
        lemma_more_spans_mask_more(row_lower.take(own), row_higher, span_len, max_seq_len);
    } else if row_lower.len() > 0 {
        // The row of the lower probability masks the last frame alone; the
        // row of the higher probability has a span and so a masked frame.
        let last_only = seq![(max_seq_len - 1) as usize];
        lemma_masked_frames_bounded(last_only, 1, max_seq_len);
        assert forall|t: int|
            0 <= t < max_seq_len && mask_row(
                row_lower,
                span_len,
                max_seq_len,
            )[t] implies #[trigger] mask_row(last_only, 1, max_seq_len)[t] by {
            lemma_flat_index(last_only, 1, max_seq_len, 0, 0);
            assert(flat_indices(last_only, 1, max_seq_len)[0] == t);
        }
        lemma_count_true_monotonic(
            mask_row(row_lower, span_len, max_seq_len),
            mask_row(last_only, 1, max_seq_len),
        );
        lemma_flat_index(row_higher, span_len, max_seq_len, 0, 0);
        let first = flat_indices(row_higher, span_len, max_seq_len)[0];
        assert(flat_indices(row_higher, span_len, max_seq_len).contains(first));
        lemma_count_true_positive(mask_row(row_higher, span_len, max_seq_len), first);
    } else {
        lemma_masked_frames_bounded(row_lower, span_len, max_seq_len);
    }
}

impl BlockMask {
    /// Draws the jitter that all examples of one call share: one of the
    /// `JITTER_STEPS` multiples of `1 / JITTER_STEPS` in `[0, 1)`.
    pub fn draw_jitter(rng: &mut StdRng) -> (eps: Fraction)
        ensures
            eps.is_jitter(),
            eps.den == JITTER_STEPS,
    {
        let steps = draw_below(rng, JITTER_STEPS as usize);
        Fraction::new(steps as u32, JITTER_STEPS)
    }

    /// Draws `count` start positions for an example of `len` valid frames,
    /// each on its own.
    pub fn draw_starts(rng: &mut StdRng, count: usize, len: usize, span_len: usize) -> (starts:
        Vec<usize>)
        ensures
            starts@.len() == count,
            forall|i: int|
                0 <= i < count ==> (#[trigger] starts@[i]) < start_bound(
                    len as int,
                    span_len as int,
                ),
    {
        let bound: usize = if len > span_len && len - span_len >= 2 {
            len - span_len - 1
        } else {
            1
        };
        let mut starts: Vec<usize> = Vec::new();
        let mut i: usize = 0;
        while i < count
            invariant
                i <= count,
                starts@.len() == i,
                bound == start_bound(len as int, span_len as int),
                forall|j: int| 0 <= j < i ==> (#[trigger] starts@[j]) < bound,
            decreases count - i,
        {
            let start = draw_below(rng, bound);
            starts.push(start);
            i += 1;
        }
        starts
    }

    /// Brings the starts of one row to exactly `count` entries: the first
    /// `count` where there are more, and where there are fewer, the starts
    /// followed by copies of the dummy start.
    pub fn pad_starts(drawn: Vec<usize>, count: usize, max_seq_len: usize) -> (row: Vec<usize>)
        requires
            0 < max_seq_len,
        ensures
            row@ == padded(drawn@, count as int, max_seq_len as int),
    {
        let dummy: usize = if drawn.len() > 0 {
            drawn[0]
        } else {
            max_seq_len - 1
        };
        let mut row: Vec<usize> = Vec::new();
        let mut i: usize = 0;
        while i < count
            invariant
                i <= count,
                row@.len() == i,
                dummy == dummy_start(drawn@, max_seq_len as int),
                forall|j: int|
                    0 <= j < i ==> row@[j] == padded(
                        drawn@,
                        count as int,
                        max_seq_len as int,
                    )[j],
            decreases count - i,
        {
            let start = if i < drawn.len() {
                drawn[i]
            } else {
                dummy
            };
            row.push(start);
            i += 1;
        }
        assert(row@ =~= padded(drawn@, count as int, max_seq_len as int));
        row
    }

    /// Places the spans of a batch: for every example as many starts as its
    /// span count says, drawn on their own, and the row then filled up to the
    /// span count of the batch.
    pub fn sample_spans(
        seq_lens: &Vec<u32>,
        max_seq_len: usize,
        config: &BlockMaskConfig,
        eps: Fraction,
        rng: &mut StdRng,
    ) -> (placement: Vec<Vec<usize>>)
        requires
            config.valid_for(max_seq_len as int),
            eps.is_jitter(),
            forall|b: int| 0 <= b < seq_lens@.len() ==> seq_lens@[b] <= max_seq_len,
        ensures
            is_placement(placement.deep_view(), seq_lens@, *config, max_seq_len as int, eps),
    {
        let budget = Self::num_masked_spans(config, max_seq_len, eps, max_seq_len);
        let mut placement: Vec<Vec<usize>> = Vec::new();
        let mut b: usize = 0;
        while b < seq_lens.len()
            invariant
                b <= seq_lens@.len(),
                placement@.len() == b,
                config.valid_for(max_seq_len as int),
                eps.is_jitter(),
                budget == max_spans(*config, max_seq_len as int, eps),
                forall|i: int| 0 <= i < seq_lens@.len() ==> seq_lens@[i] <= max_seq_len,
                forall|i: int|
                    0 <= i < b ==> is_row_placement(
                        (#[trigger] placement@[i])@,
                        seq_lens@[i] as int,
                        *config,
                        max_seq_len as int,
                        eps,
                    ),
            decreases seq_lens@.len() - b,
        {
            let len = seq_lens[b] as usize;
            let own = Self::num_masked_spans(config, max_seq_len, eps, len);
            let drawn = Self::draw_starts(rng, own, len, config.span_len);
            let row = Self::pad_starts(drawn, budget, max_seq_len);
            proof {
                lemma_num_spans_monotonic_in_len(
                    *config,
                    max_seq_len as int,
                    eps,
                    len as int,
                    max_seq_len as int,
                );
                assert(row@.take(own as int) =~= drawn@);
            }
            placement.push(row);
            b += 1;
        }
        proof {
            assert forall|i: int| 0 <= i < placement@.len() implies #[trigger] placement.deep_view()[i]
                == placement@[i]@ by {
                assert(placement.deep_view()[i] =~= placement@[i]@);
            }
        }
        placement
    }
}

} // verus!
