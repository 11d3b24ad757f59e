//! The masking strategies and the masks that they compute.
use vstd::prelude::*;
use rand::rngs::StdRng;
use crate::config::BlockMaskConfig;
use crate::error::MaskError;
use crate::fraction::Fraction;
use crate::mask::{count_true, Mask};
use crate::placement::{is_placement, lemma_row_placement_mask, JITTER_STEPS};
use crate::scatter::mask_of;
use crate::span_count::{max_spans, num_spans};

verus! {

/// Masks nothing.
#[derive(Clone, Copy, Debug)]
pub struct NoneMask;

/// Masks every frame.
#[derive(Clone, Copy, Debug)]
pub struct AllMask;

/// Masks contiguous spans of frames that are placed at random. Its functions
/// are the steps of the algorithm: counting the spans of an example, drawing
/// their starts, filling rows up and setting the masked frames.
#[derive(Clone, Copy, Debug)]
pub struct BlockMask;

/// Reserved: masking of everything but the spans. It has no algorithm yet.
#[derive(Clone, Copy, Debug)]
pub struct InverseBlockMask;

/// Reserved: masking of single frames chosen at random. It has no algorithm
/// yet.
#[derive(Clone, Copy, Debug)]
pub struct RandomMask {}

/// The masking strategies, one variant for each, with what it needs to work.
#[derive(Clone, Copy, Debug)]
pub enum MaskingStrategy {
    /// No frame is masked.
    Nothing,
    /// Every frame is masked.
    All,
    /// Contiguous spans are masked, under the given policy.
    Span(BlockMaskConfig),
    /// Reserved; see [`InverseBlockMask`].
    InverseSpan,
    /// Reserved; see [`RandomMask`].
    RandomPoint,
}

/// The lengths fit the batch: there is one for every row, and none exceeds
/// the padded width.
pub open spec fn lengths_fit(seq_lens: Seq<u32>, batch: int, max_seq_len: int) -> bool {
    &&& seq_lens.len() == batch
    &&& forall|b: int| 0 <= b < seq_lens.len() ==> seq_lens[b] <= max_seq_len
}

/// `mask` is a span mask of the batch for the jitter `eps`: the spans of some
/// placement that the lengths, the configuration and the jitter admit, and
/// nothing else.
pub open spec fn is_span_mask(
    mask: Seq<Seq<bool>>,
    seq_lens: Seq<u32>,
    config: BlockMaskConfig,
    max_seq_len: int,
    eps: Fraction,
) -> bool {
    exists|placement: Seq<Seq<usize>>| #[trigger]
        is_placement(placement, seq_lens, config, max_seq_len, eps) && mask == mask_of(
            placement,
            config.span_len as int,
            max_seq_len,
        )
}

/// What span masking owes on a batch of `batch` rows and `max_seq_len`
/// columns. A configuration that is not valid for the width is refused with
/// `InvalidConfig`; lengths that do not fit the batch are refused next, with
/// `ShapeMismatch`; everything else yields a mask of the batch's extents that
/// is a span mask for one of the jitters that can be drawn.
pub open spec fn is_span_outcome(
    res: Result<Mask, MaskError>,
    batch: int,
    max_seq_len: int,
    seq_lens: Seq<u32>,
    config: BlockMaskConfig,
) -> bool {
    &&& res is Ok <==> config.valid_for(max_seq_len) && lengths_fit(seq_lens, batch, max_seq_len)
    &&& res matches Err(e) ==> e == (if config.valid_for(max_seq_len) {
        MaskError::ShapeMismatch
    } else {
        MaskError::InvalidConfig
    })
    &&& res matches Ok(mask) ==> mask.has_shape(batch, max_seq_len) && exists|eps: Fraction|
        eps.is_jitter() && eps.den == JITTER_STEPS && #[trigger] is_span_mask(
            mask@,
            seq_lens,
            config,
            max_seq_len,
            eps,
        )
}

/// What holds of every row of a span mask: it has the padded width; it masks
/// at most `span_len` frames for each span of the batch; where the example
/// has a span of its own, only valid frames of the example are masked; and
/// where it has none, the last frame of the padded row is masked, and that
/// only where the batch has a span at all.
pub proof fn lemma_span_mask_rows(
    mask: Seq<Seq<bool>>,
    seq_lens: Seq<u32>,
    config: BlockMaskConfig,
    max_seq_len: int,
    eps: Fraction,
)
    requires
        config.valid_for(max_seq_len),
        max_seq_len <= usize::MAX,
        eps.is_jitter(),
        forall|b: int| 0 <= b < seq_lens.len() ==> seq_lens[b] <= max_seq_len,
        is_span_mask(mask, seq_lens, config, max_seq_len, eps),
    ensures
        mask.len() == seq_lens.len(),
        forall|b: int| 0 <= b < mask.len() ==> (#[trigger] mask[b]).len() == max_seq_len,
        forall|b: int|
            0 <= b < mask.len() ==> count_true(#[trigger] mask[b]) <= max_spans(
                config,
                max_seq_len,
                eps,
            ) * config.span_len,
        forall|b: int, t: int|
            0 <= b < mask.len() && 0 <= t < max_seq_len && num_spans(
                config,
                max_seq_len,
                eps,
                seq_lens[b] as int,
            ) > 0 && #[trigger] mask[b][t] ==> t < seq_lens[b],
        forall|b: int, t: int|
            0 <= b < mask.len() && 0 <= t < max_seq_len && num_spans(
                config,
                max_seq_len,
                eps,
                seq_lens[b] as int,
            ) == 0 ==> (#[trigger] mask[b][t] <==> t == max_seq_len - 1 && max_spans(
                config,
                max_seq_len,
                eps,
            ) > 0),
{
    let placement = choose|placement: Seq<Seq<usize>>| #[trigger]
        is_placement(placement, seq_lens, config, max_seq_len, eps) && mask == mask_of(
            placement,
            config.span_len as int,
            max_seq_len,
        );
    assert forall|b: int| 0 <= b < mask.len() implies (#[trigger] mask[b]).len() == max_seq_len
        && count_true(mask[b]) <= max_spans(config, max_seq_len, eps) * config.span_len
        && (forall|t: int|
        0 <= t < max_seq_len && num_spans(config, max_seq_len, eps, seq_lens[b] as int) > 0
            && #[trigger] mask[b][t] ==> t < seq_lens[b]) && (forall|t: int|
        0 <= t < max_seq_len && num_spans(config, max_seq_len, eps, seq_lens[b] as int) == 0
            ==> (#[trigger] mask[b][t] <==> t == max_seq_len - 1 && max_spans(
            config,
            max_seq_len,
            eps,
        ) > 0)) by {
        lemma_row_placement_mask(placement[b], seq_lens[b] as int, config, max_seq_len, eps);
    }
}

/// Tells whether there is a length for every row and none exceeds the padded
/// width.
fn check_lengths(seq_lens: &Vec<u32>, batch: usize, max_seq_len: usize) -> (ok: bool)
    ensures
        ok == lengths_fit(seq_lens@, batch as int, max_seq_len as int),
{
    if seq_lens.len() != batch {
        return false;
    }
    let mut b: usize = 0;
    while b < seq_lens.len()
        invariant
            b <= seq_lens@.len(),
            forall|i: int| 0 <= i < b ==> seq_lens@[i] <= max_seq_len,
        decreases seq_lens@.len() - b,
    {
        if seq_lens[b] as usize > max_seq_len {
            return false;
        }
        b += 1;
    }
    true
}

impl NoneMask {
    /// The mask of a batch of the given extents in which no frame is masked.
    /// Lengths and configuration play no part.
    pub fn get_mask_indices(
        batch_and_seq_dims: [usize; 2],
        _seq_lens: Vec<u32>,
        _mask_config: (),
    ) -> (mask: Mask)
        ensures
            mask.has_shape(batch_and_seq_dims[0] as int, batch_and_seq_dims[1] as int),
            mask.is_constant(false),
    {
        Mask::filled(batch_and_seq_dims[0], batch_and_seq_dims[1], false)
    }
}

impl AllMask {
    /// The mask of a batch of the given extents in which every frame is
    /// masked. Lengths and configuration play no part.
    pub fn get_mask_indices(
        batch_and_seq_dims: [usize; 2],
        _seq_lens: Vec<u32>,
        _mask_config: (),
    ) -> (mask: Mask)
        ensures
            mask.has_shape(batch_and_seq_dims[0] as int, batch_and_seq_dims[1] as int),
            mask.is_constant(true),
    {
        Mask::filled(batch_and_seq_dims[0], batch_and_seq_dims[1], true)
    }
}

impl BlockMask {
    /// Accepts a batch for span masking, or says why it is refused: the
    /// configuration is looked at first, the lengths next.
    fn check_batch(
        batch_and_seq_dims: [usize; 2],
        seq_lens: &Vec<u32>,
        mask_config: &BlockMaskConfig,
    ) -> (res: Result<(), MaskError>)
        ensures
            res is Ok <==> mask_config.valid_for(batch_and_seq_dims[1] as int) && lengths_fit(
                seq_lens@,
                batch_and_seq_dims[0] as int,
                batch_and_seq_dims[1] as int,
            ),
            res matches Err(e) ==> e == (if mask_config.valid_for(batch_and_seq_dims[1] as int) {
                MaskError::ShapeMismatch
            } else {
                MaskError::InvalidConfig
            }),
    {
        if mask_config.check(batch_and_seq_dims[1]).is_err() {
            return Err(MaskError::InvalidConfig);
        }
        if !check_lengths(seq_lens, batch_and_seq_dims[0], batch_and_seq_dims[1]) {
            return Err(MaskError::ShapeMismatch);
        }
        Ok(())
    }

    /// Places the spans of an accepted batch for the jitter `eps` and sets
    /// the frames that they reach.
    fn mask_accepted_batch(
        batch_and_seq_dims: [usize; 2],
        seq_lens: &Vec<u32>,
        mask_config: &BlockMaskConfig,
        eps: Fraction,
        rng: &mut StdRng,
    ) -> (mask: Mask)
        requires
            mask_config.valid_for(batch_and_seq_dims[1] as int),
            lengths_fit(
                seq_lens@,
                batch_and_seq_dims[0] as int,
                batch_and_seq_dims[1] as int,
            ),
            eps.is_jitter(),
        ensures
            mask.has_shape(batch_and_seq_dims[0] as int, batch_and_seq_dims[1] as int),
            is_span_mask(mask@, seq_lens@, *mask_config, batch_and_seq_dims[1] as int, eps),
    {
        let seq = batch_and_seq_dims[1];
        let placement = Self::sample_spans(seq_lens, seq, mask_config, eps, rng);
        let mask = Self::scatter_spans(&placement, mask_config.span_len, seq);
        proof {
            assert(is_placement(placement.deep_view(), seq_lens@, *mask_config, seq as int, eps));
        }
        mask
    }

    /// Span masking for a jitter that the caller has drawn: counts the spans
    /// of every example, draws their starts from `rng`, fills every row up to
    /// the span count of the batch and sets the frames that the spans reach.
    ///
    /// A configuration that is not valid for the padded width is refused with
    /// `InvalidConfig`, and lengths that do not fit the batch with
    /// `ShapeMismatch`, both before anything is drawn.
    pub fn get_mask_indices_with_jitter(
        batch_and_seq_dims: [usize; 2],
        seq_lens: Vec<u32>,
        mask_config: BlockMaskConfig,
        eps: Fraction,
        rng: &mut StdRng,
    ) -> (res: Result<Mask, MaskError>)
        requires
            eps.is_jitter(),
        ensures
            res is Ok <==> mask_config.valid_for(batch_and_seq_dims[1] as int) && lengths_fit(
                seq_lens@,
                batch_and_seq_dims[0] as int,
                batch_and_seq_dims[1] as int,
            ),
            res matches Err(e) ==> e == (if mask_config.valid_for(batch_and_seq_dims[1] as int) {
                MaskError::ShapeMismatch
            } else {
                MaskError::InvalidConfig
            }),
            res is Err ==> *final(rng) == *old(rng),
            res matches Ok(mask) ==> mask.has_shape(
                batch_and_seq_dims[0] as int,
                batch_and_seq_dims[1] as int,
            ) && is_span_mask(
                mask@,
                seq_lens@,
                mask_config,
                batch_and_seq_dims[1] as int,
                eps,
            ),
    {
        match Self::check_batch(batch_and_seq_dims, &seq_lens, &mask_config) {
            Err(e) => Err(e),
            Ok(()) => Ok(
                Self::mask_accepted_batch(batch_and_seq_dims, &seq_lens, &mask_config, eps, rng),
            ),
        }
    }

    /// Span masking: draws the jitter that the whole batch shares, once, and
    /// goes on as [`BlockMask::get_mask_indices_with_jitter`] does.
    pub fn get_mask_indices(
        batch_and_seq_dims: [usize; 2],
        seq_lens: Vec<u32>,
        mask_config: BlockMaskConfig,
        rng: &mut StdRng,
    ) -> (res: Result<Mask, MaskError>)
        ensures
            is_span_outcome(
                res,
                batch_and_seq_dims[0] as int,
                batch_and_seq_dims[1] as int,
                seq_lens@,
                mask_config,
            ),
            res is Err ==> *final(rng) == *old(rng),
    {
        match Self::check_batch(batch_and_seq_dims, &seq_lens, &mask_config) {
            Err(e) => Err(e),
            Ok(()) => {
                let eps = Self::draw_jitter(rng);
                Ok(
                    Self::mask_accepted_batch(
                        batch_and_seq_dims,
                        &seq_lens,
                        &mask_config,
                        eps,
                        rng,
                    ),
                )
            },
        }
    }
}

impl MaskingStrategy {
    /// Computes the mask of a batch under this strategy. The reserved
    /// strategies are refused with `NotImplemented`; only span masking draws
    /// from `rng`.
    pub fn get_mask_indices(
        &self,
        batch_and_seq_dims: [usize; 2],
        seq_lens: Vec<u32>,
        rng: &mut StdRng,
    ) -> (res: Result<Mask, MaskError>)
        ensures
            match *self {
                MaskingStrategy::Nothing => res matches Ok(mask) && mask.has_shape(
                    batch_and_seq_dims[0] as int,
                    batch_and_seq_dims[1] as int,
                ) && mask.is_constant(false),
                MaskingStrategy::All => res matches Ok(mask) && mask.has_shape(
                    batch_and_seq_dims[0] as int,
                    batch_and_seq_dims[1] as int,
                ) && mask.is_constant(true),
                MaskingStrategy::Span(config) => is_span_outcome(
                    res,
                    batch_and_seq_dims[0] as int,
                    batch_and_seq_dims[1] as int,
                    seq_lens@,
                    config,
                ),
                MaskingStrategy::InverseSpan | MaskingStrategy::RandomPoint => res matches Err(e)
                    && e == MaskError::NotImplemented,
            },
            res matches Ok(mask) ==> mask.has_shape(
                batch_and_seq_dims[0] as int,
                batch_and_seq_dims[1] as int,
            ),
            res is Err || !(*self is Span) ==> *final(rng) == *old(rng),
    {
        match self {
            MaskingStrategy::Nothing => Ok(
                NoneMask::get_mask_indices(batch_and_seq_dims, seq_lens, ()),
            ),
            MaskingStrategy::All => Ok(AllMask::get_mask_indices(batch_and_seq_dims, seq_lens, ())),
            MaskingStrategy::Span(config) => BlockMask::get_mask_indices(
                batch_and_seq_dims,
                seq_lens,
                *config,
                rng,
            ),
            MaskingStrategy::InverseSpan => Err(MaskError::NotImplemented),
            MaskingStrategy::RandomPoint => Err(MaskError::NotImplemented),
        }
    }
}

} // verus!
