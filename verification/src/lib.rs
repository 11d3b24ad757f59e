//! Span masking over batches of padded sequences.
//!
//! A batch is a rectangle of `batch` rows and `max_seq_len` frames, of which
//! each row has only its first `len` frames valid. Span masking decides for
//! every row how many spans of `span_len` contiguous frames it receives and
//! where they start, fills every row up to the same number of spans, and
//! marks the frames that the spans reach in a boolean [`Mask`]. The mask is
//! then applied to the hidden states of the batch, where every masked frame
//! is replaced by a fill vector.
//!
//! The real-valued quantities of the policy, the masking probability and the
//! jitter, are kept as exact [`Fraction`]s, so that every count is a matter
//! of whole numbers. Random draws come from a generator that the caller
//! hands in.
//!
//! Beside the masking stands the step counter of a learning-rate schedule
//! with warm-up and decay, [`ScheduleSteps`]: it tells for every step which
//! phase it falls into, and leaves the rates to its caller.

pub mod apply;
pub mod config;
pub mod error;
pub mod fraction;
pub mod mask;
pub mod placement;
pub mod rng;
pub mod scatter;
pub mod schedule;
pub mod span_count;
pub mod strategy;

pub use crate::config::BlockMaskConfig;
pub use crate::error::MaskError;
pub use crate::fraction::Fraction;
pub use crate::mask::Mask;
pub use crate::placement::JITTER_STEPS;
pub use crate::schedule::{SchedulePhase, ScheduleSteps};
pub use crate::strategy::{
    AllMask, BlockMask, InverseBlockMask, MaskingStrategy, NoneMask, RandomMask,
};
