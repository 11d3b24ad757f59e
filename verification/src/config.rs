//! The configuration of span masking and its validity.
use vstd::prelude::*;
use crate::error::MaskError;
use crate::fraction::Fraction;

verus! {

/// The sampling policy of span masking.
#[derive(Clone, Copy, Debug)]
pub struct BlockMaskConfig {
    /// Share of the frames that should fall under a span, in `(0, 1]`.
    pub mask_prob: Fraction,
    /// Number of contiguous frames that one span masks; positive.
    pub span_len: usize,
    /// Least number of spans asked for each example.
    pub min_spans: usize,
}

impl BlockMaskConfig {
    /// The configuration is meaningful on its own: the probability lies in
    /// `(0, 1]` and spans are not empty.
    pub open spec fn is_well_formed(self) -> bool {
        self.mask_prob.is_probability() && self.span_len > 0
    }

    /// The configuration can be used on a batch padded to `max_seq_len`
    /// frames: it is well formed and a span is strictly shorter than a row.
    pub open spec fn valid_for(self, max_seq_len: int) -> bool {
        self.is_well_formed() && self.span_len < max_seq_len
    }

    /// Accepts the configuration for a batch padded to `max_seq_len` frames,
    /// or refuses it with `InvalidConfig`.
    pub fn check(&self, max_seq_len: usize) -> (res: Result<(), MaskError>)
        ensures
            res is Ok <==> self.valid_for(max_seq_len as int),
            res is Err ==> res == Err::<(), MaskError>(MaskError::InvalidConfig),
    {
        if self.mask_prob.in_probability_range() && 0 < self.span_len && self.span_len
            < max_seq_len {
            Ok(())
        } else {
            Err(MaskError::InvalidConfig)
        }
    }
}

} // verus!
