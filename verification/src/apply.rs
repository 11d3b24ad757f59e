//! Applying a mask to the hidden states of a batch.
use vstd::prelude::*;
use crate::error::MaskError;
use crate::mask::Mask;
use crate::strategy::MaskingStrategy;

verus! {

/// The entries of a nested vector as sequences: batch, frame, feature.
pub open spec fn cube<T>(hidden: Seq<Vec<Vec<T>>>) -> Seq<Seq<Seq<T>>> {
    Seq::new(hidden.len(), |b: int| Seq::new(hidden[b]@.len(), |t: int| hidden[b]@[t]@))
}

/// `hidden` is a block of `batch` rows, `seq` frames in each row and
/// `features` values in each frame.
pub open spec fn has_extents<T>(hidden: Seq<Seq<Seq<T>>>, batch: int, seq: int, features: int)
    -> bool {
    &&& hidden.len() == batch
    &&& forall|b: int| 0 <= b < hidden.len() ==> (#[trigger] hidden[b]).len() == seq
    &&& forall|b: int, t: int|
        0 <= b < hidden.len() && 0 <= t < hidden[b].len() ==> (#[trigger] hidden[b][t]).len()
            == features
}

/// The hidden states with every masked frame replaced by the fill values and
/// every other frame as it was.
pub open spec fn blended<T>(hidden: Seq<Seq<Seq<T>>>, mask: Seq<Seq<bool>>, fill: Seq<T>) -> Seq<
    Seq<Seq<T>>,
> {
    Seq::new(
        hidden.len(),
        |b: int|
            Seq::new(
                hidden[b].len(),
                |t: int|
                    if mask[b][t] {
                        fill
                    } else {
                        hidden[b][t]
                    },
            ),
    )
}

/// Where no frame is masked, blending gives the hidden states back as they
/// were, whatever the fill values are.
pub proof fn lemma_blend_without_mask_is_identity<T>(
    hidden: Seq<Seq<Seq<T>>>,
    mask: Seq<Seq<bool>>,
    fill: Seq<T>,
)
    requires
        forall|b: int, t: int|
            0 <= b < hidden.len() && 0 <= t < hidden[b].len() ==> !(#[trigger] mask[b][t]),
    ensures
        blended(hidden, mask, fill) == hidden,
{
    assert forall|b: int| 0 <= b < hidden.len() implies #[trigger] blended(hidden, mask, fill)[b]
        == hidden[b] by {
        assert(blended(hidden, mask, fill)[b] =~= hidden[b]);
    }
    assert(blended(hidden, mask, fill) =~= hidden);
}

/// Tells whether `hidden` has the extents of the mask and as many features as
/// there are fill values.
fn check_extents<T>(hidden: &Vec<Vec<Vec<T>>>, batch: usize, seq: usize, features: usize) -> (ok:
    bool)
    ensures
        ok == has_extents(cube(hidden@), batch as int, seq as int, features as int),
{
    if hidden.len() != batch {
        return false;
    }
    let mut b: usize = 0;
    while b < hidden.len()
        invariant
            b <= hidden@.len(),
            hidden@.len() == batch,
            forall|i: int| 0 <= i < b ==> (#[trigger] cube(hidden@)[i]).len() == seq,
            forall|i: int, t: int|
                0 <= i < b && 0 <= t < cube(hidden@)[i].len() ==> (#[trigger] cube(
                    hidden@,
                )[i][t]).len() == features,
        decreases hidden@.len() - b,
    {
        let row = &hidden[b];
        if row.len() != seq {
            assert(cube(hidden@)[b as int].len() != seq);
            return false;
        }
        let mut t: usize = 0;
        while t < row.len()
            invariant
                t <= row@.len(),
                row@ == hidden@[b as int]@,
                b < hidden@.len(),
                forall|j: int| 0 <= j < t ==> (#[trigger] row@[j])@.len() == features,
            decreases row@.len() - t,
        {
            if row[t].len() != features {
                assert(cube(hidden@)[b as int][t as int].len() != features);
                return false;
            }
            t += 1;
        }
        assert forall|j: int| 0 <= j < cube(hidden@)[b as int].len() implies (#[trigger] cube(
            hidden@,
        )[b as int][j]).len() == features by {
            assert(row@[j]@.len() == features);
        }
        b += 1;
    }
    true
}

impl MaskingStrategy {
    /// Replaces the masked frames of `hidden` by the fill values and leaves
    /// every other frame as it is. The same for every strategy.
    ///
    /// `hidden` must have the rows and frames of the mask, and every frame as
    /// many features as there are fill values; anything else is refused with
    /// `ShapeMismatch`.
    pub fn apply_mask<T: Copy>(
        hidden: &Vec<Vec<Vec<T>>>,
        mask_time_indices: &Mask,
        fill: &Vec<T>,
    ) -> (res: Result<Vec<Vec<Vec<T>>>, MaskError>)
        ensures
            res is Ok <==> has_extents(
                cube(hidden@),
                mask_time_indices@.len() as int,
                mask_time_indices.seq_len() as int,
                fill@.len() as int,
            ),
            res matches Ok(masked) ==> cube(masked@) == blended(
                cube(hidden@),
                mask_time_indices@,
                fill@,
            ),
            res matches Err(e) ==> e == MaskError::ShapeMismatch,
    {
        let dims = mask_time_indices.dims();
        let features = fill.len();
        if !check_extents(hidden, dims[0], dims[1], features) {
            return Err(MaskError::ShapeMismatch);
        }
        let bits = mask_time_indices.rows();
        let ghost wanted = blended(cube(hidden@), mask_time_indices@, fill@);
        let mut masked: Vec<Vec<Vec<T>>> = Vec::new();
        let mut b: usize = 0;
        while b < hidden.len()
            invariant
                b <= hidden@.len(),
                masked@.len() == b,
                features == fill@.len(),
                has_extents(cube(hidden@), dims[0] as int, dims[1] as int, features as int),
                mask_time_indices.has_shape(dims[0] as int, dims[1] as int),
                bits@.len() == mask_time_indices@.len(),
                forall|i: int|
                    0 <= i < bits@.len() ==> (#[trigger] bits@[i])@ == mask_time_indices@[i],
                wanted == blended(cube(hidden@), mask_time_indices@, fill@),
                forall|i: int| 0 <= i < b ==> #[trigger] cube(masked@)[i] == wanted[i],
            decreases hidden@.len() - b,
        {
            let row = &hidden[b];
            let bit_row = &bits[b];
            assert(cube(hidden@)[b as int].len() == dims[1]);
            assert(bit_row@ == mask_time_indices@[b as int]);
            let mut out_row: Vec<Vec<T>> = Vec::new();
            let mut t: usize = 0;
            while t < row.len()
                invariant
                    t <= row@.len(),
                    b < hidden@.len(),
                    row@ == hidden@[b as int]@,
                    row@.len() == bit_row@.len(),
                    bit_row@ == mask_time_indices@[b as int],
                    out_row@.len() == t,
                    features == fill@.len(),
                    has_extents(cube(hidden@), dims[0] as int, dims[1] as int, features as int),
                    wanted == blended(cube(hidden@), mask_time_indices@, fill@),
                    forall|j: int| 0 <= j < t ==> (#[trigger] out_row@[j])@ == wanted[b as int][j],
                decreases row@.len() - t,
            {
                let frame = &row[t];
                let masked_here = bit_row[t];
                assert(cube(hidden@)[b as int][t as int] == frame@);
                assert(frame@.len() == features);
                let mut out_frame: Vec<T> = Vec::new();
                let mut k: usize = 0;
                while k < features
                    invariant
                        k <= features,
                        features == fill@.len(),
                        frame@.len() == features,
                        out_frame@.len() == k,
                        forall|j: int|
                            0 <= j < k ==> out_frame@[j] == (if masked_here {
                                fill@[j]
                            } else {
                                frame@[j]
                            }),
                    decreases features - k,
                {
                    let value = if masked_here {
                        fill[k]
                    } else {
                        frame[k]
                    };
                    out_frame.push(value);
                    k += 1;
                }
                assert(out_frame@ =~= wanted[b as int][t as int]);
                out_row.push(out_frame);
                t += 1;
            }
            let ghost before = masked@;
            masked.push(out_row);
            assert(cube(masked@)[b as int] =~= wanted[b as int]);
            assert forall|i: int| 0 <= i < b + 1 implies #[trigger] cube(masked@)[i]
                == wanted[i] by {
                if i < b {
                    assert(cube(masked@)[i] =~= cube(before)[i]);
                }
            }
            b += 1;
        }
        assert(cube(masked@) =~= wanted);
        Ok(masked)
    }
}

} // verus!
