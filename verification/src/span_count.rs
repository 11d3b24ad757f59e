//! How many spans an example receives.
use vstd::prelude::*;
use vstd::arithmetic::div_mod::*;
use vstd::arithmetic::mul::*;
use crate::config::BlockMaskConfig;
use crate::fraction::Fraction;
use crate::strategy::BlockMask;

verus! {

/// `floor(prob * len / span_len + eps)`: the number of spans that the
/// masking probability asks for on `len` frames, after the jitter has been
/// added and the sum rounded down.
pub open spec fn jittered_count(prob: Fraction, eps: Fraction, len: int, span_len: int) -> int {
    (prob.num * len * eps.den + eps.num * prob.den * span_len) / (prob.den * span_len * eps.den)
}

/// The number of spans that are free to start inside `len` frames:
/// `len - (span_len - 1)`, and none where that is negative.
pub open spec fn available_starts(len: int, span_len: int) -> int {
    if len - (span_len - 1) > 0 {
        len - (span_len - 1)
    } else {
        0
    }
}

/// The number of spans of an example with `len` valid frames in a batch
/// padded to `max_seq_len` frames.
///
/// The jittered count is raised to `min_spans`. Where that many spans would
/// not fit side by side into a padded row, the count falls back to the number
/// that do fit. Last, it is cut down to the number of start positions that
/// the example itself offers. The first cap looks at the padded width, the
/// second at the example's own length. An example too short to hold a span
/// receives none, and the batch goes on without it.
pub open spec fn num_spans(config: BlockMaskConfig, max_seq_len: int, eps: Fraction, len: int)
    -> int {
    let raw = jittered_count(config.mask_prob, eps, len, config.span_len as int);
    let wanted = if raw >= config.min_spans {
        raw
    } else {
        config.min_spans as int
    };
    let fitting = if wanted * config.span_len > max_seq_len {
        max_seq_len / (config.span_len as int)
    } else {
        wanted
    };
    if available_starts(len, config.span_len as int) < fitting {
        available_starts(len, config.span_len as int)
    } else {
        fitting
    }
}

/// The number of spans that every row of the batch is padded to: the count of
/// an example that fills the whole padded width.
pub open spec fn max_spans(config: BlockMaskConfig, max_seq_len: int, eps: Fraction) -> int {
    num_spans(config, max_seq_len, eps, max_seq_len)
}

/// A quotient and a remainder of one division, and a second fraction below
/// one, give the floor of the sum: the quotient, and one more exactly where
/// the remainder and the second fraction together reach a whole.
proof fn lemma_floor_of_sum(n: int, dd: int, c: int, d: int)
    requires
        0 <= n,
        0 < dd,
        0 <= c < d,
    ensures
        (n * d + c * dd) / (dd * d) == n / dd + (if (n % dd) * d >= dd * (d - c) {
            1int
        } else {
            0int
        }),
{
    let q = n / dd;
    let r = n % dd;
    lemma_fundamental_div_mod(n, dd);
    lemma_mod_bound(n, dd);
    let x = n * d + c * dd;
    let whole = dd * d;
    assert(whole > 0) by (nonlinear_arith)
        requires
            dd > 0,
            d > 0,
            whole == dd * d,
    ;
    assert(x == q * whole + (r * d + c * dd)) by (nonlinear_arith)
        requires
            n == dd * q + r,
            x == n * d + c * dd,
            whole == dd * d,
    ;
    assert(0 <= r * d + c * dd < 2 * whole) by (nonlinear_arith)
        requires
            0 <= r < dd,
            0 <= c < d,
            whole == dd * d,
    ;
    assert((r * d >= dd * (d - c)) <==> (r * d + c * dd >= whole)) by (nonlinear_arith)
        requires
            whole == dd * d,
    ;
    if r * d + c * dd >= whole {
        assert(x == (q + 1) * whole + (r * d + c * dd - whole)) by (nonlinear_arith)
            requires
                x == q * whole + (r * d + c * dd),
        ;
        lemma_fundamental_div_mod_converse(x, whole, q + 1, r * d + c * dd - whole);
    } else {
        lemma_fundamental_div_mod_converse(x, whole, q, r * d + c * dd);
    }
}

/// `wanted` spans of `span_len` frames exceed `width` frames exactly where
/// `wanted` exceeds the number of whole spans in `width`.
proof fn lemma_exceeds_width(wanted: int, span_len: int, width: int)
    requires
        0 <= wanted,
        0 < span_len,
        0 <= width,
    ensures
        wanted * span_len > width <==> wanted > width / span_len,
        (width / span_len) * span_len <= width,
        0 <= width / span_len <= width,
{
    let q = width / span_len;
    lemma_fundamental_div_mod(width, span_len);
    lemma_mod_bound(width, span_len);
    lemma_div_pos_is_pos(width, span_len);
    assert(q * span_len == span_len * q) by (nonlinear_arith);
    if wanted > q {
        assert(wanted * span_len >= (q + 1) * span_len) by (nonlinear_arith)
            requires
                wanted >= q + 1,
                span_len > 0,
        ;
        assert((q + 1) * span_len == q * span_len + span_len) by (nonlinear_arith);
    } else {
        assert(wanted * span_len <= q * span_len) by (nonlinear_arith)
            requires
                wanted <= q,
                span_len > 0,
        ;
    }
    assert(q <= width) by (nonlinear_arith)
        requires
            q * span_len <= width,
            span_len >= 1,
            q >= 0,
    ;
}

/// The jittered count is never negative, and it is the greatest whole number
/// `k` with `k <= prob * len / span_len + eps`.
proof fn lemma_jittered_count_floor(prob: Fraction, eps: Fraction, len: int, span_len: int)
    requires
        prob.den > 0,
        eps.is_jitter(),
        0 <= len,
        0 < span_len,
    ensures
        0 <= jittered_count(prob, eps, len, span_len),
        jittered_count(prob, eps, len, span_len) * (prob.den * span_len * eps.den) <= prob.num
            * len * eps.den + eps.num * prob.den * span_len,
        0 < prob.den * span_len * eps.den,
        0 <= prob.num * len * eps.den + eps.num * prob.den * span_len,
{
    let x = prob.num * len * eps.den + eps.num * prob.den * span_len;
    let y = prob.den * span_len * eps.den;
    assert(0 < y) by (nonlinear_arith)
        requires
            y == prob.den * span_len * eps.den,
            prob.den > 0,
            span_len > 0,
            eps.den > 0,
    ;
    assert(0 <= x) by (nonlinear_arith)
        requires
            x == prob.num * len * eps.den + eps.num * prob.den * span_len,
            len >= 0,
            span_len > 0,
    ;
    lemma_fundamental_div_mod(x, y);
    lemma_mod_bound(x, y);
    lemma_div_pos_is_pos(x, y);
    assert((x / y) * y == y * (x / y)) by (nonlinear_arith);
}

/// Raising the masking probability, with the jitter, the length and the span
/// length held fixed, never lowers the jittered count.
proof fn lemma_jittered_count_monotonic_in_prob(
    lower: Fraction,
    higher: Fraction,
    eps: Fraction,
    len: int,
    span_len: int,
)
    requires
        lower.den > 0,
        higher.den > 0,
        lower.at_most(higher),
        eps.is_jitter(),
        0 <= len,
        0 < span_len,
    ensures
        jittered_count(lower, eps, len, span_len) <= jittered_count(higher, eps, len, span_len),
{
    let k = jittered_count(lower, eps, len, span_len);
    lemma_jittered_count_floor(lower, eps, len, span_len);
    lemma_jittered_count_floor(higher, eps, len, span_len);
    let a1 = lower.num as int;
    let b1 = lower.den as int;
    let a2 = higher.num as int;
    let b2 = higher.den as int;
    let c = eps.num as int;
    let d = eps.den as int;
    let x2 = a2 * len * d + c * b2 * span_len;
    let y2 = b2 * span_len * d;
    // With `u` the part of `k` that the probability has to pay for, the floor
    // of the lower count reads `b1 * u <= a1 * (len * d)`.
    let u = k * span_len * d - c * span_len;
    let ld = len * d;
    assert(0 <= ld) by (nonlinear_arith)
        requires
            ld == len * d,
            0 <= len,
            0 < d,
    ;
    let ksd = k * span_len * d;
    let cs = c * span_len;
    assert(k * (b1 * span_len * d) == b1 * ksd) by (nonlinear_arith)
        requires
            ksd == k * span_len * d,
    ;
    assert(c * b1 * span_len == b1 * cs) by (nonlinear_arith)
        requires
            cs == c * span_len,
    ;
    assert(a1 * len * d == a1 * ld) by (nonlinear_arith)
        requires
            ld == len * d,
    ;
    assert(b1 * u == b1 * ksd - b1 * cs) by (nonlinear_arith)
        requires
            u == ksd - cs,
    ;
    assert(b1 * u <= a1 * ld);
    assert(b2 * u <= a2 * ld) by (nonlinear_arith)
        requires
            b1 * u <= a1 * ld,
            a1 * b2 <= a2 * b1,
            0 < b1,
            0 < b2,
            0 <= a2,
            0 <= ld,
    {
        if u > 0 {
            assert(b2 * (b1 * u) <= b2 * (a1 * ld));
            assert((a1 * b2) * ld <= (a2 * b1) * ld);
            assert(b1 * (b2 * u) <= b1 * (a2 * ld));
        }
    }
    assert(k * y2 == b2 * ksd) by (nonlinear_arith)
        requires
            y2 == b2 * span_len * d,
            ksd == k * span_len * d,
    ;
    assert(c * b2 * span_len == b2 * cs) by (nonlinear_arith)
        requires
            cs == c * span_len,
    ;
    assert(a2 * len * d == a2 * ld) by (nonlinear_arith)
        requires
            ld == len * d,
    ;
    assert(b2 * u == b2 * ksd - b2 * cs) by (nonlinear_arith)
        requires
            u == ksd - cs,
    ;
    assert(k * y2 <= x2);
    lemma_div_is_ordered(k * y2, x2, y2);
    assert(k * y2 == y2 * k) by (nonlinear_arith);
    lemma_div_multiples_vanish(k, y2);
}

/// A longer example never has a smaller jittered count.
proof fn lemma_jittered_count_monotonic_in_len(
    prob: Fraction,
    eps: Fraction,
    shorter: int,
    longer: int,
    span_len: int,
)
    requires
        prob.den > 0,
        eps.is_jitter(),
        0 <= shorter <= longer,
        0 < span_len,
    ensures
        jittered_count(prob, eps, shorter, span_len) <= jittered_count(
            prob,
            eps,
            longer,
            span_len,
        ),
{
    lemma_jittered_count_floor(prob, eps, shorter, span_len);
    let y = prob.den * span_len * eps.den;
    let x1 = prob.num * shorter * eps.den + eps.num * prob.den * span_len;
    let x2 = prob.num * longer * eps.den + eps.num * prob.den * span_len;
    assert(x1 <= x2) by (nonlinear_arith)
        requires
            x1 == prob.num * shorter * eps.den + eps.num * prob.den * span_len,
            x2 == prob.num * longer * eps.den + eps.num * prob.den * span_len,
            shorter <= longer,
    ;
    lemma_div_is_ordered(x1, x2, y);
}

/// What holds of every span count: it is not negative, that many spans fit
/// side by side into a padded row, each of them has a start position of its
/// own inside the example, and an example that receives a span is at least
/// one span long.
pub proof fn lemma_num_spans_bounds(
    config: BlockMaskConfig,
    max_seq_len: int,
    eps: Fraction,
    len: int,
)
    requires
        config.is_well_formed(),
        eps.is_jitter(),
        0 <= max_seq_len,
        0 <= len,
    ensures
        0 <= num_spans(config, max_seq_len, eps, len),
        num_spans(config, max_seq_len, eps, len) * config.span_len <= max_seq_len,
        num_spans(config, max_seq_len, eps, len) <= max_seq_len,
        num_spans(config, max_seq_len, eps, len) <= available_starts(len, config.span_len as int),
        num_spans(config, max_seq_len, eps, len) > 0 ==> len >= config.span_len,
{
    let span_len = config.span_len as int;
    let raw = jittered_count(config.mask_prob, eps, len, span_len);
    lemma_jittered_count_floor(config.mask_prob, eps, len, span_len);
    let wanted = if raw >= config.min_spans {
        raw
    } else {
        config.min_spans as int
    };
    lemma_exceeds_width(wanted, span_len, max_seq_len);
    let n = num_spans(config, max_seq_len, eps, len);
    let fitting = if wanted * span_len > max_seq_len {
        max_seq_len / span_len
    } else {
        wanted
    };
    assert(n * span_len <= fitting * span_len) by (nonlinear_arith)
        requires
            0 <= n <= fitting,
            0 < span_len,
    ;
    assert(n <= n * span_len) by (nonlinear_arith)
        requires
            0 <= n,
            1 <= span_len,
    ;
}

/// Raising the masking probability, with the jitter, the lengths and the rest
/// of the configuration held fixed, never lowers the number of spans of an
/// example, nor the number that the batch is padded to.
pub proof fn lemma_num_spans_monotonic_in_prob(
    lower: BlockMaskConfig,
    higher: BlockMaskConfig,
    max_seq_len: int,
    eps: Fraction,
    len: int,
)
    requires
        lower.is_well_formed(),
        higher.is_well_formed(),
        lower.span_len == higher.span_len,
        lower.min_spans == higher.min_spans,
        lower.mask_prob.at_most(higher.mask_prob),
        eps.is_jitter(),
        0 <= max_seq_len,
        0 <= len,
    ensures
        num_spans(lower, max_seq_len, eps, len) <= num_spans(higher, max_seq_len, eps, len),
        max_spans(lower, max_seq_len, eps) <= max_spans(higher, max_seq_len, eps),
{
    let span_len = lower.span_len as int;
    lemma_jittered_count_monotonic_in_prob(lower.mask_prob, higher.mask_prob, eps, len, span_len);
    lemma_jittered_count_monotonic_in_prob(
        lower.mask_prob,
        higher.mask_prob,
        eps,
        max_seq_len,
        span_len,
    );
    lemma_wanted_exceeds_width(lower, max_seq_len, eps, len);
    lemma_wanted_exceeds_width(higher, max_seq_len, eps, len);
    lemma_wanted_exceeds_width(lower, max_seq_len, eps, max_seq_len);
    lemma_wanted_exceeds_width(higher, max_seq_len, eps, max_seq_len);
}

/// Of two examples in one batch the longer never receives fewer spans; so no
/// example that fits into the padded width receives more spans than the batch
/// is padded to.
pub proof fn lemma_num_spans_monotonic_in_len(
    config: BlockMaskConfig,
    max_seq_len: int,
    eps: Fraction,
    shorter: int,
    longer: int,
)
    requires
        config.is_well_formed(),
        eps.is_jitter(),
        0 <= max_seq_len,
        0 <= shorter <= longer,
    ensures
        num_spans(config, max_seq_len, eps, shorter) <= num_spans(
            config,
            max_seq_len,
            eps,
            longer,
        ),
        longer == max_seq_len ==> num_spans(config, max_seq_len, eps, shorter) <= max_spans(
            config,
            max_seq_len,
            eps,
        ),
{
    let span_len = config.span_len as int;
    lemma_jittered_count_monotonic_in_len(config.mask_prob, eps, shorter, longer, span_len);
    lemma_wanted_exceeds_width(config, max_seq_len, eps, shorter);
    lemma_wanted_exceeds_width(config, max_seq_len, eps, longer);
}

/// The cap on the padded width, read as a comparison with the number of whole
/// spans in a row.
proof fn lemma_wanted_exceeds_width(
    config: BlockMaskConfig,
    max_seq_len: int,
    eps: Fraction,
    len: int,
)
    requires
        config.is_well_formed(),
        eps.is_jitter(),
        0 <= max_seq_len,
        0 <= len,
    ensures
        ({
            let raw = jittered_count(config.mask_prob, eps, len, config.span_len as int);
            let wanted = if raw >= config.min_spans {
                raw
            } else {
                config.min_spans as int
            };
            wanted * config.span_len > max_seq_len <==> wanted > max_seq_len / (
            config.span_len as int)
        }),
{
    let raw = jittered_count(config.mask_prob, eps, len, config.span_len as int);
    lemma_jittered_count_floor(config.mask_prob, eps, len, config.span_len as int);
    let wanted = if raw >= config.min_spans {
        raw
    } else {
        config.min_spans as int
    };
    lemma_exceeds_width(wanted, config.span_len as int, max_seq_len);
}

impl BlockMask {
    /// Computes `floor(prob * len / span_len + eps)` without rounding error
    /// and without overflow.
    fn jittered_count_of(prob: Fraction, eps: Fraction, len: usize, span_len: usize) -> (raw: u128)
        requires
            prob.den > 0,
            span_len > 0,
            eps.is_jitter(),
        ensures
            raw == jittered_count(prob, eps, len as int, span_len as int),
    {
        proof {
            lemma_mul_upper_bound(
                prob.num as int,
                0xFFFF_FFFF,
                len as int,
                0xFFFF_FFFF_FFFF_FFFF,
            );
            lemma_mul_upper_bound(
                prob.den as int,
                0xFFFF_FFFF,
                span_len as int,
                0xFFFF_FFFF_FFFF_FFFF,
            );
            lemma_mul_strictly_positive(prob.den as int, span_len as int);
        }
        let numer: u128 = prob.num as u128 * len as u128;
        let denom: u128 = prob.den as u128 * span_len as u128;
        let whole: u128 = numer / denom;
        let rest: u128 = numer % denom;
        let gap: u128 = (eps.den - eps.num) as u128;
        proof {
            lemma_mod_bound(numer as int, denom as int);
            lemma_div_pos_is_pos(numer as int, denom as int);
            lemma_div_is_ordered_by_denominator(numer as int, 1, denom as int);
            lemma_div_basics_2(numer as int);
            lemma_mul_upper_bound(
                rest as int,
                0xFFFF_FFFFint * 0xFFFF_FFFF_FFFF_FFFFint,
                eps.den as int,
                0xFFFF_FFFF,
            );
            lemma_mul_upper_bound(
                denom as int,
                0xFFFF_FFFFint * 0xFFFF_FFFF_FFFF_FFFFint,
                gap as int,
                0xFFFF_FFFF,
            );
            lemma_floor_of_sum(numer as int, denom as int, eps.num as int, eps.den as int);
            assert(prob.num * len * eps.den + eps.num * prob.den * span_len == numer * eps.den
                + eps.num * denom) by (nonlinear_arith)
                requires
                    numer == prob.num * len,
                    denom == prob.den * span_len,
            ;
            assert(prob.den * span_len * eps.den == denom * eps.den) by (nonlinear_arith)
                requires
                    denom == prob.den * span_len,
            ;
        }
        if rest * (eps.den as u128) >= denom * gap {
            whole + 1
        } else {
            whole
        }
    }

    /// The number of spans that an example with `input_len` valid frames
    /// receives in a batch padded to `max_seq_len` frames, for the jitter
    /// `eps` that the whole batch shares.
    pub fn num_masked_spans(
        config: &BlockMaskConfig,
        max_seq_len: usize,
        eps: Fraction,
        input_len: usize,
    ) -> (n: usize)
        requires
            config.is_well_formed(),
            eps.is_jitter(),
        ensures
            n == num_spans(*config, max_seq_len as int, eps, input_len as int),
    {
        let raw: u128 = Self::jittered_count_of(
            config.mask_prob,
            eps,
            input_len,
            config.span_len,
        );
        let wanted: u128 = if raw >= config.min_spans as u128 {
            raw
        } else {
            config.min_spans as u128
        };
        let room: usize = max_seq_len / config.span_len;
        proof {
            lemma_exceeds_width(wanted as int, config.span_len as int, max_seq_len as int);
        }
        let fitting: usize = if wanted > room as u128 {
            room
        } else {
            wanted as usize
        };
        let available: usize = if input_len >= config.span_len - 1 {
            input_len - (config.span_len - 1)
        } else {
            0
        };
        if available < fitting {
            available
        } else {
            fitting
        }
    }
}

} // verus!
