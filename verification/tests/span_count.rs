use burnx_sequence::{BlockMask, BlockMaskConfig, Fraction};

fn config(num: u32, den: u32, span_len: usize, min_spans: usize) -> BlockMaskConfig {
    BlockMaskConfig { mask_prob: Fraction::new(num, den), span_len, min_spans }
}

#[test]
fn scenario_counts_for_full_and_half_length() {
    let cfg = config(3, 10, 2, 1);
    let eps = Fraction::new(1, 10);
    // floor(0.3 * 10 / 2 + 0.1) = floor(1.6) = 1
    assert_eq!(BlockMask::num_masked_spans(&cfg, 10, eps, 10), 1);
    // floor(0.3 * 5 / 2 + 0.1) = floor(0.85) = 0, raised to min_spans = 1
    assert_eq!(BlockMask::num_masked_spans(&cfg, 10, eps, 5), 1);
}

#[test]
fn count_without_minimum_can_be_zero() {
    let cfg = config(3, 10, 2, 0);
    let eps = Fraction::new(1, 10);
    assert_eq!(BlockMask::num_masked_spans(&cfg, 10, eps, 5), 0);
    assert_eq!(BlockMask::num_masked_spans(&cfg, 10, eps, 10), 1);
}

#[test]
fn jitter_tips_the_rounding() {
    let cfg = config(1, 2, 4, 0);
    // 0.5 * 20 / 4 = 2.5
    assert_eq!(BlockMask::num_masked_spans(&cfg, 100, Fraction::new(0, 1), 20), 2);
    assert_eq!(BlockMask::num_masked_spans(&cfg, 100, Fraction::new(49, 100), 20), 2);
    assert_eq!(BlockMask::num_masked_spans(&cfg, 100, Fraction::new(1, 2), 20), 3);
    assert_eq!(BlockMask::num_masked_spans(&cfg, 100, Fraction::new(99, 100), 20), 3);
}

#[test]
fn count_is_capped_by_the_padded_width() {
    // min_spans = 9 spans of 3 frames would need 27 frames, the row has 20:
    // the count falls back to 20 / 3 = 6.
    let cfg = config(1, 10, 3, 9);
    let eps = Fraction::new(0, 1);
    assert_eq!(BlockMask::num_masked_spans(&cfg, 20, eps, 20), 6);
    // exactly fitting counts are kept: 4 spans of 5 frames in 20 frames
    let cfg = config(1, 10, 5, 4);
    assert_eq!(BlockMask::num_masked_spans(&cfg, 20, eps, 20), 4);
}

#[test]
fn width_cap_uses_the_padded_width_not_the_example() {
    // The example has 8 valid frames, but the cap looks at the 20 padded
    // frames: 5 spans of 3 frames fit into 20, so the example keeps 5 until
    // its own start positions run out: 8 - (3 - 1) = 6.
    let cfg = config(1, 10, 3, 5);
    let eps = Fraction::new(0, 1);
    assert_eq!(BlockMask::num_masked_spans(&cfg, 20, eps, 8), 5);
    // with 6 valid frames only 4 start positions are left
    assert_eq!(BlockMask::num_masked_spans(&cfg, 20, eps, 6), 4);
}

#[test]
fn short_examples_receive_no_span() {
    let cfg = config(1, 1, 4, 3);
    let eps = Fraction::new(1, 2);
    // len - (span_len - 1) <= 0
    assert_eq!(BlockMask::num_masked_spans(&cfg, 16, eps, 0), 0);
    assert_eq!(BlockMask::num_masked_spans(&cfg, 16, eps, 2), 0);
    assert_eq!(BlockMask::num_masked_spans(&cfg, 16, eps, 3), 0);
    // exactly one span long: one start position
    assert_eq!(BlockMask::num_masked_spans(&cfg, 16, eps, 4), 1);
    assert_eq!(BlockMask::num_masked_spans(&cfg, 16, eps, 5), 2);
}

#[test]
fn full_probability_masks_as_many_spans_as_fit() {
    let cfg = config(1, 1, 2, 0);
    let eps = Fraction::new(0, 1);
    // floor(1.0 * 10 / 2) = 5, fits, 9 start positions
    assert_eq!(BlockMask::num_masked_spans(&cfg, 10, eps, 10), 5);
    // with jitter close to one: 6 spans would need 12 frames -> 10 / 2 = 5
    assert_eq!(BlockMask::num_masked_spans(&cfg, 10, Fraction::new(999, 1000), 10), 5);
}

#[test]
fn count_never_falls_when_the_probability_rises() {
    let eps = Fraction::new(3, 7);
    let probs: [(u32, u32); 7] = [(1, 100), (1, 10), (1, 4), (1, 3), (1, 2), (3, 4), (1, 1)];
    for len in 0..=40usize {
        let mut last = 0usize;
        for (num, den) in probs {
            let cfg = config(num, den, 3, 1);
            let n = BlockMask::num_masked_spans(&cfg, 40, eps, len);
            assert!(n >= last);
            last = n;
        }
    }
}

#[test]
fn count_never_falls_when_the_example_grows() {
    let cfg = config(13, 20, 3, 2);
    let eps = Fraction::new(5, 8);
    let budget = BlockMask::num_masked_spans(&cfg, 50, eps, 50);
    let mut last = 0usize;
    for len in 0..=50usize {
        let n = BlockMask::num_masked_spans(&cfg, 50, eps, len);
        assert!(n >= last);
        assert!(n <= budget);
        assert!(n * 3 <= 50);
        last = n;
    }
}

#[test]
fn large_lengths_do_not_overflow() {
    let cfg = config(u32::MAX, u32::MAX, 1, usize::MAX);
    let eps = Fraction::new(u32::MAX - 1, u32::MAX);
    let n = BlockMask::num_masked_spans(&cfg, usize::MAX, eps, usize::MAX);
    assert_eq!(n, usize::MAX);
    let cfg = config(1, u32::MAX, usize::MAX, 0);
    assert_eq!(BlockMask::num_masked_spans(&cfg, usize::MAX, eps, usize::MAX), 1);
    let eps = Fraction::new(0, u32::MAX);
    assert_eq!(BlockMask::num_masked_spans(&cfg, usize::MAX, eps, usize::MAX), 0);
}

#[test]
fn fractions_know_their_ranges() {
    assert!(Fraction::new(1, 1).in_probability_range());
    assert!(Fraction::new(3, 10).in_probability_range());
    assert!(!Fraction::new(0, 10).in_probability_range());
    assert!(!Fraction::new(11, 10).in_probability_range());
    assert!(!Fraction::new(0, 0).in_probability_range());
    assert!(Fraction::new(0, 1).in_jitter_range());
    assert!(Fraction::new(9, 10).in_jitter_range());
    assert!(!Fraction::new(10, 10).in_jitter_range());
    assert!(!Fraction::new(0, 0).in_jitter_range());
}
