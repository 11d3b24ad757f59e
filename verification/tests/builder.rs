use burnx_sequence::{BlockMask, Mask, MaskError};

fn row_of(mask: &Mask, b: usize) -> Vec<bool> {
    mask.rows()[b].clone()
}

fn bits(text: &str) -> Vec<bool> {
    text.chars().map(|c| c == '1').collect()
}

#[test]
fn scatter_sets_span_len_frames_from_each_start() {
    let placement = vec![vec![0usize, 5], vec![3, 7]];
    let mask = BlockMask::scatter_spans(&placement, 2, 10);
    assert_eq!(mask.dims(), [2, 10]);
    assert_eq!(row_of(&mask, 0), bits("1100011000"));
    assert_eq!(row_of(&mask, 1), bits("0001100110"));
    assert_eq!(mask.count_row(0), Some(4));
    assert_eq!(mask.count_row(1), Some(4));
}

#[test]
fn scatter_writes_overlapping_spans_once() {
    let placement = vec![vec![2usize, 3, 2]];
    let mask = BlockMask::scatter_spans(&placement, 3, 8);
    assert_eq!(row_of(&mask, 0), bits("00111100"));
    // three spans of three frames, but only four frames are set
    assert_eq!(mask.count_row(0), Some(4));
}

#[test]
fn scatter_holds_frames_back_at_the_last_column() {
    // a span that starts at the last column keeps one frame
    let mask = BlockMask::scatter_spans(&vec![vec![9usize]], 3, 10);
    assert_eq!(row_of(&mask, 0), bits("0000000001"));
    // a span that starts one before it keeps two
    let mask = BlockMask::scatter_spans(&vec![vec![8usize]], 3, 10);
    assert_eq!(row_of(&mask, 0), bits("0000000011"));
    // a start far behind the row lands on the last column
    let mask = BlockMask::scatter_spans(&vec![vec![usize::MAX]], 3, 10);
    assert_eq!(row_of(&mask, 0), bits("0000000001"));
    // a span that just fits is not touched
    let mask = BlockMask::scatter_spans(&vec![vec![7usize]], 3, 10);
    assert_eq!(row_of(&mask, 0), bits("0000000111"));
}

#[test]
fn scatter_of_no_spans_masks_nothing() {
    let placement: Vec<Vec<usize>> = vec![vec![], vec![], vec![]];
    let mask = BlockMask::scatter_spans(&placement, 2, 4);
    assert_eq!(mask.dims(), [3, 4]);
    for b in 0..3 {
        assert_eq!(row_of(&mask, b), bits("0000"));
        assert_eq!(mask.count_row(b), Some(0));
    }
    let none: Vec<Vec<usize>> = Vec::new();
    let mask = BlockMask::scatter_spans(&none, 2, 4);
    assert_eq!(mask.dims(), [0, 4]);
}

#[test]
fn masked_frames_reach_the_bound_only_without_overlap() {
    // no overlap: 3 spans of 2 frames set 6 frames
    let mask = BlockMask::scatter_spans(&vec![vec![0usize, 2, 6]], 2, 10);
    assert_eq!(mask.count_row(0), Some(6));
    // one shared frame: 5 frames
    let mask = BlockMask::scatter_spans(&vec![vec![0usize, 1, 6]], 2, 10);
    assert_eq!(mask.count_row(0), Some(5));
    // a span held back at the last column loses a frame: 5 frames
    let mask = BlockMask::scatter_spans(&vec![vec![0usize, 2, 9]], 2, 10);
    assert_eq!(mask.count_row(0), Some(5));
}

#[test]
fn pad_starts_repeats_the_first_start() {
    assert_eq!(BlockMask::pad_starts(vec![4, 1], 5, 10), vec![4, 1, 4, 4, 4]);
    assert_eq!(BlockMask::pad_starts(vec![7], 1, 10), vec![7]);
}

#[test]
fn pad_starts_uses_the_last_column_without_a_start() {
    assert_eq!(BlockMask::pad_starts(vec![], 3, 10), vec![9, 9, 9]);
    assert_eq!(BlockMask::pad_starts(vec![], 0, 10), Vec::<usize>::new());
}

#[test]
fn pad_starts_cuts_surplus_starts() {
    assert_eq!(BlockMask::pad_starts(vec![4, 1, 6, 2], 2, 10), vec![4, 1]);
    assert_eq!(BlockMask::pad_starts(vec![4, 1], 0, 10), Vec::<usize>::new());
}

#[test]
fn padding_with_copies_masks_nothing_new() {
    let own = vec![3usize, 6];
    let padded = BlockMask::pad_starts(own.clone(), 5, 12);
    let with_padding = BlockMask::scatter_spans(&vec![padded], 2, 12);
    let without = BlockMask::scatter_spans(&vec![own], 2, 12);
    assert_eq!(row_of(&with_padding, 0), row_of(&without, 0));
}

#[test]
fn padding_without_spans_masks_the_last_frame_alone() {
    let padded = BlockMask::pad_starts(Vec::new(), 4, 12);
    let mask = BlockMask::scatter_spans(&vec![padded], 3, 12);
    assert_eq!(row_of(&mask, 0), bits("000000000001"));
}

#[test]
fn mask_from_rows_checks_the_width() {
    let rows = vec![vec![true, false, false], vec![false, false, true]];
    let mask = Mask::from_rows(rows.clone(), 3).unwrap();
    assert_eq!(mask.dims(), [2, 3]);
    assert_eq!(mask.rows(), &rows);
    assert_eq!(mask.get(0, 0), Some(true));
    assert_eq!(mask.get(0, 1), Some(false));
    assert_eq!(mask.get(1, 2), Some(true));
    assert_eq!(mask.get(2, 0), None);
    assert_eq!(mask.get(0, 3), None);
    assert_eq!(mask.count_row(0), Some(1));
    assert_eq!(mask.count_row(2), None);

    let ragged = vec![vec![true, false, false], vec![false, true]];
    assert!(matches!(Mask::from_rows(ragged, 3), Err(MaskError::ShapeMismatch)));
    let narrow = vec![vec![true, false]];
    assert!(matches!(Mask::from_rows(narrow, 3), Err(MaskError::ShapeMismatch)));
    let empty = Mask::from_rows(Vec::new(), 7).unwrap();
    assert_eq!(empty.dims(), [0, 7]);
}

#[test]
fn filled_masks_are_constant() {
    let mask = Mask::filled(3, 4, true);
    assert_eq!(mask.dims(), [3, 4]);
    for b in 0..3 {
        assert_eq!(mask.count_row(b), Some(4));
        for t in 0..4 {
            assert_eq!(mask.get(b, t), Some(true));
        }
    }
    let mask = Mask::filled(2, 5, false);
    for b in 0..2 {
        assert_eq!(mask.count_row(b), Some(0));
    }
    assert_eq!(Mask::filled(0, 5, true).dims(), [0, 5]);
    assert_eq!(Mask::filled(5, 0, true).dims(), [5, 0]);
}

#[test]
fn more_spans_after_the_same_first_ones_never_mask_fewer_frames() {
    let starts = vec![5usize, 0, 5, 9, 2, 13, 1];
    let mut last = 0usize;
    for count in 0..=starts.len() {
        let mask = BlockMask::scatter_spans(&vec![starts[..count].to_vec()], 3, 16);
        let n = mask.count_row(0).unwrap();
        assert!(n >= last);
        assert!(n <= count * 3);
        last = n;
    }
    assert_eq!(last, 14);
}
