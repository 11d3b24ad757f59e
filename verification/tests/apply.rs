use burnx_sequence::{AllMask, Mask, MaskError, MaskingStrategy, NoneMask};

fn hidden(batch: usize, seq: usize, features: usize) -> Vec<Vec<Vec<f32>>> {
    (0..batch)
        .map(|b| {
            (0..seq)
                .map(|t| (0..features).map(|k| (100 * b + 10 * t + k) as f32 + 0.5).collect())
                .collect()
        })
        .collect()
}

#[test]
fn apply_replaces_masked_frames_by_the_fill() {
    let states = hidden(2, 3, 2);
    let mask =
        Mask::from_rows(vec![vec![true, false, false], vec![false, true, true]], 3).unwrap();
    let fill = vec![-1.0f32, -2.0];
    let out = MaskingStrategy::apply_mask(&states, &mask, &fill).unwrap();
    let expected = vec![
        vec![vec![-1.0, -2.0], vec![10.5, 11.5], vec![20.5, 21.5]],
        vec![vec![100.5, 101.5], vec![-1.0, -2.0], vec![-1.0, -2.0]],
    ];
    assert_eq!(out, expected);
}

#[test]
fn apply_without_mask_returns_hidden_unchanged() {
    let states = hidden(3, 5, 4);
    let mask = NoneMask::get_mask_indices([3, 5], vec![5, 4, 1], ());
    for fill in [vec![0.0f32; 4], vec![f32::MAX; 4], vec![f32::NAN; 4], vec![-7.25; 4]] {
        let out = MaskingStrategy::apply_mask(&states, &mask, &fill).unwrap();
        assert_eq!(out, states);
        for b in 0..3 {
            for t in 0..5 {
                for k in 0..4 {
                    assert_eq!(out[b][t][k].to_bits(), states[b][t][k].to_bits());
                }
            }
        }
    }
}

#[test]
fn apply_with_full_mask_returns_the_fill_everywhere() {
    let states = hidden(2, 4, 3);
    let mask = AllMask::get_mask_indices([2, 4], vec![4, 4], ());
    let fill = vec![1.5f32, 2.5, 3.5];
    let out = MaskingStrategy::apply_mask(&states, &mask, &fill).unwrap();
    assert_eq!(out, vec![vec![fill.clone(); 4]; 2]);
}

#[test]
fn apply_works_on_any_copyable_element() {
    let states: Vec<Vec<Vec<i64>>> = vec![vec![vec![1, 2], vec![3, 4]]];
    let mask = Mask::from_rows(vec![vec![false, true]], 2).unwrap();
    let out = MaskingStrategy::apply_mask(&states, &mask, &vec![-9i64, -8]).unwrap();
    assert_eq!(out, vec![vec![vec![1, 2], vec![-9, -8]]]);
}

#[test]
fn apply_refuses_other_extents() {
    let mask = Mask::filled(2, 3, true);
    let fill = vec![0.0f32, 0.0];
    // another batch size
    let res = MaskingStrategy::apply_mask(&hidden(3, 3, 2), &mask, &fill);
    assert!(matches!(res, Err(MaskError::ShapeMismatch)));
    let res = MaskingStrategy::apply_mask(&hidden(0, 3, 2), &mask, &fill);
    assert!(matches!(res, Err(MaskError::ShapeMismatch)));
    // another number of frames
    let res = MaskingStrategy::apply_mask(&hidden(2, 4, 2), &mask, &fill);
    assert!(matches!(res, Err(MaskError::ShapeMismatch)));
    // another number of features
    let res = MaskingStrategy::apply_mask(&hidden(2, 3, 3), &mask, &fill);
    assert!(matches!(res, Err(MaskError::ShapeMismatch)));
    // one row shorter than the others
    let mut ragged = hidden(2, 3, 2);
    ragged[1].pop();
    let res = MaskingStrategy::apply_mask(&ragged, &mask, &fill);
    assert!(matches!(res, Err(MaskError::ShapeMismatch)));
    // one frame with a feature too few
    let mut ragged = hidden(2, 3, 2);
    ragged[1][2].pop();
    let res = MaskingStrategy::apply_mask(&ragged, &mask, &fill);
    assert!(matches!(res, Err(MaskError::ShapeMismatch)));
    // the matching extents pass
    assert!(MaskingStrategy::apply_mask(&hidden(2, 3, 2), &mask, &fill).is_ok());
}

#[test]
fn apply_on_empty_batches() {
    let fill = vec![0.0f32, 0.0];
    let mask = Mask::filled(0, 3, true);
    let out = MaskingStrategy::apply_mask(&hidden(0, 3, 2), &mask, &fill).unwrap();
    assert!(out.is_empty());
    let mask = Mask::filled(2, 0, true);
    let out = MaskingStrategy::apply_mask(&hidden(2, 0, 2), &mask, &fill).unwrap();
    assert_eq!(out, vec![Vec::<Vec<f32>>::new(); 2]);
}
