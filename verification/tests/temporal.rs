use rustle_core::temporal::{
    check_delta_params, delta_row, delta_rows, delta_window, DeltaParamError,
};

#[test]
fn accepted_parameters() {
    assert_eq!(check_delta_params(9, 1, 20), Ok(()));
    assert_eq!(check_delta_params(9, 8, 9), Ok(()));
    assert_eq!(check_delta_params(3, 2, 3), Ok(()));
}

#[test]
fn even_or_small_width_is_refused() {
    assert_eq!(check_delta_params(4, 1, 20), Err(DeltaParamError::WidthNotOddAtLeastThree));
    assert_eq!(check_delta_params(1, 0, 20), Err(DeltaParamError::WidthNotOddAtLeastThree));
    assert_eq!(check_delta_params(0, 1, 20), Err(DeltaParamError::WidthNotOddAtLeastThree));
    // The width check comes before the others.
    assert_eq!(check_delta_params(4, 0, 2), Err(DeltaParamError::WidthNotOddAtLeastThree));
}

#[test]
fn width_past_row_is_refused() {
    assert_eq!(
        check_delta_params(9, 1, 5),
        Err(DeltaParamError::WidthExceedsFrames { width: 9, n_frames: 5 })
    );
    assert_eq!(
        check_delta_params(9, 0, 5),
        Err(DeltaParamError::WidthExceedsFrames { width: 9, n_frames: 5 })
    );
}

#[test]
fn order_out_of_range_is_refused() {
    assert_eq!(check_delta_params(9, 0, 20), Err(DeltaParamError::OrderOutOfRange));
    assert_eq!(check_delta_params(9, 9, 20), Err(DeltaParamError::OrderOutOfRange));
    assert_eq!(check_delta_params(9, 100, 20), Err(DeltaParamError::OrderOutOfRange));
}

fn delta_row_windows(n: usize, width: usize) -> Vec<(usize, usize)> {
    // The window's first frame is recovered from the window's contents.
    let row: Vec<usize> = (0..n).collect();
    delta_row(&row, width, &|w: &[usize], pos: usize| (w.first().copied().unwrap_or(0), pos))
}

#[test]
fn windows_of_a_short_row() {
    assert_eq!(
        delta_row_windows(7, 5),
        vec![(0, 0), (0, 1), (0, 2), (1, 2), (2, 2), (2, 3), (2, 4)]
    );
}

#[test]
fn row_as_long_as_window() {
    assert_eq!(delta_row_windows(3, 3), vec![(0, 0), (0, 1), (0, 2)]);
}

#[test]
fn empty_row_has_no_windows() {
    assert!(delta_row_windows(0, 9).is_empty());
}

#[test]
fn single_window() {
    assert_eq!(delta_window(10, 20, 9), (6, 4));
    assert_eq!(delta_window(19, 20, 9), (11, 8));
    assert_eq!(delta_window(0, 20, 9), (0, 0));
}

#[test]
fn every_window_contains_its_frame() {
    for n in 3..30usize {
        for width in (3..=n).step_by(2) {
            for (i, (start, pos)) in delta_row_windows(n, width).into_iter().enumerate() {
                assert!(start + width <= n);
                assert_eq!(start + pos, i);
                assert!(pos < width);
                let half = width / 2;
                if i >= half && i < n - half {
                    assert_eq!(pos, half);
                }
            }
        }
    }
}

#[test]
fn delta_row_hands_each_frame_its_window() {
    let row: Vec<i64> = vec![5, 1, 4, 1, 5, 9, 2];
    let width = 5;
    let fit = |w: &[i64], pos: usize| (w.to_vec(), pos);
    let out = delta_row(&row, width, &fit);
    assert_eq!(out.len(), 7);
    assert_eq!(out[0], (vec![5, 1, 4, 1, 5], 0));
    assert_eq!(out[2], (vec![5, 1, 4, 1, 5], 2));
    assert_eq!(out[3], (vec![1, 4, 1, 5, 9], 2));
    assert_eq!(out[6], (vec![4, 1, 5, 9, 2], 4));
}

#[test]
fn delta_row_of_linear_ramp_with_float_slope() {
    // Least-squares slope of a straight line is its slope everywhere.
    let row: Vec<f64> = (0..10).map(|k| 2.0 * k as f64 + 1.0).collect();
    let width = 3;
    let fit = |w: &[f64], _pos: usize| (w[2] - w[0]) / 2.0;
    let out = delta_row(&row, width, &fit);
    assert!(out.iter().all(|&d| (d - 2.0).abs() < 1e-12));
}

#[test]
fn delta_row_of_empty_row() {
    let row: Vec<f64> = Vec::new();
    let fit = |_w: &[f64], _p: usize| 0.0f64;
    assert!(delta_row(&row, 9, &fit).is_empty());
}

#[test]
fn chunk_with_context_reproduces_row_windows() {
    let row: Vec<u32> = (0..40).map(|k| k * k % 17).collect();
    let width = 7;
    let half = width / 2;
    let fit = |w: &[u32], pos: usize| (w.to_vec(), pos);
    let whole = delta_row(&row, width, &fit);
    let (s, e) = (9, 25);
    let chunk = delta_row(&row[s..e], width, &fit);
    for i in (s + half)..(e - half) {
        assert_eq!(chunk[i - s], whole[i]);
    }
}

#[test]
fn delta_rows_works_row_by_row() {
    let rows: Vec<Vec<i32>> = vec![vec![1, 2, 3, 4], vec![], vec![9, 8, 7, 6, 5]];
    let fit = |w: &[i32], pos: usize| w[pos] * 10 + w.len() as i32;
    let out = delta_rows(&rows, 3, &fit);
    assert_eq!(out.len(), 3);
    for (r, row) in rows.iter().enumerate() {
        assert_eq!(out[r], delta_row(row, 3, &fit));
        assert_eq!(out[r].len(), row.len());
    }
    assert_eq!(out[0], vec![13, 23, 33, 43]);
}

#[test]
fn chunk_with_context_reproduces_row_values() {
    let row: Vec<f64> = (0..50).map(|k| ((k * 7) % 11) as f64 * 0.5).collect();
    let width = 5;
    let half = width / 2;
    let fit = |w: &[f64], pos: usize| w.iter().enumerate().map(|(k, x)| x * (k as f64 - pos as f64)).sum::<f64>();
    let whole = delta_row(&row, width, &fit);
    let (s, e) = (12, 31);
    let chunk = delta_row(&row[s..e], width, &fit);
    for i in (s + half)..(e - half) {
        assert_eq!(chunk[i - s].to_bits(), whole[i].to_bits());
    }
}
