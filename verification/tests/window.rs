use rustle_core::window::{frequency_bins, pad_center, window_left};

#[test]
fn short_window_is_centred() {
    assert_eq!(pad_center(&[1, 2, 3], 8, 0), vec![0, 0, 1, 2, 3, 0, 0, 0]);
    assert_eq!(pad_center(&[1, 2], 6, 0), vec![0, 0, 1, 2, 0, 0]);
}

#[test]
fn full_window_fills_buffer() {
    assert_eq!(pad_center(&[1, 2, 3], 3, 0), vec![1, 2, 3]);
}


#[test]
fn empty_buffer() {
    assert!(pad_center(&[1, 2], 0, 0).is_empty());
}

#[test]
fn window_left_of_typical_sizes() {
    assert_eq!(window_left(400, 512), 56);
    assert_eq!(window_left(2048, 2048), 0);
    assert_eq!(window_left(0, 4), 2);
}

#[test]
fn window_margins_differ_by_at_most_one() {
    for size in 0..20usize {
        for win in 0..=size {
            let left = window_left(win, size);
            let right = size - left - win;
            assert!(left <= right && right <= left + 1);
        }
    }
}

#[test]
fn rfft_bins() {
    assert_eq!(frequency_bins(2048), 1025);
    assert_eq!(frequency_bins(1), 1);
    assert_eq!(frequency_bins(0), 1);
    assert_eq!(frequency_bins(7), 4);
}
