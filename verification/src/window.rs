//! Placing a short analysis window in the middle of an FFT buffer
//! (librosa's `util.pad_center`), and the number of rFFT bins.
use vstd::prelude::*;

verus! {

/// Index of the first window sample inside a buffer of `size` samples,
/// for a window no longer than the buffer.
pub open spec fn spec_window_left(win_length: nat, size: nat) -> nat
    recommends
        win_length <= size,
{
    ((size - win_length) as nat) / 2
}

/// `values` placed at `spec_window_left(values.len(), size)` in a buffer of
/// `size` copies of `zero`.
pub open spec fn spec_pad_center<T>(values: Seq<T>, size: nat, zero: T) -> Seq<T>
    recommends
        values.len() <= size,
{
    let left = spec_window_left(values.len(), size);
    Seq::new(
        size,
        |j: int|
            if left <= j < left + values.len() {
                values[j - left]
            } else {
                zero
            },
    )
}

/// Index of the first sample of a window of `win_length` samples centred in
/// a buffer of `size` samples. As with librosa's `pad_center`, the window
/// may not be longer than the buffer.
pub fn window_left(win_length: usize, size: usize) -> (left: usize)
    requires
        win_length <= size,
    ensures
        left == spec_window_left(win_length as nat, size as nat),
        left + win_length <= size,
{
    (size - win_length) / 2
}

/// Centres `values` in a buffer of `size` copies of `zero`. As with
/// librosa's `pad_center`, `values` may not be longer than the buffer.
pub fn pad_center<T: Copy>(values: &[T], size: usize, zero: T) -> (out: Vec<T>)
    requires
        values@.len() <= size,
    ensures
        out@ == spec_pad_center(values@, size as nat, zero),
{
    let count = values.len();
    let left = window_left(count, size);
    let mut out: Vec<T> = Vec::new();
    let mut j: usize = 0;
    while j < size
        invariant
            j <= size,
            left == spec_window_left(values@.len(), size as nat),
            count == values@.len(),
            left + count <= size,
            out@.len() == j,
            forall|i: int|
                0 <= i < j ==> #[trigger] out@[i] == spec_pad_center(values@, size as nat, zero)[i],
        decreases size - j,
    {
        if left <= j && j < left + count {
            out.push(values[j - left]);
        } else {
            out.push(zero);
        }
        j = j + 1;
    }
    assert(out@ =~= spec_pad_center(values@, size as nat, zero));
    out
}

/// Number of bins of the real FFT of `n_fft` samples: `1 + n_fft / 2`.
pub fn frequency_bins(n_fft: usize) -> (bins: usize)
    ensures
        bins == 1 + n_fft / 2,
{
    n_fft / 2 + 1
}

/// The window sits in the middle of the buffer: the zeros after it number
/// the zeros before it, or one more.
pub proof fn lemma_window_centered(win_length: nat, size: nat)
    requires
        win_length <= size,
    ensures
        ({
            let left = spec_window_left(win_length, size);
            let right = size - left - win_length;
            left <= right <= left + 1
        }),
{
}

/// The buffer holds the whole window between its margins.
pub proof fn lemma_pad_center_keeps_window<T>(values: Seq<T>, size: nat, zero: T, k: int)
    requires
        values.len() <= size,
        0 <= k < values.len(),
    ensures
        spec_pad_center(values, size, zero)[spec_window_left(values.len(), size) + k] == values[k],
{
}

/// Centring a window of `len <= size` values gives `size` samples: the
/// values in order from `(size - len) / 2` on, and `zero` everywhere else
/// (both margins hold nothing but zeros).
pub proof fn lemma_pad_center_layout<T>(values: Seq<T>, size: nat, zero: T)
    requires
        values.len() <= size,
    ensures
        spec_pad_center(values, size, zero).len() == size,
        forall|j: int|
            0 <= j < size ==> #[trigger] spec_pad_center(values, size, zero)[j] == if (size
                - values.len()) / 2 <= j < (size - values.len()) / 2 + values.len() {
                values[j - (size - values.len()) / 2]
            } else {
                zero
            },
{
}

} // verus!
