//! Layout of the delta (Savitzky-Golay derivative) features.
//!
//! Delta features follow `librosa.feature.delta(data, width, order,
//! mode="interp")`: every frame `i` of a row is the derivative of a
//! polynomial fitted to a window of `width` consecutive frames. Interior
//! frames use the window centred on them; the first and last `width / 2`
//! frames use the first and the last `width` frames of the row. This module
//! checks the parameters and chooses the windows.
use vstd::prelude::*;

verus! {

/// Why delta parameters are refused.
#[derive(Debug, Clone, Copy, PartialEq, Eq, Structural)]
pub enum DeltaParamError {
    /// `width` is even or smaller than 3.
    WidthNotOddAtLeastThree,
    /// `width` is larger than the number of frames.
    WidthExceedsFrames { width: usize, n_frames: usize },
    /// `order` is zero or not smaller than `width`.
    OrderOutOfRange,
}

/// The parameter check of `delta`: first the width must be odd and at
/// least 3, then no larger than the number of frames, then the order must
/// lie in `1 .. width`.
pub open spec fn spec_check_delta_params(width: usize, order: usize, n_frames: usize) -> Result<
    (),
    DeltaParamError,
> {
    if width < 3 || width % 2 == 0 {
        Err(DeltaParamError::WidthNotOddAtLeastThree)
    } else if width > n_frames {
        Err(DeltaParamError::WidthExceedsFrames { width, n_frames })
    } else if order < 1 || order >= width {
        Err(DeltaParamError::OrderOutOfRange)
    } else {
        Ok(())
    }
}

/// Checks the width and order of a delta over rows of `n_frames` frames.
pub fn check_delta_params(width: usize, order: usize, n_frames: usize) -> (res: Result<
    (),
    DeltaParamError,
>)
    ensures
        res == spec_check_delta_params(width, order, n_frames),
{
    if width < 3 || width % 2 == 0 {
        return Err(DeltaParamError::WidthNotOddAtLeastThree);
    }
    if width > n_frames {
        return Err(DeltaParamError::WidthExceedsFrames { width, n_frames });
    }
    if order < 1 || order >= width {
        return Err(DeltaParamError::OrderOutOfRange);
    }
    Ok(())
}

/// The window used at frame `i` of a row of `n` frames: its first frame,
/// and the position of frame `i` inside it (where the fitted polynomial's
/// derivative is evaluated).
pub open spec fn spec_delta_window(i: int, n: int, width: int) -> (int, int) {
    let halflen = width / 2;
    if i < halflen {
        (0, i)
    } else if i >= n - halflen {
        (n - width, i - (n - width))
    } else {
        (i - halflen, halflen)
    }
}

/// The window of frame `i` of a row of `n` frames.
pub fn delta_window(i: usize, n: usize, width: usize) -> (w: (usize, usize))
    requires
        i < n,
        width <= n,
    ensures
        (w.0 as int, w.1 as int) == spec_delta_window(i as int, n as int, width as int),
{
    let halflen = width / 2;
    if i < halflen {
        (0, i)
    } else if i >= n - halflen {
        (n - width, i - (n - width))
    } else {
        (i - halflen, halflen)
    }
}

/// `v` is a value `fit` can return for frame `i` of `row`: for the window of
/// `width` frames that frame `i` uses, and frame `i`'s position in it.
pub open spec fn fit_gave<T, U, F: Fn(&[T], usize) -> U>(
    fit: F,
    row: Seq<T>,
    width: int,
    i: int,
    v: U,
) -> bool {
    let (start, pos) = spec_delta_window(i, row.len() as int, width);
    exists|w: &[T], p: usize|
        w@ == row.subrange(start, start + width) && p == pos && #[trigger] call_ensures(
            fit,
            (w, p),
            v,
        )
}

/// The delta of one row: frame `i` gets what `fit` returns for frame `i`'s
/// window (the `width` frames it starts at) and frame `i`'s position in it
/// (the derivative of the polynomial fitted to that window, at that position).
/// `fit` sees nothing of the row outside the window.
pub fn delta_row<T, U, F: Fn(&[T], usize) -> U>(row: &[T], width: usize, fit: &F) -> (out: Vec<U>)
    requires
        row@.len() == 0 || width <= row@.len(),
        forall|w: &[T], pos: usize|
            w@.len() == width && pos <= width ==> #[trigger] call_requires(*fit, (w, pos)),
    ensures
        out@.len() == row@.len(),
        forall|i: int| 0 <= i < row@.len() ==> #[trigger] fit_gave(*fit, row@, width as int, i, out@[i]),
{
    let n = row.len();
    let mut out: Vec<U> = Vec::new();
    let mut i: usize = 0;
    while i < n
        invariant
            i <= n,
            n == row@.len(),
            n == 0 || width <= n,
            forall|w: &[T], pos: usize|
                w@.len() == width && pos <= width ==> #[trigger] call_requires(*fit, (w, pos)),
            out@.len() == i,
            forall|j: int| 0 <= j < i ==> #[trigger] fit_gave(*fit, row@, width as int, j, out@[j]),
        decreases n - i,
    {
        let (start, pos) = delta_window(i, n, width);
        assert(spec_delta_window(i as int, n as int, width as int) == (start as int, pos as int));
        let window = vstd::slice::slice_subrange(row, start, start + width);
        let v = fit(window, pos);
        assert(fit_gave(*fit, row@, width as int, i as int, v));
        out.push(v);
        i = i + 1;
    }
    out
}

/// A chunk of a row that keeps `width / 2` frames of context on each side
/// hands the fit, for every frame of its middle, the same window and
/// position as the whole row does: the delta of a chunk reproduces the delta
/// of the whole row there.
pub proof fn lemma_delta_chunk_windows<T>(row: Seq<T>, width: int, s: int, e: int, i: int)
    requires
        0 <= width,
        0 <= s < e <= row.len(),
        width <= e - s,
        s + width / 2 <= i < e - width / 2,
    ensures
        ({
            let (chunk_start, chunk_pos) = spec_delta_window(i - s, e - s, width);
            let (start, pos) = spec_delta_window(i, row.len() as int, width);
            &&& chunk_pos == pos
            &&& row.subrange(s, e).subrange(chunk_start, chunk_start + width) == row.subrange(
                start,
                start + width,
            )
        }),
{
    let (chunk_start, chunk_pos) = spec_delta_window(i - s, e - s, width);
    let (start, pos) = spec_delta_window(i, row.len() as int, width);
    assert(chunk_start + s == start);
    assert(row.subrange(s, e).subrange(chunk_start, chunk_start + width) =~= row.subrange(
        start,
        start + width,
    ));
}

/// The delta of every row of a matrix, row by row: row `r` of the result is
/// `delta_row` of row `r`.
pub fn delta_rows<T, U, F: Fn(&[T], usize) -> U>(rows: &Vec<Vec<T>>, width: usize, fit: &F) -> (out:
    Vec<Vec<U>>)
    requires
        forall|r: int|
            0 <= r < rows@.len() ==> (#[trigger] rows@[r])@.len() == 0 || width <= rows@[r]@.len(),
        forall|w: &[T], pos: usize|
            w@.len() == width && pos <= width ==> #[trigger] call_requires(*fit, (w, pos)),
    ensures
        out@.len() == rows@.len(),
        forall|r: int| 0 <= r < rows@.len() ==> (#[trigger] out@[r])@.len() == rows@[r]@.len(),
        forall|r: int, i: int|
            0 <= r < rows@.len() && 0 <= i < rows@[r]@.len() ==> #[trigger] fit_gave(
                *fit,
                rows@[r]@,
                width as int,
                i,
                out@[r]@[i],
            ),
{
    let mut out: Vec<Vec<U>> = Vec::new();
    let mut r: usize = 0;
    while r < rows.len()
        invariant
            r <= rows@.len(),
            forall|q: int|
                0 <= q < rows@.len() ==> (#[trigger] rows@[q])@.len() == 0 || width <= rows@[q]@.len(),
            forall|w: &[T], pos: usize|
                w@.len() == width && pos <= width ==> #[trigger] call_requires(*fit, (w, pos)),
            out@.len() == r,
            forall|q: int| 0 <= q < r ==> (#[trigger] out@[q])@.len() == rows@[q]@.len(),
            forall|q: int, i: int|
                0 <= q < r && 0 <= i < rows@[q]@.len() ==> #[trigger] fit_gave(
                    *fit,
                    rows@[q]@,
                    width as int,
                    i,
                    out@[q]@[i],
                ),
        decreases rows@.len() - r,
    {
        let row = rows[r].as_slice();
        assert(rows@[r as int]@.len() == 0 || width <= rows@[r as int]@.len());
        let d = delta_row(row, width, fit);
        out.push(d);
        r = r + 1;
    }
    out
}

/// `fit`'s result is determined by the contents of the window it is handed
/// and the position: the same window and position never give two results.
pub open spec fn fit_depends_on_window<T, U, F: Fn(&[T], usize) -> U>(fit: F) -> bool {
    forall|w1: &[T], w2: &[T], p: usize, v1: U, v2: U|
        #![trigger call_ensures(fit, (w1, p), v1), call_ensures(fit, (w2, p), v2)]
        w1@ == w2@ && call_ensures(fit, (w1, p), v1) && call_ensures(fit, (w2, p), v2) ==> v1 == v2
}

/// With a fit that depends only on its window and position, the delta of a
/// chunk of a row that keeps `width / 2` frames of context on each side
/// equals the delta of the whole row on the chunk's middle frames.
pub proof fn lemma_delta_chunk_values<T, U, F: Fn(&[T], usize) -> U>(
    fit: F,
    row: Seq<T>,
    width: int,
    s: int,
    e: int,
    whole: Seq<U>,
    chunk: Seq<U>,
    i: int,
)
    requires
        fit_depends_on_window(fit),
        0 <= width,
        0 <= s < e <= row.len(),
        width <= e - s,
        s + width / 2 <= i < e - width / 2,
        whole.len() == row.len(),
        forall|j: int| 0 <= j < row.len() ==> #[trigger] fit_gave(fit, row, width, j, whole[j]),
        chunk.len() == e - s,
        forall|j: int|
            0 <= j < e - s ==> #[trigger] fit_gave(fit, row.subrange(s, e), width, j, chunk[j]),
    ensures
        chunk[i - s] == whole[i],
{
    lemma_delta_chunk_windows(row, width, s, e, i);
    assert(fit_gave(fit, row, width, i, whole[i]));
    assert(fit_gave(fit, row.subrange(s, e), width, i - s, chunk[i - s]));
    let (start, pos) = spec_delta_window(i, row.len() as int, width);
    let (cstart, cpos) = spec_delta_window(i - s, e - s, width);
    let (w1, p1) = choose|w: &[T], p: usize|
        w@ == row.subrange(start, start + width) && p == pos && #[trigger] call_ensures(
            fit,
            (w, p),
            whole[i],
        );
    let (w2, p2) = choose|w: &[T], p: usize|
        w@ == row.subrange(s, e).subrange(cstart, cstart + width) && p == cpos
            && #[trigger] call_ensures(fit, (w, p), chunk[i - s]);
    assert(p1 == p2);
    assert(w1@ == w2@);
    assert(call_ensures(fit, (w1, p1), whole[i]));
    assert(call_ensures(fit, (w2, p1), chunk[i - s]));
}

/// Every window lies inside the row, holds `width` frames, and contains the
/// frame it is used for, at the position where the derivative is taken.
pub proof fn lemma_delta_window_in_row(i: int, n: int, width: int)
    requires
        0 <= i < n,
        1 <= width <= n,
    ensures
        ({
            let (start, pos) = spec_delta_window(i, n, width);
            &&& 0 <= start
            &&& start + width <= n
            &&& 0 <= pos < width
            &&& start + pos == i
        }),
{
}

/// With accepted parameters, interior frames sit at the centre of their
/// window (`width / 2` frames on each side), the first `width / 2` frames
/// share the first window of the row, and the last `width / 2` frames share
/// the last one.
pub proof fn lemma_delta_windows_centered(i: int, n: usize, width: usize, order: usize)
    requires
        spec_check_delta_params(width, order, n) is Ok,
        0 <= i < n,
    ensures
        ({
            let half = width / 2;
            let (start, pos) = spec_delta_window(i, n as int, width as int);
            &&& half <= i < n - half ==> start == i - half && start + width - 1 - i == half
            &&& i < half ==> start == 0
            &&& i >= n - half ==> start == n - width
        }),
{
}

/// Accepted parameters meet what the window layout asks of the row length.
pub proof fn lemma_accepted_params_fit_row(width: usize, order: usize, n: usize)
    requires
        spec_check_delta_params(width, order, n) is Ok,
    ensures
        3 <= width <= n,
        1 <= order < width,
{
}

/// The check accepts exactly the parameters librosa's `delta` accepts: an
/// odd width of at least 3 that fits the row, and an order from 1 up to
/// below the width. Every such triple is accepted and every other refused.
pub proof fn lemma_check_delta_params_accepts_exactly(width: usize, order: usize, n_frames: usize)
    ensures
        spec_check_delta_params(width, order, n_frames) is Ok <==> (width % 2 == 1 && 3 <= width
            <= n_frames && 1 <= order < width),
{
}

/// Which refusal comes: an even or too small width first, then a width past
/// the row (naming both), then an order outside `1 .. width`.
pub proof fn lemma_check_delta_params_errors(width: usize, order: usize, n_frames: usize)
    ensures
        (width % 2 == 0 || width < 3) ==> spec_check_delta_params(width, order, n_frames) == Err::<
            (),
            DeltaParamError,
        >(DeltaParamError::WidthNotOddAtLeastThree),
        (width % 2 == 1 && width >= 3 && width > n_frames) ==> spec_check_delta_params(
            width,
            order,
            n_frames,
        ) == Err::<(), DeltaParamError>(
            DeltaParamError::WidthExceedsFrames { width, n_frames },
        ),
        (width % 2 == 1 && 3 <= width <= n_frames && (order < 1 || order >= width))
            ==> spec_check_delta_params(width, order, n_frames) == Err::<(), DeltaParamError>(
            DeltaParamError::OrderOutOfRange,
        ),
{
}

} // verus!
