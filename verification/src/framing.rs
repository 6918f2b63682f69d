//! Zero padding and framing of a one-dimensional signal.
//!
//! With `center`, the signal is padded by `frame_length / 2` zeros on each
//! side (librosa's `pad_mode="constant"`), so that frame `t` is centred on
//! sample `t * hop_length` of the original signal. Frames are then taken
//! every `hop_length` samples of the padded signal.
use vstd::prelude::*;

verus! {

/// Zeros added on each side of the signal.
pub open spec fn spec_center_pad(frame_length: nat, center: bool) -> nat {
    if center {
        frame_length / 2
    } else {
        0
    }
}

/// Length of the signal after padding.
pub open spec fn spec_padded_len(n: nat, frame_length: nat, center: bool) -> nat {
    n + 2 * spec_center_pad(frame_length, center)
}

/// Number of frames: none when the hop is zero or the padded signal is
/// shorter than one frame, else `1 + (padded_len - frame_length) / hop_length`.
pub open spec fn spec_frame_count(n: nat, frame_length: nat, hop_length: nat, center: bool) -> nat {
    let padded = spec_padded_len(n, frame_length, center);
    if hop_length == 0 || padded < frame_length {
        0
    } else {
        1 + ((padded - frame_length) as nat) / hop_length
    }
}

/// `pad` copies of `zero`.
pub open spec fn zeros<T>(pad: nat, zero: T) -> Seq<T> {
    Seq::new(pad, |_i: int| zero)
}

/// The signal with `pad` zeros on each side.
pub open spec fn spec_padded<T>(y: Seq<T>, pad: nat, zero: T) -> Seq<T> {
    zeros(pad, zero) + y + zeros(pad, zero)
}

/// Frame `f` of the padded signal: `frame_length` samples from `f * hop_length`.
pub open spec fn spec_frame<T>(
    y: Seq<T>,
    frame_length: nat,
    hop_length: nat,
    center: bool,
    zero: T,
    f: nat,
) -> Seq<T> {
    spec_padded(y, spec_center_pad(frame_length, center), zero).subrange(
        (f * hop_length) as int,
        (f * hop_length + frame_length) as int,
    )
}

/// Whether the padded length of a signal of `n` samples fits in memory
/// indices, with room for the frame count.
pub open spec fn layout_fits(n: nat, frame_length: nat, center: bool) -> bool {
    spec_padded_len(n, frame_length, center) < usize::MAX
}

/// Whether a signal of `n` samples can be framed with `frame_length`: its
/// padded length must fit the index type, with room for the frame count.
pub fn fits_layout(n: usize, frame_length: usize, center: bool) -> (fits: bool)
    ensures
        fits == layout_fits(n as nat, frame_length as nat, center),
{
    let pad = center_pad(frame_length, center);
    n < usize::MAX - 2 * pad
}

/// Zeros added on each side of a signal framed with `frame_length`.
pub fn center_pad(frame_length: usize, center: bool) -> (pad: usize)
    ensures
        pad == spec_center_pad(frame_length as nat, center),
{
    if center {
        frame_length / 2
    } else {
        0
    }
}

/// Number of frames of a signal of `n` samples.
pub fn frame_count(n: usize, frame_length: usize, hop_length: usize, center: bool) -> (count: usize)
    requires
        layout_fits(n as nat, frame_length as nat, center),
    ensures
        count == spec_frame_count(n as nat, frame_length as nat, hop_length as nat, center),
{
    let pad = center_pad(frame_length, center);
    let padded_len = n + 2 * pad;
    if hop_length == 0 || padded_len < frame_length {
        return 0;
    }
    proof {
        vstd::arithmetic::div_mod::lemma_div_is_ordered_by_denominator(
            (padded_len - frame_length) as int,
            1,
            hop_length as int,
        );
    }
    1 + (padded_len - frame_length) / hop_length
}

/// The signal with `pad` copies of `zero` on each side.
pub fn pad_signal<T: Copy>(y: &[T], pad: usize, zero: T) -> (padded: Vec<T>)
    requires
        y@.len() + 2 * pad <= usize::MAX,
    ensures
        padded@ == spec_padded(y@, pad as nat, zero),
{
    let mut padded: Vec<T> = Vec::new();
    let mut i: usize = 0;
    while i < pad
        invariant
            i <= pad,
            padded@ == zeros(i as nat, zero),
        decreases pad - i,
    {
        padded.push(zero);
        i = i + 1;
        assert(padded@ =~= zeros(i as nat, zero));
    }
    let mut j: usize = 0;
    while j < y.len()
        invariant
            j <= y@.len(),
            padded@ == zeros(pad as nat, zero) + y@.subrange(0, j as int),
        decreases y@.len() - j,
    {
        padded.push(y[j]);
        j = j + 1;
        assert(padded@ =~= zeros(pad as nat, zero) + y@.subrange(0, j as int));
    }
    assert(y@.subrange(0, y@.len() as int) =~= y@);
    let mut k: usize = 0;
    while k < pad
        invariant
            k <= pad,
            padded@ == zeros(pad as nat, zero) + y@ + zeros(k as nat, zero),
        decreases pad - k,
    {
        padded.push(zero);
        k = k + 1;
        assert(padded@ =~= zeros(pad as nat, zero) + y@ + zeros(k as nat, zero));
    }
    padded
}

/// A frame that starts before the end of the frame grid ends inside the
/// padded signal.
pub proof fn lemma_frame_in_bounds(f: nat, hop_length: nat, padded_len: nat, frame_length: nat)
    requires
        hop_length > 0,
        frame_length <= padded_len,
        f < 1 + ((padded_len - frame_length) as nat) / hop_length,
    ensures
        f * hop_length + frame_length <= padded_len,
{
    let d: int = padded_len - frame_length;
    let q: int = d / hop_length as int;
    assert(f <= q);
    vstd::arithmetic::mul::lemma_mul_inequality(f as int, q, hop_length as int);
    vstd::arithmetic::div_mod::lemma_fundamental_div_mod(d, hop_length as int);
    vstd::arithmetic::mul::lemma_mul_is_commutative(q, hop_length as int);
    assert(d % (hop_length as int) >= 0) by {
        vstd::arithmetic::div_mod::lemma_mod_bound(d, hop_length as int);
    }
}

/// Copies `frame_length` samples of `buf` starting at `start`.
fn copy_frame<T: Copy>(buf: &Vec<T>, start: usize, frame_length: usize) -> (frame: Vec<T>)
    requires
        start + frame_length <= buf@.len(),
    ensures
        frame@ == buf@.subrange(start as int, start + frame_length),
{
    let len = buf.len();
    let mut frame: Vec<T> = Vec::new();
    let mut k: usize = 0;
    while k < frame_length
        invariant
            k <= frame_length,
            len == buf@.len(),
            start + frame_length <= buf@.len(),
            frame@ == buf@.subrange(start as int, start + k),
        decreases frame_length - k,
    {
        frame.push(buf[start + k]);
        k = k + 1;
        assert(frame@ =~= buf@.subrange(start as int, start + k));
    }
    frame
}

/// Cuts the (optionally centre-padded) signal into frames of
/// `frame_length` samples every `hop_length` samples.
///
/// Frame `f` holds samples `f * hop_length .. f * hop_length + frame_length`
/// of the padded signal; there are `1 + (padded_len - frame_length) /
/// hop_length` frames, or none when `hop_length` is zero or the padded
/// signal is shorter than one frame.
pub fn frame_signal<T: Copy>(
    y: &[T],
    frame_length: usize,
    hop_length: usize,
    center: bool,
    zero: T,
) -> (frames: Vec<Vec<T>>)
    requires
        layout_fits(y@.len(), frame_length as nat, center),
    ensures
        frames@.len() == spec_frame_count(y@.len(), frame_length as nat, hop_length as nat, center),
        forall|f: int|
            0 <= f < frames@.len() ==> #[trigger] frames@[f]@ == spec_frame(
                y@,
                frame_length as nat,
                hop_length as nat,
                center,
                zero,
                f as nat,
            ),
{
    let count = frame_count(y.len(), frame_length, hop_length, center);
    let pad = center_pad(frame_length, center);
    let buf = pad_signal(y, pad, zero);
    let ghost padded_len = buf@.len();
    let mut frames: Vec<Vec<T>> = Vec::new();
    let mut f: usize = 0;
    while f < count
        invariant
            f <= count,
            count == spec_frame_count(y@.len(), frame_length as nat, hop_length as nat, center),
            pad == spec_center_pad(frame_length as nat, center),
            buf@ == spec_padded(y@, pad as nat, zero),
            padded_len == buf@.len(),
            layout_fits(y@.len(), frame_length as nat, center),
            padded_len == spec_padded_len(y@.len(), frame_length as nat, center),
            frames@.len() == f,
            forall|g: int|
                0 <= g < f ==> #[trigger] frames@[g]@ == spec_frame(
                    y@,
                    frame_length as nat,
                    hop_length as nat,
                    center,
                    zero,
                    g as nat,
                ),
        decreases count - f,
    {
        proof {
            lemma_frame_in_bounds(f as nat, hop_length as nat, padded_len, frame_length as nat);
        }
        let start = f * hop_length;
        let frame = copy_frame(&buf, start, frame_length);
        frames.push(frame);
        f = f + 1;
    }
    frames
}

/// Every frame has `frame_length` samples, and sample `k` of frame `f` is
/// sample `f * hop_length + k - pad` of the original signal (`pad` being
/// `frame_length / 2` when centring, else 0) where that index lies inside
/// it, and zero elsewhere.
pub proof fn lemma_frame_sample<T>(
    y: Seq<T>,
    frame_length: nat,
    hop_length: nat,
    center: bool,
    zero: T,
    f: nat,
    k: nat,
)
    requires
        f < spec_frame_count(y.len(), frame_length, hop_length, center),
        k < frame_length,
    ensures
        spec_frame(y, frame_length, hop_length, center, zero, f).len() == frame_length,
        ({
            let pad = if center {
                frame_length / 2
            } else {
                0
            };
            let p = f * hop_length + k;
            spec_frame(y, frame_length, hop_length, center, zero, f)[k as int] == if pad <= p
                < pad + y.len() {
                y[p - pad]
            } else {
                zero
            }
        }),
{
    let pad = spec_center_pad(frame_length, center);
    let padded_len = spec_padded_len(y.len(), frame_length, center);
    lemma_frame_in_bounds(f, hop_length, padded_len, frame_length);
    assert(spec_padded(y, pad, zero).len() == padded_len);
}

/// Consecutive frames are views of one signal `hop_length` samples apart:
/// sample `k` of frame `f + 1` is sample `k + hop_length` of frame `f`.
pub proof fn lemma_frames_overlap<T>(
    y: Seq<T>,
    frame_length: nat,
    hop_length: nat,
    center: bool,
    zero: T,
    f: nat,
    k: nat,
)
    requires
        f + 1 < spec_frame_count(y.len(), frame_length, hop_length, center),
        k + hop_length < frame_length,
    ensures
        spec_frame(y, frame_length, hop_length, center, zero, f + 1)[k as int] == spec_frame(
            y,
            frame_length,
            hop_length,
            center,
            zero,
            f,
        )[(k + hop_length) as int],
{
    let padded_len = spec_padded_len(y.len(), frame_length, center);
    lemma_frame_in_bounds(f + 1, hop_length, padded_len, frame_length);
    assert((f + 1) * hop_length == f * hop_length + hop_length) by (nonlinear_arith);
}

/// With centring and an even frame length there are `1 + n / hop_length`
/// frames, the frame count librosa documents for `center=True`.
pub proof fn lemma_centered_frame_count(n: nat, frame_length: nat, hop_length: nat)
    requires
        hop_length > 0,
        frame_length % 2 == 0,
    ensures
        spec_frame_count(n, frame_length, hop_length, true) == 1 + n / hop_length,
{
}

/// With centring, frame `t` is centred on sample `t * hop_length` of the
/// original signal: its middle sample (index `frame_length / 2`) is that
/// sample.
pub proof fn lemma_centered_frame_midpoint<T>(
    y: Seq<T>,
    frame_length: nat,
    hop_length: nat,
    zero: T,
    t: nat,
)
    requires
        hop_length > 0,
        frame_length > 0,
        t * hop_length < y.len(),
    ensures
        spec_frame(y, frame_length, hop_length, true, zero, t)[(frame_length / 2) as int] == y[(t
            * hop_length) as int],
{
    lemma_frame_on_grid(
        t,
        hop_length,
        spec_padded_len(y.len(), frame_length, true),
        frame_length,
    );
    lemma_frame_sample(y, frame_length, hop_length, true, zero, t, frame_length / 2);
}

/// Without centring, framing a suffix of the signal that starts on the frame
/// grid (at `a * hop_length`) gives the frames of the whole signal from frame
/// `a` on: as many as the whole has past `a`, and frame `f` of the suffix is
/// frame `a + f` of the whole. Chunks cut on hop boundaries thus reproduce
/// the whole signal's frames.
pub proof fn lemma_hop_aligned_suffix<T>(
    y: Seq<T>,
    frame_length: nat,
    hop_length: nat,
    zero: T,
    a: nat,
)
    requires
        hop_length > 0,
        a * hop_length <= y.len(),
    ensures
        ({
            let z = y.subrange((a * hop_length) as int, y.len() as int);
            let whole = spec_frame_count(y.len(), frame_length, hop_length, false);
            &&& spec_frame_count(z.len(), frame_length, hop_length, false) == if whole > a {
                whole - a
            } else {
                0
            }
            &&& forall|f: nat|
                f < spec_frame_count(z.len(), frame_length, hop_length, false) ==> #[trigger] spec_frame(
                    z,
                    frame_length,
                    hop_length,
                    false,
                    zero,
                    f,
                ) == spec_frame(y, frame_length, hop_length, false, zero, a + f)
        }),
{
    let n = y.len() as int;
    let h = hop_length as int;
    let fl = frame_length as int;
    let ah = (a * hop_length) as int;
    let z = y.subrange(ah, n);
    assert(spec_padded(z, 0, zero) =~= z);
    assert(spec_padded(y, 0, zero) =~= y);
    if n - ah >= fl {
        let x = n - ah - fl;
        vstd::arithmetic::div_mod::lemma_hoist_over_denominator(x, a as int, hop_length);
        assert(x + (a as int) * h == n - fl);
    } else if n >= fl {
        assert(a >= 1);
        assert(n - fl <= a * hop_length - 1);
        vstd::arithmetic::div_mod::lemma_div_is_ordered(n - fl, ah - 1, h);
        vstd::arithmetic::div_mod::lemma_div_multiples_vanish_fancy(a - 1, h - 1, h);
        assert(h * (a - 1) + (h - 1) == ah - 1) by (nonlinear_arith)
            requires
                ah == a * h,
        ;
    }
    assert forall|f: nat|
        f < spec_frame_count(z.len(), frame_length, hop_length, false) implies #[trigger] spec_frame(
            z,
            frame_length,
            hop_length,
            false,
            zero,
            f,
        ) == spec_frame(y, frame_length, hop_length, false, zero, a + f) by {
        lemma_frame_in_bounds(f, hop_length, z.len(), frame_length);
        assert((a + f) * hop_length == a * hop_length + f * hop_length) by (nonlinear_arith);
        assert(z.subrange((f * hop_length) as int, (f * hop_length + frame_length) as int)
            =~= y.subrange(((a + f) * hop_length) as int, ((a + f) * hop_length + frame_length) as int));
    }
}

/// With centring, frame `t` reads only the samples within `frame_length / 2`
/// of sample `t * hop_length` (its halo): two signals of the same length that
/// agree there have the same frame `t`.
pub proof fn lemma_frame_halo<T>(
    y: Seq<T>,
    z: Seq<T>,
    frame_length: nat,
    hop_length: nat,
    zero: T,
    t: nat,
)
    requires
        y.len() == z.len(),
        t < spec_frame_count(y.len(), frame_length, hop_length, true),
        forall|s: int|
            0 <= s < y.len() && t * hop_length - frame_length / 2 <= s < t * hop_length
                - frame_length / 2 + frame_length ==> #[trigger] y[s] == z[s],
    ensures
        spec_frame(y, frame_length, hop_length, true, zero, t) == spec_frame(
            z,
            frame_length,
            hop_length,
            true,
            zero,
            t,
        ),
{
    let padded_len = spec_padded_len(y.len(), frame_length, true);
    lemma_frame_in_bounds(t, hop_length, padded_len, frame_length);
    let fy = spec_frame(y, frame_length, hop_length, true, zero, t);
    let fz = spec_frame(z, frame_length, hop_length, true, zero, t);
    assert forall|k: int| 0 <= k < frame_length implies fy[k] == fz[k] by {
        lemma_frame_sample(y, frame_length, hop_length, true, zero, t, k as nat);
        lemma_frame_sample(z, frame_length, hop_length, true, zero, t, k as nat);
    }
    assert(fy =~= fz);
}

/// A frame that ends inside the padded signal is on the frame grid: its
/// index is below the frame count.
pub proof fn lemma_frame_on_grid(k: nat, hop_length: nat, padded_len: nat, frame_length: nat)
    requires
        hop_length > 0,
        k * hop_length + frame_length <= padded_len,
    ensures
        k < 1 + ((padded_len - frame_length) as nat) / hop_length,
{
    let h = hop_length as int;
    let d = padded_len - frame_length;
    vstd::arithmetic::div_mod::lemma_div_is_ordered((k * hop_length) as int, d, h);
    vstd::arithmetic::div_mod::lemma_div_multiples_vanish(k as int, h);
    vstd::arithmetic::mul::lemma_mul_is_commutative(k as int, h);
}

/// Centred framing can be split into chunks: take the padded signal from a
/// point `a * hop_length` on the frame grid up to any end `b` (in signal
/// samples, a stretch of the signal together with a halo of
/// `frame_length / 2` samples, zeros past the signal's ends, on each side)
/// and frame it without centring. Every frame of that chunk is the whole
/// signal's centred frame `a + f`.
pub proof fn lemma_centered_chunk_frames<T>(
    y: Seq<T>,
    frame_length: nat,
    hop_length: nat,
    zero: T,
    a: nat,
    b: nat,
)
    requires
        hop_length > 0,
        a * hop_length <= b <= spec_padded_len(y.len(), frame_length, true),
    ensures
        ({
            let x = spec_padded(y, spec_center_pad(frame_length, true), zero).subrange(
                (a * hop_length) as int,
                b as int,
            );
            forall|f: nat|
                f < spec_frame_count(x.len(), frame_length, hop_length, false) ==> #[trigger] spec_frame(
                    x,
                    frame_length,
                    hop_length,
                    false,
                    zero,
                    f,
                ) == spec_frame(y, frame_length, hop_length, true, zero, a + f) && a + f
                    < spec_frame_count(y.len(), frame_length, hop_length, true)
        }),
{
    let pad = spec_center_pad(frame_length, true);
    let p = spec_padded(y, pad, zero);
    let padded_len = spec_padded_len(y.len(), frame_length, true);
    assert(p.len() == padded_len);
    let x = p.subrange((a * hop_length) as int, b as int);
    assert(spec_padded(x, 0, zero) =~= x);
    assert forall|f: nat|
        f < spec_frame_count(x.len(), frame_length, hop_length, false) implies #[trigger] spec_frame(
            x,
            frame_length,
            hop_length,
            false,
            zero,
            f,
        ) == spec_frame(y, frame_length, hop_length, true, zero, a + f) && a + f < spec_frame_count(
            y.len(),
            frame_length,
            hop_length,
            true,
        ) by {
        lemma_frame_in_bounds(f, hop_length, x.len(), frame_length);
        assert((a + f) * hop_length == a * hop_length + f * hop_length) by (nonlinear_arith);
        lemma_frame_on_grid(a + f, hop_length, padded_len, frame_length);
        assert(x.subrange((f * hop_length) as int, (f * hop_length + frame_length) as int)
            =~= p.subrange(((a + f) * hop_length) as int, ((a + f) * hop_length + frame_length) as int));
    }
}

/// A signal can be framed exactly when its padded length, `n` plus
/// `frame_length / 2` zeros on each side when centring, stays below the
/// largest index: no signal whose padded length fits is refused.
pub proof fn lemma_layout_fits_exactly(n: nat, frame_length: nat, center: bool)
    ensures
        layout_fits(n, frame_length, center) <==> n + 2 * (if center {
            frame_length / 2
        } else {
            0
        }) < usize::MAX,
{
}

/// The frame count counts exactly the frames that fit: with a nonzero hop,
/// `f` is a frame index if and only if the `frame_length` samples from
/// `f * hop_length` lie inside the padded signal (`n` plus
/// `frame_length / 2` zeros on each side when centring). With a zero hop
/// there are no frames.
pub proof fn lemma_frame_count_counts_fitting_frames(
    n: nat,
    frame_length: nat,
    hop_length: nat,
    center: bool,
    f: nat,
)
    ensures
        hop_length == 0 ==> spec_frame_count(n, frame_length, hop_length, center) == 0,
        hop_length > 0 ==> (f < spec_frame_count(n, frame_length, hop_length, center) <==> f
            * hop_length + frame_length <= n + 2 * (if center {
            frame_length / 2
        } else {
            0
        })),
{
    let padded_len = n + 2 * (if center {
        frame_length / 2
    } else {
        0nat
    });
    if hop_length > 0 {
        if f < spec_frame_count(n, frame_length, hop_length, center) {
            lemma_frame_in_bounds(f, hop_length, padded_len, frame_length);
        }
        if f * hop_length + frame_length <= padded_len {
            lemma_frame_on_grid(f, hop_length, padded_len, frame_length);
        }
    }
}

/// Padding puts `pad` zeros before and after the signal: the result has
/// `n + 2 * pad` samples, sample `j` is `y[j - pad]` for `pad <= j < pad + n`
/// and `zero` elsewhere.
pub proof fn lemma_padded_layout<T>(y: Seq<T>, pad: nat, zero: T)
    ensures
        spec_padded(y, pad, zero).len() == y.len() + 2 * pad,
        forall|j: int|
            0 <= j < y.len() + 2 * pad ==> #[trigger] spec_padded(y, pad, zero)[j] == if pad <= j
                < pad + y.len() {
                y[j - pad]
            } else {
                zero
            },
{
}

} // verus!
