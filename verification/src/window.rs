//! Window extraction: which samples of the track belong to the frame at the
//! playback cursor.
//!
//! Times are whole nanoseconds, so that the sample positions are exact.

use vstd::prelude::*;
use crate::error::AnalysisError;
use crate::pacer::NANOS_PER_SECOND;

verus! {

/// A range of sample positions, `start` included and `end` excluded.
#[derive(Clone, Copy, Debug, PartialEq, Eq, Structural)]
pub struct Window {
    pub start: usize,
    pub end: usize,
}

/// The quotient of `a` by `b`, rounded up.
pub open spec fn ceil_div(a: nat, b: nat) -> nat
    recommends
        b > 0,
{
    ((a + b - 1) / b as int) as nat
}

/// The position of the last sample that starts at or before `time`
/// nanoseconds, at `rate` samples per second: `time * rate` seconds
/// rounded down.
pub open spec fn sample_floor(time: nat, rate: nat) -> nat {
    time * rate / NANOS_PER_SECOND as nat
}

/// The position of the first sample that starts at or after `time`
/// nanoseconds, at `rate` samples per second: `time * rate` seconds
/// rounded up.
pub open spec fn sample_ceil(time: nat, rate: nat) -> nat {
    ceil_div(time * rate, NANOS_PER_SECOND as nat)
}

/// Where the window at `cursor` starts in a buffer of `buffer_len` samples
/// that is played in a loop.
pub open spec fn start_index(buffer_len: nat, cursor: nat, rate: nat) -> nat
    recommends
        buffer_len > 0,
{
    sample_floor(cursor, rate) % buffer_len
}

/// Where the window of length `slice` at `cursor` ends in a buffer of
/// `buffer_len` samples that is played in a loop.
pub open spec fn end_index(buffer_len: nat, cursor: nat, rate: nat, slice: nat) -> nat
    recommends
        buffer_len > 0,
{
    sample_ceil(cursor + slice, rate) % buffer_len
}

/// The window of length `slice` at `cursor`, or `None` where it would run
/// over the end of the buffer.
pub open spec fn window_at(buffer_len: nat, cursor: nat, rate: nat, slice: nat) -> Option<Window> {
    let start = start_index(buffer_len, cursor, rate);
    let end = end_index(buffer_len, cursor, rate, slice);
    if start < end {
        Some(Window { start: start as usize, end: end as usize })
    } else {
        None
    }
}

/// `ceil_div(a, b)` is the least number of `b`s that make up `a`.
pub proof fn lemma_ceil_div(a: nat, b: nat)
    requires
        b > 0,
    ensures
        ceil_div(a, b) * b >= a,
        a > 0 ==> (ceil_div(a, b) - 1) * b < a,
        a == 0 ==> ceil_div(a, b) == 0,
        a / b <= ceil_div(a, b) <= a / b + 1,
        a % b == 0 ==> ceil_div(a, b) == a / b,
{
    let q = ((a + b - 1) / b as int);
    assert(q * b <= a + b - 1 < (q + 1) * b && q >= 0) by (nonlinear_arith)
        requires
            q == (a + b - 1) / b as int,
            b > 0,
            a >= 0,
    ;
    let f = a / b;
    assert(f * b <= a < (f + 1) * b && a == f * b + a % b) by (nonlinear_arith)
        requires
            f == a / b,
            b > 0,
    ;
    assert((q - 1) * b == q * b - b && (q + 1) * b == q * b + b && (f + 1) * b == f * b + b)
        by (nonlinear_arith);
    assert(f <= q <= f + 1) by (nonlinear_arith)
        requires
            q * b <= a + b - 1 < q * b + b,
            f * b <= a < f * b + b,
            b > 0,
    ;
    if a % b == 0 && q == f + 1 {
        assert(false) by (nonlinear_arith)
            requires
                a == f * b,
                q == f + 1,
                q * b <= a + b - 1,
                b > 0,
        ;
    }
    if a == 0 && q != 0 {
        assert(false) by (nonlinear_arith)
            requires
                q * b <= b - 1,
                q >= 1,
                b > 0,
        ;
    }
}

/// Finds the window of `slice` nanoseconds that starts at `cursor`
/// nanoseconds in a buffer of `buffer_len` samples at `sample_rate` samples
/// per second.
///
/// The window runs from the sample at the cursor, rounded down, to the
/// sample at the end of the slice, rounded up, both taken modulo the
/// buffer's length. Where that leaves no sample between them, the window
/// has run over the end of the buffer and there is no data for this frame:
/// the result is `Ok(None)`. A slice of zero length is no window at all and
/// is rejected.
pub fn extract(buffer_len: usize, cursor: u64, sample_rate: u32, slice: u64) -> (result: Result<
    Option<Window>,
    AnalysisError,
>)
    requires
        buffer_len > 0,
    ensures
        slice == 0 <==> result == Err::<Option<Window>, AnalysisError>(AnalysisError::InvalidInput),
        slice > 0 <==> result == Ok::<Option<Window>, AnalysisError>(
            window_at(buffer_len as nat, cursor as nat, sample_rate as nat, slice as nat),
        ),
        end_index(buffer_len as nat, cursor as nat, sample_rate as nat, slice as nat)
            <= start_index(buffer_len as nat, cursor as nat, sample_rate as nat) ==> !(result
            matches Ok(Some(_))),
        result matches Ok(Some(window)) ==> window.start < window.end < buffer_len,
{
    if slice == 0 {
        return Err(AnalysisError::InvalidInput);
    }
    let nanos: u128 = NANOS_PER_SECOND as u128;
    let rate: u128 = sample_rate as u128;
    let len: u128 = buffer_len as u128;
    assert(cursor as u128 * rate <= 0xffff_ffff_ffff_ffff * 0xffff_ffff) by (nonlinear_arith)
        requires
            cursor <= 0xffff_ffff_ffff_ffff,
            rate <= 0xffff_ffff,
    ;
    let first: u128 = cursor as u128 * rate / nanos;
    let until: u128 = cursor as u128 + slice as u128;
    assert(until * rate <= 0x1_ffff_ffff_ffff_fffe * 0xffff_ffff) by (nonlinear_arith)
        requires
            until <= 0x1_ffff_ffff_ffff_fffe,
            rate <= 0xffff_ffff,
    ;
    let last: u128 = (until * rate + (nanos - 1)) / nanos;
    let start: usize = (first % len) as usize;
    let end: usize = (last % len) as usize;
    if start < end {
        Ok(Some(Window { start, end }))
    } else {
        Ok(None)
    }
}

/// Whether `samples` are the frames of `window`, in order, each turned
/// into a sample by `mix`.
pub open spec fn is_downmix<S, T, M: Fn(&S) -> T>(
    mix: M,
    frames: Seq<S>,
    window: Window,
    samples: Seq<T>,
) -> bool {
    &&& samples.len() == window.end - window.start
    &&& forall|i: int|
        0 <= i < samples.len() ==> call_ensures(
            mix,
            (&frames[window.start + i],),
            #[trigger] samples[i],
        )
}

/// Whether `mix` may be called on each frame of `window`.
pub open spec fn mixes<S, T, M: Fn(&S) -> T>(mix: M, frames: Seq<S>, window: Window) -> bool {
    forall|i: int| window.start <= i < window.end ==> call_requires(mix, (&#[trigger] frames[i],))
}

/// Copies the frames of `window` out of `frames`, each turned into a sample
/// by `mix`: for a stereo frame, the mean of its two channels.
pub fn downmix<S, T, M: Fn(&S) -> T>(frames: &Vec<S>, window: Window, mix: &M) -> (samples: Vec<T>)
    requires
        window.start <= window.end <= frames.len(),
        mixes(*mix, frames@, window),
    ensures
        is_downmix(*mix, frames@, window, samples@),
{
    let mut samples: Vec<T> = Vec::new();
    let mut at: usize = window.start;
    while at < window.end
        invariant
            window.start <= at <= window.end <= frames.len(),
            mixes(*mix, frames@, window),
            is_downmix(*mix, frames@, Window { start: window.start, end: at }, samples@),
        decreases window.end - at,
    {
        let sample = mix(&frames[at]);
        samples.push(sample);
        at += 1;
    }
    samples
}

} // verus!
