//! Sample rates and the format of the audio that is written.

use vstd::prelude::*;

use crate::numbers::{smaller, smaller_of, to_word, word};

verus! {

/// How a buffer is brought from one sample rate to another.
#[derive(Debug, Clone, Copy, PartialEq, Eq, Structural)]
pub enum Resampling {
    /// The buffer stays as it is.
    Keep,
    /// No sample is left.
    Drop,
    /// The given number of samples is interpolated, at evenly spaced positions.
    Interpolate(usize),
}

/// The format of a WAV file of integer samples.
#[derive(Debug, Clone, Copy, PartialEq, Eq, Structural)]
pub struct WavFormat {
    pub channels: u16,
    pub sample_rate: u32,
    pub bits_per_sample: u16,
}

/// The number of samples at `dst_hz` that fill the time of `len` samples at
/// `src_hz`, rounded down.
pub open spec fn resampled_len(len: int, src_hz: int, dst_hz: int) -> int {
    len * word(dst_hz) / word(src_hz)
}

/// How `len` samples are brought from `src_hz` to `dst_hz`.
pub open spec fn resampling(len: int, src_hz: int, dst_hz: int) -> Resampling {
    if len == 0 || src_hz == dst_hz {
        Resampling::Keep
    } else if resampled_len(len, src_hz, dst_hz) == 0 || len < 2 {
        Resampling::Drop
    } else {
        Resampling::Interpolate(resampled_len(len, src_hz, dst_hz) as usize)
    }
}

/// Decides how a buffer of `len` samples is brought from `src_hz` to `dst_hz`.
pub fn resample_plan(len: usize, src_hz: i32, dst_hz: i32) -> (r: Resampling)
    requires
        len == 0 || src_hz == dst_hz || (src_hz != 0 && len * word(dst_hz as int) <= usize::MAX),
    ensures
        r == resampling(len as int, src_hz as int, dst_hz as int),
{
    if len == 0 || src_hz == dst_hz {
        return Resampling::Keep;
    }
    let product: usize = len * to_word(dst_hz);
    let out_len: usize = product / to_word(src_hz);
    if out_len == 0 || len < 2 {
        return Resampling::Drop;
    }
    Resampling::Interpolate(out_len)
}

/// The sample that follows the one at `at`, or the last where none does.
pub fn next_sample(at: usize, len: usize) -> (r: usize)
    requires
        at < len,
    ensures
        r == smaller(at + 1, len - 1),
        r < len,
{
    smaller_of(at + 1, len - 1)
}

/// The format of what is written: one channel of 16-bit samples.
pub fn wav_format(sample_rate: i32) -> (r: WavFormat)
    ensures
        r.channels == 1,
        r.bits_per_sample == 16,
        r.sample_rate == if sample_rate >= 0 {
            sample_rate as int
        } else {
            sample_rate + u32::MAX + 1
        },
{
    let rate: u32 = if sample_rate >= 0 {
        sample_rate as u32
    } else {
        u32::MAX - ((-(sample_rate + 1)) as u32)
    };
    WavFormat { channels: 1, sample_rate: rate, bits_per_sample: 16 }
}

/// Resampling keeps the duration: the new samples fill the time of the old ones, to
/// within one sample.
pub proof fn law_resampling_keeps_time(len: int, src_hz: int, dst_hz: int)
    requires
        len >= 0,
        src_hz > 0,
        dst_hz >= 0,
    ensures
        resampled_len(len, src_hz, dst_hz) * src_hz <= len * dst_hz,
        len * dst_hz < (resampled_len(len, src_hz, dst_hz) + 1) * src_hz,
{
    let a = len * dst_hz;
    assert(a / src_hz * src_hz <= a < (a / src_hz + 1) * src_hz) by (nonlinear_arith)
        requires
            src_hz > 0,
    ;
}

/// Every sample that is interpolated lies within the buffer: position `i` of `n`,
/// scaled to a buffer of `len` samples and rounded down, is an index of it.
pub proof fn law_positions_in_range(i: int, n: int, len: int)
    requires
        0 <= i < n,
        0 < len,
    ensures
        0 <= i * len / n < len,
{
    assert(0 <= i * len / n < len) by (nonlinear_arith)
        requires
            0 <= i < n,
            0 < len,
    ;
}

/// Audio stays as it is where the rate is the same; otherwise it is interpolated to the
/// whole number of samples that fill its time, unless that is none or there is but one
/// sample to go by.
pub proof fn law_resampling(len: int, src_hz: int, dst_hz: int, n: usize)
    requires
        len > 0,
        src_hz > 0,
        dst_hz >= 0,
        n * src_hz <= len * dst_hz < (n + 1) * src_hz,
    ensures
        resampling(len, src_hz, dst_hz) == if src_hz == dst_hz {
            Resampling::Keep
        } else if n == 0 || len == 1 {
            Resampling::Drop
        } else {
            Resampling::Interpolate(n)
        },
{
    let a = len * dst_hz;
    assert(a / src_hz == n) by (nonlinear_arith)
        requires
            n * src_hz <= a < (n + 1) * src_hz,
            src_hz > 0,
    ;
}

} // verus!
