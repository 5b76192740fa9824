//! The latent that the flow starts from: its size, its mask, and the part of the
//! noise that is blanked out.

use vstd::prelude::*;

use crate::numbers::{
    larger, larger_of, lemma_parts, lemma_parts_grow, parts, parts_of, smaller, smaller_of,
    to_word, word,
};
use crate::text::indexer::{make_mask_row, mask_row};

verus! {

/// The size of a latent: for each row of the batch, `channels` channels of `len`
/// frames, of which the first `row_lens[b]` are of the utterance.
#[derive(Debug)]
pub struct LatentPlan {
    pub channels: usize,
    pub len: usize,
    pub row_lens: Vec<usize>,
}

/// Samples that one frame of the latent stands for.
pub open spec fn chunk_size(base_chunk_size: int, chunk_compress: int) -> int {
    word(base_chunk_size * chunk_compress)
}

/// Frames of a latent for `wav_len_max` samples: enough to hold them, at least one.
pub open spec fn latent_len(wav_len_max: int, chunk: int) -> int {
    larger(parts(wav_len_max, chunk), 1)
}

/// Frames of a row of `wav_len` samples in a latent of `len` frames.
pub open spec fn row_len(wav_len: int, chunk: int, len: int) -> int {
    smaller(parts(wav_len, chunk), len)
}

/// Where a value of the noise stands.
pub open spec fn noise_index(b: int, c: int, t: int, channels: int, len: int) -> int {
    b * channels * len + c * len + t
}

impl LatentPlan {
    /// The number of values of the latent.
    pub open spec fn size(self) -> int {
        self.row_lens@.len() * self.channels * self.len
    }

    /// Whether no row is longer than the latent.
    pub open spec fn wf(self) -> bool {
        forall|b: int| 0 <= b < self.row_lens@.len() ==> #[trigger] self.row_lens@[b] <= self.len
    }

    /// The number of values of the latent, where a machine word can hold it.
    pub fn noise_len(&self) -> (r: Option<usize>)
        ensures
            match r {
                Some(n) => n == self.size(),
                None => self.size() > usize::MAX,
            },
    {
        let rows: usize = self.row_lens.len();
        match rows.checked_mul(self.channels) {
            Some(n) => n.checked_mul(self.len),
            None => {
                if self.len == 0 {
                    assert(self.size() == 0) by (nonlinear_arith)
                        requires
                            self.len == 0,
                            self.size() == rows * self.channels * self.len,
                    ;
                    Some(0)
                } else {
                    assert(self.size() > usize::MAX) by (nonlinear_arith)
                        requires
                            self.len >= 1,
                            self.size() == rows * self.channels * self.len,
                            rows * self.channels > usize::MAX,
                    ;
                    None
                }
            },
        }
    }

    /// The mask of the latent: for each row, which frames are of the utterance.
    pub fn mask(&self) -> (r: Vec<Vec<bool>>)
        ensures
            r@.len() == self.row_lens@.len(),
            forall|b: int|
                0 <= b < r@.len() ==> (#[trigger] r@[b])@ == mask_row(
                    self.row_lens@[b] as int,
                    self.len as int,
                ),
    {
        let mut out: Vec<Vec<bool>> = Vec::new();
        for b in 0..self.row_lens.len()
            invariant
                out@.len() == b,
                forall|k: int|
                    0 <= k < b ==> (#[trigger] out@[k])@ == mask_row(
                        self.row_lens@[k] as int,
                        self.len as int,
                    ),
        {
            out.push(make_mask_row(self.row_lens[b], self.len));
        }
        out
    }

    /// Whether `after` is `before` with `blank` in every frame past the end of its
    /// row, for the rows before `rows` and the channels of row `rows` before `chans`.
    pub open spec fn blanked<T>(
        self,
        before: Seq<T>,
        after: Seq<T>,
        blank: T,
        rows: int,
        chans: int,
    ) -> bool {
        &&& after.len() == before.len()
        &&& forall|b: int, c: int, t: int|
            #![trigger noise_index(b, c, t, self.channels as int, self.len as int)]
            0 <= b < self.row_lens@.len() && 0 <= c < self.channels && 0 <= t < self.len ==> {
                let i = noise_index(b, c, t, self.channels as int, self.len as int);
                after[i] == if (b < rows || (b == rows && c < chans)) && t >= self.row_lens@[b] {
                    blank
                } else {
                    before[i]
                }
            }
    }

    /// Blanks out the noise past the end of each row, in every channel.
    pub fn blank_padding<T: Copy>(&self, noise: &mut Vec<T>, blank: T)
        requires
            self.wf(),
            old(noise)@.len() == self.size(),
        ensures
            self.blanked(
                old(noise)@,
                final(noise)@,
                blank,
                self.row_lens@.len() as int,
                0,
            ),
    {
        let ghost before = noise@;
        let channels: usize = self.channels;
        let len: usize = self.len;
        let total: usize = noise.len();
        let mut start: usize = 0;
        assert(0 * channels * len == 0) by (nonlinear_arith);
        for b in 0..self.row_lens.len()
            invariant
                self.wf(),
                channels == self.channels,
                len == self.len,
                before.len() == self.size() == total,
                self.blanked(before, noise@, blank, b as int, 0),
                start == b * channels * len,
        {
            let kept: usize = self.row_lens[b];
            assert(b * channels * len + 0 * len == b * channels * len);
            for c in 0..channels
                invariant
                    self.wf(),
                    channels == self.channels,
                    len == self.len,
                    before.len() == self.size() == total,
                    b < self.row_lens@.len(),
                    kept == self.row_lens@[b as int],
                    self.blanked(before, noise@, blank, b as int, c as int),
                    start == b * channels * len + c * len,
            {
                proof {
                    lemma_noise_fits(*self, b as int, c as int);
                }
                let ghost base = noise@;
                for t in kept..len
                    invariant
                        kept <= len,
                        start + len <= noise@.len() == total,
                        noise@.len() == base.len(),
                        forall|i: int|
                            0 <= i < base.len() ==> #[trigger] noise@[i] == if start + kept <= i
                                < start + t {
                                blank
                            } else {
                                base[i]
                            },
                {
                    noise.set(start + t, blank);
                }
                proof {
                    assert forall|b2: int, c2: int, t2: int|
                        #![trigger noise_index(b2, c2, t2, channels as int, len as int)]
                        0 <= b2 < self.row_lens@.len() && 0 <= c2 < channels && 0 <= t2 < len
                            implies noise@[noise_index(b2, c2, t2, channels as int, len as int)]
                        == if (b2 < b || (b2 == b && c2 < c + 1)) && t2 >= self.row_lens@[b2] {
                        blank
                    } else {
                        before[noise_index(b2, c2, t2, channels as int, len as int)]
                    } by {
                        let i = noise_index(b2, c2, t2, channels as int, len as int);
                        lemma_noise_fits(*self, b2, c2);
                        lemma_noise_apart(*self, b as int, c as int, b2, c2);
                        assert(noise@[i] == if start + kept <= i < start + len {
                            blank
                        } else {
                            base[i]
                        });
                    }
                    assert((c + 1) * len == c * len + len) by (nonlinear_arith);
                }
                start = start + len;
            }
            proof {
                assert(b * channels * len + channels * len == (b + 1) * channels * len)
                    by (nonlinear_arith);
                assert(self.blanked(before, noise@, blank, b + 1, 0));
            }
        }
    }
}

/// Each channel of each row lies within the noise.
proof fn lemma_noise_fits(p: LatentPlan, b: int, c: int)
    requires
        0 <= b < p.row_lens@.len(),
        0 <= c < p.channels,
    ensures
        0 <= noise_index(b, c, 0, p.channels as int, p.len as int),
        noise_index(b, c, 0, p.channels as int, p.len as int) + p.len <= p.size(),
{
    let ch = p.channels as int;
    let n = p.len as int;
    let rows = p.row_lens@.len() as int;
    assert(0 <= b * ch * n + c * n && b * ch * n + c * n + n <= rows * ch * n) by (nonlinear_arith)
        requires
            0 <= b < rows,
            0 <= c < ch,
            0 <= n,
    {
        assert(b * ch * n + c * n + n == (b * ch + c + 1) * n);
        assert(b * ch + c + 1 <= rows * ch);
        assert((b * ch + c + 1) * n <= (rows * ch) * n);
        assert(0 <= b * ch);
        assert(0 <= (b * ch) * n);
    }
}

/// Different channels do not overlap.
proof fn lemma_noise_apart(p: LatentPlan, b: int, c: int, b2: int, c2: int)
    requires
        0 <= b,
        0 <= c < p.channels,
        0 <= b2,
        0 <= c2 < p.channels,
    ensures
        ({
            let i = noise_index(b, c, 0, p.channels as int, p.len as int);
            let j = noise_index(b2, c2, 0, p.channels as int, p.len as int);
            (b, c) != (b2, c2) ==> i + p.len <= j || j + p.len <= i
        }),
{
    let ch = p.channels as int;
    let n = p.len as int;
    let x = b * ch + c;
    let y = b2 * ch + c2;
    assert(b * ch * n + c * n == x * n) by (nonlinear_arith)
        requires
            x == b * ch + c,
    ;
    assert(b2 * ch * n + c2 * n == y * n) by (nonlinear_arith)
        requires
            y == b2 * ch + c2,
    ;
    if (b, c) != (b2, c2) {
        assert(x != y) by (nonlinear_arith)
            requires
                x == b * ch + c,
                y == b2 * ch + c2,
                0 <= c < ch,
                0 <= c2 < ch,
                b != b2 || c != c2,
        ;
        assert(x < y ==> x * n + n <= y * n) by (nonlinear_arith)
            requires
                n >= 0,
        ;
        assert(y < x ==> y * n + n <= x * n) by (nonlinear_arith)
            requires
                n >= 0,
        ;
    }
}

/// The latent of a batch of utterances of `wav_lens` samples, of which the longest
/// is taken to have `wav_len_max`.
pub fn latent_plan(
    wav_lens: &[usize],
    wav_len_max: usize,
    base_chunk_size: i32,
    chunk_compress: i32,
    latent_dim: i32,
) -> (r: LatentPlan)
    requires
        i32::MIN <= base_chunk_size * chunk_compress <= i32::MAX,
        base_chunk_size * chunk_compress != 0,
        i32::MIN <= latent_dim * chunk_compress <= i32::MAX,
    ensures
        r.wf(),
        r.channels == word(latent_dim * chunk_compress),
        r.len == latent_len(
            wav_len_max as int,
            chunk_size(base_chunk_size as int, chunk_compress as int),
        ),
        r.row_lens@.len() == wav_lens@.len(),
        forall|b: int|
            0 <= b < wav_lens@.len() ==> #[trigger] r.row_lens@[b] == row_len(
                wav_lens@[b] as int,
                chunk_size(base_chunk_size as int, chunk_compress as int),
                r.len as int,
            ),
{
    let chunk: usize = to_word(base_chunk_size * chunk_compress);
    let channels: usize = to_word(latent_dim * chunk_compress);
    let len: usize = larger_of(parts_of(wav_len_max, chunk), 1);
    let mut row_lens: Vec<usize> = Vec::new();
    for b in 0..wav_lens.len()
        invariant
            chunk > 0,
            row_lens@.len() == b,
            forall|k: int|
                0 <= k < b ==> #[trigger] row_lens@[k] == row_len(
                    wav_lens@[k] as int,
                    chunk as int,
                    len as int,
                ),
    {
        row_lens.push(smaller_of(parts_of(wav_lens[b], chunk), len));
    }
    LatentPlan { channels, len, row_lens }
}

/// The part of the samples that is heard: the first `audible`, or all where there
/// are fewer.
pub fn audible_part<T>(samples: &[T], audible: usize) -> (r: &[T])
    ensures
        r@ == samples@.take(smaller(audible as int, samples@.len() as int)),
{
    let n: usize = smaller_of(audible, samples.len());
    vstd::slice::slice_subrange(samples, 0, n)
}

/// The latent holds the longest utterance, and with one frame fewer it would not,
/// unless one frame is all it has.
pub proof fn law_latent_holds_utterance(wav_len_max: int, chunk: int)
    requires
        wav_len_max >= 0,
        chunk > 0,
    ensures
        latent_len(wav_len_max, chunk) >= 1,
        latent_len(wav_len_max, chunk) * chunk >= wav_len_max,
        latent_len(wav_len_max, chunk) == 1 || (latent_len(wav_len_max, chunk) - 1) * chunk
            < wav_len_max,
{
    lemma_parts(wav_len_max, chunk);
    assert(1 * chunk == chunk);
    if parts(wav_len_max, chunk) == 0 {
        assert(wav_len_max == 0);
    }
}

/// The frames of a row hold its utterance, where that is no longer than the longest.
pub proof fn law_row_holds_utterance(wav_len: int, wav_len_max: int, chunk: int)
    requires
        0 <= wav_len <= wav_len_max,
        chunk > 0,
    ensures
        row_len(wav_len, chunk, latent_len(wav_len_max, chunk)) * chunk >= wav_len,
        row_len(wav_len, chunk, latent_len(wav_len_max, chunk)) == parts(wav_len, chunk),
{
    lemma_parts(wav_len, chunk);
    lemma_parts_grow(wav_len, wav_len_max, chunk);
}

/// An utterance on its own fills its latent: no frame is masked and no noise is
/// blanked out, unless the utterance is empty.
pub proof fn law_single_row_unmasked(wav_len: int, chunk: int)
    requires
        wav_len > 0,
        chunk > 0,
    ensures
        row_len(wav_len, chunk, latent_len(wav_len, chunk)) == latent_len(wav_len, chunk),
{
    lemma_parts(wav_len, chunk);
}

/// The noise stands row after row, in a row channel after channel, in a channel frame after
/// frame, with no place left out.
pub proof fn law_noise_in_order(b: int, c: int, t: int, channels: int, len: int)
    ensures
        noise_index(0, 0, 0, channels, len) == 0,
        noise_index(b, c, t + 1, channels, len) == noise_index(b, c, t, channels, len) + 1,
        noise_index(b, c + 1, 0, channels, len) == noise_index(b, c, len - 1, channels, len) + 1,
        noise_index(b + 1, 0, 0, channels, len) == noise_index(
            b,
            channels - 1,
            len - 1,
            channels,
            len,
        ) + 1,
{
    assert((c + 1) * len == c * len + len) by (nonlinear_arith);
    assert((b + 1) * channels * len == b * channels * len + (channels - 1) * len + len)
        by (nonlinear_arith);
    assert(0 * channels * len + 0 * len == 0) by (nonlinear_arith);
}

/// A frame stands for the samples of its packed chunks, and a mask marks the frames of the
/// utterance, which come first.
pub proof fn law_frames(base: int, compress: int, len: int, n: int, t: int)
    requires
        base >= 0,
        compress >= 0,
        0 <= t < n,
    ensures
        chunk_size(base, compress) == base * compress,
        mask_row(len, n).len() == n,
        mask_row(len, n)[t] <==> t < len,
{
    assert(base * compress >= 0) by (nonlinear_arith)
        requires
            base >= 0,
            compress >= 0,
    ;
}

/// Once the padding is blanked out, every frame past the end of its row is blank, in every
/// channel, and all others are as they were.
pub proof fn law_padding_is_blank<T>(
    p: LatentPlan,
    before: Seq<T>,
    after: Seq<T>,
    blank: T,
    b: int,
    c: int,
    t: int,
)
    requires
        p.blanked(before, after, blank, p.row_lens@.len() as int, 0),
        0 <= b < p.row_lens@.len(),
        0 <= c < p.channels,
        0 <= t < p.len,
    ensures
        after.len() == before.len(),
        after[(b * p.channels + c) * p.len + t] == if t >= p.row_lens@[b] {
            blank
        } else {
            before[(b * p.channels + c) * p.len + t]
        },
{
    let i = noise_index(b, c, t, p.channels as int, p.len as int);
    assert(i == (b * p.channels + c) * p.len + t) by (nonlinear_arith)
        requires
            i == b * p.channels * p.len + c * p.len + t,
    ;
}

} // verus!
