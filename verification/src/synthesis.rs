//! Long-form synthesis: a text is spoken chunk by chunk, with silence between.

use vstd::prelude::*;
use vstd::seq_lib::lemma_flatten_concat;

use crate::model::latent::audible_part;
use crate::numbers::smaller;
use crate::strings::{chars_of, texts, trim, trim_of};
use crate::text::chunk::{chunk_text, chunks};
use crate::text::chunk_laws::{law_chunks_neat, lemma_trim, neat, skeleton};
use crate::text::preprocess::{chunk_limit, chunk_max_for};

verus! {

/// Why a text cannot be spoken.
#[derive(Debug, Clone, Copy, PartialEq, Eq, Structural)]
pub enum SynthesisError {
    /// There is no chunk.
    NoChunks,
}

/// What the next chunk asks for.
#[derive(Debug, Clone, Copy, PartialEq, Eq, Structural)]
pub enum Turn {
    /// The chunk holds nothing to say; a pause stands for it.
    Pause,
    /// The chunk is to be spoken.
    Speak,
    /// There are no more chunks.
    Finished,
}

/// A text under way: samples are of type `T`.
#[derive(Debug)]
pub struct Session<T> {
    /// The chunks of the text.
    pub chunks: Vec<String>,
    /// The chunk that is next.
    pub next: usize,
    /// The silent sample.
    pub silence: T,
    /// Samples of silence between chunks.
    pub gap: usize,
    /// What has been rendered.
    pub output: Vec<T>,
}

/// Silence of `n` samples.
pub open spec fn quiet<T>(silence: T, n: int) -> Seq<T> {
    Seq::new(n as nat, |i: int| silence)
}

/// The chunks that a text is spoken in.
pub open spec fn spoken_chunks(text: Seq<char>, lang: Seq<char>, limit: Option<usize>) -> Seq<
    Seq<char>,
> {
    match limit {
        Some(n) => chunks(text, n as int),
        None => chunks(text, chunk_limit(lang)),
    }
}

/// The piece of audio that is played for chunk `k` of `list`: silence for a blank
/// chunk; otherwise its speech, with silence after it unless it is the last chunk.
pub open spec fn piece_of<T>(
    list: Seq<Seq<char>>,
    k: int,
    speech: Seq<T>,
    silence: T,
    gap: int,
) -> Seq<T> {
    if trim(list[k]).len() == 0 {
        quiet(silence, gap)
    } else if k + 1 < list.len() {
        speech + quiet(silence, gap)
    } else {
        speech
    }
}

/// The audio of the first `n` chunks of `list`, where chunk `k` is spoken as
/// `speech[k]`.
pub open spec fn waveform<T>(
    list: Seq<Seq<char>>,
    speech: Seq<Seq<T>>,
    silence: T,
    gap: int,
    n: int,
) -> Seq<T>
    decreases n,
{
    if n <= 0 {
        seq![]
    } else {
        waveform(list, speech, silence, gap, n - 1) + piece_of(
            list,
            n - 1,
            speech[n - 1],
            silence,
            gap,
        )
    }
}

/// Splits a text into the chunks it is spoken in. A limit on their length that is
/// given takes the place of the one of the language.
pub fn plan_chunks(text: &str, lang: &str, limit: Option<usize>) -> (r: Vec<String>)
    ensures
        texts(r@) == spoken_chunks(text@, lang@, limit),
{
    let max: usize = match limit {
        Some(n) => n,
        None => chunk_max_for(lang),
    };
    chunk_text(text, max)
}

/// Makes silence of `n` samples.
fn make_quiet<T: Copy>(silence: T, n: usize) -> (r: Vec<T>)
    ensures
        r@ == quiet(silence, n as int),
{
    let mut out: Vec<T> = Vec::new();
    for i in 0..n
        invariant
            out@ == quiet(silence, i as int),
    {
        out.push(silence);
        assert(out@ == quiet(silence, i + 1));
    }
    out
}

/// Copies samples.
fn copied<T: Copy>(samples: &[T]) -> (r: Vec<T>)
    ensures
        r@ == samples@,
{
    let mut out: Vec<T> = Vec::new();
    append(&mut out, samples);
    assert(out@ == samples@);
    out
}

/// Appends samples.
fn append<T: Copy>(out: &mut Vec<T>, more: &[T])
    ensures
        final(out)@ == old(out)@ + more@,
{
    let ghost start = out@;
    for i in 0..more.len()
        invariant
            out@ == start + more@.take(i as int),
    {
        out.push(more[i]);
        assert(out@ == start + more@.take(i + 1));
    }
    assert(more@.take(more@.len() as int) == more@);
}

impl<T: Copy> Session<T> {
    /// Whether there is a chunk, and the next one is at most past the last.
    pub open spec fn wf(&self) -> bool {
        0 < self.chunks@.len() && self.next <= self.chunks@.len()
    }

    /// What the next chunk asks for.
    pub open spec fn next_turn(&self) -> Turn {
        if self.next >= self.chunks@.len() {
            Turn::Finished
        } else if trim(self.chunks@[self.next as int]@).len() == 0 {
            Turn::Pause
        } else {
            Turn::Speak
        }
    }

    /// The piece of audio of the next chunk, if it is spoken as `speech`.
    pub open spec fn next_piece(&self, speech: Seq<T>) -> Seq<T> {
        piece_of(texts(self.chunks@), self.next as int, speech, self.silence, self.gap as int)
    }

    /// Whether `after` is this session once the next chunk is rendered as `piece`.
    pub open spec fn moved_on(&self, after: &Self, piece: Seq<T>) -> bool {
        &&& after.chunks == self.chunks
        &&& after.silence == self.silence
        &&& after.gap == self.gap
        &&& after.next == self.next + 1
        &&& after.output@ == self.output@ + piece
    }

    /// A session over the given chunks.
    pub fn start(chunks: Vec<String>, silence: T, gap: usize) -> (r: Result<Self, SynthesisError>)
        ensures
            match r {
                Ok(s) => {
                    &&& chunks@.len() > 0
                    &&& s.wf()
                    &&& s.chunks == chunks
                    &&& s.next == 0
                    &&& s.silence == silence
                    &&& s.gap == gap
                    &&& s.output@ == Seq::<T>::empty()
                },
                Err(SynthesisError::NoChunks) => chunks@.len() == 0,
            },
    {
        if chunks.len() == 0 {
            return Err(SynthesisError::NoChunks);
        }
        Ok(Session { chunks, next: 0, silence, gap, output: Vec::new() })
    }

    /// What the next chunk asks for.
    pub fn turn(&self) -> (r: Turn)
        requires
            self.wf(),
        ensures
            r == self.next_turn(),
    {
        if self.next >= self.chunks.len() {
            return Turn::Finished;
        }
        let chunk = chars_of(self.chunks[self.next].as_str());
        if trim_of(chunk.as_slice()).len() == 0 {
            Turn::Pause
        } else {
            Turn::Speak
        }
    }

    /// Renders a chunk that holds nothing to say. Returns the piece to play for it.
    pub fn pause(&mut self) -> (r: Vec<T>)
        requires
            old(self).wf(),
            old(self).next_turn() == Turn::Pause,
        ensures
            final(self).wf(),
            r@ == old(self).next_piece(Seq::empty()),
            old(self).moved_on(final(self), r@),
    {
        let piece = make_quiet(self.silence, self.gap);
        append(&mut self.output, piece.as_slice());
        assert(texts(self.chunks@)[self.next as int] == self.chunks@[self.next as int]@);
        assert(self.next < self.chunks.len());
        self.next = self.next + 1;
        piece
    }

    /// Renders a chunk that was spoken as `raw`, of which the first `audible` samples
    /// are heard. Returns the piece to play for it.
    pub fn speak(&mut self, raw: &[T], audible: usize) -> (r: Vec<T>)
        requires
            old(self).wf(),
            old(self).next_turn() == Turn::Speak,
        ensures
            final(self).wf(),
            r@ == old(self).next_piece(raw@.take(smaller(audible as int, raw@.len() as int))),
            old(self).moved_on(final(self), r@),
    {
        let mut piece = copied(audible_part(raw, audible));
        assert(texts(self.chunks@)[self.next as int] == self.chunks@[self.next as int]@);
        if self.next < self.chunks.len() - 1 {
            let rest = make_quiet(self.silence, self.gap);
            append(&mut piece, rest.as_slice());
        }
        append(&mut self.output, piece.as_slice());
        self.next = self.next + 1;
        piece
    }
}

/// Playing the pieces as they come gives the whole: where the output so far is the
/// waveform of the chunks so far, and the next chunk is rendered, it is the
/// waveform with that chunk.
pub proof fn law_pieces_make_waveform<T: Copy>(
    before: Session<T>,
    after: Session<T>,
    speech: Seq<Seq<T>>,
)
    requires
        before.next < before.chunks@.len(),
        before.output@ == waveform(
            texts(before.chunks@),
            speech,
            before.silence,
            before.gap as int,
            before.next as int,
        ),
        before.moved_on(&after, before.next_piece(speech[before.next as int])),
    ensures
        after.output@ == waveform(
            texts(after.chunks@),
            speech,
            after.silence,
            after.gap as int,
            after.next as int,
        ),
{
}

/// A session that starts with no output and renders chunk after chunk ends up with the
/// waveform of its chunks.
pub proof fn law_session_plays_waveform<T: Copy>(states: Seq<Session<T>>, speech: Seq<Seq<T>>)
    requires
        states.len() > 0,
        states.len() <= states[0].chunks@.len() + 1,
        states[0].next == 0,
        states[0].output@.len() == 0,
        forall|i: int|
            0 <= i < states.len() - 1 ==> (#[trigger] states[i]).moved_on(
                &states[i + 1],
                states[i].next_piece(speech[i]),
            ),
    ensures
        states.last().chunks == states[0].chunks,
        states.last().next == states.len() - 1,
        states.last().output@ == waveform(
            texts(states[0].chunks@),
            speech,
            states[0].silence,
            states[0].gap as int,
            states.len() - 1,
        ),
        states.last().silence == states[0].silence,
        states.last().gap == states[0].gap,
    decreases states.len(),
{
    let n = states.len() - 1;
    if n == 0 {
        assert(states.last().output@ == Seq::<T>::empty());
    } else {
        let front = states.drop_last();
        assert forall|i: int| 0 <= i < front.len() - 1 implies (#[trigger] front[i]).moved_on(
            &front[i + 1],
            front[i].next_piece(speech[i]),
        ) by {
            assert(states[i].moved_on(&states[i + 1], states[i].next_piece(speech[i])));
        }
        law_session_plays_waveform(front, speech);
        assert(states[n - 1].moved_on(&states[n], states[n - 1].next_piece(speech[n - 1])));
        law_pieces_make_waveform(states[n - 1], states[n], speech);
    }
}

/// The waveform is the pieces one after the other, one for each chunk.
pub proof fn law_one_piece_per_chunk<T>(
    list: Seq<Seq<char>>,
    speech: Seq<Seq<T>>,
    silence: T,
    gap: int,
    n: int,
)
    requires
        0 <= n <= list.len(),
    ensures
        waveform(list, speech, silence, gap, n) == Seq::new(
            n as nat,
            |k: int| piece_of(list, k, speech[k], silence, gap),
        ).flatten(),
    decreases n,
{
    let pieces = Seq::new(n as nat, |k: int| piece_of(list, k, speech[k], silence, gap));
    if n == 0 {
        assert(pieces == Seq::<Seq<T>>::empty());
        assert(pieces.flatten() == Seq::<T>::empty());
    } else {
        law_one_piece_per_chunk(list, speech, silence, gap, n - 1);
        let front = Seq::new((n - 1) as nat, |k: int| piece_of(list, k, speech[k], silence, gap));
        let last = pieces.last();
        assert(pieces == front + seq![last]);
        lemma_flatten_concat(front, seq![last]);
        seq![last].lemma_flatten_one_element();
    }
}

/// The waveform of `n` chunks is as long as their speech and the silence together:
/// a gap for each blank chunk and one after each spoken chunk but the last.
pub proof fn law_waveform_length<T>(
    list: Seq<Seq<char>>,
    speech: Seq<Seq<T>>,
    silence: T,
    gap: int,
    n: int,
)
    requires
        0 < n <= list.len(),
        0 <= gap,
    ensures
        waveform(list, speech, silence, gap, n).len() == waveform(
            list,
            speech,
            silence,
            gap,
            n - 1,
        ).len() + if trim(list[n - 1]).len() == 0 {
            gap
        } else if n < list.len() {
            speech[n - 1].len() + gap
        } else {
            speech[n - 1].len() as int
        },
{
}

/// A neat text is not blank.
proof fn lemma_neat_speaks(s: Seq<char>)
    requires
        neat(s),
    ensures
        trim(s).len() > 0,
{
    lemma_trim(s);
    reveal_with_fuel(crate::strings::trim_start, 2);
    reveal_with_fuel(crate::strings::trim_end, 2);
}

/// Every text can be spoken: it has a chunk. Only where there is nothing to say in
/// it is a chunk blank, and then it is the only one.
pub proof fn law_text_is_spoken(text: Seq<char>, lang: Seq<char>, limit: Option<usize>)
    ensures
        spoken_chunks(text, lang, limit).len() > 0,
        ({
            let list = spoken_chunks(text, lang, limit);
            ||| list == seq![Seq::<char>::empty()] && skeleton(text).len() == 0
            ||| forall|k: int| 0 <= k < list.len() ==> trim(#[trigger] list[k]).len() > 0
        }),
{
    let max = match limit {
        Some(n) => n as int,
        None => chunk_limit(lang),
    };
    law_chunks_neat(text, max);
    let list = spoken_chunks(text, lang, limit);
    if !(list == seq![Seq::<char>::empty()] && skeleton(text).len() == 0) {
        assert forall|k: int| 0 <= k < list.len() implies trim(#[trigger] list[k]).len() > 0 by {
            assert(neat(chunks(text, max)[k]));
            lemma_neat_speaks(list[k]);
        }
    }
}

/// What is heard, sample by sample: where the audio of the first `k` chunks ends, the speech
/// of chunk `k` starts, unless it is blank; all samples behind it, up to where the audio of
/// that chunk ends, are silent.
pub proof fn law_waveform_samples<T>(
    list: Seq<Seq<char>>,
    speech: Seq<Seq<T>>,
    silence: T,
    gap: int,
    k: int,
    n: int,
    j: int,
)
    requires
        0 <= k < n <= list.len(),
        0 <= gap,
        0 <= j,
        waveform(list, speech, silence, gap, k).len() + j < waveform(
            list,
            speech,
            silence,
            gap,
            k + 1,
        ).len(),
    ensures
        ({
            let start = waveform(list, speech, silence, gap, k).len() as int;
            let whole = waveform(list, speech, silence, gap, n);
            &&& start + j < whole.len()
            &&& whole[start + j] == if trim(list[k]).len() > 0 && j < speech[k].len() {
                speech[k][j]
            } else {
                silence
            }
        }),
    decreases n,
{
    if n > k + 1 {
        law_waveform_samples(list, speech, silence, gap, k, n - 1, j);
    }
}

/// The limit on the length of a chunk is the one that is given, and that of the language
/// where none is.
pub proof fn law_limit_of_chunks(text: Seq<char>, lang: Seq<char>, n: usize)
    ensures
        spoken_chunks(text, lang, Some(n)) == chunks(text, n as int),
        spoken_chunks(text, lang, None) == if lang == "ko"@ || lang == "ja"@ {
            chunks(text, 120)
        } else {
            chunks(text, 300)
        },
{
}

/// A chunk is spoken unless it is blank, and then a pause stands for it; behind the last
/// chunk there is nothing left to do.
pub proof fn law_turns<T: Copy>(s: Session<T>)
    ensures
        s.next_turn() is Finished <==> s.next >= s.chunks@.len(),
        s.next_turn() is Speak <==> s.next < s.chunks@.len() && trim(
            s.chunks@[s.next as int]@,
        ).len() > 0,
        s.next_turn() is Pause <==> s.next < s.chunks@.len() && trim(
            s.chunks@[s.next as int]@,
        ).len() == 0,
{
}

} // verus!
