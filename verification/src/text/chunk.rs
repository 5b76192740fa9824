//! Splitting long text into chunks that the model can speak in one go.

use vstd::prelude::*;
use vstd::slice::slice_subrange;
use vstd::utf8::{encode_scalar, encode_utf8};

use crate::strings::{
    chars_of, copy_range, ends_with, has_suffix, pieces, push_all, split_at_char, split_on,
    string_of, texts, trim, trim_end, trim_end_of, trim_of, white_end, words, words_of,
};
use crate::text::patterns::{
    byte_offset, find_all, next_stop, paragraphs, split, stops_from, PARAGRAPH_BREAK,
    SENTENCE_STOP,
};

verus! {

/// Abbreviations whose full stop ends no sentence.
pub const ABBREVIATIONS: [&'static str; 21] = [
    "Dr.", "Mr.", "Mrs.", "Ms.", "Prof.", "Sr.", "Jr.", "St.", "Ave.", "Rd.", "Blvd.", "Dept.",
    "Inc.", "Ltd.", "Co.", "Corp.", "etc.", "vs.", "i.e.", "e.g.", "Ph.D.",
];

// ---------------------------------------------------------------------------
// Sentences
// ---------------------------------------------------------------------------

/// Whether a text ends with an abbreviation.
pub open spec fn abbreviated(candidate: Seq<char>) -> bool {
    exists|k: int| 0 <= k < 21 && ends_with(candidate, #[trigger] ABBREVIATIONS@[k]@)
}

/// Whether the terminator at `at` ends the sentence that starts at `start`: it
/// does unless the two together end with an abbreviation.
pub open spec fn ends_sentence(s: Seq<char>, start: int, at: int) -> bool {
    !abbreviated(trim_end(s.subrange(start, at)).push(s[at]))
}

/// The sentences of `s` from `start` on, given its stops from the `k`-th on.
pub open spec fn sentences_from(
    s: Seq<char>,
    stops: Seq<(int, int)>,
    k: int,
    start: int,
) -> Seq<Seq<char>>
    decreases stops.len() - k,
{
    if !(0 <= k < stops.len()) {
        if start < s.len() {
            seq![s.subrange(start, s.len() as int)]
        } else {
            seq![]
        }
    } else if ends_sentence(s, start, stops[k].0) {
        seq![s.subrange(start, stops[k].1)] + sentences_from(s, stops, k + 1, stops[k].1)
    } else {
        sentences_from(s, stops, k + 1, start)
    }
}

/// The sentences of `s`, each with the white space that follows it.
pub open spec fn sentences(s: Seq<char>) -> Seq<Seq<char>> {
    if stops_from(s, 0).len() == 0 {
        seq![s]
    } else {
        sentences_from(s, stops_from(s, 0), 0, 0)
    }
}

/// Encoding a text is encoding its front and then its last character.
proof fn lemma_encode_push(s: Seq<char>, c: char)
    ensures
        encode_utf8(s.push(c)) == encode_utf8(s) + encode_scalar(c as u32),
    decreases s.len(),
{
    if s.len() == 0 {
        assert(s.push(c).drop_first() == Seq::<char>::empty());
        assert(encode_utf8(s.push(c).drop_first()) == Seq::<u8>::empty());
        assert(encode_scalar(c as u32) + Seq::<u8>::empty() == encode_scalar(c as u32));
        assert(encode_utf8(s) + encode_scalar(c as u32) == encode_scalar(c as u32));
    } else {
        lemma_encode_push(s.drop_first(), c);
        assert(s.push(c).drop_first() == s.drop_first().push(c));
        assert(encode_utf8(s.push(c)) == encode_scalar(s[0] as u32) + encode_utf8(
            s.drop_first().push(c),
        ));
        assert(encode_utf8(s.push(c)) == encode_utf8(s) + encode_scalar(c as u32));
    }
}

/// The next character starts after the bytes of this one.
proof fn lemma_offset_step(s: Seq<char>, i: int)
    requires
        0 <= i < s.len(),
    ensures
        byte_offset(s, i + 1) == byte_offset(s, i) + encode_scalar(s[i] as u32).len(),
        encode_scalar(s[i] as u32).len() >= 1,
{
    lemma_encode_push(s.take(i), s[i]);
    assert(s.take(i + 1) == s.take(i).push(s[i]));
}

/// Later characters start at later bytes.
proof fn lemma_offset_order(s: Seq<char>, i: int, j: int)
    requires
        0 <= i <= j <= s.len(),
    ensures
        byte_offset(s, i) <= byte_offset(s, j),
        i < j ==> byte_offset(s, i) < byte_offset(s, j),
    decreases j - i,
{
    if i < j {
        lemma_offset_step(s, i);
        lemma_offset_order(s, i + 1, j);
    }
}

/// The bytes that a character takes in UTF-8.
fn utf8_width(c: char) -> (r: usize)
    ensures
        r == encode_scalar(c as u32).len(),
{
    if c <= '\u{7f}' {
        1
    } else if c <= '\u{7ff}' {
        2
    } else if c <= '\u{ffff}' {
        3
    } else {
        4
    }
}

/// Walks from one character to the one that starts at a given byte.
fn walk_to(s: &[char], from: usize, from_byte: usize, to_byte: usize, Ghost(to): Ghost<int>) -> (r:
    usize)
    requires
        from <= to <= s@.len(),
        from_byte == byte_offset(s@, from as int),
        to_byte == byte_offset(s@, to),
    ensures
        r == to,
{
    let mut i: usize = from;
    let mut byte: usize = from_byte;
    proof {
        lemma_offset_order(s@, i as int, to);
    }
    while byte < to_byte
        invariant
            i <= to <= s@.len(),
            byte == byte_offset(s@, i as int),
            to_byte == byte_offset(s@, to),
        decreases to - i,
    {
        proof {
            lemma_offset_order(s@, i as int, to);
            lemma_offset_step(s@, i as int);
            lemma_offset_order(s@, i + 1, to);
        }
        byte = byte + utf8_width(s[i]);
        i = i + 1;
    }
    proof {
        lemma_offset_order(s@, i as int, to);
    }
    i
}

/// A stop lies between the previous one and the end of the text.
proof fn lemma_next_stop(s: Seq<char>, i: int)
    requires
        0 <= i <= s.len(),
    ensures
        i <= next_stop(s, i) <= s.len(),
        next_stop(s, i) < s.len() ==> next_stop(s, i) + 1 < s.len(),
    decreases s.len() - i,
{
    if i < s.len() {
        lemma_next_stop(s, i + 1);
    }
}

/// The stops of a text follow one another.
pub proof fn lemma_stops(s: Seq<char>, i: int)
    requires
        0 <= i <= s.len(),
    ensures
        forall|k: int|
            0 <= k < stops_from(s, i).len() ==> i <= (#[trigger] stops_from(s, i)[k]).0
                < stops_from(s, i)[k].1 <= s.len(),
        forall|j: int, k: int|
            0 <= j < k < stops_from(s, i).len() ==> (#[trigger] stops_from(s, i)[j]).1 <= (
            #[trigger] stops_from(s, i)[k]).0,
    decreases s.len() - i,
{
    let k = next_stop(s, i);
    let e = white_end(s, k + 1);
    if 0 <= i <= k < e <= s.len() {
        lemma_stops(s, e);
        let tail = stops_from(s, e);
        assert(stops_from(s, i) == seq![(k, e)] + tail);
        assert forall|n: int| 0 <= n < stops_from(s, i).len() implies i <= (
        #[trigger] stops_from(s, i)[n]).0 < stops_from(s, i)[n].1 <= s.len() by {
            if n > 0 {
                assert(stops_from(s, i)[n] == tail[n - 1]);
            }
        }
        assert forall|m: int, n: int| 0 <= m < n < stops_from(s, i).len() implies (
        #[trigger] stops_from(s, i)[m]).1 <= (#[trigger] stops_from(s, i)[n]).0 by {
            assert(stops_from(s, i)[n] == tail[n - 1]);
            if m > 0 {
                assert(stops_from(s, i)[m] == tail[m - 1]);
            }
        }
    }
}

/// Whether a text ends with an abbreviation.
fn is_abbreviated(candidate: &[char]) -> (r: bool)
    ensures
        r == abbreviated(candidate@),
{
    let mut k: usize = 0;
    while k < 21
        invariant
            k <= 21,
            forall|j: int| 0 <= j < k ==> !ends_with(candidate@, #[trigger] ABBREVIATIONS@[j]@),
        decreases 21 - k,
    {
        let abbreviation = chars_of(ABBREVIATIONS[k]);
        if has_suffix(candidate, abbreviation.as_slice()) {
            assert(ends_with(candidate@, ABBREVIATIONS@[k as int]@));
            return true;
        }
        k = k + 1;
    }
    false
}

/// Splits a text into sentences. Each keeps the white space that follows it, so
/// that together they are the text.
pub fn split_sentences(s: &[char]) -> (r: Vec<Vec<char>>)
    ensures
        pieces(r@) == sentences(s@),
{
    let text = string_of(s);
    let ranges = find_all(SENTENCE_STOP, text.as_str());
    let ghost stops = stops_from(s@, 0);
    proof {
        lemma_stops(s@, 0);
    }
    let mut out: Vec<Vec<char>> = Vec::new();
    if ranges.len() == 0 {
        let whole = copy_range(s, 0, s.len());
        assert(whole@ == s@);
        out.push(whole);
        assert(pieces(out@) == seq![s@]);
        return out;
    }
    let mut last: usize = 0;
    let mut at: usize = 0;
    let mut at_byte: usize = 0;
    let mut k: usize = 0;
    assert(s@.take(0) == Seq::<char>::empty());
    assert(pieces(out@) + sentences_from(s@, stops, 0, 0) == sentences(s@));
    while k < ranges.len()
        invariant
            stops == stops_from(s@, 0),
            ranges@.len() == stops.len(),
            forall|j: int|
                0 <= j < ranges@.len() ==> {
                    &&& (#[trigger] ranges@[j]).0 == byte_offset(s@, stops[j].0)
                    &&& ranges@[j].1 == byte_offset(s@, stops[j].1)
                },
            forall|j: int|
                0 <= j < stops.len() ==> 0 <= (#[trigger] stops[j]).0 < stops[j].1 <= s@.len(),
            forall|i: int, j: int|
                0 <= i < j < stops.len() ==> (#[trigger] stops[i]).1 <= (#[trigger] stops[j]).0,
            k <= ranges@.len(),
            last <= at <= s@.len(),
            k < ranges@.len() ==> at <= stops[k as int].0,
            at_byte == byte_offset(s@, at as int),
            pieces(out@) + sentences_from(s@, stops, k as int, last as int) == sentences(s@),
        decreases ranges@.len() - k,
    {
        let (from_byte, to_byte) = ranges[k];
        let ghost stop = stops[k as int];
        let from = walk_to(s, at, at_byte, from_byte, Ghost(stop.0));
        let to = walk_to(s, from, from_byte, to_byte, Ghost(stop.1));
        let before = trim_end_of(slice_subrange(s, last, from));
        let mut candidate: Vec<char> = Vec::new();
        push_all(&mut candidate, before);
        candidate.push(s[from]);
        assert(candidate@ == trim_end(s@.subrange(last as int, from as int)).push(
            s@[from as int],
        ));
        if !is_abbreviated(candidate.as_slice()) {
            let ghost done = pieces(out@);
            let sentence = copy_range(s, last, to);
            out.push(sentence);
            assert(pieces(out@) == done.push(sentence@));
            assert(done + (seq![sentence@] + sentences_from(s@, stops, k + 1, to as int))
                == pieces(out@) + sentences_from(s@, stops, k + 1, to as int));
            last = to;
        }
        at = to;
        at_byte = to_byte;
        k = k + 1;
    }
    if last < s.len() {
        let ghost done = pieces(out@);
        let rest = copy_range(s, last, s.len());
        out.push(rest);
        assert(pieces(out@) == done.push(rest@));
        assert(done + seq![rest@] == pieces(out@));
    } else {
        assert(pieces(out@) + Seq::<Seq<char>>::empty() == pieces(out@));
    }
    out
}

// ---------------------------------------------------------------------------
// Packing
// ---------------------------------------------------------------------------

/// The pieces of a list, trimmed, without those of white space alone.
pub open spec fn trimmed(list: Seq<Seq<char>>) -> Seq<Seq<char>> {
    list.map_values(|p: Seq<char>| trim(p)).filter(|p: Seq<char>| p.len() > 0)
}

/// What is still to be put out of a chunk under construction.
pub open spec fn flushed(cur: Seq<char>) -> Seq<Seq<char>> {
    if cur.len() == 0 {
        seq![]
    } else {
        seq![cur]
    }
}

/// Packs pieces into chunks of at most `max` characters, in order and as many
/// to a chunk as fit, joined by `sep`. `cur` is the chunk under construction. A
/// piece longer than `max` stands alone, as `refine` splits it further.
pub open spec fn pack(
    list: Seq<Seq<char>>,
    sep: Seq<char>,
    max: int,
    refine: spec_fn(Seq<char>) -> Seq<Seq<char>>,
    cur: Seq<char>,
) -> Seq<Seq<char>>
    decreases list.len(),
{
    if list.len() == 0 {
        flushed(cur)
    } else {
        let p = list[0];
        let rest = list.skip(1);
        if p.len() > max {
            flushed(cur) + refine(p) + pack(rest, sep, max, refine, seq![])
        } else if cur.len() == 0 {
            pack(rest, sep, max, refine, p)
        } else if cur.len() + sep.len() + p.len() > max {
            seq![cur] + pack(rest, sep, max, refine, p)
        } else {
            pack(rest, sep, max, refine, cur + sep + p)
        }
    }
}

/// A word cut into pieces of `max` characters, the last of which may be shorter. With
/// no room at all it stays whole.
pub open spec fn cut(w: Seq<char>, max: int) -> Seq<Seq<char>>
    decreases w.len(),
{
    if max <= 0 || w.len() <= max {
        seq![w]
    } else {
        seq![w.take(max)] + cut(w.skip(max), max)
    }
}

/// The chunks of a text split between words, and within a word that is too long.
pub open spec fn by_words(s: Seq<char>, max: int) -> Seq<Seq<char>> {
    pack(words(s), " "@, max, |w: Seq<char>| cut(w, max), seq![])
}

/// The chunks of a sentence split at commas, and by words where a part
/// between two commas is too long.
pub open spec fn by_commas(s: Seq<char>, max: int) -> Seq<Seq<char>> {
    pack(trimmed(split_on(s, ',')), ", "@, max, |p: Seq<char>| by_words(p, max), seq![])
}

/// The chunks of a paragraph split between sentences, and at commas where a
/// sentence is too long.
pub open spec fn by_sentences(s: Seq<char>, max: int) -> Seq<Seq<char>> {
    pack(trimmed(sentences(s)), " "@, max, |p: Seq<char>| by_commas(p, max), seq![])
}

/// The chunks of one trimmed paragraph: itself where it is short enough.
pub open spec fn paragraph_chunks(p: Seq<char>, max: int) -> Seq<Seq<char>> {
    if p.len() <= max {
        seq![p]
    } else {
        by_sentences(p, max)
    }
}

/// The chunks of a list of paragraphs.
pub open spec fn list_chunks(list: Seq<Seq<char>>, max: int) -> Seq<Seq<char>>
    decreases list.len(),
{
    if list.len() == 0 {
        seq![]
    } else {
        list_chunks(list.drop_last(), max) + paragraph_chunks(list.last(), max)
    }
}

/// The chunks of a text: those of its paragraphs, or one empty chunk where there
/// is nothing to say.
pub open spec fn chunks(text: Seq<char>, max: int) -> Seq<Seq<char>> {
    let found = list_chunks(trimmed(paragraphs(trim(text))), max);
    if trim(text).len() == 0 || found.len() == 0 {
        seq![seq![]]
    } else {
        found
    }
}

/// Trims each piece of a list and drops the blank ones.
pub fn trimmed_of(list: &Vec<Vec<char>>) -> (r: Vec<Vec<char>>)
    ensures
        pieces(r@) == trimmed(pieces(list@)),
{
    let mut out: Vec<Vec<char>> = Vec::new();
    let ghost mapped = pieces(list@).map_values(|p: Seq<char>| trim(p));
    let ghost keep = |p: Seq<char>| p.len() > 0;
    assert(mapped.take(0) == Seq::<Seq<char>>::empty());
    assert(mapped.take(0).filter(keep) == Seq::<Seq<char>>::empty()) by {
        reveal(Seq::filter);
    }
    assert(pieces(out@) == mapped.take(0).filter(keep));
    for i in 0..list.len()
        invariant
            mapped == pieces(list@).map_values(|p: Seq<char>| trim(p)),
            keep == (|p: Seq<char>| p.len() > 0),
            pieces(out@) == mapped.take(i as int).filter(keep),
    {
        let piece = trim_of(list[i].as_slice());
        let ghost done = pieces(out@);
        assert(piece@ == mapped[i as int]);
        proof {
            reveal(Seq::filter);
            assert(mapped.take(i + 1).drop_last() == mapped.take(i as int));
            assert(mapped.take(i + 1).last() == mapped[i as int]);
        }
        if piece.len() > 0 {
            let copy = copy_range(piece, 0, piece.len());
            assert(copy@ == piece@);
            out.push(copy);
            assert(pieces(out@) == done.push(piece@));
        }
    }
    assert(mapped.take(list@.len() as int) == mapped);
    out
}

/// A list of finished chunks and the one under construction.
struct Packer {
    out: Vec<String>,
    cur: Vec<char>,
}

impl Packer {
    /// Starts with nothing.
    fn new() -> (r: Self)
        ensures
            texts(r.out@) == Seq::<Seq<char>>::empty(),
            r.cur@ == Seq::<char>::empty(),
    {
        let r = Packer { out: Vec::new(), cur: Vec::new() };
        assert(texts(r.out@) == Seq::<Seq<char>>::empty());
        r
    }

    /// Puts out the chunk under construction.
    fn flush(&mut self)
        ensures
            texts(final(self).out@) == texts(old(self).out@) + flushed(old(self).cur@),
            final(self).cur@ == Seq::<char>::empty(),
    {
        let ghost done = texts(self.out@);
        if self.cur.len() > 0 {
            let chunk = string_of(self.cur.as_slice());
            self.out.push(chunk);
            assert(texts(self.out@) == done.push(chunk@));
            assert(done.push(chunk@) == done + seq![chunk@]);
            self.cur = Vec::new();
        } else {
            assert(done + Seq::<Seq<char>>::empty() == done);
            assert(self.cur@ == Seq::<char>::empty());
        }
    }

    /// Adds a piece that fits a chunk.
    fn add_piece(&mut self, piece: &[char], sep: &str, max: usize)
        requires
            piece@.len() <= max,
        ensures
            forall|rest: Seq<Seq<char>>, refine: spec_fn(Seq<char>) -> Seq<Seq<char>>|
                #![trigger pack(rest, sep@, max as int, refine, final(self).cur@)]
                texts(final(self).out@) + pack(rest, sep@, max as int, refine, final(self).cur@)
                    == texts(old(self).out@) + pack(
                    seq![piece@] + rest,
                    sep@,
                    max as int,
                    refine,
                    old(self).cur@,
                ),
    {
        let ghost done = texts(self.out@);
        let ghost cur = self.cur@;
        let gap = chars_of(sep);
        if self.cur.len() > 0 && (self.cur.len() > max || gap.len() > max - self.cur.len()
            || piece.len() > max - self.cur.len() - gap.len()) {
            self.flush();
            assert(flushed(cur) == seq![cur]);
        } else if self.cur.len() > 0 {
            push_all(&mut self.cur, gap.as_slice());
        }
        push_all(&mut self.cur, piece);
        proof {
            assert forall|rest: Seq<Seq<char>>, refine: spec_fn(Seq<char>) -> Seq<Seq<char>>|
                #![trigger pack(rest, sep@, max as int, refine, self.cur@)]
                texts(self.out@) + pack(rest, sep@, max as int, refine, self.cur@) == done + pack(
                    seq![piece@] + rest,
                    sep@,
                    max as int,
                    refine,
                    cur,
                ) by {
                let list = seq![piece@] + rest;
                assert(list[0] == piece@);
                assert(list.skip(1) == rest);
                let after = pack(rest, sep@, max as int, refine, self.cur@);
                assert((done + seq![cur]) + after == done + (seq![cur] + after));
                assert(Seq::<char>::empty() + piece@ == piece@);
            }
        }
    }

    /// Puts out chunks that are already made.
    fn extend(&mut self, more: Vec<String>)
        ensures
            texts(final(self).out@) == texts(old(self).out@) + texts(more@),
            final(self).cur@ == old(self).cur@,
    {
        let mut more = more;
        let ghost added = texts(more@);
        let ghost done = texts(self.out@);
        self.out.append(&mut more);
        assert(texts(self.out@) == done + added);
    }
}

/// Packing a list whose first piece is too long.
proof fn lemma_pack_long(
    list: Seq<Seq<char>>,
    i: int,
    sep: Seq<char>,
    max: int,
    refine: spec_fn(Seq<char>) -> Seq<Seq<char>>,
    cur: Seq<char>,
)
    requires
        0 <= i < list.len(),
        list[i].len() > max,
    ensures
        pack(list.skip(i), sep, max, refine, cur) == flushed(cur) + refine(list[i]) + pack(
            list.skip(i + 1),
            sep,
            max,
            refine,
            seq![],
        ),
{
    assert(list.skip(i)[0] == list[i]);
    assert(list.skip(i).skip(1) == list.skip(i + 1));
}

/// Cuts a word into pieces of at most `max_len` characters.
fn cut_word(word: &[char], max_len: usize) -> (r: Vec<String>)
    ensures
        texts(r@) == cut(word@, max_len as int),
{
    let mut out: Vec<String> = Vec::new();
    let mut at: usize = 0;
    assert(word@.skip(0) == word@);
    assert(texts(out@) + cut(word@, max_len as int) == cut(word@, max_len as int));
    while max_len > 0 && word.len() - at > max_len
        invariant
            at <= word@.len(),
            texts(out@) + cut(word@.skip(at as int), max_len as int) == cut(
                word@,
                max_len as int,
            ),
        decreases word@.len() - at,
    {
        let ghost done = texts(out@);
        let ghost rest = word@.skip(at as int);
        let piece = string_of(slice_subrange(word, at, at + max_len));
        out.push(piece);
        proof {
            assert(rest.take(max_len as int) == piece@);
            assert(rest.skip(max_len as int) == word@.skip(at + max_len));
            let after = cut(word@.skip(at + max_len), max_len as int);
            assert(texts(out@) == done.push(piece@));
            assert(done.push(piece@) + after == done + (seq![piece@] + after));
        }
        at = at + max_len;
    }
    let ghost done = texts(out@);
    let piece = string_of(slice_subrange(word, at, word.len()));
    out.push(piece);
    assert(piece@ == word@.skip(at as int));
    assert(texts(out@) == done.push(piece@));
    assert(done.push(piece@) == done + seq![piece@]);
    out
}

/// Splits a text between words. A word that is still too long is cut.
pub fn split_by_words(s: &[char], max_len: usize) -> (r: Vec<String>)
    ensures
        texts(r@) == by_words(s@, max_len as int),
{
    let list = words_of(s);
    let ghost parts = pieces(list@);
    let ghost refine = |w: Seq<char>| cut(w, max_len as int);
    let mut packer = Packer::new();
    assert(parts.skip(0) == parts);
    assert(texts(packer.out@) + pack(parts, " "@, max_len as int, refine, seq![]) == by_words(
        s@,
        max_len as int,
    ));
    for i in 0..list.len()
        invariant
            parts == pieces(list@),
            refine == (|w: Seq<char>| cut(w, max_len as int)),
            texts(packer.out@) + pack(
                parts.skip(i as int),
                " "@,
                max_len as int,
                refine,
                packer.cur@,
            ) == by_words(s@, max_len as int),
    {
        let word = list[i].as_slice();
        assert(word@ == parts[i as int]);
        if word.len() > max_len {
            let ghost done = texts(packer.out@);
            let ghost cur = packer.cur@;
            packer.flush();
            let split = cut_word(word, max_len);
            let ghost found = texts(split@);
            packer.extend(split);
            proof {
                lemma_pack_long(parts, i as int, " "@, max_len as int, refine, cur);
                let after = pack(parts.skip(i + 1), " "@, max_len as int, refine, seq![]);
                assert(done + (flushed(cur) + found + after) == done + flushed(cur) + found
                    + after);
            }
        } else {
            packer.add_piece(word, " ", max_len);
            assert(seq![parts[i as int]] + parts.skip(i + 1) == parts.skip(i as int));
        }
    }
    assert(parts.skip(parts.len() as int) == Seq::<Seq<char>>::empty());
    packer.flush();
    packer.out
}

/// Splits a sentence at commas. A part that is still too long is split between
/// words.
pub fn split_long_sentence(s: &[char], max_len: usize) -> (r: Vec<String>)
    ensures
        texts(r@) == by_commas(s@, max_len as int),
{
    let list = trimmed_of(&split_at_char(s, ','));
    let ghost parts = pieces(list@);
    let ghost refine = |p: Seq<char>| by_words(p, max_len as int);
    let mut packer = Packer::new();
    assert(parts.skip(0) == parts);
    assert(texts(packer.out@) + pack(parts, ", "@, max_len as int, refine, seq![]) == by_commas(
        s@,
        max_len as int,
    ));
    for i in 0..list.len()
        invariant
            parts == pieces(list@),
            refine == (|p: Seq<char>| by_words(p, max_len as int)),
            texts(packer.out@) + pack(
                parts.skip(i as int),
                ", "@,
                max_len as int,
                refine,
                packer.cur@,
            ) == by_commas(s@, max_len as int),
    {
        let part = list[i].as_slice();
        assert(part@ == parts[i as int]);
        if part.len() > max_len {
            let ghost done = texts(packer.out@);
            let ghost cur = packer.cur@;
            packer.flush();
            let split = split_by_words(part, max_len);
            let ghost found = texts(split@);
            packer.extend(split);
            proof {
                lemma_pack_long(parts, i as int, ", "@, max_len as int, refine, cur);
                let after = pack(parts.skip(i + 1), ", "@, max_len as int, refine, seq![]);
                assert(done + (flushed(cur) + found + after) == done + flushed(cur) + found
                    + after);
            }
        } else {
            packer.add_piece(part, ", ", max_len);
            assert(seq![parts[i as int]] + parts.skip(i + 1) == parts.skip(i as int));
        }
    }
    assert(parts.skip(parts.len() as int) == Seq::<Seq<char>>::empty());
    packer.flush();
    packer.out
}

/// Splits a paragraph between sentences. A sentence that is still too long is
/// split at commas.
pub fn split_long_paragraph(s: &[char], max_len: usize) -> (r: Vec<String>)
    ensures
        texts(r@) == by_sentences(s@, max_len as int),
{
    let list = trimmed_of(&split_sentences(s));
    let ghost parts = pieces(list@);
    let ghost refine = |p: Seq<char>| by_commas(p, max_len as int);
    let mut packer = Packer::new();
    assert(parts.skip(0) == parts);
    assert(texts(packer.out@) + pack(parts, " "@, max_len as int, refine, seq![]) == by_sentences(
        s@,
        max_len as int,
    ));
    for i in 0..list.len()
        invariant
            parts == pieces(list@),
            refine == (|p: Seq<char>| by_commas(p, max_len as int)),
            texts(packer.out@) + pack(
                parts.skip(i as int),
                " "@,
                max_len as int,
                refine,
                packer.cur@,
            ) == by_sentences(s@, max_len as int),
    {
        let sentence = list[i].as_slice();
        assert(sentence@ == parts[i as int]);
        if sentence.len() > max_len {
            let ghost done = texts(packer.out@);
            let ghost cur = packer.cur@;
            packer.flush();
            let split = split_long_sentence(sentence, max_len);
            let ghost found = texts(split@);
            packer.extend(split);
            proof {
                lemma_pack_long(parts, i as int, " "@, max_len as int, refine, cur);
                let after = pack(parts.skip(i + 1), " "@, max_len as int, refine, seq![]);
                assert(done + (flushed(cur) + found + after) == done + flushed(cur) + found
                    + after);
            }
        } else {
            packer.add_piece(sentence, " ", max_len);
            assert(seq![parts[i as int]] + parts.skip(i + 1) == parts.skip(i as int));
        }
    }
    assert(parts.skip(parts.len() as int) == Seq::<Seq<char>>::empty());
    packer.flush();
    packer.out
}

/// Splits a text into chunks of at most `max_len` characters, preferring the
/// boundaries of paragraphs, then of sentences, then commas, then words. A word that is
/// longer by itself is cut. With no room at all, words stay whole.
pub fn chunk_text(text: &str, max_len: usize) -> (r: Vec<String>)
    ensures
        texts(r@) == chunks(text@, max_len as int),
{
    let all = chars_of(text);
    let body = trim_of(all.as_slice());
    let mut out: Vec<String> = Vec::new();
    if body.len() > 0 {
        let inner = string_of(body);
        let raw = split(PARAGRAPH_BREAK, inner.as_str());
        let mut raw_chars: Vec<Vec<char>> = Vec::new();
        for i in 0..raw.len()
            invariant
                pieces(raw_chars@) == texts(raw@).take(i as int),
        {
            let ghost done = pieces(raw_chars@);
            let one = chars_of(raw[i].as_str());
            raw_chars.push(one);
            assert(pieces(raw_chars@) == done.push(one@));
            assert(texts(raw@).take(i + 1) == done.push(texts(raw@)[i as int]));
        }
        assert(texts(raw@).take(raw@.len() as int) == texts(raw@));
        let list = trimmed_of(&raw_chars);
        let ghost parts = pieces(list@);
        assert(parts.take(0) == Seq::<Seq<char>>::empty());
        assert(texts(out@) == list_chunks(parts.take(0), max_len as int));
        for i in 0..list.len()
            invariant
                parts == pieces(list@),
                texts(out@) == list_chunks(parts.take(i as int), max_len as int),
        {
            let para = list[i].as_slice();
            assert(para@ == parts[i as int]);
            let ghost done = texts(out@);
            assert(parts.take(i + 1).drop_last() == parts.take(i as int));
            assert(parts.take(i + 1).last() == parts[i as int]);
            if para.len() <= max_len {
                let copy = string_of(para);
                out.push(copy);
                assert(texts(out@) == done + seq![para@]);
            } else {
                let mut found = split_long_paragraph(para, max_len);
                let ghost added = texts(found@);
                out.append(&mut found);
                assert(texts(out@) == done + added);
            }
        }
        assert(parts.take(list@.len() as int) == parts);
    }
    assert(texts(out@).len() == out@.len());
    if out.len() == 0 {
        let empty = String::new();
        out.push(empty);
        assert(texts(out@) == seq![Seq::<char>::empty()]);
    }
    out
}

} // verus!
