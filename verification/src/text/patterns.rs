//! The regular expressions of the text pipeline.
//!
//! Each function here makes one call into the `regex` or the
//! `unicode-normalization` crate. Its contract says what the call gives for the
//! patterns listed in this file, as far as the syntax of those crates' patterns
//! fixes it.

use vstd::prelude::*;
use vstd::utf8::encode_utf8;

use crate::strings::{replace_all, texts, white, white_end};

verus! {

/// A run of emoji and pictographs.
pub const EMOJI_RUN: &'static str = "[\\x{1F600}-\\x{1F64F}\\x{1F300}-\\x{1F5FF}\\x{1F680}-\\x{1F6FF}\\x{1F700}-\\x{1F77F}\\x{1F780}-\\x{1F7FF}\\x{1F800}-\\x{1F8FF}\\x{1F900}-\\x{1F9FF}\\x{1FA00}-\\x{1FA6F}\\x{1FA70}-\\x{1FAFF}\\x{2600}-\\x{26FF}\\x{2700}-\\x{27BF}\\x{1F1E6}-\\x{1F1FF}]+";

/// A run of white space.
pub const WHITE_RUN: &'static str = "\\s+";

/// A closing mark at the very end.
pub const CLOSING_END: &'static str = "[.!?;:,'\"\\u{201C}\\u{201D}\\u{2018}\\u{2019})\\]}\u{2026}\u{3002}\u{300d}\u{300f}\u{3011}\u{3009}\u{300b}\u{203a}\u{bb}]$";

/// A blank line between two paragraphs.
pub const PARAGRAPH_BREAK: &'static str = "\\n\\s*\\n";

/// A sentence terminator and the white space after it.
pub const SENTENCE_STOP: &'static str = "([.!?])\\s+";

/// The characters of `EMOJI_RUN`.
pub open spec fn emoji(c: char) -> bool {
    ||| '\u{1F600}' <= c <= '\u{1F64F}'
    ||| '\u{1F300}' <= c <= '\u{1F5FF}'
    ||| '\u{1F680}' <= c <= '\u{1F6FF}'
    ||| '\u{1F700}' <= c <= '\u{1F77F}'
    ||| '\u{1F780}' <= c <= '\u{1F7FF}'
    ||| '\u{1F800}' <= c <= '\u{1F8FF}'
    ||| '\u{1F900}' <= c <= '\u{1F9FF}'
    ||| '\u{1FA00}' <= c <= '\u{1FA6F}'
    ||| '\u{1FA70}' <= c <= '\u{1FAFF}'
    ||| '\u{2600}' <= c <= '\u{26FF}'
    ||| '\u{2700}' <= c <= '\u{27BF}'
    ||| '\u{1F1E6}' <= c <= '\u{1F1FF}'
}

/// The characters of `CLOSING_END`.
pub open spec fn closing(c: char) -> bool {
    ||| c == '.' || c == '!' || c == '?' || c == ';' || c == ':' || c == ','
    ||| c == '\'' || c == '"'
    ||| c == '\u{201C}' || c == '\u{201D}' || c == '\u{2018}' || c == '\u{2019}'
    ||| c == ')' || c == ']' || c == '}'
    ||| c == '\u{2026}' || c == '\u{3002}' || c == '\u{300d}' || c == '\u{300f}'
    ||| c == '\u{3011}' || c == '\u{3009}' || c == '\u{300b}' || c == '\u{203a}' || c == '\u{bb}'
}

/// Whether `pattern` matches exactly a space followed by `mark`.
pub open spec fn spaced(pattern: Seq<char>, mark: char) -> bool {
    ||| pattern == " ,"@ && mark == ','
    ||| pattern == " \\."@ && mark == '.'
    ||| pattern == " !"@ && mark == '!'
    ||| pattern == " \\?"@ && mark == '?'
    ||| pattern == " ;"@ && mark == ';'
    ||| pattern == " :"@ && mark == ':'
    ||| pattern == " '"@ && mark == '\''
}

/// `s` from position `i` on, with each run of white space become one space.
pub open spec fn collapse_from(s: Seq<char>, i: int) -> Seq<char>
    decreases s.len() - i,
{
    if !(0 <= i < s.len()) {
        seq![]
    } else if white(s[i]) && i < white_end(s, i) <= s.len() {
        seq![' '] + collapse_from(s, white_end(s, i))
    } else {
        seq![s[i]] + collapse_from(s, i + 1)
    }
}

/// `s` with each run of white space become one space.
pub open spec fn collapse(s: Seq<char>) -> Seq<char> {
    collapse_from(s, 0)
}

/// The characters that end a sentence.
pub open spec fn terminator(c: char) -> bool {
    c == '.' || c == '!' || c == '?'
}

/// The first sentence terminator at or after `i` that white space follows, or
/// the length of `s`.
pub open spec fn next_stop(s: Seq<char>, i: int) -> int
    decreases s.len() - i,
{
    if !(0 <= i < s.len()) {
        s.len() as int
    } else if terminator(s[i]) && i + 1 < s.len() && white(s[i + 1]) {
        i
    } else {
        next_stop(s, i + 1)
    }
}

/// The sentence stops of `s` from `i` on: each the position of a terminator and
/// the end of the white space after it.
pub open spec fn stops_from(s: Seq<char>, i: int) -> Seq<(int, int)>
    decreases s.len() - i,
{
    let k = next_stop(s, i);
    let e = white_end(s, k + 1);
    if 0 <= i <= k < e <= s.len() {
        seq![(k, e)] + stops_from(s, e)
    } else {
        seq![]
    }
}

/// The last line feed of `s` in `lo..hi`, or `lo - 1`.
pub open spec fn last_line_feed(s: Seq<char>, lo: int, hi: int) -> int
    decreases hi - lo,
{
    if hi <= lo || s[hi - 1] == '\n' {
        hi - 1
    } else {
        last_line_feed(s, lo, hi - 1)
    }
}

/// The end of the paragraph break that starts at `i`, or `i` where none does: a
/// line feed, and the white space after it up to the last line feed in it.
pub open spec fn break_end(s: Seq<char>, i: int) -> int {
    if 0 <= i < s.len() && s[i] == '\n' && last_line_feed(s, i + 1, white_end(s, i + 1)) > i {
        last_line_feed(s, i + 1, white_end(s, i + 1)) + 1
    } else {
        i
    }
}

/// The first paragraph break at or after `i`, or the length of `s`.
pub open spec fn next_break(s: Seq<char>, i: int) -> int
    decreases s.len() - i,
{
    if !(0 <= i < s.len()) {
        s.len() as int
    } else if break_end(s, i) > i {
        i
    } else {
        next_break(s, i + 1)
    }
}

/// The stretches of `s` from `i` on that paragraph breaks separate.
pub open spec fn paragraphs_from(s: Seq<char>, i: int) -> Seq<Seq<char>>
    decreases s.len() - i,
{
    let k = next_break(s, i);
    let e = break_end(s, k);
    if 0 <= i <= k < e <= s.len() {
        seq![s.subrange(i, k)] + paragraphs_from(s, e)
    } else {
        seq![s.subrange(i, s.len() as int)]
    }
}

/// The stretches of `s` that paragraph breaks separate.
pub open spec fn paragraphs(s: Seq<char>) -> Seq<Seq<char>> {
    paragraphs_from(s, 0)
}

/// The byte at which character `i` of `s` starts, in UTF-8.
pub open spec fn byte_offset(s: Seq<char>, i: int) -> int {
    encode_utf8(s.take(i)).len() as int
}

/// The compatibility decomposition (NFKD) of a text.
pub uninterp spec fn nfkd(text: Seq<char>) -> Seq<char>;

/// `UnicodeNormalization::nfkd` of the `unicode-normalization` crate, collected
/// into a string. The result is a function of the text, and a text of ASCII
/// characters alone decomposes to itself; nothing else is claimed of it.
#[verifier::external_body]
pub(crate) fn decompose(text: &str) -> (r: String)
    ensures
        r@ == nfkd(text@),
        (forall|i: int| 0 <= i < text@.len() ==> #[trigger] text@[i] <= '\u{7f}') ==> r@ == text@,
{
    unicode_normalization::UnicodeNormalization::nfkd(text).collect()
}

/// `Regex::replace_all` of the `regex` crate: the successive matches, found from
/// left to right and without overlap, are replaced. Removing the runs of a
/// class leaves the characters outside it; replacing the runs of white space by
/// a space collapses them; a pattern of two literal characters is replaced as
/// such.
#[verifier::external_body]
pub(crate) fn rewrite(pattern: &str, text: &str, replacement: &str) -> (r: String)
    requires
        ({
            ||| pattern@ == EMOJI_RUN@ && replacement@ == ""@
            ||| pattern@ == WHITE_RUN@ && replacement@ == " "@
            ||| exists|m: char| #[trigger] spaced(pattern@, m) && replacement@ == seq![m]
        }),
    ensures
        pattern@ == EMOJI_RUN@ ==> r@ == text@.filter(|c: char| !emoji(c)),
        pattern@ == WHITE_RUN@ ==> r@ == collapse(text@),
        forall|m: char| #[trigger] spaced(pattern@, m) ==> r@ == replace_all(text@, seq![' ', m], seq![m]),
{
    regex::Regex::new(pattern).unwrap().replace_all(text, replacement).to_string()
}

/// `Regex::is_match` of the `regex` crate: a class followed by `$` matches the
/// texts whose last character is in the class.
#[verifier::external_body]
pub(crate) fn is_match(pattern: &str, text: &str) -> (r: bool)
    requires
        pattern@ == CLOSING_END@,
    ensures
        r == (text@.len() > 0 && closing(text@.last())),
{
    regex::Regex::new(pattern).unwrap().is_match(text)
}

/// `Regex::split` of the `regex` crate: the stretches of the text between the
/// successive matches. A match of the paragraph break is the leftmost, and
/// takes as much white space as leaves a line feed at its end.
#[verifier::external_body]
pub(crate) fn split(pattern: &str, text: &str) -> (r: Vec<String>)
    requires
        pattern@ == PARAGRAPH_BREAK@,
    ensures
        texts(r@) == paragraphs(text@),
{
    regex::Regex::new(pattern).unwrap().split(text).map(str::to_string).collect()
}

/// `Regex::find_iter` of the `regex` crate: the byte ranges of the successive
/// matches, the leftmost first and without overlap. A match of the sentence
/// stop is a terminator and the whole run of white space after it.
#[verifier::external_body]
pub(crate) fn find_all(pattern: &str, text: &str) -> (r: Vec<(usize, usize)>)
    requires
        pattern@ == SENTENCE_STOP@,
    ensures
        r@.len() == stops_from(text@, 0).len(),
        forall|k: int| 0 <= k < r@.len() ==> {
            &&& (#[trigger] r@[k]).0 == byte_offset(text@, stops_from(text@, 0)[k].0)
            &&& r@[k].1 == byte_offset(text@, stops_from(text@, 0)[k].1)
        },
{
    regex::Regex::new(pattern).unwrap().find_iter(text).map(|m| (m.start(), m.end())).collect()
}

} // verus!
