//! Finding the transcript in what a recognizer prints.

use vstd::prelude::*;

use crate::string_laws::{blank, law_split, law_split_apart, law_trim};
use crate::strings::{
    chars_of, pieces, split_at_char, split_on, stands_at, starts_with, string_of, trim, trim_of,
    white,
};
use crate::text::chunk::{trimmed, trimmed_of};
use crate::text::chunk_laws::neat;
use crate::text::chunking_laws::{lemma_trimmed_add, lemma_trimmed_one};

verus! {

/// What a transcript may be introduced by.
pub const INTRODUCTION: &'static str = "transcript:";

/// The last line that is not blank, trimmed, or nothing.
pub open spec fn last_line(output: Seq<char>) -> Seq<char> {
    let lines = trimmed(split_on(output, '\n'));
    if lines.len() == 0 {
        seq![]
    } else {
        lines.last()
    }
}

/// The transcript: the last line that is not blank, without its introduction.
pub open spec fn transcript(output: Seq<char>) -> Seq<char> {
    let last = last_line(output);
    if starts_with(last, INTRODUCTION@) {
        trim(last.skip(INTRODUCTION@.len() as int))
    } else {
        last
    }
}

/// Finds the transcript in the output of a recognizer.
pub fn pluck_transcript(output: &str) -> (r: String)
    ensures
        r@ == transcript(output@),
{
    let chars = chars_of(output);
    let lines = trimmed_of(&split_at_char(chars.as_slice(), '\n'));
    let ghost all = pieces(lines@);
    if lines.len() == 0 {
        assert(all.len() == 0);
        let none: Vec<char> = Vec::new();
        proof {
            reveal_strlit("transcript:");
        }
        return string_of(none.as_slice());
    }
    let last = &lines[lines.len() - 1];
    assert(all.last() == last@);
    assert(last@.skip(0) == last@);
    let intro = chars_of(INTRODUCTION);
    if stands_at(last.as_slice(), 0, intro.as_slice()) {
        let rest = vstd::slice::slice_subrange(last.as_slice(), intro.len(), last.len());
        assert(rest@ == last@.skip(INTRODUCTION@.len() as int));
        string_of(trim_of(rest))
    } else {
        string_of(last.as_slice())
    }
}

// ---------------------------------------------------------------------------
// Laws
// ---------------------------------------------------------------------------

proof fn lemma_blank_parts(rest: Seq<char>)
    requires
        blank(rest),
    ensures
        trimmed(split_on(rest, '\n')) == Seq::<Seq<char>>::empty(),
    decreases rest.len(),
{
    let none = Seq::<char>::empty();
    let nothing = Seq::<Seq<char>>::empty();
    if rest.contains('\n') {
        let i = choose|i: int| 0 <= i < rest.len() && rest[i] == '\n';
        let a = rest.take(i);
        let b = rest.skip(i + 1);
        assert(rest == a + seq!['\n'] + b);
        assert(blank(a)) by {
            assert forall|k: int| 0 <= k < a.len() implies white(#[trigger] a[k]) by {
                assert(a[k] == rest[k]);
            }
        }
        assert(blank(b)) by {
            assert forall|k: int| 0 <= k < b.len() implies white(#[trigger] b[k]) by {
                assert(b[k] == rest[i + 1 + k]);
            }
        }
        lemma_blank_parts(a);
        lemma_blank_parts(b);
        law_split_apart(a, '\n', b);
        lemma_trimmed_add(split_on(a, '\n'), split_on(b, '\n'));
        assert(nothing + nothing == nothing);
    } else {
        law_split(rest, '\n', none);
        law_trim(rest, none, none);
        assert(rest + none + none == rest);
        lemma_trimmed_one(rest);
    }
}

/// The transcript is the last line that says something, whatever stands before it and
/// however much white space behind it; an introduction is taken off it.
pub proof fn law_last_line_is_transcript(before: Seq<char>, line: Seq<char>, rest: Seq<char>)
    requires
        neat(line),
        !line.contains('\n'),
        blank(rest),
    ensures
        transcript(before + seq!['\n'] + line + seq!['\n'] + rest) == transcript(line),
        transcript(line) == if starts_with(line, "transcript:"@) {
            trim(line.skip(11))
        } else {
            line
        },
{
    reveal_strlit("transcript:");
    let none = Seq::<char>::empty();
    let all = before + seq!['\n'] + line + seq!['\n'] + rest;
    law_split_apart(before + seq!['\n'] + line, '\n', rest);
    law_split_apart(before, '\n', line);
    law_split(line, '\n', none);
    let x = split_on(before, '\n');
    let y = split_on(rest, '\n');
    lemma_trimmed_add(x + seq![line], y);
    lemma_trimmed_add(x, seq![line]);
    lemma_trimmed_one(line);
    law_trim(none, line, none);
    assert(none + line + none == line);
    lemma_blank_parts(rest);
    let list = trimmed(split_on(all, '\n'));
    assert(list == trimmed(x) + seq![line] + Seq::<Seq<char>>::empty());
    assert(list.last() == line);
    assert(trimmed(split_on(line, '\n')) == seq![line]);
}

/// Where nothing is said, there is no transcript.
pub proof fn law_nothing_said(rest: Seq<char>)
    requires
        blank(rest),
    ensures
        transcript(rest).len() == 0,
{
    lemma_blank_parts(rest);
    reveal_strlit("transcript:");
}

} // verus!
