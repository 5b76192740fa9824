//! The word error rate: how many words must be changed to turn one text into the
//! other.

use vstd::prelude::*;

use crate::numbers::{larger, larger_of, smaller};
use crate::strings::{
    chars_of, is_white, pieces, same_text, string_of, texts, white, words, words_of,
};

verus! {

/// The number of words that must be inserted, deleted or replaced to turn `a` into
/// `b`.
pub open spec fn distance(a: Seq<Seq<char>>, b: Seq<Seq<char>>) -> int
    decreases a.len() + b.len(),
{
    if a.len() == 0 {
        b.len() as int
    } else if b.len() == 0 {
        a.len() as int
    } else {
        let insert = distance(a, b.drop_last()) + 1;
        let delete = distance(a.drop_last(), b) + 1;
        let keep = distance(a.drop_last(), b.drop_last()) + if a.last() == b.last() {
            0int
        } else {
            1
        };
        smaller(smaller(insert, delete), keep)
    }
}

/// No more words must be changed than the longer text has.
pub proof fn lemma_distance_bound(a: Seq<Seq<char>>, b: Seq<Seq<char>>)
    ensures
        0 <= distance(a, b) <= larger(a.len() as int, b.len() as int),
    decreases a.len() + b.len(),
{
    if a.len() > 0 && b.len() > 0 {
        lemma_distance_bound(a, b.drop_last());
        lemma_distance_bound(a.drop_last(), b);
        lemma_distance_bound(a.drop_last(), b.drop_last());
    }
}

/// Computes one entry of the table from its neighbours.
fn entry(insert: usize, delete: usize, keep: usize, same: bool, Ghost(bound): Ghost<int>) -> (r:
    usize)
    requires
        smaller(
            smaller(insert + 1, delete + 1),
            keep + if same {
                0int
            } else {
                1
            },
        ) <= bound <= usize::MAX,
    ensures
        r == smaller(
            smaller(insert + 1, delete + 1),
            keep + if same {
                0int
            } else {
                1
            },
        ),
{
    let change: usize = if insert <= delete {
        insert
    } else {
        delete
    };
    if same {
        if keep > change && keep - 1 > change {
            change + 1
        } else {
            keep
        }
    } else if keep <= change {
        keep + 1
    } else {
        change + 1
    }
}

/// How many words must be changed to turn `a` into `b`.
pub fn word_edit_distance(a: &[String], b: &[String]) -> (r: usize)
    ensures
        r == distance(texts(a@), texts(b@)),
{
    let ghost ta = texts(a@);
    let ghost tb = texts(b@);
    let n: usize = b.len();
    let mut row: Vec<usize> = Vec::new();
    row.push(0);
    assert(ta.take(0) == Seq::<Seq<char>>::empty());
    for j in 0..n
        invariant
            n == tb.len(),
            ta.take(0) == Seq::<Seq<char>>::empty(),
            row@.len() == j + 1,
            forall|k: int| 0 <= k <= j ==> #[trigger] row@[k] == distance(ta.take(0), tb.take(k)),
    {
        row.push(j + 1);
        assert(tb.take(j + 1).len() == j + 1);
    }
    for i in 0..a.len()
        invariant
            ta == texts(a@),
            tb == texts(b@),
            n == b@.len(),
            row@.len() == n + 1,
            forall|k: int|
                0 <= k <= n ==> #[trigger] row@[k] == distance(ta.take(i as int), tb.take(k)),
    {
        let ghost at = ta.take(i + 1);
        assert(at.drop_last() == ta.take(i as int));
        assert(at.last() == a@[i as int]@);
        let mut next: Vec<usize> = Vec::new();
        next.push(i + 1);
        assert(tb.take(0).len() == 0);
        for j in 0..n
            invariant
                ta == texts(a@),
                tb == texts(b@),
                n == b@.len(),
                i < a@.len(),
                at == ta.take(i + 1),
                at.drop_last() == ta.take(i as int),
                at.last() == a@[i as int]@,
                row@.len() == n + 1,
                forall|k: int|
                    0 <= k <= n ==> #[trigger] row@[k] == distance(ta.take(i as int), tb.take(k)),
                next@.len() == j + 1,
                forall|k: int| 0 <= k <= j ==> #[trigger] next@[k] == distance(at, tb.take(k)),
        {
            let ghost bt = tb.take(j + 1);
            assert(bt.drop_last() == tb.take(j as int));
            assert(bt.last() == b@[j as int]@);
            let same = same_text(a[i].as_str(), b[j].as_str());
            proof {
                lemma_distance_bound(at, bt);
                assert(a@.len() == a.len() && b@.len() == b.len());
            }
            let ghost bound = larger(at.len() as int, bt.len() as int);
            let insert: usize = next[j];
            let delete: usize = row[j + 1];
            let keep: usize = row[j];
            let here = entry(insert, delete, keep, same, Ghost(bound));
            next.push(here);
        }
        row = next;
    }
    assert(ta.take(a@.len() as int) == ta);
    assert(tb.take(n as int) == tb);
    row[n]
}

// ---------------------------------------------------------------------------
// Words
// ---------------------------------------------------------------------------

/// What `str::to_lowercase` makes of a text.
pub uninterp spec fn lowercase(text: Seq<char>) -> Seq<char>;

/// What `char::is_alphanumeric` says of a character.
pub uninterp spec fn alphanumeric(c: char) -> bool;

/// Calls `str::to_lowercase`. The result depends on the text alone.
#[verifier::external_body]
fn to_lowercase(text: &str) -> (r: String)
    ensures
        r@ == lowercase(text@),
{
    text.to_lowercase()
}

/// Calls `char::is_alphanumeric`. The result depends on the character alone.
#[verifier::external_body]
fn is_alphanumeric(c: char) -> (r: bool)
    ensures
        r == alphanumeric(c),
{
    c.is_alphanumeric()
}

/// A text in which what is neither white space nor marked is blank.
pub open spec fn blanked(text: Seq<char>, marked: Seq<bool>) -> Seq<char> {
    Seq::new(
        text.len(),
        |i: int|
            if marked[i] || white(text[i]) {
                text[i]
            } else {
                ' '
            },
    )
}

/// Which characters of a text are alphanumeric.
pub open spec fn marks(text: Seq<char>) -> Seq<bool> {
    text.map_values(|c: char| alphanumeric(c))
}

/// The words of a text as they are compared: in lower case, without punctuation.
pub open spec fn normalized(text: Seq<char>) -> Seq<Seq<char>> {
    words(blanked(lowercase(text), marks(lowercase(text))))
}

/// The words of a text, where only white space and what is marked counts.
pub fn marked_words(text: &[char], marked: &[bool]) -> (r: Vec<String>)
    requires
        text@.len() == marked@.len(),
    ensures
        texts(r@) == words(blanked(text@, marked@)),
{
    let mut plain: Vec<char> = Vec::new();
    for i in 0..text.len()
        invariant
            text@.len() == marked@.len(),
            plain@ == blanked(text@, marked@).take(i as int),
    {
        let c = if marked[i] || is_white(text[i]) {
            text[i]
        } else {
            ' '
        };
        plain.push(c);
        assert(plain@ == blanked(text@, marked@).take(i + 1));
    }
    assert(blanked(text@, marked@).take(text@.len() as int) == blanked(text@, marked@));
    let list = words_of(plain.as_slice());
    let mut out: Vec<String> = Vec::new();
    for i in 0..list.len()
        invariant
            texts(out@) == pieces(list@).take(i as int),
    {
        let ghost before = out@;
        let word = string_of(list[i].as_slice());
        out.push(word);
        assert(texts(out@) == texts(before).push(word@));
        assert(pieces(list@).take(i + 1) == pieces(list@).take(i as int).push(list@[i as int]@));
    }
    assert(pieces(list@).take(list@.len() as int) == pieces(list@));
    out
}

/// The words of a text as they are compared.
pub fn normalize_for_wer(text: &str) -> (r: Vec<String>)
    ensures
        texts(r@) == normalized(text@),
{
    let lower = to_lowercase(text);
    let chars = chars_of(lower.as_str());
    let mut marked: Vec<bool> = Vec::new();
    for i in 0..chars.len()
        invariant
            marked@ == marks(chars@).take(i as int),
    {
        marked.push(is_alphanumeric(chars[i]));
        assert(marked@ == marks(chars@).take(i + 1));
    }
    assert(marks(chars@).take(chars@.len() as int) == marks(chars@));
    marked_words(chars.as_slice(), marked.as_slice())
}

/// The word errors of a transcript: how many words must be changed, out of how many.
#[derive(Debug, Clone, Copy, PartialEq, Eq, Structural)]
pub struct WordErrors {
    pub edits: usize,
    pub words: usize,
}

/// The word errors between two lists of words, out of as many as the longer has.
pub open spec fn errors_between(a: Seq<Seq<char>>, b: Seq<Seq<char>>) -> (int, int) {
    (distance(a, b), larger(a.len() as int, b.len() as int))
}

/// Counts the word errors between two lists of words.
pub fn count_errors(reference: &[String], hypothesis: &[String]) -> (r: WordErrors)
    ensures
        (r.edits as int, r.words as int) == errors_between(texts(reference@), texts(hypothesis@)),
{
    let words: usize = larger_of(reference.len(), hypothesis.len());
    let edits: usize = word_edit_distance(reference, hypothesis);
    WordErrors { edits, words }
}

/// Counts the word errors of a transcript.
pub fn wer(reference: &str, hypothesis: &str) -> (r: WordErrors)
    ensures
        (r.edits as int, r.words as int) == errors_between(
            normalized(reference@),
            normalized(hypothesis@),
        ),
{
    let a = normalize_for_wer(reference);
    let b = normalize_for_wer(hypothesis);
    count_errors(a.as_slice(), b.as_slice())
}

} // verus!
