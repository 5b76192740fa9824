//! What holds of the word error rate.

use vstd::prelude::*;

use crate::roundtrip::wer::{
    alphanumeric, blanked, distance, errors_between, lemma_distance_bound, lowercase, marks,
    normalized,
};
use crate::string_laws::law_words_apart;
use crate::strings::{white, words};

verus! {

/// One edit of a text, from its end.
pub enum Edit {
    /// The last words agree.
    Keep,
    /// The last word is replaced.
    Replace,
    /// A word is inserted.
    Insert,
    /// The last word is deleted.
    Delete,
}

/// Whether a list of edits turns `a` into `b`.
pub open spec fn turns(edits: Seq<Edit>, a: Seq<Seq<char>>, b: Seq<Seq<char>>) -> bool
    decreases edits.len(),
{
    if edits.len() == 0 {
        a.len() == 0 && b.len() == 0
    } else {
        let rest = edits.drop_last();
        match edits.last() {
            Edit::Keep => a.len() > 0 && b.len() > 0 && a.last() == b.last() && turns(
                rest,
                a.drop_last(),
                b.drop_last(),
            ),
            Edit::Replace => a.len() > 0 && b.len() > 0 && turns(
                rest,
                a.drop_last(),
                b.drop_last(),
            ),
            Edit::Insert => b.len() > 0 && turns(rest, a, b.drop_last()),
            Edit::Delete => a.len() > 0 && turns(rest, a.drop_last(), b),
        }
    }
}

/// The number of edits that change a word.
pub open spec fn cost(edits: Seq<Edit>) -> int
    decreases edits.len(),
{
    if edits.len() == 0 {
        0
    } else {
        cost(edits.drop_last()) + if edits.last() is Keep {
            0int
        } else {
            1
        }
    }
}

/// No list of edits turns one text into another with fewer changes than their
/// distance.
pub proof fn law_distance_is_least(edits: Seq<Edit>, a: Seq<Seq<char>>, b: Seq<Seq<char>>)
    requires
        turns(edits, a, b),
    ensures
        distance(a, b) <= cost(edits),
    decreases edits.len(),
{
    if edits.len() > 0 {
        let rest = edits.drop_last();
        match edits.last() {
            Edit::Keep | Edit::Replace => {
                law_distance_is_least(rest, a.drop_last(), b.drop_last());
            },
            Edit::Insert => {
                law_distance_is_least(rest, a, b.drop_last());
                if a.len() == 0 {
                    assert(a == Seq::<Seq<char>>::empty());
                    lemma_inserts(rest, b.drop_last());
                }
            },
            Edit::Delete => {
                law_distance_is_least(rest, a.drop_last(), b);
                if b.len() == 0 {
                    assert(b == Seq::<Seq<char>>::empty());
                    lemma_deletes(rest, a.drop_last());
                }
            },
        }
    }
}

proof fn lemma_inserts(edits: Seq<Edit>, b: Seq<Seq<char>>)
    requires
        turns(edits, seq![], b),
    ensures
        b.len() <= cost(edits),
    decreases edits.len(),
{
    if edits.len() > 0 {
        lemma_inserts(edits.drop_last(), b.drop_last());
    }
}

proof fn lemma_deletes(edits: Seq<Edit>, a: Seq<Seq<char>>)
    requires
        turns(edits, a, seq![]),
    ensures
        a.len() <= cost(edits),
    decreases edits.len(),
{
    if edits.len() > 0 {
        lemma_deletes(edits.drop_last(), a.drop_last());
    }
}

/// Some list of edits turns one text into another with as many changes as their
/// distance.
pub proof fn law_distance_is_reached(a: Seq<Seq<char>>, b: Seq<Seq<char>>) -> (edits: Seq<Edit>)
    ensures
        turns(edits, a, b),
        cost(edits) == distance(a, b),
    decreases a.len() + b.len(),
{
    if a.len() == 0 && b.len() == 0 {
        Seq::<Edit>::empty()
    } else if a.len() == 0 {
        let rest = law_distance_is_reached(a, b.drop_last());
        let edits = rest.push(Edit::Insert);
        assert(edits.drop_last() == rest);
        edits
    } else if b.len() == 0 {
        let rest = law_distance_is_reached(a.drop_last(), b);
        let edits = rest.push(Edit::Delete);
        assert(edits.drop_last() == rest);
        edits
    } else {
        let d = distance(a, b);
        if d == distance(a, b.drop_last()) + 1 {
            let rest = law_distance_is_reached(a, b.drop_last());
            let edits = rest.push(Edit::Insert);
            assert(edits.drop_last() == rest);
            edits
        } else if d == distance(a.drop_last(), b) + 1 {
            let rest = law_distance_is_reached(a.drop_last(), b);
            let edits = rest.push(Edit::Delete);
            assert(edits.drop_last() == rest);
            edits
        } else {
            let rest = law_distance_is_reached(a.drop_last(), b.drop_last());
            let edits = if a.last() == b.last() {
                rest.push(Edit::Keep)
            } else {
                rest.push(Edit::Replace)
            };
            assert(edits.drop_last() == rest);
            edits
        }
    }
}

/// The distance is the same in both directions.
pub proof fn law_distance_symmetric(a: Seq<Seq<char>>, b: Seq<Seq<char>>)
    ensures
        distance(a, b) == distance(b, a),
    decreases a.len() + b.len(),
{
    if a.len() > 0 && b.len() > 0 {
        law_distance_symmetric(a, b.drop_last());
        law_distance_symmetric(a.drop_last(), b);
        law_distance_symmetric(a.drop_last(), b.drop_last());
    }
}

/// The distance is at least the difference of the lengths.
pub proof fn law_distance_covers_lengths(a: Seq<Seq<char>>, b: Seq<Seq<char>>)
    ensures
        a.len() - b.len() <= distance(a, b),
        b.len() - a.len() <= distance(a, b),
    decreases a.len() + b.len(),
{
    if a.len() > 0 && b.len() > 0 {
        law_distance_covers_lengths(a, b.drop_last());
        law_distance_covers_lengths(a.drop_last(), b);
        law_distance_covers_lengths(a.drop_last(), b.drop_last());
    }
}

/// The distance is zero for equal texts, and only for those.
pub proof fn law_distance_zero(a: Seq<Seq<char>>, b: Seq<Seq<char>>)
    ensures
        distance(a, b) == 0 <==> a == b,
    decreases a.len() + b.len(),
{
    if a.len() == 0 {
        assert(b.len() == 0 ==> a == b);
    } else if b.len() == 0 {
    } else {
        lemma_distance_bound(a, b.drop_last());
        lemma_distance_bound(a.drop_last(), b);
        lemma_distance_bound(a.drop_last(), b.drop_last());
        law_distance_zero(a.drop_last(), b.drop_last());
        if distance(a, b) == 0 {
            assert(a == a.drop_last().push(a.last()));
            assert(b == b.drop_last().push(b.last()));
        }
    }
}

/// Edits that turn `a` into `b` and edits that turn `b` into `c` make edits that turn
/// `a` into `c`.
proof fn lemma_edits_compose(
    one: Seq<Edit>,
    two: Seq<Edit>,
    a: Seq<Seq<char>>,
    b: Seq<Seq<char>>,
    c: Seq<Seq<char>>,
) -> (edits: Seq<Edit>)
    requires
        turns(one, a, b),
        turns(two, b, c),
    ensures
        turns(edits, a, c),
        cost(edits) <= cost(one) + cost(two),
    decreases one.len() + two.len(),
{
    if one.len() == 0 && two.len() == 0 {
        Seq::<Edit>::empty()
    } else if one.len() > 0 && one.last() is Delete {
        let rest = lemma_edits_compose(one.drop_last(), two, a.drop_last(), b, c);
        let edits = rest.push(Edit::Delete);
        assert(edits.drop_last() == rest);
        edits
    } else if two.len() > 0 && two.last() is Insert {
        let rest = lemma_edits_compose(one, two.drop_last(), a, b, c.drop_last());
        let edits = rest.push(Edit::Insert);
        assert(edits.drop_last() == rest);
        edits
    } else if one.last() is Insert && two.last() is Delete {
        lemma_edits_compose(one.drop_last(), two.drop_last(), a, b.drop_last(), c)
    } else if one.last() is Insert {
        let rest = lemma_edits_compose(
            one.drop_last(),
            two.drop_last(),
            a,
            b.drop_last(),
            c.drop_last(),
        );
        let edits = rest.push(Edit::Insert);
        assert(edits.drop_last() == rest);
        edits
    } else if two.last() is Delete {
        let rest = lemma_edits_compose(
            one.drop_last(),
            two.drop_last(),
            a.drop_last(),
            b.drop_last(),
            c,
        );
        let edits = rest.push(Edit::Delete);
        assert(edits.drop_last() == rest);
        edits
    } else {
        let rest = lemma_edits_compose(
            one.drop_last(),
            two.drop_last(),
            a.drop_last(),
            b.drop_last(),
            c.drop_last(),
        );
        let edits = if one.last() is Keep && two.last() is Keep {
            rest.push(Edit::Keep)
        } else {
            rest.push(Edit::Replace)
        };
        assert(edits.drop_last() == rest);
        edits
    }
}

/// The distance by way of a third text is no shorter.
pub proof fn law_distance_triangle(a: Seq<Seq<char>>, b: Seq<Seq<char>>, c: Seq<Seq<char>>)
    ensures
        distance(a, c) <= distance(a, b) + distance(b, c),
{
    let one = law_distance_is_reached(a, b);
    let two = law_distance_is_reached(b, c);
    let edits = lemma_edits_compose(one, two, a, b, c);
    law_distance_is_least(edits, a, c);
}

/// No more words are wrong than there are: the word error rate is at most one.
pub proof fn law_rate_at_most_one(a: Seq<Seq<char>>, b: Seq<Seq<char>>)
    ensures
        0 <= errors_between(a, b).0 <= errors_between(a, b).1,
        errors_between(a, b).1 == 0 <==> a.len() == 0 && b.len() == 0,
{
    lemma_distance_bound(a, b);
}

/// What is compared of a text: where all of it counts, its words as they are; and a
/// character that does not count parts the words before it from those behind it, as white
/// space does.
pub proof fn law_punctuation_parts_words(
    a: Seq<char>,
    ma: Seq<bool>,
    c: char,
    b: Seq<char>,
    mb: Seq<bool>,
)
    requires
        a.len() == ma.len(),
        b.len() == mb.len(),
    ensures
        words(blanked(a + seq![c] + b, ma + seq![false] + mb)) == words(blanked(a, ma)) + words(
            blanked(b, mb),
        ),
        (forall|i: int| 0 <= i < a.len() ==> #[trigger] ma[i]) ==> blanked(a, ma) == a,
{
    let all = blanked(a + seq![c] + b, ma + seq![false] + mb);
    let x = blanked(a, ma);
    let y = blanked(b, mb);
    let mid = if white(c) {
        c
    } else {
        ' '
    };
    assert(all == x + seq![mid] + y);
    law_words_apart(x, mid, y);
    if forall|i: int| 0 <= i < a.len() ==> #[trigger] ma[i] {
        assert(x == a);
    }
}

/// The words that are compared are those of the text in lower case, where what is neither a
/// letter, a digit nor white space does not count.
pub proof fn law_compared_in_lower_case(text: Seq<char>, i: int)
    requires
        0 <= i < lowercase(text).len(),
    ensures
        ({
            let low = lowercase(text);
            &&& normalized(text) == words(blanked(low, marks(low)))
            &&& marks(low).len() == low.len()
            &&& marks(low)[i] == alphanumeric(low[i])
        }),
{
}

/// The errors are counted out of as many words as the longer text has.
pub proof fn law_out_of_longer(a: Seq<Seq<char>>, b: Seq<Seq<char>>)
    ensures
        errors_between(a, b).0 == distance(a, b),
        errors_between(a, b).1 >= a.len(),
        errors_between(a, b).1 >= b.len(),
        errors_between(a, b).1 == a.len() || errors_between(a, b).1 == b.len(),
{
}

} // verus!
