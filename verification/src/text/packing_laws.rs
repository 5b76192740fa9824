//! What holds of packing pieces into chunks.

use vstd::prelude::*;
use vstd::seq_lib::lemma_flatten_concat;

use crate::strings::{split_on, words};
use crate::text::chunk::{by_commas, by_sentences, by_words, cut, flushed, pack, sentences, trimmed};
use crate::text::chunk_laws::{lemma_trimmed, lemma_words_neat, neat};

verus! {

/// Pieces one after the other, with `sep` between them.
pub open spec fn joined(list: Seq<Seq<char>>, sep: Seq<char>) -> Seq<char>
    decreases list.len(),
{
    if list.len() == 0 {
        seq![]
    } else if list.len() == 1 {
        list[0]
    } else {
        joined(list.drop_last(), sep) + sep + list.last()
    }
}

/// Groups of pieces, each joined.
pub open spec fn all_joined(groups: Seq<Seq<Seq<char>>>, sep: Seq<char>) -> Seq<Seq<char>> {
    groups.map_values(|g: Seq<Seq<char>>| joined(g, sep))
}

/// Whether `groups` are the pieces of a list in order, none left out, in runs that are
/// not empty and that fit `max` characters when they are joined.
pub open spec fn grouped(
    groups: Seq<Seq<Seq<char>>>,
    list: Seq<Seq<char>>,
    sep: Seq<char>,
    max: int,
) -> bool {
    &&& groups.flatten() == list
    &&& forall|k: int|
        0 <= k < groups.len() ==> (#[trigger] groups[k]).len() > 0 && joined(groups[k], sep).len()
            <= max
}

/// Whether every piece has characters, at most `max`.
pub open spec fn all_fit(list: Seq<Seq<char>>, max: int) -> bool {
    forall|k: int| 0 <= k < list.len() ==> 0 < (#[trigger] list[k]).len() <= max
}

/// The pieces of a list in groups, each with as many as fit. `group` is the group under
/// construction.
pub open spec fn greedy(
    list: Seq<Seq<char>>,
    sep: Seq<char>,
    max: int,
    group: Seq<Seq<char>>,
) -> Seq<Seq<Seq<char>>>
    decreases list.len(),
{
    if list.len() == 0 {
        if group.len() == 0 {
            seq![]
        } else {
            seq![group]
        }
    } else if group.len() > 0 && joined(group, sep).len() + sep.len() + list[0].len() > max {
        seq![group] + greedy(list.skip(1), sep, max, seq![list[0]])
    } else {
        greedy(list.skip(1), sep, max, group.push(list[0]))
    }
}

// ---------------------------------------------------------------------------
// Joining
// ---------------------------------------------------------------------------

/// Two lists in a row are joined where they meet.
proof fn lemma_joined_add(a: Seq<Seq<char>>, b: Seq<Seq<char>>, sep: Seq<char>)
    requires
        a.len() > 0,
        b.len() > 0,
    ensures
        joined(a + b, sep) == joined(a, sep) + sep + joined(b, sep),
    decreases b.len(),
{
    let both = a + b;
    assert(both.last() == b.last());
    if b.len() == 1 {
        assert(both.drop_last() == a);
        assert(b[0] == b.last());
    } else {
        assert(both.drop_last() == a + b.drop_last());
        lemma_joined_add(a, b.drop_last(), sep);
        let x = joined(a, sep);
        let y = joined(b.drop_last(), sep);
        assert(x + sep + y + sep + b.last() == x + sep + (y + sep + b.last()));
    }
}

/// A part of a list at either end is no longer than the list.
proof fn lemma_joined_part(list: Seq<Seq<char>>, k: int, sep: Seq<char>)
    requires
        0 < k < list.len(),
    ensures
        joined(list.take(k), sep).len() <= joined(list, sep).len(),
        joined(list.skip(k), sep).len() <= joined(list, sep).len(),
{
    assert(list.take(k) + list.skip(k) == list);
    lemma_joined_add(list.take(k), list.skip(k), sep);
}

/// Joining groups and then joining the results joins all pieces.
proof fn lemma_joined_groups(groups: Seq<Seq<Seq<char>>>, sep: Seq<char>)
    requires
        forall|k: int| 0 <= k < groups.len() ==> (#[trigger] groups[k]).len() > 0,
    ensures
        joined(all_joined(groups, sep), sep) == joined(groups.flatten(), sep),
        groups.len() > 0 ==> groups.flatten().len() > 0,
    decreases groups.len(),
{
    let done = all_joined(groups, sep);
    if groups.len() == 0 {
        assert(groups == Seq::<Seq<Seq<char>>>::empty());
        assert(groups.flatten() == Seq::<Seq<char>>::empty());
    } else {
        let front = groups.drop_last();
        let last = groups.last();
        assert(last == groups[groups.len() - 1]);
        assert(groups == front + seq![last]);
        lemma_flatten_concat(front, seq![last]);
        seq![last].lemma_flatten_one_element();
        assert(groups.flatten() == front.flatten() + last);
        assert forall|k: int| 0 <= k < front.len() implies (#[trigger] front[k]).len() > 0 by {
            assert(front[k] == groups[k]);
        }
        lemma_joined_groups(front, sep);
        if front.len() == 0 {
            assert(front == Seq::<Seq<Seq<char>>>::empty());
            assert(front.flatten() == Seq::<Seq<char>>::empty());
            assert(groups.flatten() == last);
            assert(done[0] == joined(last, sep));
        } else {
            assert(done.drop_last() == all_joined(front, sep));
            assert(done.last() == joined(last, sep));
            lemma_joined_add(front.flatten(), last, sep);
        }
    }
}

// ---------------------------------------------------------------------------
// Packing makes greedy groups
// ---------------------------------------------------------------------------

proof fn lemma_greedy(
    list: Seq<Seq<char>>,
    sep: Seq<char>,
    max: int,
    refine: spec_fn(Seq<char>) -> Seq<Seq<char>>,
    group: Seq<Seq<char>>,
)
    requires
        all_fit(list, max),
        group.len() > 0 ==> 0 < joined(group, sep).len() <= max,
    ensures
        pack(list, sep, max, refine, joined(group, sep)) == all_joined(
            greedy(list, sep, max, group),
            sep,
        ),
        grouped(greedy(list, sep, max, group), group + list, sep, max),
    decreases list.len(),
{
    let cur = joined(group, sep);
    let groups = greedy(list, sep, max, group);
    if list.len() == 0 {
        assert(group + list == group);
        if group.len() == 0 {
            assert(group == Seq::<Seq<char>>::empty());
            assert(groups.flatten() == Seq::<Seq<char>>::empty());
            assert(all_joined(groups, sep) == flushed(cur));
        } else {
            groups.lemma_flatten_one_element();
            assert(all_joined(groups, sep) == seq![cur]);
        }
    } else {
        let p = list[0];
        let rest = list.skip(1);
        assert forall|k: int| 0 <= k < rest.len() implies 0 < (#[trigger] rest[k]).len() <= max by {
            assert(rest[k] == list[k + 1]);
        }
        if group.len() > 0 && cur.len() + sep.len() + p.len() > max {
            lemma_greedy(rest, sep, max, refine, seq![p]);
            let more = greedy(rest, sep, max, seq![p]);
            lemma_flatten_concat(seq![group], more);
            seq![group].lemma_flatten_one_element();
            assert(groups.flatten() == group + (seq![p] + rest));
            assert(seq![p] + rest == list);
            assert(all_joined(groups, sep) == seq![cur] + all_joined(more, sep));
            assert forall|k: int| 0 <= k < groups.len() implies (#[trigger] groups[k]).len() > 0
                && joined(groups[k], sep).len() <= max by {
                if k > 0 {
                    assert(groups[k] == more[k - 1]);
                }
            }
        } else {
            let next = group.push(p);
            assert(next.drop_last() == group);
            if group.len() == 0 {
                assert(next == seq![p]);
                assert(cur.len() == 0);
            } else {
                assert(joined(next, sep) == cur + sep + p);
            }
            lemma_greedy(rest, sep, max, refine, next);
            assert(next + rest == group + list);
        }
    }
}

// ---------------------------------------------------------------------------
// No grouping has fewer groups
// ---------------------------------------------------------------------------

/// Without the first `k` pieces no more groups are needed.
proof fn lemma_drop(
    groups: Seq<Seq<Seq<char>>>,
    list: Seq<Seq<char>>,
    sep: Seq<char>,
    max: int,
    k: int,
) -> (r: Seq<Seq<Seq<char>>>)
    requires
        grouped(groups, list, sep, max),
        0 <= k <= list.len(),
    ensures
        grouped(r, list.skip(k), sep, max),
        r.len() <= groups.len(),
    decreases groups.len(),
{
    if k == 0 {
        assert(list.skip(0) == list);
        groups
    } else {
        assert(groups.len() > 0) by {
            if groups.len() == 0 {
                assert(groups.flatten() == Seq::<Seq<char>>::empty());
            }
        }
        let first = groups[0];
        let others = groups.skip(1);
        let n = first.len() as int;
        assert(groups == seq![first] + others);
        lemma_flatten_concat(seq![first], others);
        seq![first].lemma_flatten_one_element();
        assert(list == first + others.flatten());
        assert(grouped(others, list.skip(n), sep, max)) by {
            assert(list.skip(n) == others.flatten());
            assert forall|j: int| 0 <= j < others.len() implies (#[trigger] others[j]).len() > 0
                && joined(others[j], sep).len() <= max by {
                assert(others[j] == groups[j + 1]);
            }
        }
        if k >= n {
            let r = lemma_drop(others, list.skip(n), sep, max, k - n);
            assert(list.skip(n).skip(k - n) == list.skip(k));
            r
        } else {
            let rest = first.skip(k);
            lemma_joined_part(first, k, sep);
            let r = seq![rest] + others;
            lemma_flatten_concat(seq![rest], others);
            seq![rest].lemma_flatten_one_element();
            assert(r.flatten() == list.skip(k));
            assert forall|j: int| 0 <= j < r.len() implies (#[trigger] r[j]).len() > 0 && joined(
                r[j],
                sep,
            ).len() <= max by {
                if j > 0 {
                    assert(r[j] == others[j - 1]);
                }
            }
            r
        }
    }
}

proof fn lemma_least(
    list: Seq<Seq<char>>,
    sep: Seq<char>,
    max: int,
    group: Seq<Seq<char>>,
    groups: Seq<Seq<Seq<char>>>,
)
    requires
        group.len() > 0,
        grouped(groups, group + list, sep, max),
    ensures
        greedy(list, sep, max, group).len() <= groups.len(),
    decreases list.len(),
{
    let all = group + list;
    assert(groups.len() > 0) by {
        if groups.len() == 0 {
            assert(groups.flatten() == Seq::<Seq<char>>::empty());
        }
    }
    if list.len() > 0 {
        let p = list[0];
        let rest = list.skip(1);
        let next = group.push(p);
        assert(next + rest == all);
        if joined(group, sep).len() + sep.len() + p.len() > max {
            let first = groups[0];
            let others = groups.skip(1);
            let n = first.len() as int;
            assert(groups == seq![first] + others);
            lemma_flatten_concat(seq![first], others);
            seq![first].lemma_flatten_one_element();
            assert(all == first + others.flatten());
            assert(n <= group.len()) by {
                if n > group.len() {
                    let m = group.len() + 1;
                    assert(first.take(m as int) == all.take(m as int));
                    assert(all.take(m as int) == next);
                    assert(next.drop_last() == group);
                    assert(joined(next, sep) == joined(group, sep) + sep + p);
                    if m < n {
                        lemma_joined_part(first, m as int, sep);
                    } else {
                        assert(first.take(m as int) == first);
                    }
                }
            }
            assert(grouped(others, all.skip(n), sep, max)) by {
                assert(all.skip(n) == others.flatten());
                assert forall|j: int| 0 <= j < others.len() implies (#[trigger] others[j]).len() > 0
                    && joined(others[j], sep).len() <= max by {
                    assert(others[j] == groups[j + 1]);
                }
            }
            let k = group.len() - n;
            let tail = lemma_drop(others, all.skip(n), sep, max, k);
            assert(all.skip(n).skip(k) == seq![p] + rest);
            lemma_least(rest, sep, max, seq![p], tail);
        } else {
            lemma_least(rest, sep, max, next, groups);
        }
    }
}

// ---------------------------------------------------------------------------
// Laws
// ---------------------------------------------------------------------------

/// Pieces that all fit are packed whole: each chunk is a run of consecutive pieces with
/// the separator between them, no longer than `max`, and the chunks, joined in the same
/// way, are all the pieces joined.
pub proof fn law_packing_keeps_pieces(
    list: Seq<Seq<char>>,
    sep: Seq<char>,
    max: int,
    refine: spec_fn(Seq<char>) -> Seq<Seq<char>>,
)
    requires
        all_fit(list, max),
    ensures
        ({
            let groups = greedy(list, sep, max, seq![]);
            &&& grouped(groups, list, sep, max)
            &&& pack(list, sep, max, refine, seq![]) == all_joined(groups, sep)
        }),
        joined(pack(list, sep, max, refine, seq![]), sep) == joined(list, sep),
{
    let none = Seq::<Seq<char>>::empty();
    lemma_greedy(list, sep, max, refine, none);
    assert(none + list == list);
    lemma_joined_groups(greedy(list, sep, max, none), sep);
}

/// Packing pieces that all fit makes as few chunks as can be: no way to group the pieces
/// in order, in runs that fit, has fewer groups.
pub proof fn law_packing_is_least(
    list: Seq<Seq<char>>,
    sep: Seq<char>,
    max: int,
    refine: spec_fn(Seq<char>) -> Seq<Seq<char>>,
    groups: Seq<Seq<Seq<char>>>,
)
    requires
        all_fit(list, max),
        grouped(groups, list, sep, max),
    ensures
        pack(list, sep, max, refine, seq![]).len() <= groups.len(),
{
    law_packing_keeps_pieces(list, sep, max, refine);
    if list.len() > 0 {
        let p = list[0];
        let rest = list.skip(1);
        assert(seq![p] + rest == list);
        assert(Seq::<Seq<char>>::empty().push(p) == seq![p]);
        lemma_least(rest, sep, max, seq![p], groups);
    }
}

/// Trimmed pieces of at most `max` characters fit.
proof fn lemma_trimmed_fit(list: Seq<Seq<char>>, max: int)
    requires
        forall|k: int| 0 <= k < trimmed(list).len() ==> (#[trigger] trimmed(list)[k]).len() <= max,
    ensures
        all_fit(trimmed(list), max),
{
    lemma_trimmed(list);
    assert forall|k: int| 0 <= k < trimmed(list).len() implies 0 < (#[trigger] trimmed(
        list,
    )[k]).len() <= max by {
        assert(neat(trimmed(list)[k]));
    }
}

/// A paragraph whose sentences all fit is split into runs of whole sentences with a space
/// between them, which make up all of it, and into as few as can be.
pub proof fn law_sentences_are_packed(s: Seq<char>, max: int, groups: Seq<Seq<Seq<char>>>)
    requires
        forall|k: int|
            0 <= k < trimmed(sentences(s)).len() ==> (#[trigger] trimmed(sentences(s))[k]).len()
                <= max,
    ensures
        ({
            let own = greedy(trimmed(sentences(s)), " "@, max, seq![]);
            &&& grouped(own, trimmed(sentences(s)), " "@, max)
            &&& by_sentences(s, max) == all_joined(own, " "@)
        }),
        joined(by_sentences(s, max), " "@) == joined(trimmed(sentences(s)), " "@),
        grouped(groups, trimmed(sentences(s)), " "@, max) ==> by_sentences(s, max).len()
            <= groups.len(),
{
    let list = trimmed(sentences(s));
    let refine = |p: Seq<char>| by_commas(p, max);
    lemma_trimmed_fit(sentences(s), max);
    law_packing_keeps_pieces(list, " "@, max, refine);
    if grouped(groups, list, " "@, max) {
        law_packing_is_least(list, " "@, max, refine, groups);
    }
}

/// A sentence whose parts between commas all fit is split into runs of whole parts with a
/// comma and a space between them, which make up all of it, and into as few as can be.
pub proof fn law_parts_are_packed(s: Seq<char>, max: int, groups: Seq<Seq<Seq<char>>>)
    requires
        forall|k: int|
            0 <= k < trimmed(split_on(s, ',')).len() ==> (#[trigger] trimmed(
                split_on(s, ','),
            )[k]).len() <= max,
    ensures
        ({
            let own = greedy(trimmed(split_on(s, ',')), ", "@, max, seq![]);
            &&& grouped(own, trimmed(split_on(s, ',')), ", "@, max)
            &&& by_commas(s, max) == all_joined(own, ", "@)
        }),
        joined(by_commas(s, max), ", "@) == joined(trimmed(split_on(s, ',')), ", "@),
        grouped(groups, trimmed(split_on(s, ',')), ", "@, max) ==> by_commas(s, max).len()
            <= groups.len(),
{
    let list = trimmed(split_on(s, ','));
    let refine = |p: Seq<char>| by_words(p, max);
    lemma_trimmed_fit(split_on(s, ','), max);
    law_packing_keeps_pieces(list, ", "@, max, refine);
    if grouped(groups, list, ", "@, max) {
        law_packing_is_least(list, ", "@, max, refine, groups);
    }
}

/// A text whose words all fit is split into runs of whole words with a space between
/// them, which make up all of it, and into as few as can be.
pub proof fn law_words_are_packed(s: Seq<char>, max: int, groups: Seq<Seq<Seq<char>>>)
    requires
        forall|k: int| 0 <= k < words(s).len() ==> (#[trigger] words(s)[k]).len() <= max,
    ensures
        ({
            let own = greedy(words(s), " "@, max, seq![]);
            &&& grouped(own, words(s), " "@, max)
            &&& by_words(s, max) == all_joined(own, " "@)
        }),
        joined(by_words(s, max), " "@) == joined(words(s), " "@),
        grouped(groups, words(s), " "@, max) ==> by_words(s, max).len() <= groups.len(),
{
    let list = words(s);
    let refine = |w: Seq<char>| cut(w, max);
    lemma_words_neat(s);
    assert forall|k: int| 0 <= k < list.len() implies 0 < (#[trigger] list[k]).len() <= max by {
        assert(neat(list[k]));
    }
    law_packing_keeps_pieces(list, " "@, max, refine);
    if grouped(groups, list, " "@, max) {
        law_packing_is_least(list, " "@, max, refine, groups);
    }
}

} // verus!
