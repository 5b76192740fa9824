//! The code point table: from text to rows of token ids.

use vstd::prelude::*;

use crate::numbers::{larger, larger_of};
use crate::strings::texts;

verus! {

/// Stands in for the id of a code point that the table does not cover.
pub const UNKNOWN_ID: i64 = -1;

/// Fills a row up to the length of the longest.
pub const PADDING_ID: i64 = 0;

/// The error that `serde_json` reports.
#[verifier::external_type_specification]
#[verifier::external_body]
pub struct ExJsonError(serde_json::Error);

/// What is wrong with a code point table.
#[derive(Debug, Clone, Copy, PartialEq, Eq, Structural)]
pub enum TableError {
    /// The table is not a JSON array of 64-bit signed integers.
    Malformed,
}

/// A table of token ids, indexed by code point.
#[derive(Debug)]
pub struct UnicodeIndexer {
    table: Vec<i64>,
}

/// Encoded texts, padded to equal length.
#[derive(Debug)]
pub struct Batch {
    /// One row of ids for each text, all equally long.
    pub ids: Vec<Vec<i64>>,
    /// How many ids of each row are of the text.
    pub lengths: Vec<usize>,
    /// For each row, which of its ids are of the text.
    pub mask: Vec<Vec<bool>>,
}

/// The id of one character.
pub open spec fn id_of(table: Seq<i64>, c: char) -> i64 {
    if (c as int) < table.len() {
        table[c as int]
    } else {
        UNKNOWN_ID
    }
}

/// The ids of a text, one for each character.
pub open spec fn encoded(table: Seq<i64>, text: Seq<char>) -> Seq<i64> {
    text.map_values(|c: char| id_of(table, c))
}

/// The number of characters of the longest text.
pub open spec fn longest(list: Seq<Seq<char>>) -> int
    decreases list.len(),
{
    if list.len() == 0 {
        0
    } else {
        larger(longest(list.drop_last()), list.last().len() as int)
    }
}

/// The row filled up to `n` ids.
pub open spec fn padded(row: Seq<i64>, n: int) -> Seq<i64> {
    row + Seq::new((n - row.len()) as nat, |i: int| PADDING_ID)
}

/// The mask of a row of `n` of which the first `len` count.
pub open spec fn mask_row(len: int, n: int) -> Seq<bool> {
    Seq::new(n as nat, |i: int| i < len)
}

/// Whether `b` is the batch of the given texts.
pub open spec fn batch_of(table: Seq<i64>, list: Seq<Seq<char>>, b: Batch) -> bool {
    &&& b.ids@.len() == list.len()
    &&& b.lengths@.len() == list.len()
    &&& b.mask@.len() == list.len()
    &&& forall|i: int|
        0 <= i < list.len() ==> {
            &&& b.ids@[i]@ == padded(encoded(table, #[trigger] list[i]), longest(list))
            &&& b.lengths@[i] == list[i].len()
            &&& b.mask@[i]@ == mask_row(list[i].len() as int, longest(list))
        }
}

/// Fills a row up to `n` ids.
fn pad(row: Vec<i64>, n: usize) -> (r: Vec<i64>)
    requires
        row@.len() <= n,
    ensures
        r@ == padded(row@, n as int),
{
    let mut out = row;
    while out.len() < n
        invariant
            row@.len() <= out@.len() <= n,
            out@ == padded(row@, out@.len() as int),
        decreases n - out.len(),
    {
        out.push(PADDING_ID);
        assert(out@ == padded(row@, out@.len() as int));
    }
    out
}

/// Makes the mask of a row of `n` of which the first `len` count.
pub fn make_mask_row(len: usize, n: usize) -> (r: Vec<bool>)
    ensures
        r@ == mask_row(len as int, n as int),
{
    let mut out: Vec<bool> = Vec::new();
    for i in 0..n
        invariant
            out@ == mask_row(len as int, i as int),
    {
        out.push(i < len);
        assert(out@ == mask_row(len as int, i + 1));
    }
    out
}

/// The longest text is in the list, or the list is empty; none is longer.
pub proof fn lemma_longest(list: Seq<Seq<char>>)
    ensures
        forall|i: int| 0 <= i < list.len() ==> (#[trigger] list[i]).len() <= longest(list),
        longest(list) == 0 || exists|i: int|
            0 <= i < list.len() && (#[trigger] list[i]).len() == longest(list),
    decreases list.len(),
{
    if list.len() > 0 {
        let front = list.drop_last();
        lemma_longest(front);
        assert forall|i: int| 0 <= i < list.len() implies (#[trigger] list[i]).len() <= longest(
            list,
        ) by {
            if i < front.len() {
                assert(front[i] == list[i]);
            }
        }
        if longest(list) == list.last().len() {
            assert(list[list.len() - 1].len() == longest(list));
        } else if longest(front) != 0 {
            let i = choose|i: int| 0 <= i < front.len() && (#[trigger] front[i]).len() == longest(front);
            assert(list[i].len() == longest(list));
        }
    }
}

/// What `serde_json::from_slice` makes of bytes that are to be an array of 64-bit
/// signed integers.
pub uninterp spec fn json_integers(bytes: Seq<u8>) -> Option<Seq<i64>>;

/// Calls `serde_json::from_slice` for a list of 64-bit signed integers. The result
/// depends on the bytes alone.
#[verifier::external_body]
fn parse_integers(bytes: &[u8]) -> (r: Result<Vec<i64>, serde_json::Error>)
    ensures
        match r {
            Ok(list) => json_integers(bytes@) == Some(list@),
            Err(_) => json_integers(bytes@) is None,
        },
{
    serde_json::from_slice(bytes)
}

impl View for UnicodeIndexer {
    type V = Seq<i64>;

    /// The table.
    closed spec fn view(&self) -> Seq<i64> {
        self.table@
    }
}

impl UnicodeIndexer {
    /// An indexer over the given table.
    pub fn from_table(table: Vec<i64>) -> (r: Self)
        ensures
            r@ == table@,
    {
        UnicodeIndexer { table }
    }

    /// An indexer over the table that a JSON array of integers holds.
    pub fn load(bytes: &[u8]) -> (r: Result<Self, TableError>)
        ensures
            match r {
                Ok(indexer) => json_integers(bytes@) == Some(indexer@),
                Err(TableError::Malformed) => json_integers(bytes@) is None,
            },
    {
        match parse_integers(bytes) {
            Ok(table) => Ok(Self::from_table(table)),
            Err(_) => Err(TableError::Malformed),
        }
    }

    /// Number of entries of the table.
    pub fn len(&self) -> (r: usize)
        ensures
            r == self@.len(),
    {
        self.table.len()
    }

    /// The id of one character.
    fn id(&self, c: char) -> (r: i64)
        ensures
            r == id_of(self@, c),
    {
        let code: u32 = c as u32;
        let at: usize = code as usize;
        if at < self.table.len() {
            self.table[at]
        } else {
            UNKNOWN_ID
        }
    }

    /// The ids of a preprocessed text, one for each character.
    pub fn encode(&self, text: &str) -> (r: Vec<i64>)
        ensures
            r@ == encoded(self@, text@),
    {
        let mut out: Vec<i64> = Vec::new();
        for c in it: text.chars()
            invariant
                it.seq() == text@,
                out@ == encoded(self.table@, it.seq().take(it.index())),
        {
            let id = self.id(c);
            out.push(id);
            assert(out@ == encoded(self.table@, it.seq().take(it.index() + 1)));
        }
        assert(text@.take(text@.len() as int) == text@);
        out
    }

    /// Encodes preprocessed texts and fills the rows up to the longest. The mask
    /// tells the ids of the text from the filling.
    pub fn encode_batch(&self, list: &[String]) -> (r: Batch)
        ensures
            batch_of(self@, texts(list@), r),
    {
        let mut rows: Vec<Vec<i64>> = Vec::new();
        let mut lengths: Vec<usize> = Vec::new();
        let mut max_len: usize = 0;
        let ghost all = texts(list@);
        assert(all.take(0) == Seq::<Seq<char>>::empty());
        for i in 0..list.len()
            invariant
                all == texts(list@),
                rows@.len() == i,
                lengths@.len() == i,
                max_len == longest(all.take(i as int)),
                forall|k: int|
                    0 <= k < i ==> rows@[k]@ == encoded(self@, #[trigger] all[k]) && lengths@[k]
                        == all[k].len(),
        {
            let row = self.encode(list[i].as_str());
            let n: usize = row.len();
            assert(all.take(i + 1).drop_last() == all.take(i as int));
            assert(all.take(i + 1).last() == list@[i as int]@);
            max_len = larger_of(max_len, n);
            rows.push(row);
            lengths.push(n);
        }
        assert(all.take(all.len() as int) == all);
        proof {
            lemma_longest(all);
        }
        let mut ids: Vec<Vec<i64>> = Vec::new();
        let mut mask: Vec<Vec<bool>> = Vec::new();
        for i in 0..rows.len()
            invariant
                all == texts(list@),
                rows@.len() == all.len(),
                lengths@.len() == all.len(),
                ids@.len() == i,
                mask@.len() == i,
                max_len == longest(all),
                forall|k: int| 0 <= k < all.len() ==> (#[trigger] all[k]).len() <= longest(all),
                forall|k: int|
                    0 <= k < all.len() ==> rows@[k]@ == encoded(self@, #[trigger] all[k])
                        && lengths@[k] == all[k].len(),
                forall|k: int|
                    0 <= k < i ==> {
                        &&& ids@[k]@ == padded(encoded(self@, #[trigger] all[k]), longest(all))
                        &&& mask@[k]@ == mask_row(all[k].len() as int, longest(all))
                    },
        {
            assert(rows@[i as int]@ == encoded(self@, all[i as int]));
            assert(all[i as int].len() <= longest(all));
            let row = rows[i].clone();
            let row = pad(row, max_len);
            ids.push(row);
            mask.push(make_mask_row(lengths[i], max_len));
        }
        Batch { ids, lengths, mask }
    }
}

/// A text is encoded character by character: the ids of two texts in a row are
/// the ids of the first, then those of the second.
pub proof fn law_encode_in_parts(table: Seq<i64>, a: Seq<char>, b: Seq<char>)
    ensures
        encoded(table, a + b) == encoded(table, a) + encoded(table, b),
        encoded(table, a).len() == a.len(),
{
    assert(encoded(table, a + b) == encoded(table, a) + encoded(table, b));
}

/// In a batch the ids of a text are those of the text on its own, however long the
/// other texts are, and the mask marks just these.
pub proof fn law_batch_row(table: Seq<i64>, list: Seq<Seq<char>>, b: Batch, i: int)
    requires
        batch_of(table, list, b),
        0 <= i < list.len(),
    ensures
        b.ids@[i]@.take(b.lengths@[i] as int) == encoded(table, list[i]),
        b.ids@[i]@.len() == b.mask@[i]@.len() == longest(list),
        forall|k: int| 0 <= k < longest(list) ==> (#[trigger] b.mask@[i]@[k] <==> k < b.lengths@[i]),
        forall|k: int|
            b.lengths@[i] <= k < longest(list) ==> #[trigger] b.ids@[i]@[k] == PADDING_ID,
{
    lemma_longest(list);
    assert(b.ids@[i]@ == padded(encoded(table, list[i]), longest(list)));
    assert(b.ids@[i]@.take(b.lengths@[i] as int) == encoded(table, list[i]));
}

/// The id of a character is the entry of the table at its code point, or minus one past the
/// end of the table.
pub proof fn law_ids_by_code_point(table: Seq<i64>, text: Seq<char>, i: int)
    requires
        0 <= i < text.len(),
    ensures
        encoded(table, text).len() == text.len(),
        encoded(table, text)[i] == if (text[i] as int) < table.len() {
            table[text[i] as int]
        } else {
            -1i64
        },
{
}

/// A batch is as wide as its longest text: none is longer, and one is as long. Ids that
/// stand for nothing are zero.
pub proof fn law_batch_width(list: Seq<Seq<char>>, row: Seq<i64>, n: int, k: int)
    requires
        list.len() > 0,
        row.len() <= k < n,
    ensures
        forall|i: int| 0 <= i < list.len() ==> (#[trigger] list[i]).len() <= longest(list),
        exists|i: int| 0 <= i < list.len() && (#[trigger] list[i]).len() == longest(list),
        padded(row, n).len() == n,
        padded(row, n)[k] == 0,
    decreases list.len(),
{
    let front = list.drop_last();
    let n_last = list.len() - 1;
    assert(list[n_last] == list.last());
    if front.len() > 0 {
        law_batch_width(front, row, n, k);
        let j = choose|j: int| 0 <= j < front.len() && (#[trigger] front[j]).len() == longest(front);
        assert(list[j] == front[j]);
        assert forall|i: int| 0 <= i < list.len() implies (#[trigger] list[i]).len() <= longest(
            list,
        ) by {
            if i < front.len() {
                assert(list[i] == front[i]);
            }
        }
        if longest(front) >= list.last().len() {
            assert(list[j].len() == longest(list));
        } else {
            assert(list[n_last].len() == longest(list));
        }
    } else {
        assert(longest(front) == 0);
        assert(list[n_last].len() == longest(list));
    }
}

} // verus!
