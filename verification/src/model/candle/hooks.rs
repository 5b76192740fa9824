//! Named results of a network.

use vstd::prelude::*;

use crate::strings::same_text;

verus! {

/// Results by name, in the order in which they were recorded.
#[derive(Debug)]
pub struct Hooks<T> {
    pub records: Vec<(String, T)>,
}

/// The position of the first record of a name, at or after `k`, or the number of
/// records.
pub open spec fn first_named<T>(records: Seq<(String, T)>, name: Seq<char>, k: int) -> int
    decreases records.len() - k,
{
    if 0 <= k < records.len() && records[k].0@ != name {
        first_named(records, name, k + 1)
    } else {
        k
    }
}

impl<T> Hooks<T> {
    /// No records.
    pub fn new() -> (r: Self)
        ensures
            r.records@.len() == 0,
    {
        Hooks { records: Vec::new() }
    }

    /// Records a result.
    pub fn record(&mut self, name: String, value: T)
        ensures
            final(self).records@ == old(self).records@.push((name, value)),
    {
        self.records.push((name, value));
    }

    /// The first result that was recorded under a name.
    pub fn get(&self, name: &str) -> (r: Option<&T>)
        ensures
            ({
                let at = first_named(self.records@, name@, 0);
                match r {
                    Some(value) => at < self.records@.len() && self.records@[at].0@ == name@
                        && *value == self.records@[at].1,
                    None => at >= self.records@.len() && forall|k: int|
                        0 <= k < self.records@.len() ==> (#[trigger] self.records@[k]).0@ != name@,
                }
            }),
    {
        let mut k: usize = 0;
        while k < self.records.len()
            invariant
                k <= self.records@.len(),
                first_named(self.records@, name@, k as int) == first_named(
                    self.records@,
                    name@,
                    0,
                ),
                forall|j: int| 0 <= j < k ==> (#[trigger] self.records@[j]).0@ != name@,
            decreases self.records@.len() - k,
        {
            if same_text(self.records[k].0.as_str(), name) {
                return Some(&self.records[k].1);
            }
            k = k + 1;
        }
        None
    }
}

/// What is recorded is found: under a new name the new result, under another name
/// what was found before.
pub proof fn law_record_is_found<T>(records: Seq<(String, T)>, name: String, value: T, other: Seq<
    char,
>)
    ensures
        ({
            let after = records.push((name, value));
            let before = first_named(records, other, 0);
            if before < records.len() {
                first_named(after, other, 0) == before && after[before] == records[before]
            } else if other == name@ {
                first_named(after, other, 0) == records.len()
            } else {
                first_named(after, other, 0) == after.len()
            }
        }),
{
    lemma_first_named(records, name, value, other, 0);
}

proof fn lemma_first_named<T>(
    records: Seq<(String, T)>,
    name: String,
    value: T,
    other: Seq<char>,
    k: int,
)
    requires
        0 <= k <= records.len(),
    ensures
        ({
            let after = records.push((name, value));
            let before = first_named(records, other, k);
            &&& k <= before <= records.len()
            &&& if before < records.len() {
                first_named(after, other, k) == before
            } else if other == name@ {
                first_named(after, other, k) == records.len()
            } else {
                first_named(after, other, k) == after.len()
            }
        }),
    decreases records.len() - k,
{
    let after = records.push((name, value));
    if k < records.len() {
        assert(after[k] == records[k]);
        if records[k].0@ != other {
            lemma_first_named(records, name, value, other, k + 1);
        }
    } else {
        assert(after[k] == (name, value));
        assert(first_named(after, other, k + 1) == k + 1);
    }
}

} // verus!
