//! What came of the samples, and the sums over all of them.

use vstd::prelude::*;

use crate::roundtrip::wer::{errors_between, lemma_distance_bound, normalized, wer, WordErrors};
use crate::strings::{chars_of, trim, trim_of};

verus! {

/// What came back of a sample that was to be spoken and transcribed.
#[derive(Debug)]
pub enum Reply {
    /// It was not spoken.
    Unspoken,
    /// Its audio is empty.
    Silent,
    /// Its audio was not written.
    Unsaved,
    /// Its audio was not transcribed.
    Unheard,
    /// Its transcript.
    Heard(String),
}

/// What came of a sample.
#[derive(Debug, Clone, Copy, PartialEq, Eq, Structural)]
pub enum Outcome {
    /// It is blank.
    Skipped,
    /// There is no transcript of it.
    Failed,
    /// It was compared with its transcript.
    Compared(WordErrors),
}

/// The sums over samples.
#[derive(Debug, Clone, Copy, PartialEq, Eq, Structural)]
pub struct Tally {
    /// Words that must be changed.
    pub edits: usize,
    /// Words that this is out of.
    pub words: usize,
    /// Samples that were compared.
    pub done: usize,
    /// Samples that are blank.
    pub skipped: usize,
    /// Samples without a transcript.
    pub errors: usize,
}

// ---------------------------------------------------------------------------
// One sample
// ---------------------------------------------------------------------------

/// Whether `o` is what comes of a sample with the given reply: a blank sample is skipped,
/// and the words of any other are compared with those of its transcript.
pub open spec fn comes_of(o: Outcome, text: Seq<char>, reply: Reply) -> bool {
    if trim(text).len() == 0 {
        o == Outcome::Skipped
    } else {
        match reply {
            Reply::Heard(heard) => o matches Outcome::Compared(e) && (e.edits as int, e.words as int)
                == errors_between(normalized(text), normalized(heard@)),
            _ => o == Outcome::Failed,
        }
    }
}

/// Whether a sample is to be spoken: it is, unless it is blank.
pub fn is_spoken(text: &str) -> (r: bool)
    ensures
        r == (trim(text@).len() > 0),
{
    let chars = chars_of(text);
    trim_of(chars.as_slice()).len() > 0
}

/// Finds what came of a sample.
pub fn outcome_of(text: &str, reply: &Reply) -> (r: Outcome)
    ensures
        comes_of(r, text@, *reply),
{
    if !is_spoken(text) {
        return Outcome::Skipped;
    }
    match reply {
        Reply::Heard(heard) => Outcome::Compared(wer(text, heard.as_str())),
        _ => Outcome::Failed,
    }
}

// ---------------------------------------------------------------------------
// Sums
// ---------------------------------------------------------------------------

impl Tally {
    /// Whether the sums with one more sample are machine words.
    pub open spec fn room(self, o: Outcome) -> bool {
        match o {
            Outcome::Skipped => self.skipped < usize::MAX,
            Outcome::Failed => self.errors < usize::MAX,
            Outcome::Compared(e) => {
                &&& self.done < usize::MAX
                &&& self.edits + e.edits <= usize::MAX
                &&& self.words + e.words <= usize::MAX
            },
        }
    }

    /// The sums with one more sample.
    pub open spec fn after(self, o: Outcome) -> Tally {
        match o {
            Outcome::Skipped => Tally { skipped: (self.skipped + 1) as usize, ..self },
            Outcome::Failed => Tally { errors: (self.errors + 1) as usize, ..self },
            Outcome::Compared(e) => Tally {
                edits: (self.edits + e.edits) as usize,
                words: (self.words + e.words) as usize,
                done: (self.done + 1) as usize,
                ..self
            },
        }
    }

    /// The sums over no samples.
    pub fn new() -> (r: Tally)
        ensures
            r == (Tally { edits: 0, words: 0, done: 0, skipped: 0, errors: 0 }),
    {
        Tally { edits: 0, words: 0, done: 0, skipped: 0, errors: 0 }
    }

    /// Whether the sums with one more sample are machine words.
    pub fn has_room(&self, o: &Outcome) -> (r: bool)
        ensures
            r == self.room(*o),
    {
        match *o {
            Outcome::Skipped => self.skipped < usize::MAX,
            Outcome::Failed => self.errors < usize::MAX,
            Outcome::Compared(e) => self.done < usize::MAX && e.edits <= usize::MAX - self.edits
                && e.words <= usize::MAX - self.words,
        }
    }
}

/// Counts one more sample.
pub fn counted(t: Tally, o: Outcome) -> (r: Tally)
    requires
        t.room(o),
    ensures
        r == t.after(o),
{
    let mut sums = t;
    match o {
        Outcome::Skipped => {
            sums.skipped = sums.skipped + 1;
        },
        Outcome::Failed => {
            sums.errors = sums.errors + 1;
        },
        Outcome::Compared(e) => {
            sums.edits = sums.edits + e.edits;
            sums.words = sums.words + e.words;
            sums.done = sums.done + 1;
        },
    }
    sums
}

// ---------------------------------------------------------------------------
// Laws
// ---------------------------------------------------------------------------

/// A sum over the samples that were compared.
pub open spec fn sum(outcomes: Seq<Outcome>, of: spec_fn(WordErrors) -> int) -> int
    decreases outcomes.len(),
{
    if outcomes.len() == 0 {
        0
    } else {
        sum(outcomes.drop_last(), of) + match outcomes.last() {
            Outcome::Compared(e) => of(e),
            _ => 0,
        }
    }
}

/// How many outcomes are of a sort.
pub open spec fn many(outcomes: Seq<Outcome>, sort: spec_fn(Outcome) -> bool) -> int {
    outcomes.filter(sort).len() as int
}

/// Whether each tally counts one more outcome than the one before it, from none on.
pub open spec fn tallies(states: Seq<Tally>, outcomes: Seq<Outcome>) -> bool {
    &&& states.len() == outcomes.len() + 1
    &&& states[0] == (Tally { edits: 0, words: 0, done: 0, skipped: 0, errors: 0 })
    &&& forall|i: int|
        0 <= i < outcomes.len() ==> (#[trigger] states[i]).room(outcomes[i]) && states[i + 1]
            == states[i].after(outcomes[i])
}

/// A tally holds the edits and the words of all samples that were compared and the number
/// of samples of each sort, and every sample is counted once.
pub proof fn law_tally_adds_up(states: Seq<Tally>, outcomes: Seq<Outcome>)
    requires
        tallies(states, outcomes),
    ensures
        states.last().edits == sum(outcomes, |e: WordErrors| e.edits as int),
        states.last().words == sum(outcomes, |e: WordErrors| e.words as int),
        states.last().done == many(outcomes, |o: Outcome| o is Compared),
        states.last().skipped == many(outcomes, |o: Outcome| o is Skipped),
        states.last().errors == many(outcomes, |o: Outcome| o is Failed),
        states.last().done + states.last().skipped + states.last().errors == outcomes.len(),
    decreases outcomes.len(),
{
    reveal(Seq::filter);
    if outcomes.len() > 0 {
        let n = outcomes.len() - 1;
        let front = states.drop_last();
        let fewer = outcomes.drop_last();
        assert forall|i: int| 0 <= i < fewer.len() implies (#[trigger] front[i]).room(fewer[i])
            && front[i + 1] == front[i].after(fewer[i]) by {
            assert(states[i].room(outcomes[i]));
            assert(front[i] == states[i] && front[i + 1] == states[i + 1]);
        }
        law_tally_adds_up(front, fewer);
        assert(front.last() == states[n]);
        assert(states[n].room(outcomes[n]));
        assert(states.last() == states[n].after(outcomes.last()));
    }
}

/// No more words must be changed than there are: the aggregate rate is at most one, and
/// so is that of each sample.
pub proof fn law_rate_at_most_one(
    states: Seq<Tally>,
    outcomes: Seq<Outcome>,
    samples: Seq<Seq<char>>,
    replies: Seq<Reply>,
)
    requires
        tallies(states, outcomes),
        samples.len() == outcomes.len(),
        replies.len() == outcomes.len(),
        forall|i: int|
            0 <= i < outcomes.len() ==> comes_of(#[trigger] outcomes[i], samples[i], replies[i]),
    ensures
        forall|i: int|
            0 <= i < outcomes.len() ==> (#[trigger] outcomes[i] matches Outcome::Compared(e)
                ==> e.edits <= e.words),
        states.last().edits <= states.last().words,
    decreases outcomes.len(),
{
    assert forall|i: int| 0 <= i < outcomes.len() implies (#[trigger] outcomes[i] matches
        Outcome::Compared(e) ==> e.edits <= e.words) by {
        match replies[i] {
            Reply::Heard(heard) => {
                lemma_distance_bound(normalized(samples[i]), normalized(heard@));
            },
            _ => {},
        }
    }
    if outcomes.len() > 0 {
        let n = outcomes.len() - 1;
        let front = states.drop_last();
        let fewer = outcomes.drop_last();
        assert forall|i: int| 0 <= i < fewer.len() implies (#[trigger] front[i]).room(fewer[i])
            && front[i + 1] == front[i].after(fewer[i]) by {
            assert(states[i].room(outcomes[i]));
            assert(front[i] == states[i] && front[i + 1] == states[i + 1]);
        }
        assert forall|i: int| 0 <= i < fewer.len() implies comes_of(
            #[trigger] fewer[i],
            samples.drop_last()[i],
            replies.drop_last()[i],
        ) by {
            assert(comes_of(outcomes[i], samples[i], replies[i]));
        }
        law_rate_at_most_one(front, fewer, samples.drop_last(), replies.drop_last());
        assert(front.last() == states[n]);
        assert(states[n].room(outcomes[n]));
        assert(states.last() == states[n].after(outcomes[n]));
    }
}

} // verus!
