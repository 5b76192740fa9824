//! One utterance, from token ids to samples: which network runs when, and what it
//! is fed.
//!
//! The arrays themselves are of the backend's own type, `T`; nothing here looks
//! into them.

use vstd::prelude::*;

use crate::strings::texts;
use crate::text::indexer::{batch_of, encoded, longest, mask_row, padded, UnicodeIndexer};
use crate::text::patterns::nfkd;
use crate::text::preprocess::{clean, preprocess, tagged, valid_lang, TextError};

verus! {

/// The tokens of one utterance, with the mask that goes with them.
#[derive(Debug)]
pub struct Tokens {
    pub ids: Vec<i64>,
    pub mask: Vec<bool>,
}

/// Cleans, tags and encodes one utterance.
pub fn tokenize(indexer: &UnicodeIndexer, text: &str, lang: &str) -> (r: Result<Tokens, TextError>)
    ensures
        match r {
            Ok(t) => {
                let said = tagged(clean(nfkd(text@)), lang@);
                &&& valid_lang(lang@)
                &&& t.ids@ == encoded(indexer@, said)
                &&& t.mask@ == Seq::new(said.len(), |i: int| true)
            },
            Err(TextError::InvalidLang(l)) => !valid_lang(lang@) && l@ == lang@,
        },
{
    let said = match preprocess(text, lang) {
        Ok(said) => said,
        Err(e) => {
            return Err(e);
        },
    };
    let mut list: Vec<String> = Vec::new();
    let ghost said_text = said@;
    list.push(said);
    let mut batch = indexer.encode_batch(list.as_slice());
    proof {
        let all = texts(list@);
        assert(all == seq![said_text]);
        assert(all.drop_last() == Seq::<Seq<char>>::empty());
        assert(longest(all.drop_last()) == 0);
        assert(longest(all) == said_text.len());
        assert(all[0] == said_text);
        assert(batch_of(indexer@, all, batch));
        assert(padded(encoded(indexer@, said_text), said_text.len() as int) == encoded(
            indexer@,
            said_text,
        ));
        assert(mask_row(said_text.len() as int, said_text.len() as int) == Seq::new(
            said_text.len(),
            |i: int| true,
        ));
    }
    let ids = batch.ids.swap_remove(0);
    let mask = batch.mask.swap_remove(0);
    Ok(Tokens { ids, mask })
}

/// The networks of the model.
#[derive(Debug, Clone, Copy, PartialEq, Eq, Structural)]
pub enum Network {
    DurationPredictor,
    TextEncoder,
    VectorEstimator,
    Vocoder,
}

/// How far an utterance has come.
#[derive(Debug, Clone, Copy, PartialEq, Eq, Structural)]
pub enum Stage {
    /// The duration is to be predicted.
    Duration,
    /// The text is to be encoded.
    Text,
    /// The noise is to be drawn.
    Noise,
    /// The given step of the flow is to be taken.
    Flow(usize),
    /// The latent is to be turned into samples.
    Vocode,
    /// The samples are there.
    Done,
}

/// What a network is fed: an array, or a number.
#[derive(Debug)]
pub enum Feed<'a, T> {
    Array(&'a T),
    Number(usize),
}

/// What is to be done next.
#[derive(Debug)]
pub enum Request<'a, T> {
    /// Run a network on named arguments, and reply with its named output.
    Run { network: Network, feeds: Vec<(&'static str, Feed<'a, T>)>, output: &'static str },
    /// Draw noise for the given duration, and reply with it and its mask.
    Draw { duration: &'a T },
    /// Nothing; these are the samples.
    Finish { samples: &'a T },
}

/// An utterance under way.
#[derive(Debug)]
pub struct Utterance<T> {
    pub text_ids: T,
    pub text_mask: T,
    pub style_ttl: T,
    pub style_dp: T,
    pub total_steps: usize,
    pub stage: Stage,
    pub duration: Option<T>,
    pub text_emb: Option<T>,
    pub latent: Option<T>,
    pub latent_mask: Option<T>,
    pub samples: Option<T>,
}

/// The stage after a stage, where the flow takes `total` steps.
pub open spec fn next_stage(stage: Stage, total: int) -> Stage {
    match stage {
        Stage::Duration => Stage::Text,
        Stage::Text => Stage::Noise,
        Stage::Noise => if total > 0 {
            Stage::Flow(0)
        } else {
            Stage::Vocode
        },
        Stage::Flow(i) => if i + 1 < total {
            Stage::Flow((i + 1) as usize)
        } else {
            Stage::Vocode
        },
        Stage::Vocode => Stage::Done,
        Stage::Done => Stage::Done,
    }
}

/// The stage that is reached after `k` replies.
pub open spec fn stage_after(k: int, total: int) -> Stage {
    if k == 0 {
        Stage::Duration
    } else if k == 1 {
        Stage::Text
    } else if k == 2 {
        Stage::Noise
    } else if k < 3 + total {
        Stage::Flow((k - 3) as usize)
    } else if k == 3 + total {
        Stage::Vocode
    } else {
        Stage::Done
    }
}

/// The network that runs at a stage.
pub open spec fn network_at(stage: Stage) -> Option<Network> {
    match stage {
        Stage::Duration => Some(Network::DurationPredictor),
        Stage::Text => Some(Network::TextEncoder),
        Stage::Flow(_) => Some(Network::VectorEstimator),
        Stage::Vocode => Some(Network::Vocoder),
        _ => None,
    }
}

/// The name of a network's output.
pub open spec fn output_of(network: Network) -> &'static str {
    match network {
        Network::DurationPredictor => "duration",
        Network::TextEncoder => "text_emb",
        Network::VectorEstimator => "denoised_latent",
        Network::Vocoder => "wav_tts",
    }
}

impl<T> Utterance<T> {
    /// Whether everything that earlier stages produce is there.
    pub open spec fn wf(&self) -> bool {
        &&& self.stage !is Duration ==> self.duration is Some
        &&& self.stage !is Duration && self.stage !is Text ==> self.text_emb is Some
        &&& self.stage is Flow || self.stage is Vocode || self.stage is Done ==> self.latent is Some
            && self.latent_mask is Some
        &&& self.stage is Done ==> self.samples is Some
        &&& self.stage matches Stage::Flow(i) ==> i < self.total_steps
    }

    /// What the network of this stage is fed, by name.
    pub open spec fn feeds<'a>(&'a self) -> Seq<(&'static str, Feed<'a, T>)> {
        match self.stage {
            Stage::Duration => seq![
                ("text_ids", Feed::Array(&self.text_ids)),
                ("style_dp", Feed::Array(&self.style_dp)),
                ("text_mask", Feed::Array(&self.text_mask)),
            ],
            Stage::Text => seq![
                ("text_ids", Feed::Array(&self.text_ids)),
                ("style_ttl", Feed::Array(&self.style_ttl)),
                ("text_mask", Feed::Array(&self.text_mask)),
            ],
            Stage::Flow(step) => seq![
                ("noisy_latent", Feed::Array(&self.latent->0)),
                ("text_emb", Feed::Array(&self.text_emb->0)),
                ("style_ttl", Feed::Array(&self.style_ttl)),
                ("latent_mask", Feed::Array(&self.latent_mask->0)),
                ("text_mask", Feed::Array(&self.text_mask)),
                ("current_step", Feed::Number(step)),
                ("total_step", Feed::Number(self.total_steps)),
            ],
            Stage::Vocode => seq![("latent", Feed::Array(&self.latent->0))],
            _ => seq![],
        }
    }

    /// Whether all that the utterance was started with is the same in another.
    pub open spec fn same_inputs(&self, other: &Self) -> bool {
        &&& self.text_ids == other.text_ids
        &&& self.text_mask == other.text_mask
        &&& self.style_ttl == other.style_ttl
        &&& self.style_dp == other.style_dp
        &&& self.total_steps == other.total_steps
    }

    /// An utterance at its start.
    pub fn start(
        text_ids: T,
        text_mask: T,
        style_ttl: T,
        style_dp: T,
        total_steps: usize,
    ) -> (r: Self)
        ensures
            r.wf(),
            r == (Utterance {
                text_ids,
                text_mask,
                style_ttl,
                style_dp,
                total_steps,
                stage: Stage::Duration,
                duration: None,
                text_emb: None,
                latent: None,
                latent_mask: None,
                samples: None,
            }),
    {
        Utterance {
            text_ids,
            text_mask,
            style_ttl,
            style_dp,
            total_steps,
            stage: Stage::Duration,
            duration: None,
            text_emb: None,
            latent: None,
            latent_mask: None,
            samples: None,
        }
    }

    /// What is to be done next.
    pub fn request(&self) -> (r: Request<'_, T>)
        requires
            self.wf(),
        ensures
            match r {
                Request::Run { network, feeds, output } => {
                    &&& network_at(self.stage) == Some(network)
                    &&& feeds@ == self.feeds()
                    &&& output == output_of(network)
                },
                Request::Draw { duration } => self.stage is Noise && self.duration == Some(
                    *duration,
                ),
                Request::Finish { samples } => self.stage is Done && self.samples == Some(*samples),
            },
    {
        match self.stage {
            Stage::Duration => {
                let feeds = vec![
                    ("text_ids", Feed::Array(&self.text_ids)),
                    ("style_dp", Feed::Array(&self.style_dp)),
                    ("text_mask", Feed::Array(&self.text_mask)),
                ];
                assert(feeds@ == self.feeds());
                Request::Run { network: Network::DurationPredictor, feeds, output: "duration" }
            },
            Stage::Text => {
                let feeds = vec![
                    ("text_ids", Feed::Array(&self.text_ids)),
                    ("style_ttl", Feed::Array(&self.style_ttl)),
                    ("text_mask", Feed::Array(&self.text_mask)),
                ];
                assert(feeds@ == self.feeds());
                Request::Run { network: Network::TextEncoder, feeds, output: "text_emb" }
            },
            Stage::Noise => Request::Draw { duration: self.duration.as_ref().unwrap() },
            Stage::Flow(step) => {
                let feeds = vec![
                    ("noisy_latent", Feed::Array(self.latent.as_ref().unwrap())),
                    ("text_emb", Feed::Array(self.text_emb.as_ref().unwrap())),
                    ("style_ttl", Feed::Array(&self.style_ttl)),
                    ("latent_mask", Feed::Array(self.latent_mask.as_ref().unwrap())),
                    ("text_mask", Feed::Array(&self.text_mask)),
                    ("current_step", Feed::Number(step)),
                    ("total_step", Feed::Number(self.total_steps)),
                ];
                assert(feeds@ == self.feeds());
                Request::Run { network: Network::VectorEstimator, feeds, output: "denoised_latent" }
            },
            Stage::Vocode => {
                let feeds = vec![("latent", Feed::Array(self.latent.as_ref().unwrap()))];
                assert(feeds@ == self.feeds());
                Request::Run { network: Network::Vocoder, feeds, output: "wav_tts" }
            },
            Stage::Done => Request::Finish { samples: self.samples.as_ref().unwrap() },
        }
    }

    /// The utterance once the network that was to run has given its output.
    pub open spec fn replied(self, output: T) -> Self {
        let stage = next_stage(self.stage, self.total_steps as int);
        match self.stage {
            Stage::Duration => Utterance { stage, duration: Some(output), ..self },
            Stage::Text => Utterance { stage, text_emb: Some(output), ..self },
            Stage::Flow(_) => Utterance { stage, latent: Some(output), ..self },
            Stage::Vocode => Utterance { stage, samples: Some(output), ..self },
            _ => self,
        }
    }

    /// The utterance once the noise was drawn.
    pub open spec fn drawn(self, noise: T, mask: T) -> Self {
        Utterance {
            stage: next_stage(self.stage, self.total_steps as int),
            latent: Some(noise),
            latent_mask: Some(mask),
            ..self
        }
    }

    /// Takes the output of the network that was to run.
    pub fn reply(&mut self, output: T)
        requires
            old(self).wf(),
            network_at(old(self).stage) is Some,
        ensures
            final(self).wf(),
            *final(self) == old(self).replied(output),
    {
        match self.stage {
            Stage::Duration => {
                self.duration = Some(output);
                self.stage = Stage::Text;
            },
            Stage::Text => {
                self.text_emb = Some(output);
                self.stage = Stage::Noise;
            },
            Stage::Flow(step) => {
                self.latent = Some(output);
                if step + 1 < self.total_steps {
                    self.stage = Stage::Flow(step + 1);
                } else {
                    self.stage = Stage::Vocode;
                }
            },
            Stage::Vocode => {
                self.samples = Some(output);
                self.stage = Stage::Done;
            },
            _ => {},
        }
    }

    /// Takes the noise that was to be drawn, and its mask.
    pub fn reply_noise(&mut self, noise: T, mask: T)
        requires
            old(self).wf(),
            old(self).stage is Noise,
        ensures
            final(self).wf(),
            *final(self) == old(self).drawn(noise, mask),
    {
        self.latent = Some(noise);
        self.latent_mask = Some(mask);
        if self.total_steps > 0 {
            self.stage = Stage::Flow(0);
        } else {
            self.stage = Stage::Vocode;
        }
    }
}

// ---------------------------------------------------------------------------
// Laws
// ---------------------------------------------------------------------------

/// What the networks give for what they are fed, and the noise for a duration.
#[verifier::reject_recursive_types(T)]
pub struct Model<T> {
    /// From ids, style and mask to a duration.
    pub duration: spec_fn(T, T, T) -> T,
    /// From ids, style and mask to an embedding.
    pub text: spec_fn(T, T, T) -> T,
    /// From a duration to noise and its mask.
    pub noise: spec_fn(T) -> (T, T),
    /// From a latent, an embedding, a style, the masks of latent and text, the step and
    /// the number of steps to a latent.
    pub flow: spec_fn(T, T, T, T, T, usize, usize) -> T,
    /// From a latent to samples.
    pub vocode: spec_fn(T) -> T,
}

/// The utterance once a model has done what was to be done.
pub open spec fn advanced<T>(u: Utterance<T>, m: Model<T>) -> Utterance<T> {
    match u.stage {
        Stage::Duration => u.replied((m.duration)(u.text_ids, u.style_dp, u.text_mask)),
        Stage::Text => u.replied((m.text)(u.text_ids, u.style_ttl, u.text_mask)),
        Stage::Noise => {
            let (noise, mask) = (m.noise)(u.duration->0);
            u.drawn(noise, mask)
        },
        Stage::Flow(step) => u.replied(
            (m.flow)(
                u.latent->0,
                u.text_emb->0,
                u.style_ttl,
                u.latent_mask->0,
                u.text_mask,
                step,
                u.total_steps,
            ),
        ),
        Stage::Vocode => u.replied((m.vocode)(u.latent->0)),
        Stage::Done => u,
    }
}

/// The utterance once a model has done `k` such things.
pub open spec fn after<T>(u: Utterance<T>, m: Model<T>, k: int) -> Utterance<T>
    decreases k,
{
    if k <= 0 {
        u
    } else {
        advanced(after(u, m, k - 1), m)
    }
}

/// The latent after `i` steps of the flow, from the inputs of an utterance.
pub open spec fn latent_after<T>(u: Utterance<T>, m: Model<T>, i: int) -> T
    decreases i,
{
    let (noise, mask) = (m.noise)((m.duration)(u.text_ids, u.style_dp, u.text_mask));
    if i <= 0 {
        noise
    } else {
        (m.flow)(
            latent_after(u, m, i - 1),
            (m.text)(u.text_ids, u.style_ttl, u.text_mask),
            u.style_ttl,
            mask,
            u.text_mask,
            (i - 1) as usize,
            u.total_steps,
        )
    }
}

proof fn lemma_after<T>(u: Utterance<T>, m: Model<T>, k: int)
    requires
        u.stage is Duration,
        0 <= k <= 4 + u.total_steps,
    ensures
        ({
            let v = after(u, m, k);
            let duration = (m.duration)(u.text_ids, u.style_dp, u.text_mask);
            let (noise, mask) = (m.noise)(duration);
            &&& v.same_inputs(&u)
            &&& v.stage == stage_after(k, u.total_steps as int)
            &&& k >= 1 ==> v.duration == Some(duration)
            &&& k >= 2 ==> v.text_emb == Some((m.text)(u.text_ids, u.style_ttl, u.text_mask))
            &&& k >= 3 ==> v.latent_mask == Some(mask)
            &&& 3 <= k <= 3 + u.total_steps ==> v.latent == Some(latent_after(u, m, k - 3))
            &&& k == 4 + u.total_steps ==> v.samples == Some(
                (m.vocode)(latent_after(u, m, u.total_steps as int)),
            )
        }),
    decreases k,
{
    if k > 0 {
        lemma_after(u, m, k - 1);
        law_stages_in_order(k - 1, u.total_steps);
    }
}

/// An utterance is what the model makes of it: the samples at the end are the vocoded
/// latent that the flow reaches in all its steps from the noise for the predicted
/// duration, each step starting from the latent of the one before it.
pub proof fn law_utterance_is_vocoded_flow<T>(u: Utterance<T>, m: Model<T>)
    requires
        u.stage is Duration,
    ensures
        after(u, m, 4 + u.total_steps).stage is Done,
        after(u, m, 4 + u.total_steps).samples == Some(
            (m.vocode)(latent_after(u, m, u.total_steps as int)),
        ),
{
    lemma_after(u, m, 4 + u.total_steps);
    law_stages_in_order(4 + u.total_steps, u.total_steps);
}

/// Every utterance ends: the stages follow one another without repeating, the flow
/// takes its steps in order, and after four replies besides those of the flow the
/// samples are there.
pub proof fn law_stages_in_order(k: int, total: usize)
    requires
        0 <= k,
    ensures
        k < 4 + total ==> next_stage(stage_after(k, total as int), total as int) == stage_after(
            k + 1,
            total as int,
        ),
        stage_after(k, total as int) is Done <==> k >= 4 + total,
        forall|i: int|
            0 <= i < total ==> #[trigger] stage_after(3 + i, total as int) == Stage::Flow(
                i as usize,
            ),
{
}

/// A network is only asked for what is there: in a well-formed utterance each of
/// its feeds is an input, a number, or what an earlier stage produced.
pub proof fn law_feeds_are_there<T>(u: Utterance<T>, k: int)
    requires
        u.wf(),
        0 <= k < u.feeds().len(),
    ensures
        match u.feeds()[k].1 {
            Feed::Number(n) => u.stage == Stage::Flow(n) || n == u.total_steps,
            Feed::Array(a) => {
                ||| *a == u.text_ids
                ||| *a == u.text_mask
                ||| *a == u.style_ttl
                ||| *a == u.style_dp
                ||| u.text_emb == Some(*a)
                ||| u.latent == Some(*a)
                ||| u.latent_mask == Some(*a)
            },
        },
{
}

/// What is fed under a name, if anything is.
pub open spec fn fed<'a, T>(
    feeds: Seq<(&'static str, Feed<'a, T>)>,
    name: Seq<char>,
) -> Option<Feed<'a, T>>
    decreases feeds.len(),
{
    if feeds.len() == 0 {
        None
    } else if feeds.last().0@ == name {
        Some(feeds.last().1)
    } else {
        fed(feeds.drop_last(), name)
    }
}

/// The networks run in the order duration predictor, text encoder, vector estimator once for
/// each step, vocoder; between the second and the third the noise is drawn.
pub proof fn law_networks_in_order(k: int, total: usize)
    requires
        0 <= k,
    ensures
        network_at(stage_after(k, total as int)) == if k == 0 {
            Some(Network::DurationPredictor)
        } else if k == 1 {
            Some(Network::TextEncoder)
        } else if 3 <= k < 3 + total {
            Some(Network::VectorEstimator)
        } else if k == 3 + total {
            Some(Network::Vocoder)
        } else {
            None
        },
        output_of(Network::DurationPredictor) == "duration",
        output_of(Network::TextEncoder) == "text_emb",
        output_of(Network::VectorEstimator) == "denoised_latent",
        output_of(Network::Vocoder) == "wav_tts",
{
}

/// The names that networks are fed under differ.
proof fn lemma_feed_names()
    ensures
        "text_ids"@ != "style_dp"@,
        "text_ids"@ != "style_ttl"@,
        "text_ids"@ != "text_mask"@,
        "style_dp"@ != "text_mask"@,
        "style_ttl"@ != "text_mask"@,
        "noisy_latent"@ != "text_emb"@,
        "noisy_latent"@ != "style_ttl"@,
        "noisy_latent"@ != "latent_mask"@,
        "noisy_latent"@ != "text_mask"@,
        "noisy_latent"@ != "current_step"@,
        "noisy_latent"@ != "total_step"@,
        "text_emb"@ != "style_ttl"@,
        "text_emb"@ != "latent_mask"@,
        "text_emb"@ != "text_mask"@,
        "text_emb"@ != "current_step"@,
        "text_emb"@ != "total_step"@,
        "style_ttl"@ != "latent_mask"@,
        "style_ttl"@ != "current_step"@,
        "style_ttl"@ != "total_step"@,
        "latent_mask"@ != "text_mask"@,
        "latent_mask"@ != "current_step"@,
        "latent_mask"@ != "total_step"@,
        "text_mask"@ != "current_step"@,
        "text_mask"@ != "total_step"@,
        "current_step"@ != "total_step"@,
{
    reveal_strlit("text_ids");
    reveal_strlit("style_dp");
    reveal_strlit("style_ttl");
    reveal_strlit("text_mask");
    reveal_strlit("noisy_latent");
    reveal_strlit("text_emb");
    reveal_strlit("latent_mask");
    reveal_strlit("current_step");
    reveal_strlit("total_step");
    assert("text_ids"@[0] == 't' && "text_ids"@[5] == 'i');
    assert("style_dp"@[0] == 's');
    assert("text_mask"@[5] == 'm');
    assert("text_emb"@[5] == 'e');
    assert("noisy_latent"@[0] == 'n');
    assert("current_step"@[0] == 'c');
    assert("latent_mask"@[0] == 'l');
    assert("total_step"@[0] == 't' && "total_step"@.len() == 10);
}

/// Every network gets what it works on: the duration predictor the ids, their mask and the
/// style that durations go by; the text encoder the ids, their mask and the style that the
/// voice goes by; a step of the flow the latent as it is, the text, that style, both masks,
/// its own number and that of all steps; and the vocoder the latent.
#[verifier::rlimit(40)]
pub proof fn law_networks_are_fed<T>(u: Utterance<T>)
    requires
        u.wf(),
    ensures
        u.stage is Duration ==> {
            &&& u.feeds().len() == 3
            &&& fed(u.feeds(), "text_ids"@) == Some(Feed::Array(&u.text_ids))
            &&& fed(u.feeds(), "style_dp"@) == Some(Feed::Array(&u.style_dp))
            &&& fed(u.feeds(), "text_mask"@) == Some(Feed::Array(&u.text_mask))
        },
        u.stage is Text ==> {
            &&& u.feeds().len() == 3
            &&& fed(u.feeds(), "text_ids"@) == Some(Feed::Array(&u.text_ids))
            &&& fed(u.feeds(), "style_ttl"@) == Some(Feed::Array(&u.style_ttl))
            &&& fed(u.feeds(), "text_mask"@) == Some(Feed::Array(&u.text_mask))
        },
        u.stage matches Stage::Flow(step) ==> {
            &&& u.feeds().len() == 7
            &&& fed(u.feeds(), "noisy_latent"@) == Some(Feed::Array(&u.latent->0))
            &&& fed(u.feeds(), "text_emb"@) == Some(Feed::Array(&u.text_emb->0))
            &&& fed(u.feeds(), "style_ttl"@) == Some(Feed::Array(&u.style_ttl))
            &&& fed(u.feeds(), "latent_mask"@) == Some(Feed::Array(&u.latent_mask->0))
            &&& fed(u.feeds(), "text_mask"@) == Some(Feed::Array(&u.text_mask))
            &&& fed(u.feeds(), "current_step"@) == Some(Feed::<T>::Number(step))
            &&& fed(u.feeds(), "total_step"@) == Some(Feed::<T>::Number(u.total_steps))
        },
        u.stage is Vocode ==> {
            &&& u.feeds().len() == 1
            &&& fed(u.feeds(), "latent"@) == Some(Feed::Array(&u.latent->0))
        },
{
    reveal_with_fuel(fed, 8);
    lemma_feed_names();
    let f = u.feeds();
    let f1 = f.drop_last();
    let f2 = f1.drop_last();
    let f3 = f2.drop_last();
    let f4 = f3.drop_last();
    let f5 = f4.drop_last();
    let f6 = f5.drop_last();
    if f.len() == 7 {
        assert(f1.last() == f[5] && f2.last() == f[4] && f3.last() == f[3] && f4.last() == f[2]
            && f5.last() == f[1] && f6.last() == f[0]);
    } else if f.len() == 3 {
        assert(f1.last() == f[1] && f2.last() == f[0]);
    }
}

} // verus!
