//! The command line that downloads a model, and what it downloads.

use vstd::prelude::*;

use crate::cli::options::{
    last_value, lemma_all_fitting, look_up, read_settings, settings_from, take_text, text_or,
    ArgError, Kind, OptionSpec, Setting,
};
use crate::strings::{
    chars_of, join, owned, pieces, split_at_char, split_on, string_of, texts, trim, trim_of,
};

verus! {

/// Where the files come from.
pub const REPO_ID: &'static str = "Supertone/supertonic-3";

pub const REPO_URL: &'static str = "https://huggingface.co/Supertone/supertonic-3/resolve/main/";

/// Where the files go, unless another place is given.
pub const DEFAULT_PATH: &'static str = "./models";

/// The directories of the model and of the voices.
pub const MODEL_DIR: &'static str = "onnx";

pub const VOICES_DIR: &'static str = "voice_styles";

/// The files of the model.
pub const MODEL_FILES: [&'static str; 6] = [
    "text_encoder.onnx",
    "duration_predictor.onnx",
    "vector_estimator.onnx",
    "vocoder.onnx",
    "tts.json",
    "unicode_indexer.json",
];

/// The voices, unless others are given.
pub const DEFAULT_VOICES: [&'static str; 10] = [
    "F1",
    "F2",
    "F3",
    "F4",
    "F5",
    "M1",
    "M2",
    "M3",
    "M4",
    "M5",
];

/// Where to download to, and which voices.
#[derive(Debug)]
pub struct DownloadArgs {
    pub path: String,
    pub voices: Vec<String>,
}

/// What a command line asks for.
#[derive(Debug)]
pub enum DownloadCommand {
    Help,
    Run(DownloadArgs),
}

/// The options.
pub open spec fn download_table() -> Seq<OptionSpec> {
    seq![
        OptionSpec { name: "--path", kind: Kind::Text },
        OptionSpec { name: "--voices", kind: Kind::Text },
    ]
}

/// The voices of a list: the parts between commas, trimmed.
pub open spec fn voices_in(list: Seq<char>) -> Seq<Seq<char>> {
    split_on(list, ',').map_values(|part: Seq<char>| trim(part))
}

/// The voices that are downloaded, unless others are given.
pub open spec fn default_voices() -> Seq<Seq<char>> {
    DEFAULT_VOICES@.map_values(|v: &'static str| v@)
}

impl DownloadArgs {
    /// Whether these are what the settings ask for.
    pub open spec fn as_set(&self, args: Seq<Seq<char>>, settings: Seq<Setting>) -> bool {
        &&& self.path@ == text_or(args, last_value(settings, 0), DEFAULT_PATH@)
        &&& texts(self.voices@) == if last_value(settings, 1) is Some {
            voices_in(text_or(args, last_value(settings, 1), ""@))
        } else {
            default_voices()
        }
    }
}

/// Splits a list of voices.
pub fn split_voices(list: &str) -> (r: Vec<String>)
    ensures
        texts(r@) == voices_in(list@),
{
    let chars = chars_of(list);
    let parts = split_at_char(chars.as_slice(), ',');
    let ghost all = pieces(parts@);
    let mut out: Vec<String> = Vec::new();
    for i in 0..parts.len()
        invariant
            all == pieces(parts@),
            all == split_on(list@, ','),
            texts(out@) == voices_in(list@).take(i as int),
    {
        let ghost before = out@;
        let voice = string_of(trim_of(parts[i].as_slice()));
        out.push(voice);
        assert(all[i as int] == parts@[i as int]@);
        assert(texts(out@) == texts(before).push(voice@));
        assert(voices_in(list@).take(i + 1) == voices_in(list@).take(i as int).push(voice@));
    }
    assert(voices_in(list@).take(all.len() as int) == voices_in(list@));
    out
}

/// The voices that are downloaded, unless others are given.
pub fn make_default_voices() -> (r: Vec<String>)
    ensures
        texts(r@) == default_voices(),
{
    let mut out: Vec<String> = Vec::new();
    for i in 0..DEFAULT_VOICES.len()
        invariant
            texts(out@) == default_voices().take(i as int),
    {
        let ghost before = out@;
        let voice = owned(DEFAULT_VOICES[i]);
        out.push(voice);
        assert(texts(out@) == texts(before).push(voice@));
        assert(default_voices().take(i + 1) == default_voices().take(i as int).push(voice@));
    }
    assert(default_voices().take(10) == default_voices());
    out
}

/// Reads a command line.
pub fn parse_download(args: &[String], fractions: &[bool]) -> (r: Result<DownloadCommand, ArgError>)
    requires
        fractions@.len() == args@.len(),
    ensures
        match settings_from(download_table(), texts(args@), fractions@, 0) {
            Err(e) => r == Err::<DownloadCommand, ArgError>(e),
            Ok((_, true)) => r == Ok::<DownloadCommand, ArgError>(DownloadCommand::Help),
            Ok((settings, false)) => r matches Ok(DownloadCommand::Run(a)) && a.as_set(
                texts(args@),
                settings,
            ),
        },
{
    let table = vec![
        OptionSpec { name: "--path", kind: Kind::Text },
        OptionSpec { name: "--voices", kind: Kind::Text },
    ];
    assert(table@ == download_table());
    let parsed = match read_settings(&table, args, fractions) {
        Ok(p) => p,
        Err(e) => {
            return Err(e);
        },
    };
    if parsed.help {
        return Ok(DownloadCommand::Help);
    }
    let count: usize = args.len();
    let ghost line = (download_table(), texts(args@), fractions@);
    proof {
        assert(line.1.len() == count);
        lemma_all_fitting(line.0, line.1, line.2);
    }
    let s = &parsed.settings;
    let path = take_text(args, look_up(s, 0, Ghost(line)), DEFAULT_PATH);
    let given = look_up(s, 1, Ghost(line));
    let voices = if given.is_some() {
        let list = take_text(args, given, "");
        split_voices(list.as_str())
    } else {
        make_default_voices()
    };
    Ok(DownloadCommand::Run(DownloadArgs { path, voices }))
}

// ---------------------------------------------------------------------------
// What is downloaded
// ---------------------------------------------------------------------------

/// A file to download: it stands under its directory in the repository, and goes
/// under the same directory of the place that was asked for.
#[derive(Debug)]
pub struct Download {
    pub directory: &'static str,
    pub file: String,
    /// Whether the download fails without it.
    pub required: bool,
}

impl Download {
    /// Its path in the repository.
    pub open spec fn path(self) -> Seq<char> {
        self.directory@ + "/"@ + self.file@
    }

    /// Its path in the repository.
    pub fn repo_path(&self) -> (r: String)
        ensures
            r@ == self.path(),
    {
        let front = join(self.directory, "/");
        join(front.as_str(), self.file.as_str())
    }

    /// The address it can be had from without the repository's interface.
    pub fn url(&self) -> (r: String)
        ensures
            r@ == REPO_URL@ + self.path(),
    {
        let path = self.repo_path();
        join(REPO_URL, path.as_str())
    }
}

/// Whether `d` is file `i` of the model.
pub open spec fn is_model_file(d: Download, i: int) -> bool {
    d.directory@ == MODEL_DIR@ && d.file@ == MODEL_FILES@[i]@ && d.required
}

/// Whether `d` is the file of a voice.
pub open spec fn is_voice_file(d: Download, voice: Seq<char>) -> bool {
    d.directory@ == VOICES_DIR@ && d.file@ == voice + ".json"@ && !d.required
}

/// Whether `plan` is the files to download, in order: those of the model, all of which are
/// required, and one for each voice.
pub open spec fn planned(plan: Seq<Download>, voices: Seq<String>) -> bool {
    &&& plan.len() == 6 + voices.len()
    &&& forall|i: int| 0 <= i < 6 ==> is_model_file(#[trigger] plan[i], i)
    &&& forall|i: int| 0 <= i < voices.len() ==> is_voice_file(#[trigger] plan[6 + i], voices[i]@)
}

/// Plans the files to download.
pub fn plan_downloads(voices: &[String]) -> (r: Vec<Download>)
    ensures
        planned(r@, voices@),
{
    let mut out: Vec<Download> = Vec::new();
    for i in 0..MODEL_FILES.len()
        invariant
            out@.len() == i,
            forall|k: int| 0 <= k < i ==> is_model_file(#[trigger] out@[k], k),
    {
        out.push(
            Download { directory: MODEL_DIR, file: owned(MODEL_FILES[i]), required: true },
        );
    }
    for i in 0..voices.len()
        invariant
            out@.len() == 6 + i,
            forall|k: int| 0 <= k < 6 ==> is_model_file(#[trigger] out@[k], k),
            forall|k: int| 0 <= k < i ==> is_voice_file(#[trigger] out@[6 + k], voices@[k]@),
    {
        let ghost before = out@;
        let file = join(voices[i].as_str(), ".json");
        out.push(Download { directory: VOICES_DIR, file, required: false });
        assert forall|k: int| 0 <= k < i + 1 implies is_voice_file(
            #[trigger] out@[6 + k],
            voices@[k]@,
        ) by {
            if k < i {
                assert(out@[6 + k] == before[6 + k]);
            }
        }
    }
    out
}

/// What is done about a file.
#[derive(Debug, Clone, Copy, PartialEq, Eq, Structural)]
pub enum FetchStep {
    /// It is there already.
    Nothing,
    /// It is asked for through the repository's interface.
    Ask,
    /// The copy that the interface gave is put in place.
    Copy,
    /// It is had from its address.
    Get,
}

/// What is done first about a file: nothing where it is there already.
pub fn first_step(there: bool) -> (r: FetchStep)
    ensures
        r == if there {
            FetchStep::Nothing
        } else {
            FetchStep::Ask
        },
{
    if there {
        FetchStep::Nothing
    } else {
        FetchStep::Ask
    }
}

/// What is done once the interface has answered: where it failed, the file is had
/// from its address.
pub fn next_step(given: bool) -> (r: FetchStep)
    ensures
        r == if given {
            FetchStep::Copy
        } else {
            FetchStep::Get
        },
{
    if given {
        FetchStep::Copy
    } else {
        FetchStep::Get
    }
}

/// Whether the download goes on after a file: it stops where a required one could not be
/// had.
pub fn goes_on(d: &Download, fetched: bool) -> (r: bool)
    ensures
        r == (fetched || !d.required),
{
    fetched || !d.required
}

/// How many of the first `n` files are voices that were had.
pub open spec fn voices_had(plan: Seq<Download>, fetched: Seq<bool>, n: int) -> int
    decreases n,
{
    if n <= 0 {
        0
    } else {
        voices_had(plan, fetched, n - 1) + if fetched[n - 1] && !plan[n - 1].required {
            1int
        } else {
            0
        }
    }
}

/// Counts the voices that were had.
pub fn count_voices(plan: &[Download], fetched: &[bool]) -> (r: usize)
    requires
        plan@.len() == fetched@.len(),
    ensures
        r == voices_had(plan@, fetched@, plan@.len() as int),
{
    let mut count: usize = 0;
    for i in 0..plan.len()
        invariant
            plan@.len() == fetched@.len(),
            count == voices_had(plan@, fetched@, i as int),
            count <= i,
    {
        if fetched[i] && !plan[i].required {
            count = count + 1;
        }
    }
    count
}

/// Where every file could be had, all voices are counted, and never are more.
pub proof fn law_voices_are_counted(plan: Seq<Download>, fetched: Seq<bool>, voices: Seq<String>)
    requires
        planned(plan, voices),
        fetched.len() == plan.len(),
    ensures
        0 <= voices_had(plan, fetched, plan.len() as int) <= voices.len(),
        (forall|i: int| 0 <= i < fetched.len() ==> #[trigger] fetched[i]) ==> voices_had(
            plan,
            fetched,
            plan.len() as int,
        ) == voices.len(),
{
    lemma_voices_had(plan, fetched, voices, plan.len() as int);
}

proof fn lemma_voices_had(plan: Seq<Download>, fetched: Seq<bool>, voices: Seq<String>, n: int)
    requires
        planned(plan, voices),
        fetched.len() == plan.len(),
        0 <= n <= plan.len(),
    ensures
        ({
            let most = if n < 6 {
                0
            } else {
                n - 6
            };
            &&& 0 <= voices_had(plan, fetched, n) <= most
            &&& (forall|i: int| 0 <= i < fetched.len() ==> #[trigger] fetched[i]) ==> voices_had(
                plan,
                fetched,
                n,
            ) == most
        }),
    decreases n,
{
    if n > 0 {
        lemma_voices_had(plan, fetched, voices, n - 1);
        if n <= 6 {
            assert(is_model_file(plan[n - 1], n - 1));
        } else {
            assert(is_voice_file(plan[6 + (n - 7)], voices[n - 7]@));
        }
    }
}

} // verus!
