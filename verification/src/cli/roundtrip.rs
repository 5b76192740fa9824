//! The command line that speaks samples and transcribes them.

use vstd::prelude::*;

use crate::cli::options::{
    last_value, lemma_all_fitting, look_up, maybe_number, number_if, number_or, read_settings,
    real_if, settings_from, take_number, take_number_if, take_real_if, take_text, text_or, ArgError,
    Kind, OptionSpec, Setting, Value,
};
use crate::cli::speak::{DEFAULT_LANG, DEFAULT_MODEL_DIR, DEFAULT_STEPS, DEFAULT_VOICE};
use crate::roundtrip::lines::{as_numbers, line_ranges, parse_line_spec};
use crate::strings::texts;

verus! {

/// Where the samples, the recognizer and its files are, and where audio is kept,
/// unless other places are given.
pub const DEFAULT_SAMPLES: &'static str = "tmp/samples.txt";

pub const DEFAULT_ASR_BIN: &'static str = "../nemotron-speech/target/release/transcribe";

pub const DEFAULT_NEMO_ST: &'static str =
    "../nemotron-speech/models/nemotron-speech-streaming-en-0.6b.safetensors";

pub const DEFAULT_NEMO_TOK: &'static str = "../nemotron-speech/models/tokenizer.model";

pub const DEFAULT_TMP_DIR: &'static str = "tmp/roundtrip";

/// Which samples to run, and how. The speed is given by its position among the
/// arguments.
#[derive(Debug)]
pub struct RoundtripArgs {
    pub samples: String,
    pub start: usize,
    pub end: Option<usize>,
    pub lines: Option<Vec<(usize, usize)>>,
    pub model_dir: String,
    pub voice: String,
    pub lang: String,
    pub speed: Option<usize>,
    pub steps: usize,
    pub seed: Option<u64>,
    pub asr_bin: String,
    pub nemo_st: String,
    pub nemo_tok: String,
    pub tmp_dir: String,
    pub keep_wavs: bool,
    pub summary: bool,
}

/// What a command line asks for.
#[derive(Debug)]
pub enum RoundtripCommand {
    Help,
    Run(RoundtripArgs),
}

/// The options.
pub open spec fn roundtrip_table() -> Seq<OptionSpec> {
    seq![
        OptionSpec { name: "--samples", kind: Kind::Text },
        OptionSpec { name: "--start", kind: Kind::Number(usize::MAX as u64) },
        OptionSpec { name: "--end", kind: Kind::Number(usize::MAX as u64) },
        OptionSpec { name: "--lines", kind: Kind::Lines },
        OptionSpec { name: "--model-dir", kind: Kind::Text },
        OptionSpec { name: "--voice", kind: Kind::Text },
        OptionSpec { name: "--lang", kind: Kind::Text },
        OptionSpec { name: "--speed", kind: Kind::Real },
        OptionSpec { name: "--steps", kind: Kind::Number(usize::MAX as u64) },
        OptionSpec { name: "--seed", kind: Kind::Number(u64::MAX) },
        OptionSpec { name: "--asr-bin", kind: Kind::Text },
        OptionSpec { name: "--nemo-st", kind: Kind::Text },
        OptionSpec { name: "--nemo-tok", kind: Kind::Text },
        OptionSpec { name: "--tmp-dir", kind: Kind::Text },
        OptionSpec { name: "--keep-wavs", kind: Kind::Switch },
        OptionSpec { name: "--no-summary", kind: Kind::Switch },
    ]
}

/// The options.
pub fn roundtrip_options() -> (r: Vec<OptionSpec>)
    ensures
        r@ == roundtrip_table(),
{
    let table = vec![
        OptionSpec { name: "--samples", kind: Kind::Text },
        OptionSpec { name: "--start", kind: Kind::Number(usize::MAX as u64) },
        OptionSpec { name: "--end", kind: Kind::Number(usize::MAX as u64) },
        OptionSpec { name: "--lines", kind: Kind::Lines },
        OptionSpec { name: "--model-dir", kind: Kind::Text },
        OptionSpec { name: "--voice", kind: Kind::Text },
        OptionSpec { name: "--lang", kind: Kind::Text },
        OptionSpec { name: "--speed", kind: Kind::Real },
        OptionSpec { name: "--steps", kind: Kind::Number(usize::MAX as u64) },
        OptionSpec { name: "--seed", kind: Kind::Number(u64::MAX) },
        OptionSpec { name: "--asr-bin", kind: Kind::Text },
        OptionSpec { name: "--nemo-st", kind: Kind::Text },
        OptionSpec { name: "--nemo-tok", kind: Kind::Text },
        OptionSpec { name: "--tmp-dir", kind: Kind::Text },
        OptionSpec { name: "--keep-wavs", kind: Kind::Switch },
        OptionSpec { name: "--no-summary", kind: Kind::Switch },
    ];
    assert(table@ == roundtrip_table());
    table
}

/// The ranges of the list of lines that a value stands for, if there is one.
pub open spec fn lines_if(args: Seq<Seq<char>>, v: Option<Value>) -> Option<Seq<(int, int)>> {
    match v {
        Some(Value::Lines(i)) => Some(line_ranges(args[i as int])->Ok_0),
        _ => None,
    }
}

/// Ranges that may be missing, as numbers.
pub open spec fn maybe_ranges(lines: Option<Vec<(usize, usize)>>) -> Option<Seq<(int, int)>> {
    match lines {
        Some(list) => Some(as_numbers(list@)),
        None => None,
    }
}

/// A machine word that may be missing.
pub open spec fn maybe_word(n: Option<usize>) -> Option<int> {
    match n {
        Some(v) => Some(v as int),
        None => None,
    }
}

impl RoundtripArgs {
    /// Whether these are what the settings ask for: each is the one that was given
    /// last, or the default.
    pub open spec fn as_set(&self, args: Seq<Seq<char>>, settings: Seq<Setting>) -> bool {
        &&& self.samples@ == text_or(args, last_value(settings, 0), DEFAULT_SAMPLES@)
        &&& self.start == number_or(last_value(settings, 1), 0)
        &&& maybe_word(self.end) == number_if(last_value(settings, 2))
        &&& maybe_ranges(self.lines) == lines_if(args, last_value(settings, 3))
        &&& self.model_dir@ == text_or(args, last_value(settings, 4), DEFAULT_MODEL_DIR@)
        &&& self.voice@ == text_or(args, last_value(settings, 5), DEFAULT_VOICE@)
        &&& self.lang@ == text_or(args, last_value(settings, 6), DEFAULT_LANG@)
        &&& self.speed == real_if(last_value(settings, 7))
        &&& self.steps == number_or(last_value(settings, 8), DEFAULT_STEPS as int)
        &&& maybe_number(self.seed) == number_if(last_value(settings, 9))
        &&& self.asr_bin@ == text_or(args, last_value(settings, 10), DEFAULT_ASR_BIN@)
        &&& self.nemo_st@ == text_or(args, last_value(settings, 11), DEFAULT_NEMO_ST@)
        &&& self.nemo_tok@ == text_or(args, last_value(settings, 12), DEFAULT_NEMO_TOK@)
        &&& self.tmp_dir@ == text_or(args, last_value(settings, 13), DEFAULT_TMP_DIR@)
        &&& self.keep_wavs == last_value(settings, 14) is Some
        &&& self.summary == last_value(settings, 15) is None
    }
}

/// The ranges of the list of lines that a value stands for, if there is one.
fn take_lines(args: &[String], v: Option<Value>) -> (r: Option<Vec<(usize, usize)>>)
    requires
        v matches Some(Value::Lines(i)) ==> i < args@.len() && line_ranges(
            texts(args@)[i as int],
        ) is Ok,
    ensures
        maybe_ranges(r) == lines_if(texts(args@), v),
{
    match v {
        Some(Value::Lines(i)) => {
            assert(texts(args@)[i as int] == args@[i as int]@);
            match parse_line_spec(args[i].as_str()) {
                Ok(list) => Some(list),
                Err(_) => None,
            }
        },
        _ => None,
    }
}

/// Reads a command line. Whether an argument is a decimal fraction is given for each.
pub fn parse_roundtrip(args: &[String], fractions: &[bool]) -> (r: Result<
    RoundtripCommand,
    ArgError,
>)
    requires
        fractions@.len() == args@.len(),
    ensures
        match settings_from(roundtrip_table(), texts(args@), fractions@, 0) {
            Err(e) => r == Err::<RoundtripCommand, ArgError>(e),
            Ok((_, true)) => r == Ok::<RoundtripCommand, ArgError>(RoundtripCommand::Help),
            Ok((settings, false)) => r matches Ok(RoundtripCommand::Run(a)) && a.as_set(
                texts(args@),
                settings,
            ),
        },
{
    let table = roundtrip_options();
    let parsed = match read_settings(&table, args, fractions) {
        Ok(p) => p,
        Err(e) => {
            return Err(e);
        },
    };
    if parsed.help {
        return Ok(RoundtripCommand::Help);
    }
    let count: usize = args.len();
    let ghost line = (roundtrip_table(), texts(args@), fractions@);
    proof {
        assert(line.1.len() == count);
        lemma_all_fitting(line.0, line.1, line.2);
    }
    let s = &parsed.settings;
    let start: u64 = take_number(look_up(s, 1, Ghost(line)), 0);
    let end: Option<usize> = match take_number_if(look_up(s, 2, Ghost(line))) {
        Some(n) => Some(n as usize),
        None => None,
    };
    let lines = take_lines(args, look_up(s, 3, Ghost(line)));
    let steps: u64 = take_number(look_up(s, 8, Ghost(line)), DEFAULT_STEPS);
    let a = RoundtripArgs {
        samples: take_text(args, look_up(s, 0, Ghost(line)), DEFAULT_SAMPLES),
        start: start as usize,
        end,
        lines,
        model_dir: take_text(args, look_up(s, 4, Ghost(line)), DEFAULT_MODEL_DIR),
        voice: take_text(args, look_up(s, 5, Ghost(line)), DEFAULT_VOICE),
        lang: take_text(args, look_up(s, 6, Ghost(line)), DEFAULT_LANG),
        speed: take_real_if(look_up(s, 7, Ghost(line))),
        steps: steps as usize,
        seed: take_number_if(look_up(s, 9, Ghost(line))),
        asr_bin: take_text(args, look_up(s, 10, Ghost(line)), DEFAULT_ASR_BIN),
        nemo_st: take_text(args, look_up(s, 11, Ghost(line)), DEFAULT_NEMO_ST),
        nemo_tok: take_text(args, look_up(s, 12, Ghost(line)), DEFAULT_NEMO_TOK),
        tmp_dir: take_text(args, look_up(s, 13, Ghost(line)), DEFAULT_TMP_DIR),
        keep_wavs: look_up(s, 14, Ghost(line)).is_some(),
        summary: look_up(s, 15, Ghost(line)).is_none(),
    };
    Ok(RoundtripCommand::Run(a))
}

} // verus!
