//! The command line that speaks a text.

use vstd::prelude::*;

use crate::cli::options::{
    all_fitting, last_value, lemma_all_fitting, look_up, maybe_number, maybe_text, number_if, number_or,
    read_settings, real_if, settings_from, take_number, take_number_if, take_real_if, take_text,
    take_text_if, text_if, text_or, ArgError, DeviceChoice, Kind, OptionSpec, Setting,
    Value,
};
use crate::strings::{owned, texts};

verus! {

/// Where the model, the voice and the audio are, unless other places are given.
pub const DEFAULT_MODEL_DIR: &'static str = "models";

pub const DEFAULT_VOICE: &'static str = "models/voice_styles/M1.json";

pub const DEFAULT_OUT: &'static str = "hello.wav";

/// The language, unless another is given.
pub const DEFAULT_LANG: &'static str = "en";

/// The steps of the flow, unless another number is given.
pub const DEFAULT_STEPS: u64 = 8;

/// The milliseconds of silence between chunks, unless another number is given.
pub const DEFAULT_SILENCE_MS: u64 = 300;

/// What to speak, and how. The speed is given by its position among the arguments.
#[derive(Debug)]
pub struct SpeakArgs {
    pub model_dir: String,
    pub voice: String,
    pub text: Option<String>,
    pub infile: Option<String>,
    pub out: String,
    pub lang: String,
    pub speed: Option<usize>,
    pub steps: usize,
    pub seed: Option<u64>,
    pub silence_ms: u32,
    pub verbose: bool,
}

/// What a command line asks for.
#[derive(Debug)]
pub enum SpeakCommand {
    Help,
    Run(SpeakArgs),
}

/// The options.
pub open spec fn speak_table() -> Seq<OptionSpec> {
    seq![
        OptionSpec { name: "--model-dir", kind: Kind::Text },
        OptionSpec { name: "--voice", kind: Kind::Text },
        OptionSpec { name: "--text", kind: Kind::Text },
        OptionSpec { name: "--infile", kind: Kind::Text },
        OptionSpec { name: "--out", kind: Kind::Text },
        OptionSpec { name: "--lang", kind: Kind::Text },
        OptionSpec { name: "--speed", kind: Kind::Real },
        OptionSpec { name: "--steps", kind: Kind::Number(usize::MAX as u64) },
        OptionSpec { name: "--seed", kind: Kind::Number(u64::MAX) },
        OptionSpec { name: "--silence-ms", kind: Kind::Number(u32::MAX as u64) },
        OptionSpec { name: "--verbose", kind: Kind::Switch },
    ]
}

/// The options.
pub fn speak_options() -> (r: Vec<OptionSpec>)
    ensures
        r@ == speak_table(),
{
    let table = vec![
        OptionSpec { name: "--model-dir", kind: Kind::Text },
        OptionSpec { name: "--voice", kind: Kind::Text },
        OptionSpec { name: "--text", kind: Kind::Text },
        OptionSpec { name: "--infile", kind: Kind::Text },
        OptionSpec { name: "--out", kind: Kind::Text },
        OptionSpec { name: "--lang", kind: Kind::Text },
        OptionSpec { name: "--speed", kind: Kind::Real },
        OptionSpec { name: "--steps", kind: Kind::Number(usize::MAX as u64) },
        OptionSpec { name: "--seed", kind: Kind::Number(u64::MAX) },
        OptionSpec { name: "--silence-ms", kind: Kind::Number(u32::MAX as u64) },
        OptionSpec { name: "--verbose", kind: Kind::Switch },
    ];
    assert(table@ == speak_table());
    table
}

impl SpeakArgs {
    /// Whether these are what the settings ask for: each is the one that was given
    /// last, or the default.
    pub open spec fn as_set(&self, args: Seq<Seq<char>>, settings: Seq<Setting>) -> bool {
        &&& self.model_dir@ == text_or(args, last_value(settings, 0), DEFAULT_MODEL_DIR@)
        &&& self.voice@ == text_or(args, last_value(settings, 1), DEFAULT_VOICE@)
        &&& maybe_text(self.text) == text_if(args, last_value(settings, 2))
        &&& maybe_text(self.infile) == text_if(args, last_value(settings, 3))
        &&& self.out@ == text_or(args, last_value(settings, 4), DEFAULT_OUT@)
        &&& self.lang@ == text_or(args, last_value(settings, 5), DEFAULT_LANG@)
        &&& self.speed == real_if(last_value(settings, 6))
        &&& self.steps == number_or(last_value(settings, 7), DEFAULT_STEPS as int)
        &&& maybe_number(self.seed) == number_if(last_value(settings, 8))
        &&& self.silence_ms == number_or(last_value(settings, 9), DEFAULT_SILENCE_MS as int)
        &&& self.verbose == last_value(settings, 10) is Some
    }
}

/// Whether a table begins with the options that speak a text.
pub open spec fn begins_with_speak(table: Seq<OptionSpec>) -> bool {
    table.len() >= speak_table().len() && table.take(speak_table().len() as int) == speak_table()
}

/// What the settings ask for.
fn settle(
    args: &[String],
    s: &Vec<Setting>,
    line: Ghost<(Seq<OptionSpec>, Seq<Seq<char>>, Seq<bool>)>,
) -> (r: SpeakArgs)
    requires
        all_fitting(line@.0, line@.1, line@.2, s@),
        line@.1 == texts(args@),
        begins_with_speak(line@.0),
    ensures
        r.as_set(texts(args@), s@),
{
    proof {
        assert forall|k: int| 0 <= k < 11 implies #[trigger] line@.0[k] == speak_table()[k] by {
            assert(line@.0.take(11)[k] == line@.0[k]);
        }
    }
    let steps: u64 = take_number(look_up(s, 7, line), DEFAULT_STEPS);
    let silence: u64 = take_number(look_up(s, 9, line), DEFAULT_SILENCE_MS);
    SpeakArgs {
        model_dir: take_text(args, look_up(s, 0, line), DEFAULT_MODEL_DIR),
        voice: take_text(args, look_up(s, 1, line), DEFAULT_VOICE),
        text: take_text_if(args, look_up(s, 2, line)),
        infile: take_text_if(args, look_up(s, 3, line)),
        out: take_text(args, look_up(s, 4, line), DEFAULT_OUT),
        lang: take_text(args, look_up(s, 5, line), DEFAULT_LANG),
        speed: take_real_if(look_up(s, 6, line)),
        steps: steps as usize,
        seed: take_number_if(look_up(s, 8, line)),
        silence_ms: silence as u32,
        verbose: look_up(s, 10, line).is_some(),
    }
}

/// Reads a command line. Whether an argument is a decimal fraction is given for each.
pub fn parse_speak(args: &[String], fractions: &[bool]) -> (r: Result<SpeakCommand, ArgError>)
    requires
        fractions@.len() == args@.len(),
    ensures
        match settings_from(speak_table(), texts(args@), fractions@, 0) {
            Err(e) => r == Err::<SpeakCommand, ArgError>(e),
            Ok((_, true)) => r == Ok::<SpeakCommand, ArgError>(SpeakCommand::Help),
            Ok((settings, false)) => r matches Ok(SpeakCommand::Run(a)) && a.as_set(
                texts(args@),
                settings,
            ),
        },
{
    let table = speak_options();
    let parsed = match read_settings(&table, args, fractions) {
        Ok(p) => p,
        Err(e) => {
            return Err(e);
        },
    };
    if parsed.help {
        return Ok(SpeakCommand::Help);
    }
    let count: usize = args.len();
    let ghost line = (speak_table(), texts(args@), fractions@);
    proof {
        assert(line.1.len() == count);
        lemma_all_fitting(line.0, line.1, line.2);
        assert(line.0.take(11) == speak_table());
    }
    Ok(SpeakCommand::Run(settle(args, &parsed.settings, Ghost(line))))
}

// ---------------------------------------------------------------------------
// With a choice of device
// ---------------------------------------------------------------------------

/// The place of the device among the options.
pub const DEVICE_OPTION: usize = 11;

/// What a command line with a choice of device asks for.
#[derive(Debug)]
pub enum SpeakCandleCommand {
    Help,
    Run(SpeakArgs, DeviceChoice),
}

/// The options, with that of the device.
pub open spec fn speak_candle_table() -> Seq<OptionSpec> {
    speak_table().push(OptionSpec { name: "--device", kind: Kind::Device })
}

/// The device that a value is, or whichever there is.
pub open spec fn device_or_auto(v: Option<Value>) -> DeviceChoice {
    match v {
        Some(Value::Device(d)) => d,
        _ => DeviceChoice::Auto,
    }
}

/// The options, with that of the device.
pub fn speak_candle_options() -> (r: Vec<OptionSpec>)
    ensures
        r@ == speak_candle_table(),
{
    let mut table = speak_options();
    table.push(OptionSpec { name: "--device", kind: Kind::Device });
    table
}

/// Reads a command line with a choice of device. Whether an argument is a decimal
/// fraction is given for each.
pub fn parse_speak_candle(args: &[String], fractions: &[bool]) -> (r: Result<
    SpeakCandleCommand,
    ArgError,
>)
    requires
        fractions@.len() == args@.len(),
    ensures
        match settings_from(speak_candle_table(), texts(args@), fractions@, 0) {
            Err(e) => r == Err::<SpeakCandleCommand, ArgError>(e),
            Ok((_, true)) => r == Ok::<SpeakCandleCommand, ArgError>(SpeakCandleCommand::Help),
            Ok((settings, false)) => r matches Ok(SpeakCandleCommand::Run(a, d)) && a.as_set(
                texts(args@),
                settings,
            ) && d == device_or_auto(last_value(settings, DEVICE_OPTION as int)),
        },
{
    let table = speak_candle_options();
    let parsed = match read_settings(&table, args, fractions) {
        Ok(p) => p,
        Err(e) => {
            return Err(e);
        },
    };
    if parsed.help {
        return Ok(SpeakCandleCommand::Help);
    }
    let count: usize = args.len();
    let ghost line = (speak_candle_table(), texts(args@), fractions@);
    proof {
        assert(line.1.len() == count);
        lemma_all_fitting(line.0, line.1, line.2);
        assert(line.0.take(11) == speak_table());
    }
    let device = match look_up(&parsed.settings, DEVICE_OPTION, Ghost(line)) {
        Some(Value::Device(d)) => d,
        _ => DeviceChoice::Auto,
    };
    Ok(SpeakCandleCommand::Run(settle(args, &parsed.settings, Ghost(line)), device))
}

/// Where the text comes from.
#[derive(Debug)]
pub enum Input {
    /// It was given.
    Text(String),
    /// It is in a file.
    File(String),
}

/// Why there is no text.
#[derive(Debug, Clone, Copy, PartialEq, Eq, Structural)]
pub enum InputError {
    /// Both a text and a file were given.
    Both,
    /// Neither was given.
    Neither,
}

/// Decides where the text comes from.
pub fn choose_input(text: &Option<String>, infile: &Option<String>) -> (r: Result<
    Input,
    InputError,
>)
    ensures
        match (maybe_text(*text), maybe_text(*infile)) {
            (Some(t), None) => r matches Ok(Input::Text(s)) && s@ == t,
            (None, Some(p)) => r matches Ok(Input::File(s)) && s@ == p,
            (Some(_), Some(_)) => r == Err::<Input, InputError>(InputError::Both),
            (None, None) => r == Err::<Input, InputError>(InputError::Neither),
        },
{
    match (text, infile) {
        (Some(t), None) => Ok(Input::Text(owned(t.as_str()))),
        (None, Some(p)) => Ok(Input::File(owned(p.as_str()))),
        (Some(_), Some(_)) => Err(InputError::Both),
        (None, None) => Err(InputError::Neither),
    }
}

} // verus!
