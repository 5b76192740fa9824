//! What holds of the command lines.

use vstd::prelude::*;

use crate::cli::options::{
    asks_help, behind, device, last_value, lemma_number_range, maybe_text, place, settings_from,
    value_of, ArgError, DeviceChoice, OptionSpec, Setting, Value,
};
use crate::cli::roundtrip::{maybe_ranges, roundtrip_table, RoundtripArgs};
use crate::cli::speak::{device_or_auto, speak_table, SpeakArgs};
use crate::digits::{number, NumberError};
use crate::roundtrip::lines::line_ranges;

verus! {

/// The argument that asks for help, in its two forms.
pub proof fn law_help(arg: Seq<char>)
    ensures
        asks_help(arg) <==> arg == "-h"@ || arg == "--help"@,
        device("cpu"@) == Some(DeviceChoice::Cpu),
        device("metal"@) == Some(DeviceChoice::Metal),
        device("auto"@) == Some(DeviceChoice::Auto),
        device(arg) is Some ==> arg == "cpu"@ || arg == "metal"@ || arg == "auto"@,
{
    reveal_strlit("cpu");
    reveal_strlit("metal");
    reveal_strlit("auto");
    assert("cpu"@.len() == 3 && "metal"@.len() == 5 && "auto"@.len() == 4);
}

/// Arguments behind others are read as they would be anywhere, after the others.
proof fn lemma_append(
    table: Seq<OptionSpec>,
    a: Seq<Seq<char>>,
    fa: Seq<bool>,
    b: Seq<Seq<char>>,
    fb: Seq<bool>,
    i: int,
)
    requires
        fa.len() == a.len(),
        0 <= i <= a.len(),
        settings_from(table, a, fa, i) matches Ok((_, false)),
    ensures
        settings_from(table, a + b, fa + fb, i) == match settings_from(
            table,
            a + b,
            fa + fb,
            a.len() as int,
        ) {
            Err(e) => Err::<(Seq<Setting>, bool), ArgError>(e),
            Ok((rest, help)) => Ok((settings_from(table, a, fa, i)->Ok_0.0 + rest, help)),
        },
    decreases a.len() - i,
{
    let all = a + b;
    let f = fa + fb;
    if i == a.len() {
        match settings_from(table, all, f, i) {
            Ok((rest, help)) => {
                assert(Seq::<Setting>::empty() + rest == rest);
            },
            _ => {},
        }
    } else {
        assert(all[i] == a[i]);
        let k = place(table, a[i], 0);
        let kind = table[k].kind;
        let v = value_of(kind, k as usize, a, fa, i);
        if kind !is Switch {
            assert(i + 1 < a.len());
            assert(all[i + 1] == a[i + 1]);
            assert(f[i + 1] == fa[i + 1]);
        }
        assert(value_of(kind, k as usize, all, f, i) == v);
        lemma_append(table, a, fa, b, fb, behind(kind, i));
        let one = seq![Setting { option: k as usize, value: v->Ok_0 }];
        let mine = settings_from(table, a, fa, behind(kind, i))->Ok_0.0;
        match settings_from(table, all, f, a.len() as int) {
            Ok((rest, help)) => {
                assert(one + (mine + rest) == one + mine + rest);
            },
            _ => {},
        }
    }
}

/// An option with a value, given behind other arguments, adds one setting to theirs; where
/// its value is wrong, that is reported.
pub proof fn law_option_given_last(
    table: Seq<OptionSpec>,
    a: Seq<Seq<char>>,
    fa: Seq<bool>,
    name: Seq<char>,
    x: Seq<char>,
    fraction: bool,
)
    requires
        fa.len() == a.len(),
        settings_from(table, a, fa, 0) matches Ok((_, false)),
        place(table, name, 0) < table.len(),
        !asks_help(name),
        table[place(table, name, 0)].kind !is Switch,
    ensures
        ({
            let k = place(table, name, 0);
            let all = a + seq![name, x];
            let f = fa + seq![false, fraction];
            let had = settings_from(table, a, fa, 0)->Ok_0.0;
            settings_from(table, all, f, 0) == match value_of(
                table[k].kind,
                k as usize,
                all,
                f,
                a.len() as int,
            ) {
                Err(e) => Err::<(Seq<Setting>, bool), ArgError>(e),
                Ok(v) => Ok((had.push(Setting { option: k as usize, value: v }), false)),
            }
        }),
{
    let k = place(table, name, 0);
    let b = seq![name, x];
    let fb = seq![false, fraction];
    let all = a + b;
    let f = fa + fb;
    let n = a.len() as int;
    lemma_append(table, a, fa, b, fb, 0);
    assert(all[n] == name);
    let had = settings_from(table, a, fa, 0)->Ok_0.0;
    assert(settings_from(table, all, f, n + 2) == Ok::<(Seq<Setting>, bool), ArgError>(
        (seq![], false),
    ));
    match value_of(table[k].kind, k as usize, all, f, n) {
        Ok(v) => {
            let one = seq![Setting { option: k as usize, value: v }];
            assert(one + Seq::<Setting>::empty() == one);
            assert(had + one == had.push(one[0]));
        },
        _ => {},
    }
}

/// A switch, given behind other arguments, adds one setting to theirs.
pub proof fn law_switch_given_last(
    table: Seq<OptionSpec>,
    a: Seq<Seq<char>>,
    fa: Seq<bool>,
    name: Seq<char>,
)
    requires
        fa.len() == a.len(),
        settings_from(table, a, fa, 0) matches Ok((_, false)),
        place(table, name, 0) < table.len(),
        !asks_help(name),
        table[place(table, name, 0)].kind is Switch,
    ensures
        ({
            let k = place(table, name, 0);
            let had = settings_from(table, a, fa, 0)->Ok_0.0;
            settings_from(table, a + seq![name], fa + seq![false], 0) == Ok::<
                (Seq<Setting>, bool),
                ArgError,
            >((had.push(Setting { option: k as usize, value: Value::On }), false))
        }),
{
    let k = place(table, name, 0);
    let b = seq![name];
    let fb = seq![false];
    let all = a + b;
    let f = fa + fb;
    let n = a.len() as int;
    lemma_append(table, a, fa, b, fb, 0);
    assert(all[n] == name);
    assert(settings_from(table, all, f, n + 1) == Ok::<(Seq<Setting>, bool), ArgError>(
        (seq![], false),
    ));
    let had = settings_from(table, a, fa, 0)->Ok_0.0;
    let one = seq![Setting { option: k as usize, value: Value::On }];
    assert(one + Seq::<Setting>::empty() == one);
    assert(had + one == had.push(one[0]));
}

/// What an option was given last holds for it, and for no other.
pub proof fn law_last_given_holds(s: Seq<Setting>, k: usize, v: Value, j: int)
    ensures
        last_value(s.push(Setting { option: k, value: v }), j) == if j == k {
            Some(v)
        } else {
            last_value(s, j)
        },
        last_value(Seq::<Setting>::empty(), j) is None,
{
    let t = s.push(Setting { option: k, value: v });
    assert(t.drop_last() == s);
    assert(t.last() == (Setting { option: k, value: v }));
}

// ---------------------------------------------------------------------------
// Speaking
// ---------------------------------------------------------------------------

/// Where the options stand in the table.
proof fn lemma_speak_places()
    ensures
        speak_table().len() == 11,
        place(speak_table(), "--model-dir"@, 0) == 0,
        !asks_help("--model-dir"@),
        place(speak_table(), "--voice"@, 0) == 1,
        !asks_help("--voice"@),
        place(speak_table(), "--text"@, 0) == 2,
        !asks_help("--text"@),
        place(speak_table(), "--infile"@, 0) == 3,
        !asks_help("--infile"@),
        place(speak_table(), "--out"@, 0) == 4,
        !asks_help("--out"@),
        place(speak_table(), "--lang"@, 0) == 5,
        !asks_help("--lang"@),
        place(speak_table(), "--speed"@, 0) == 6,
        !asks_help("--speed"@),
        place(speak_table(), "--steps"@, 0) == 7,
        !asks_help("--steps"@),
        place(speak_table(), "--seed"@, 0) == 8,
        !asks_help("--seed"@),
        place(speak_table(), "--silence-ms"@, 0) == 9,
        !asks_help("--silence-ms"@),
        place(speak_table(), "--verbose"@, 0) == 10,
        !asks_help("--verbose"@),
{
    reveal_strlit("--model-dir");
    reveal_strlit("--voice");
    reveal_strlit("--text");
    reveal_strlit("--infile");
    reveal_strlit("--out");
    reveal_strlit("--lang");
    reveal_strlit("--speed");
    reveal_strlit("--steps");
    reveal_strlit("--seed");
    reveal_strlit("--silence-ms");
    reveal_strlit("--verbose");
    reveal_strlit("-h");
    reveal_strlit("--help");
    reveal_with_fuel(place, 13);
    let t = speak_table();
    assert("--model-dir"@ != "--voice"@) by { assert("--model-dir"@.len() != "--voice"@.len()); }
    assert("--model-dir"@ != "--text"@) by { assert("--model-dir"@.len() != "--text"@.len()); }
    assert("--model-dir"@ != "--infile"@) by { assert("--model-dir"@.len() != "--infile"@.len()); }
    assert("--model-dir"@ != "--out"@) by { assert("--model-dir"@.len() != "--out"@.len()); }
    assert("--model-dir"@ != "--lang"@) by { assert("--model-dir"@.len() != "--lang"@.len()); }
    assert("--model-dir"@ != "--speed"@) by { assert("--model-dir"@.len() != "--speed"@.len()); }
    assert("--model-dir"@ != "--steps"@) by { assert("--model-dir"@.len() != "--steps"@.len()); }
    assert("--model-dir"@ != "--seed"@) by { assert("--model-dir"@.len() != "--seed"@.len()); }
    assert("--model-dir"@ != "--silence-ms"@) by { assert("--model-dir"@.len() != "--silence-ms"@.len()); }
    assert("--model-dir"@ != "--verbose"@) by { assert("--model-dir"@.len() != "--verbose"@.len()); }
    assert("--model-dir"@ != "-h"@) by { assert("--model-dir"@.len() != "-h"@.len()); }
    assert("--model-dir"@ != "--help"@) by { assert("--model-dir"@.len() != "--help"@.len()); }
    assert("--voice"@ != "--text"@) by { assert("--voice"@.len() != "--text"@.len()); }
    assert("--voice"@ != "--infile"@) by { assert("--voice"@.len() != "--infile"@.len()); }
    assert("--voice"@ != "--out"@) by { assert("--voice"@.len() != "--out"@.len()); }
    assert("--voice"@ != "--lang"@) by { assert("--voice"@.len() != "--lang"@.len()); }
    assert("--voice"@ != "--speed"@) by { assert("--voice"@[2] != "--speed"@[2]); }
    assert("--voice"@ != "--steps"@) by { assert("--voice"@[2] != "--steps"@[2]); }
    assert("--voice"@ != "--seed"@) by { assert("--voice"@.len() != "--seed"@.len()); }
    assert("--voice"@ != "--silence-ms"@) by { assert("--voice"@.len() != "--silence-ms"@.len()); }
    assert("--voice"@ != "--verbose"@) by { assert("--voice"@.len() != "--verbose"@.len()); }
    assert("--voice"@ != "-h"@) by { assert("--voice"@.len() != "-h"@.len()); }
    assert("--voice"@ != "--help"@) by { assert("--voice"@.len() != "--help"@.len()); }
    assert("--text"@ != "--infile"@) by { assert("--text"@.len() != "--infile"@.len()); }
    assert("--text"@ != "--out"@) by { assert("--text"@.len() != "--out"@.len()); }
    assert("--text"@ != "--lang"@) by { assert("--text"@[2] != "--lang"@[2]); }
    assert("--text"@ != "--speed"@) by { assert("--text"@.len() != "--speed"@.len()); }
    assert("--text"@ != "--steps"@) by { assert("--text"@.len() != "--steps"@.len()); }
    assert("--text"@ != "--seed"@) by { assert("--text"@[2] != "--seed"@[2]); }
    assert("--text"@ != "--silence-ms"@) by { assert("--text"@.len() != "--silence-ms"@.len()); }
    assert("--text"@ != "--verbose"@) by { assert("--text"@.len() != "--verbose"@.len()); }
    assert("--text"@ != "-h"@) by { assert("--text"@.len() != "-h"@.len()); }
    assert("--text"@ != "--help"@) by { assert("--text"@[2] != "--help"@[2]); }
    assert("--infile"@ != "--out"@) by { assert("--infile"@.len() != "--out"@.len()); }
    assert("--infile"@ != "--lang"@) by { assert("--infile"@.len() != "--lang"@.len()); }
    assert("--infile"@ != "--speed"@) by { assert("--infile"@.len() != "--speed"@.len()); }
    assert("--infile"@ != "--steps"@) by { assert("--infile"@.len() != "--steps"@.len()); }
    assert("--infile"@ != "--seed"@) by { assert("--infile"@.len() != "--seed"@.len()); }
    assert("--infile"@ != "--silence-ms"@) by { assert("--infile"@.len() != "--silence-ms"@.len()); }
    assert("--infile"@ != "--verbose"@) by { assert("--infile"@.len() != "--verbose"@.len()); }
    assert("--infile"@ != "-h"@) by { assert("--infile"@.len() != "-h"@.len()); }
    assert("--infile"@ != "--help"@) by { assert("--infile"@.len() != "--help"@.len()); }
    assert("--out"@ != "--lang"@) by { assert("--out"@.len() != "--lang"@.len()); }
    assert("--out"@ != "--speed"@) by { assert("--out"@.len() != "--speed"@.len()); }
    assert("--out"@ != "--steps"@) by { assert("--out"@.len() != "--steps"@.len()); }
    assert("--out"@ != "--seed"@) by { assert("--out"@.len() != "--seed"@.len()); }
    assert("--out"@ != "--silence-ms"@) by { assert("--out"@.len() != "--silence-ms"@.len()); }
    assert("--out"@ != "--verbose"@) by { assert("--out"@.len() != "--verbose"@.len()); }
    assert("--out"@ != "-h"@) by { assert("--out"@.len() != "-h"@.len()); }
    assert("--out"@ != "--help"@) by { assert("--out"@.len() != "--help"@.len()); }
    assert("--lang"@ != "--speed"@) by { assert("--lang"@.len() != "--speed"@.len()); }
    assert("--lang"@ != "--steps"@) by { assert("--lang"@.len() != "--steps"@.len()); }
    assert("--lang"@ != "--seed"@) by { assert("--lang"@[2] != "--seed"@[2]); }
    assert("--lang"@ != "--silence-ms"@) by { assert("--lang"@.len() != "--silence-ms"@.len()); }
    assert("--lang"@ != "--verbose"@) by { assert("--lang"@.len() != "--verbose"@.len()); }
    assert("--lang"@ != "-h"@) by { assert("--lang"@.len() != "-h"@.len()); }
    assert("--lang"@ != "--help"@) by { assert("--lang"@[2] != "--help"@[2]); }
    assert("--speed"@ != "--steps"@) by { assert("--speed"@[3] != "--steps"@[3]); }
    assert("--speed"@ != "--seed"@) by { assert("--speed"@.len() != "--seed"@.len()); }
    assert("--speed"@ != "--silence-ms"@) by { assert("--speed"@.len() != "--silence-ms"@.len()); }
    assert("--speed"@ != "--verbose"@) by { assert("--speed"@.len() != "--verbose"@.len()); }
    assert("--speed"@ != "-h"@) by { assert("--speed"@.len() != "-h"@.len()); }
    assert("--speed"@ != "--help"@) by { assert("--speed"@.len() != "--help"@.len()); }
    assert("--steps"@ != "--seed"@) by { assert("--steps"@.len() != "--seed"@.len()); }
    assert("--steps"@ != "--silence-ms"@) by { assert("--steps"@.len() != "--silence-ms"@.len()); }
    assert("--steps"@ != "--verbose"@) by { assert("--steps"@.len() != "--verbose"@.len()); }
    assert("--steps"@ != "-h"@) by { assert("--steps"@.len() != "-h"@.len()); }
    assert("--steps"@ != "--help"@) by { assert("--steps"@.len() != "--help"@.len()); }
    assert("--seed"@ != "--silence-ms"@) by { assert("--seed"@.len() != "--silence-ms"@.len()); }
    assert("--seed"@ != "--verbose"@) by { assert("--seed"@.len() != "--verbose"@.len()); }
    assert("--seed"@ != "-h"@) by { assert("--seed"@.len() != "-h"@.len()); }
    assert("--seed"@ != "--help"@) by { assert("--seed"@[2] != "--help"@[2]); }
    assert("--silence-ms"@ != "--verbose"@) by { assert("--silence-ms"@.len() != "--verbose"@.len()); }
    assert("--silence-ms"@ != "-h"@) by { assert("--silence-ms"@.len() != "-h"@.len()); }
    assert("--silence-ms"@ != "--help"@) by { assert("--silence-ms"@.len() != "--help"@.len()); }
    assert("--verbose"@ != "-h"@) by { assert("--verbose"@.len() != "-h"@.len()); }
    assert("--verbose"@ != "--help"@) by { assert("--verbose"@.len() != "--help"@.len()); }
}

/// Without arguments, the voice is M1, the language English, the model under `models`, the
/// audio in `hello.wav`; there are eight steps and 300 milliseconds of silence.
pub proof fn law_speak_defaults(r: SpeakArgs)
    requires
        r.as_set(seq![], seq![]),
    ensures
        r.model_dir@ == "models"@,
        r.voice@ == "models/voice_styles/M1.json"@,
        r.out@ == "hello.wav"@,
        r.lang@ == "en"@,
        r.text is None,
        r.infile is None,
        r.speed is None,
        r.seed is None,
        r.steps == 8,
        r.silence_ms == 300,
        !r.verbose,
        device_or_auto(None) == DeviceChoice::Auto,
{
}

/// An option that is given last sets what it is named after, whatever stands before it.
#[verifier::rlimit(60)]
pub proof fn law_speak_option(
    a: Seq<Seq<char>>,
    fa: Seq<bool>,
    name: Seq<char>,
    x: Seq<char>,
    fraction: bool,
    r: SpeakArgs,
)
    requires
        fa.len() == a.len(),
        a.len() + 2 <= usize::MAX,
        settings_from(speak_table(), a, fa, 0) matches Ok((_, false)),
        settings_from(speak_table(), a + seq![name, x], fa + seq![false, fraction], 0) matches Ok(
            (settings, false),
        ) && r.as_set(a + seq![name, x], settings),
    ensures
        name == "--model-dir"@ ==> r.model_dir@ == x,
        name == "--voice"@ ==> r.voice@ == x,
        name == "--text"@ ==> maybe_text(r.text) == Some(x),
        name == "--infile"@ ==> maybe_text(r.infile) == Some(x),
        name == "--out"@ ==> r.out@ == x,
        name == "--lang"@ ==> r.lang@ == x,
        name == "--speed"@ ==> r.speed == Some((a.len() + 1) as usize) && fraction,
        name == "--steps"@ ==> number(x, usize::MAX as int) == Ok::<int, NumberError>(
            r.steps as int,
        ),
        name == "--seed"@ ==> r.seed is Some && number(x, u64::MAX as int) == Ok::<int, NumberError>(
            r.seed->0 as int,
        ),
        name == "--silence-ms"@ ==> number(x, u32::MAX as int) == Ok::<int, NumberError>(
            r.silence_ms as int,
        ),
{
    lemma_speak_places();
    let t = speak_table();
    let k = place(t, name, 0);
    if 0 <= k < 10 && (name == "--model-dir"@ || name == "--voice"@ || name == "--text"@ || name
        == "--infile"@ || name == "--out"@ || name == "--lang"@ || name == "--speed"@ || name
        == "--steps"@ || name == "--seed"@ || name == "--silence-ms"@) {
        law_option_given_last(t, a, fa, name, x, fraction);
        let all = a + seq![name, x];
        let f = fa + seq![false, fraction];
        let n = a.len() as int;
        assert(all[n + 1] == x);
        assert(f[n + 1] == fraction);
        let v = value_of(t[k].kind, k as usize, all, f, n);
        let had = settings_from(t, a, fa, 0)->Ok_0.0;
        law_last_given_holds(had, k as usize, v->Ok_0, k);
        lemma_number_range(x, usize::MAX as int);
        lemma_number_range(x, u64::MAX as int);
        lemma_number_range(x, u32::MAX as int);
    }
}

/// A switch that is given last is on.
pub proof fn law_speak_verbose(a: Seq<Seq<char>>, fa: Seq<bool>, r: SpeakArgs)
    requires
        fa.len() == a.len(),
        settings_from(speak_table(), a, fa, 0) matches Ok((_, false)),
        settings_from(speak_table(), a + seq!["--verbose"@], fa + seq![false], 0) matches Ok(
            (settings, false),
        ) && r.as_set(a + seq!["--verbose"@], settings),
    ensures
        r.verbose,
{
    lemma_speak_places();
    law_switch_given_last(speak_table(), a, fa, "--verbose"@);
    let had = settings_from(speak_table(), a, fa, 0)->Ok_0.0;
    law_last_given_holds(had, 10, Value::On, 10);
}

// ---------------------------------------------------------------------------
// Speaking and transcribing
// ---------------------------------------------------------------------------

/// Where the options stand in the table.
proof fn lemma_roundtrip_places()
    ensures
        roundtrip_table().len() == 16,
        place(roundtrip_table(), "--samples"@, 0) == 0,
        !asks_help("--samples"@),
        place(roundtrip_table(), "--start"@, 0) == 1,
        !asks_help("--start"@),
        place(roundtrip_table(), "--end"@, 0) == 2,
        !asks_help("--end"@),
        place(roundtrip_table(), "--lines"@, 0) == 3,
        !asks_help("--lines"@),
        place(roundtrip_table(), "--model-dir"@, 0) == 4,
        !asks_help("--model-dir"@),
        place(roundtrip_table(), "--voice"@, 0) == 5,
        !asks_help("--voice"@),
        place(roundtrip_table(), "--lang"@, 0) == 6,
        !asks_help("--lang"@),
        place(roundtrip_table(), "--speed"@, 0) == 7,
        !asks_help("--speed"@),
        place(roundtrip_table(), "--steps"@, 0) == 8,
        !asks_help("--steps"@),
        place(roundtrip_table(), "--seed"@, 0) == 9,
        !asks_help("--seed"@),
        place(roundtrip_table(), "--asr-bin"@, 0) == 10,
        !asks_help("--asr-bin"@),
        place(roundtrip_table(), "--nemo-st"@, 0) == 11,
        !asks_help("--nemo-st"@),
        place(roundtrip_table(), "--nemo-tok"@, 0) == 12,
        !asks_help("--nemo-tok"@),
        place(roundtrip_table(), "--tmp-dir"@, 0) == 13,
        !asks_help("--tmp-dir"@),
        place(roundtrip_table(), "--keep-wavs"@, 0) == 14,
        !asks_help("--keep-wavs"@),
        place(roundtrip_table(), "--no-summary"@, 0) == 15,
        !asks_help("--no-summary"@),
{
    reveal_strlit("--samples");
    reveal_strlit("--start");
    reveal_strlit("--end");
    reveal_strlit("--lines");
    reveal_strlit("--model-dir");
    reveal_strlit("--voice");
    reveal_strlit("--lang");
    reveal_strlit("--speed");
    reveal_strlit("--steps");
    reveal_strlit("--seed");
    reveal_strlit("--asr-bin");
    reveal_strlit("--nemo-st");
    reveal_strlit("--nemo-tok");
    reveal_strlit("--tmp-dir");
    reveal_strlit("--keep-wavs");
    reveal_strlit("--no-summary");
    reveal_strlit("-h");
    reveal_strlit("--help");
    reveal_with_fuel(place, 18);
    let t = roundtrip_table();
    assert("--samples"@ != "--start"@) by { assert("--samples"@.len() != "--start"@.len()); }
    assert("--samples"@ != "--end"@) by { assert("--samples"@.len() != "--end"@.len()); }
    assert("--samples"@ != "--lines"@) by { assert("--samples"@.len() != "--lines"@.len()); }
    assert("--samples"@ != "--model-dir"@) by { assert("--samples"@.len() != "--model-dir"@.len()); }
    assert("--samples"@ != "--voice"@) by { assert("--samples"@.len() != "--voice"@.len()); }
    assert("--samples"@ != "--lang"@) by { assert("--samples"@.len() != "--lang"@.len()); }
    assert("--samples"@ != "--speed"@) by { assert("--samples"@.len() != "--speed"@.len()); }
    assert("--samples"@ != "--steps"@) by { assert("--samples"@.len() != "--steps"@.len()); }
    assert("--samples"@ != "--seed"@) by { assert("--samples"@.len() != "--seed"@.len()); }
    assert("--samples"@ != "--asr-bin"@) by { assert("--samples"@[2] != "--asr-bin"@[2]); }
    assert("--samples"@ != "--nemo-st"@) by { assert("--samples"@[2] != "--nemo-st"@[2]); }
    assert("--samples"@ != "--nemo-tok"@) by { assert("--samples"@.len() != "--nemo-tok"@.len()); }
    assert("--samples"@ != "--tmp-dir"@) by { assert("--samples"@[2] != "--tmp-dir"@[2]); }
    assert("--samples"@ != "--keep-wavs"@) by { assert("--samples"@.len() != "--keep-wavs"@.len()); }
    assert("--samples"@ != "--no-summary"@) by { assert("--samples"@.len() != "--no-summary"@.len()); }
    assert("--samples"@ != "-h"@) by { assert("--samples"@.len() != "-h"@.len()); }
    assert("--samples"@ != "--help"@) by { assert("--samples"@.len() != "--help"@.len()); }
    assert("--start"@ != "--end"@) by { assert("--start"@.len() != "--end"@.len()); }
    assert("--start"@ != "--lines"@) by { assert("--start"@[2] != "--lines"@[2]); }
    assert("--start"@ != "--model-dir"@) by { assert("--start"@.len() != "--model-dir"@.len()); }
    assert("--start"@ != "--voice"@) by { assert("--start"@[2] != "--voice"@[2]); }
    assert("--start"@ != "--lang"@) by { assert("--start"@.len() != "--lang"@.len()); }
    assert("--start"@ != "--speed"@) by { assert("--start"@[3] != "--speed"@[3]); }
    assert("--start"@ != "--steps"@) by { assert("--start"@[4] != "--steps"@[4]); }
    assert("--start"@ != "--seed"@) by { assert("--start"@.len() != "--seed"@.len()); }
    assert("--start"@ != "--asr-bin"@) by { assert("--start"@.len() != "--asr-bin"@.len()); }
    assert("--start"@ != "--nemo-st"@) by { assert("--start"@.len() != "--nemo-st"@.len()); }
    assert("--start"@ != "--nemo-tok"@) by { assert("--start"@.len() != "--nemo-tok"@.len()); }
    assert("--start"@ != "--tmp-dir"@) by { assert("--start"@.len() != "--tmp-dir"@.len()); }
    assert("--start"@ != "--keep-wavs"@) by { assert("--start"@.len() != "--keep-wavs"@.len()); }
    assert("--start"@ != "--no-summary"@) by { assert("--start"@.len() != "--no-summary"@.len()); }
    assert("--start"@ != "-h"@) by { assert("--start"@.len() != "-h"@.len()); }
    assert("--start"@ != "--help"@) by { assert("--start"@.len() != "--help"@.len()); }
    assert("--end"@ != "--lines"@) by { assert("--end"@.len() != "--lines"@.len()); }
    assert("--end"@ != "--model-dir"@) by { assert("--end"@.len() != "--model-dir"@.len()); }
    assert("--end"@ != "--voice"@) by { assert("--end"@.len() != "--voice"@.len()); }
    assert("--end"@ != "--lang"@) by { assert("--end"@.len() != "--lang"@.len()); }
    assert("--end"@ != "--speed"@) by { assert("--end"@.len() != "--speed"@.len()); }
    assert("--end"@ != "--steps"@) by { assert("--end"@.len() != "--steps"@.len()); }
    assert("--end"@ != "--seed"@) by { assert("--end"@.len() != "--seed"@.len()); }
    assert("--end"@ != "--asr-bin"@) by { assert("--end"@.len() != "--asr-bin"@.len()); }
    assert("--end"@ != "--nemo-st"@) by { assert("--end"@.len() != "--nemo-st"@.len()); }
    assert("--end"@ != "--nemo-tok"@) by { assert("--end"@.len() != "--nemo-tok"@.len()); }
    assert("--end"@ != "--tmp-dir"@) by { assert("--end"@.len() != "--tmp-dir"@.len()); }
    assert("--end"@ != "--keep-wavs"@) by { assert("--end"@.len() != "--keep-wavs"@.len()); }
    assert("--end"@ != "--no-summary"@) by { assert("--end"@.len() != "--no-summary"@.len()); }
    assert("--end"@ != "-h"@) by { assert("--end"@.len() != "-h"@.len()); }
    assert("--end"@ != "--help"@) by { assert("--end"@.len() != "--help"@.len()); }
    assert("--lines"@ != "--model-dir"@) by { assert("--lines"@.len() != "--model-dir"@.len()); }
    assert("--lines"@ != "--voice"@) by { assert("--lines"@[2] != "--voice"@[2]); }
    assert("--lines"@ != "--lang"@) by { assert("--lines"@.len() != "--lang"@.len()); }
    assert("--lines"@ != "--speed"@) by { assert("--lines"@[2] != "--speed"@[2]); }
    assert("--lines"@ != "--steps"@) by { assert("--lines"@[2] != "--steps"@[2]); }
    assert("--lines"@ != "--seed"@) by { assert("--lines"@.len() != "--seed"@.len()); }
    assert("--lines"@ != "--asr-bin"@) by { assert("--lines"@.len() != "--asr-bin"@.len()); }
    assert("--lines"@ != "--nemo-st"@) by { assert("--lines"@.len() != "--nemo-st"@.len()); }
    assert("--lines"@ != "--nemo-tok"@) by { assert("--lines"@.len() != "--nemo-tok"@.len()); }
    assert("--lines"@ != "--tmp-dir"@) by { assert("--lines"@.len() != "--tmp-dir"@.len()); }
    assert("--lines"@ != "--keep-wavs"@) by { assert("--lines"@.len() != "--keep-wavs"@.len()); }
    assert("--lines"@ != "--no-summary"@) by { assert("--lines"@.len() != "--no-summary"@.len()); }
    assert("--lines"@ != "-h"@) by { assert("--lines"@.len() != "-h"@.len()); }
    assert("--lines"@ != "--help"@) by { assert("--lines"@.len() != "--help"@.len()); }
    assert("--model-dir"@ != "--voice"@) by { assert("--model-dir"@.len() != "--voice"@.len()); }
    assert("--model-dir"@ != "--lang"@) by { assert("--model-dir"@.len() != "--lang"@.len()); }
    assert("--model-dir"@ != "--speed"@) by { assert("--model-dir"@.len() != "--speed"@.len()); }
    assert("--model-dir"@ != "--steps"@) by { assert("--model-dir"@.len() != "--steps"@.len()); }
    assert("--model-dir"@ != "--seed"@) by { assert("--model-dir"@.len() != "--seed"@.len()); }
    assert("--model-dir"@ != "--asr-bin"@) by { assert("--model-dir"@.len() != "--asr-bin"@.len()); }
    assert("--model-dir"@ != "--nemo-st"@) by { assert("--model-dir"@.len() != "--nemo-st"@.len()); }
    assert("--model-dir"@ != "--nemo-tok"@) by { assert("--model-dir"@.len() != "--nemo-tok"@.len()); }
    assert("--model-dir"@ != "--tmp-dir"@) by { assert("--model-dir"@.len() != "--tmp-dir"@.len()); }
    assert("--model-dir"@ != "--keep-wavs"@) by { assert("--model-dir"@[2] != "--keep-wavs"@[2]); }
    assert("--model-dir"@ != "--no-summary"@) by { assert("--model-dir"@.len() != "--no-summary"@.len()); }
    assert("--model-dir"@ != "-h"@) by { assert("--model-dir"@.len() != "-h"@.len()); }
    assert("--model-dir"@ != "--help"@) by { assert("--model-dir"@.len() != "--help"@.len()); }
    assert("--voice"@ != "--lang"@) by { assert("--voice"@.len() != "--lang"@.len()); }
    assert("--voice"@ != "--speed"@) by { assert("--voice"@[2] != "--speed"@[2]); }
    assert("--voice"@ != "--steps"@) by { assert("--voice"@[2] != "--steps"@[2]); }
    assert("--voice"@ != "--seed"@) by { assert("--voice"@.len() != "--seed"@.len()); }
    assert("--voice"@ != "--asr-bin"@) by { assert("--voice"@.len() != "--asr-bin"@.len()); }
    assert("--voice"@ != "--nemo-st"@) by { assert("--voice"@.len() != "--nemo-st"@.len()); }
    assert("--voice"@ != "--nemo-tok"@) by { assert("--voice"@.len() != "--nemo-tok"@.len()); }
    assert("--voice"@ != "--tmp-dir"@) by { assert("--voice"@.len() != "--tmp-dir"@.len()); }
    assert("--voice"@ != "--keep-wavs"@) by { assert("--voice"@.len() != "--keep-wavs"@.len()); }
    assert("--voice"@ != "--no-summary"@) by { assert("--voice"@.len() != "--no-summary"@.len()); }
    assert("--voice"@ != "-h"@) by { assert("--voice"@.len() != "-h"@.len()); }
    assert("--voice"@ != "--help"@) by { assert("--voice"@.len() != "--help"@.len()); }
    assert("--lang"@ != "--speed"@) by { assert("--lang"@.len() != "--speed"@.len()); }
    assert("--lang"@ != "--steps"@) by { assert("--lang"@.len() != "--steps"@.len()); }
    assert("--lang"@ != "--seed"@) by { assert("--lang"@[2] != "--seed"@[2]); }
    assert("--lang"@ != "--asr-bin"@) by { assert("--lang"@.len() != "--asr-bin"@.len()); }
    assert("--lang"@ != "--nemo-st"@) by { assert("--lang"@.len() != "--nemo-st"@.len()); }
    assert("--lang"@ != "--nemo-tok"@) by { assert("--lang"@.len() != "--nemo-tok"@.len()); }
    assert("--lang"@ != "--tmp-dir"@) by { assert("--lang"@.len() != "--tmp-dir"@.len()); }
    assert("--lang"@ != "--keep-wavs"@) by { assert("--lang"@.len() != "--keep-wavs"@.len()); }
    assert("--lang"@ != "--no-summary"@) by { assert("--lang"@.len() != "--no-summary"@.len()); }
    assert("--lang"@ != "-h"@) by { assert("--lang"@.len() != "-h"@.len()); }
    assert("--lang"@ != "--help"@) by { assert("--lang"@[2] != "--help"@[2]); }
    assert("--speed"@ != "--steps"@) by { assert("--speed"@[3] != "--steps"@[3]); }
    assert("--speed"@ != "--seed"@) by { assert("--speed"@.len() != "--seed"@.len()); }
    assert("--speed"@ != "--asr-bin"@) by { assert("--speed"@.len() != "--asr-bin"@.len()); }
    assert("--speed"@ != "--nemo-st"@) by { assert("--speed"@.len() != "--nemo-st"@.len()); }
    assert("--speed"@ != "--nemo-tok"@) by { assert("--speed"@.len() != "--nemo-tok"@.len()); }
    assert("--speed"@ != "--tmp-dir"@) by { assert("--speed"@.len() != "--tmp-dir"@.len()); }
    assert("--speed"@ != "--keep-wavs"@) by { assert("--speed"@.len() != "--keep-wavs"@.len()); }
    assert("--speed"@ != "--no-summary"@) by { assert("--speed"@.len() != "--no-summary"@.len()); }
    assert("--speed"@ != "-h"@) by { assert("--speed"@.len() != "-h"@.len()); }
    assert("--speed"@ != "--help"@) by { assert("--speed"@.len() != "--help"@.len()); }
    assert("--steps"@ != "--seed"@) by { assert("--steps"@.len() != "--seed"@.len()); }
    assert("--steps"@ != "--asr-bin"@) by { assert("--steps"@.len() != "--asr-bin"@.len()); }
    assert("--steps"@ != "--nemo-st"@) by { assert("--steps"@.len() != "--nemo-st"@.len()); }
    assert("--steps"@ != "--nemo-tok"@) by { assert("--steps"@.len() != "--nemo-tok"@.len()); }
    assert("--steps"@ != "--tmp-dir"@) by { assert("--steps"@.len() != "--tmp-dir"@.len()); }
    assert("--steps"@ != "--keep-wavs"@) by { assert("--steps"@.len() != "--keep-wavs"@.len()); }
    assert("--steps"@ != "--no-summary"@) by { assert("--steps"@.len() != "--no-summary"@.len()); }
    assert("--steps"@ != "-h"@) by { assert("--steps"@.len() != "-h"@.len()); }
    assert("--steps"@ != "--help"@) by { assert("--steps"@.len() != "--help"@.len()); }
    assert("--seed"@ != "--asr-bin"@) by { assert("--seed"@.len() != "--asr-bin"@.len()); }
    assert("--seed"@ != "--nemo-st"@) by { assert("--seed"@.len() != "--nemo-st"@.len()); }
    assert("--seed"@ != "--nemo-tok"@) by { assert("--seed"@.len() != "--nemo-tok"@.len()); }
    assert("--seed"@ != "--tmp-dir"@) by { assert("--seed"@.len() != "--tmp-dir"@.len()); }
    assert("--seed"@ != "--keep-wavs"@) by { assert("--seed"@.len() != "--keep-wavs"@.len()); }
    assert("--seed"@ != "--no-summary"@) by { assert("--seed"@.len() != "--no-summary"@.len()); }
    assert("--seed"@ != "-h"@) by { assert("--seed"@.len() != "-h"@.len()); }
    assert("--seed"@ != "--help"@) by { assert("--seed"@[2] != "--help"@[2]); }
    assert("--asr-bin"@ != "--nemo-st"@) by { assert("--asr-bin"@[2] != "--nemo-st"@[2]); }
    assert("--asr-bin"@ != "--nemo-tok"@) by { assert("--asr-bin"@.len() != "--nemo-tok"@.len()); }
    assert("--asr-bin"@ != "--tmp-dir"@) by { assert("--asr-bin"@[2] != "--tmp-dir"@[2]); }
    assert("--asr-bin"@ != "--keep-wavs"@) by { assert("--asr-bin"@.len() != "--keep-wavs"@.len()); }
    assert("--asr-bin"@ != "--no-summary"@) by { assert("--asr-bin"@.len() != "--no-summary"@.len()); }
    assert("--asr-bin"@ != "-h"@) by { assert("--asr-bin"@.len() != "-h"@.len()); }
    assert("--asr-bin"@ != "--help"@) by { assert("--asr-bin"@.len() != "--help"@.len()); }
    assert("--nemo-st"@ != "--nemo-tok"@) by { assert("--nemo-st"@.len() != "--nemo-tok"@.len()); }
    assert("--nemo-st"@ != "--tmp-dir"@) by { assert("--nemo-st"@[2] != "--tmp-dir"@[2]); }
    assert("--nemo-st"@ != "--keep-wavs"@) by { assert("--nemo-st"@.len() != "--keep-wavs"@.len()); }
    assert("--nemo-st"@ != "--no-summary"@) by { assert("--nemo-st"@.len() != "--no-summary"@.len()); }
    assert("--nemo-st"@ != "-h"@) by { assert("--nemo-st"@.len() != "-h"@.len()); }
    assert("--nemo-st"@ != "--help"@) by { assert("--nemo-st"@.len() != "--help"@.len()); }
    assert("--nemo-tok"@ != "--tmp-dir"@) by { assert("--nemo-tok"@.len() != "--tmp-dir"@.len()); }
    assert("--nemo-tok"@ != "--keep-wavs"@) by { assert("--nemo-tok"@.len() != "--keep-wavs"@.len()); }
    assert("--nemo-tok"@ != "--no-summary"@) by { assert("--nemo-tok"@.len() != "--no-summary"@.len()); }
    assert("--nemo-tok"@ != "-h"@) by { assert("--nemo-tok"@.len() != "-h"@.len()); }
    assert("--nemo-tok"@ != "--help"@) by { assert("--nemo-tok"@.len() != "--help"@.len()); }
    assert("--tmp-dir"@ != "--keep-wavs"@) by { assert("--tmp-dir"@.len() != "--keep-wavs"@.len()); }
    assert("--tmp-dir"@ != "--no-summary"@) by { assert("--tmp-dir"@.len() != "--no-summary"@.len()); }
    assert("--tmp-dir"@ != "-h"@) by { assert("--tmp-dir"@.len() != "-h"@.len()); }
    assert("--tmp-dir"@ != "--help"@) by { assert("--tmp-dir"@.len() != "--help"@.len()); }
    assert("--keep-wavs"@ != "--no-summary"@) by { assert("--keep-wavs"@.len() != "--no-summary"@.len()); }
    assert("--keep-wavs"@ != "-h"@) by { assert("--keep-wavs"@.len() != "-h"@.len()); }
    assert("--keep-wavs"@ != "--help"@) by { assert("--keep-wavs"@.len() != "--help"@.len()); }
    assert("--no-summary"@ != "-h"@) by { assert("--no-summary"@.len() != "-h"@.len()); }
    assert("--no-summary"@ != "--help"@) by { assert("--no-summary"@.len() != "--help"@.len()); }
}

/// Without arguments, all samples are run, with eight steps, in English, by the voice M1;
/// audio is not kept, and a summary is printed.
pub proof fn law_roundtrip_defaults(r: RoundtripArgs)
    requires
        r.as_set(seq![], seq![]),
    ensures
        r.samples@ == "tmp/samples.txt"@,
        r.start == 0,
        r.end is None,
        r.lines is None,
        r.model_dir@ == "models"@,
        r.voice@ == "models/voice_styles/M1.json"@,
        r.lang@ == "en"@,
        r.speed is None,
        r.steps == 8,
        r.seed is None,
        r.asr_bin@ == "../nemotron-speech/target/release/transcribe"@,
        r.nemo_st@ == "../nemotron-speech/models/nemotron-speech-streaming-en-0.6b.safetensors"@,
        r.nemo_tok@ == "../nemotron-speech/models/tokenizer.model"@,
        r.tmp_dir@ == "tmp/roundtrip"@,
        !r.keep_wavs,
        r.summary,
{
}

/// An option that is given last sets what it is named after, whatever stands before it.
#[verifier::rlimit(60)]
pub proof fn law_roundtrip_option(
    a: Seq<Seq<char>>,
    fa: Seq<bool>,
    name: Seq<char>,
    x: Seq<char>,
    fraction: bool,
    r: RoundtripArgs,
)
    requires
        fa.len() == a.len(),
        a.len() + 2 <= usize::MAX,
        settings_from(roundtrip_table(), a, fa, 0) matches Ok((_, false)),
        settings_from(
            roundtrip_table(),
            a + seq![name, x],
            fa + seq![false, fraction],
            0,
        ) matches Ok((settings, false)) && r.as_set(a + seq![name, x], settings),
    ensures
        name == "--samples"@ ==> r.samples@ == x,
        name == "--lines"@ ==> line_ranges(x) is Ok && maybe_ranges(r.lines) == Some(
            line_ranges(x)->Ok_0,
        ),
        name == "--model-dir"@ ==> r.model_dir@ == x,
        name == "--voice"@ ==> r.voice@ == x,
        name == "--lang"@ ==> r.lang@ == x,
        name == "--speed"@ ==> r.speed == Some((a.len() + 1) as usize) && fraction,
        name == "--asr-bin"@ ==> r.asr_bin@ == x,
        name == "--nemo-st"@ ==> r.nemo_st@ == x,
        name == "--nemo-tok"@ ==> r.nemo_tok@ == x,
        name == "--tmp-dir"@ ==> r.tmp_dir@ == x,
        name == "--start"@ ==> number(x, usize::MAX as int) == Ok::<int, NumberError>(
            r.start as int,
        ),
        name == "--end"@ ==> r.end is Some && number(x, usize::MAX as int) == Ok::<
            int,
            NumberError,
        >(r.end->0 as int),
        name == "--steps"@ ==> number(x, usize::MAX as int) == Ok::<int, NumberError>(
            r.steps as int,
        ),
        name == "--seed"@ ==> r.seed is Some && number(x, u64::MAX as int) == Ok::<int, NumberError>(
            r.seed->0 as int,
        ),
{
    lemma_roundtrip_places();
    let t = roundtrip_table();
    let k = place(t, name, 0);
    if 0 <= k < 14 && (name == "--samples"@ || name == "--lines"@ || name == "--model-dir"@ || name
        == "--voice"@ || name == "--lang"@ || name == "--speed"@ || name == "--asr-bin"@ || name
        == "--nemo-st"@ || name == "--nemo-tok"@ || name == "--tmp-dir"@ || name == "--start"@ || name
        == "--end"@ || name == "--steps"@ || name == "--seed"@) {
        law_option_given_last(t, a, fa, name, x, fraction);
        let all = a + seq![name, x];
        let f = fa + seq![false, fraction];
        let n = a.len() as int;
        assert(all[n + 1] == x);
        assert(f[n + 1] == fraction);
        let v = value_of(t[k].kind, k as usize, all, f, n);
        let had = settings_from(t, a, fa, 0)->Ok_0.0;
        law_last_given_holds(had, k as usize, v->Ok_0, k);
        lemma_number_range(x, usize::MAX as int);
        lemma_number_range(x, u64::MAX as int);
        lemma_number_range(x, u32::MAX as int);
    }
}

} // verus!
