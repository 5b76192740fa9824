//! Options and their values.
//!
//! An option's value is given by its position among the arguments. Whether an
//! argument is a decimal fraction is not decided here: the caller says so for each.

use vstd::prelude::*;

use crate::digits::{number, read_number, NumberError};
use crate::roundtrip::lines::{line_ranges, parse_line_spec};
use crate::strings::{chars_of, owned, same_text, texts};

verus! {

/// What an option takes.
#[derive(Debug, Clone, Copy, PartialEq, Eq, Structural)]
pub enum Kind {
    /// Nothing; it is on where it is given.
    Switch,
    /// Any text.
    Text,
    /// A number, at most as large as given.
    Number(u64),
    /// A decimal fraction.
    Real,
    /// A list of lines.
    Lines,
    /// A device.
    Device,
}

/// A device to compute on.
#[derive(Debug, Clone, Copy, PartialEq, Eq, Structural)]
pub enum DeviceChoice {
    Cpu,
    Metal,
    /// Whichever there is.
    Auto,
}

/// An option.
#[derive(Debug, Clone, Copy)]
pub struct OptionSpec {
    pub name: &'static str,
    pub kind: Kind,
}

/// The value of an option: where an argument stands, or a number.
#[derive(Debug, Clone, Copy, PartialEq, Eq, Structural)]
pub enum Value {
    On,
    Text(usize),
    Number(u64),
    Real(usize),
    Lines(usize),
    Device(DeviceChoice),
}

/// An option that was given, by its place in the table, and its value.
#[derive(Debug, Clone, Copy, PartialEq, Eq, Structural)]
pub struct Setting {
    pub option: usize,
    pub value: Value,
}

/// What is wrong with the arguments.
#[derive(Debug, Clone, Copy, PartialEq, Eq, Structural)]
pub enum ArgError {
    /// The value of an option is missing.
    Missing(usize),
    /// The value of an option is not a number.
    BadNumber(usize, NumberError),
    /// The value of an option is not a decimal fraction.
    BadReal(usize),
    /// The value of an option is not a list of lines.
    BadLines(usize, NumberError),
    /// The value of an option is not a device.
    BadDevice(usize),
    /// There is no such option; this is where it stands.
    Unknown(usize),
}

/// The options that were given, and whether help was asked for behind them.
#[derive(Debug)]
pub struct Parsed {
    pub settings: Vec<Setting>,
    pub help: bool,
}

/// The device of a name.
pub open spec fn device(name: Seq<char>) -> Option<DeviceChoice> {
    if name == "cpu"@ {
        Some(DeviceChoice::Cpu)
    } else if name == "metal"@ {
        Some(DeviceChoice::Metal)
    } else if name == "auto"@ {
        Some(DeviceChoice::Auto)
    } else {
        None
    }
}

/// Finds the device of a name.
pub fn device_of(name: &str) -> (r: Option<DeviceChoice>)
    ensures
        r == device(name@),
{
    if same_text(name, "cpu") {
        Some(DeviceChoice::Cpu)
    } else if same_text(name, "metal") {
        Some(DeviceChoice::Metal)
    } else if same_text(name, "auto") {
        Some(DeviceChoice::Auto)
    } else {
        None
    }
}

/// Whether an argument asks for help.
pub open spec fn asks_help(arg: Seq<char>) -> bool {
    arg == "-h"@ || arg == "--help"@
}

/// The place of an option in a table, at or after `k`, or the table's length.
pub open spec fn place(table: Seq<OptionSpec>, arg: Seq<char>, k: int) -> int
    decreases table.len() - k,
{
    if 0 <= k < table.len() && table[k].name@ != arg {
        place(table, arg, k + 1)
    } else {
        k
    }
}

/// Reads the value of option `k`, whose name stands at `i`.
pub open spec fn value_of(
    kind: Kind,
    k: usize,
    args: Seq<Seq<char>>,
    fractions: Seq<bool>,
    i: int,
) -> Result<Value, ArgError> {
    let at = i + 1;
    if kind is Switch {
        Ok(Value::On)
    } else if at >= args.len() {
        Err(ArgError::Missing(k))
    } else {
        match kind {
            Kind::Number(max) => match number(args[at], max as int) {
                Ok(n) => Ok(Value::Number(n as u64)),
                Err(e) => Err(ArgError::BadNumber(k, e)),
            },
            Kind::Real => if fractions[at] {
                Ok(Value::Real(at as usize))
            } else {
                Err(ArgError::BadReal(k))
            },
            Kind::Lines => match line_ranges(args[at]) {
                Ok(_) => Ok(Value::Lines(at as usize)),
                Err(e) => Err(ArgError::BadLines(k, e)),
            },
            Kind::Device => match device(args[at]) {
                Some(d) => Ok(Value::Device(d)),
                None => Err(ArgError::BadDevice(k)),
            },
            _ => Ok(Value::Text(at as usize)),
        }
    }
}

/// Where the argument after an option and its value stands.
pub open spec fn behind(kind: Kind, i: int) -> int {
    if kind is Switch {
        i + 1
    } else {
        i + 2
    }
}

/// Reads the arguments from `i` on, up to one that asks for help. The first thing
/// that is wrong decides.
pub open spec fn settings_from(
    table: Seq<OptionSpec>,
    args: Seq<Seq<char>>,
    fractions: Seq<bool>,
    i: int,
) -> Result<(Seq<Setting>, bool), ArgError>
    decreases args.len() - i,
{
    if i >= args.len() {
        Ok((seq![], false))
    } else if asks_help(args[i]) {
        Ok((seq![], true))
    } else {
        let k = place(table, args[i], 0);
        if k >= table.len() {
            Err(ArgError::Unknown(i as usize))
        } else {
            match value_of(table[k].kind, k as usize, args, fractions, i) {
                Err(e) => Err(e),
                Ok(value) => match settings_from(table, args, fractions, behind(table[k].kind, i)) {
                    Err(e) => Err(e),
                    Ok((rest, help)) => Ok(
                        (seq![Setting { option: k as usize, value }] + rest, help),
                    ),
                },
            }
        }
    }
}

/// Finds an option in a table.
fn place_of(table: &Vec<OptionSpec>, arg: &str) -> (r: usize)
    ensures
        r == place(table@, arg@, 0),
        r <= table@.len(),
{
    let mut k: usize = 0;
    while k < table.len() && !same_text(table[k].name, arg)
        invariant
            k <= table@.len(),
            place(table@, arg@, k as int) == place(table@, arg@, 0),
        decreases table@.len() - k,
    {
        k = k + 1;
    }
    k
}

/// Reads the value of option `k`, whose name stands at `i`.
fn read_value(kind: Kind, k: usize, args: &[String], fractions: &[bool], i: usize) -> (r: Result<
    Value,
    ArgError,
>)
    requires
        i < args@.len(),
        fractions@.len() == args@.len(),
    ensures
        r == value_of(kind, k, texts(args@), fractions@, i as int),
{
    match kind {
        Kind::Switch => {
            return Ok(Value::On);
        },
        _ => {},
    }
    if i >= args.len() - 1 {
        return Err(ArgError::Missing(k));
    }
    let at: usize = i + 1;
    assert(texts(args@)[at as int] == args@[at as int]@);
    match kind {
        Kind::Number(max) => {
            let chars = chars_of(args[at].as_str());
            match read_number(chars.as_slice(), max) {
                Ok(n) => Ok(Value::Number(n)),
                Err(e) => Err(ArgError::BadNumber(k, e)),
            }
        },
        Kind::Real => if fractions[at] {
            Ok(Value::Real(at))
        } else {
            Err(ArgError::BadReal(k))
        },
        Kind::Lines => match parse_line_spec(args[at].as_str()) {
            Ok(_) => Ok(Value::Lines(at)),
            Err(e) => Err(ArgError::BadLines(k, e)),
        },
        Kind::Device => match device_of(args[at].as_str()) {
            Some(d) => Ok(Value::Device(d)),
            None => Err(ArgError::BadDevice(k)),
        },
        _ => Ok(Value::Text(at)),
    }
}

/// Reads the arguments: the options that were given, up to one that asks for help.
pub fn read_settings(table: &Vec<OptionSpec>, args: &[String], fractions: &[bool]) -> (r: Result<
    Parsed,
    ArgError,
>)
    requires
        fractions@.len() == args@.len(),
    ensures
        match r {
            Ok(p) => settings_from(table@, texts(args@), fractions@, 0) == Ok::<
                (Seq<Setting>, bool),
                ArgError,
            >((p.settings@, p.help)),
            Err(e) => settings_from(table@, texts(args@), fractions@, 0) == Err::<
                (Seq<Setting>, bool),
                ArgError,
            >(e),
        },
{
    let ghost all = texts(args@);
    let ghost whole = settings_from(table@, all, fractions@, 0);
    let mut out: Vec<Setting> = Vec::new();
    let mut i: usize = 0;
    proof {
        match whole {
            Ok((rest, help)) => {
                assert(out@ + rest == rest);
            },
            Err(_) => {},
        }
    }
    while i < args.len()
        invariant
            all == texts(args@),
            fractions@.len() == args@.len(),
            i <= args@.len(),
            match settings_from(table@, all, fractions@, i as int) {
                Ok((rest, help)) => whole == Ok::<(Seq<Setting>, bool), ArgError>(
                    (out@ + rest, help),
                ),
                Err(e) => whole == Err::<(Seq<Setting>, bool), ArgError>(e),
            },
            whole == settings_from(table@, all, fractions@, 0),
        decreases args@.len() - i,
    {
        let arg = args[i].as_str();
        assert(all[i as int] == arg@);
        if same_text(arg, "-h") || same_text(arg, "--help") {
            assert(out@ + seq![] == out@);
            return Ok(Parsed { settings: out, help: true });
        }
        let k: usize = place_of(table, arg);
        if k >= table.len() {
            return Err(ArgError::Unknown(i));
        }
        let kind = table[k].kind;
        let value = match read_value(kind, k, args, fractions, i) {
            Ok(v) => v,
            Err(e) => {
                return Err(e);
            },
        };
        let ghost before = out@;
        let setting = Setting { option: k, value };
        out.push(setting);
        let step: usize = match kind {
            Kind::Switch => 1,
            _ => 2,
        };
        assert(i + step == behind(kind, i as int));
        assert(i + step <= args@.len());
        proof {
            match settings_from(table@, all, fractions@, i + step) {
                Ok((rest, help)) => {
                    assert(before + (seq![setting] + rest) == out@ + rest);
                },
                Err(_) => {},
            }
        }
        i = i + step;
    }
    assert(out@ + seq![] == out@);
    Ok(Parsed { settings: out, help: false })
}

/// Whether a setting is of an option of the table, with a value of its kind that
/// stands among the arguments.
pub open spec fn fitting(
    table: Seq<OptionSpec>,
    args: Seq<Seq<char>>,
    fractions: Seq<bool>,
    s: Setting,
) -> bool {
    let n = args.len();
    &&& s.option < table.len()
    &&& match s.value {
        Value::On => table[s.option as int].kind is Switch,
        Value::Text(i) => table[s.option as int].kind is Text && i < n,
        Value::Number(v) => table[s.option as int].kind matches Kind::Number(max) && v <= max,
        Value::Real(i) => table[s.option as int].kind is Real && i < n && fractions[i as int],
        Value::Lines(i) => table[s.option as int].kind is Lines && i < n && line_ranges(
            args[i as int],
        ) is Ok,
        Value::Device(_) => table[s.option as int].kind is Device,
    }
}

/// A number that is read is at most as large as allowed.
proof fn lemma_number_bound(s: Seq<char>, i: int, so_far: int, max: int)
    requires
        so_far <= max,
    ensures
        crate::digits::digits_from(s, i, so_far, max) matches Ok(n) ==> n <= max,
    decreases s.len() - i,
{
    if i < s.len() {
        let d = crate::digits::digit_value(s[i]);
        if d != 10 && so_far * 10 + d <= max {
            lemma_number_bound(s, i + 1, so_far * 10 + d, max);
        }
    }
}

/// Every setting that is read fits its option.
pub proof fn law_settings_fit(
    table: Seq<OptionSpec>,
    args: Seq<Seq<char>>,
    fractions: Seq<bool>,
    i: int,
    j: int,
)
    requires
        0 <= i <= args.len() <= usize::MAX,
        table.len() <= usize::MAX,
        settings_from(table, args, fractions, i) is Ok,
        0 <= j < settings_from(table, args, fractions, i)->Ok_0.0.len(),
    ensures
        fitting(
            table,
            args,
            fractions,
            settings_from(table, args, fractions, i)->Ok_0.0[j],
        ),
    decreases args.len() - i,
{
    if i < args.len() && !asks_help(args[i]) {
        let k = place(table, args[i], 0);
        lemma_place(table, args[i], 0);
        let kind = table[k].kind;
        if j == 0 {
            if kind !is Switch {
                match kind {
                    Kind::Number(max) => {
                        lemma_number_bound(args[i + 1], 0, 0, max as int);
                        lemma_number_bound(args[i + 1], 1, 0, max as int);
                        lemma_number_positive(args[i + 1], 0, 0, max as int);
                        lemma_number_positive(args[i + 1], 1, 0, max as int);
                    },
                    _ => {},
                }
            }
        } else {
            law_settings_fit(table, args, fractions, behind(kind, i), j - 1);
        }
    }
}

/// A number that is read is not negative.
proof fn lemma_number_positive(s: Seq<char>, i: int, so_far: int, max: int)
    requires
        so_far >= 0,
    ensures
        crate::digits::digits_from(s, i, so_far, max) matches Ok(n) ==> n >= 0,
    decreases s.len() - i,
{
    if i < s.len() {
        let d = crate::digits::digit_value(s[i]);
        if d != 10 && so_far * 10 + d <= max {
            lemma_number_positive(s, i + 1, so_far * 10 + d, max);
        }
    }
}

/// An option is found within the table, or not at all.
proof fn lemma_place(table: Seq<OptionSpec>, arg: Seq<char>, k: int)
    requires
        0 <= k <= table.len(),
    ensures
        k <= place(table, arg, k) <= table.len(),
    decreases table.len() - k,
{
    if k < table.len() && table[k].name@ != arg {
        lemma_place(table, arg, k + 1);
    }
}

// ---------------------------------------------------------------------------
// Looking settings up
// ---------------------------------------------------------------------------

/// The value that option `k` was given last.
pub open spec fn last_value(settings: Seq<Setting>, k: int) -> Option<Value>
    decreases settings.len(),
{
    if settings.len() == 0 {
        None
    } else if settings.last().option == k {
        Some(settings.last().value)
    } else {
        last_value(settings.drop_last(), k)
    }
}

/// Finds the value that option `k` was given last.
pub fn last_value_of(settings: &Vec<Setting>, k: usize) -> (r: Option<Value>)
    ensures
        r == last_value(settings@, k as int),
        r matches Some(v) ==> exists|j: int|
            0 <= j < settings@.len() && #[trigger] settings@[j] == (Setting { option: k, value: v }),
{
    let mut n: usize = settings.len();
    assert(settings@.take(n as int) == settings@);
    while n > 0
        invariant
            n <= settings@.len(),
            last_value(settings@, k as int) == last_value(settings@.take(n as int), k as int),
        decreases n,
    {
        let s = settings[n - 1];
        assert(settings@.take(n as int).last() == s);
        assert(settings@.take(n as int).drop_last() == settings@.take(n - 1));
        if s.option == k {
            assert(settings@[n - 1] == (Setting { option: k, value: s.value }));
            return Some(s.value);
        }
        n = n - 1;
    }
    None
}

/// The text that a value stands for, or another where there is none.
pub open spec fn text_or(args: Seq<Seq<char>>, v: Option<Value>, other: Seq<char>) -> Seq<char> {
    match v {
        Some(Value::Text(i)) => args[i as int],
        _ => other,
    }
}

/// The text that a value stands for, if there is one.
pub open spec fn text_if(args: Seq<Seq<char>>, v: Option<Value>) -> Option<Seq<char>> {
    match v {
        Some(Value::Text(i)) => Some(args[i as int]),
        _ => None,
    }
}

/// The number that a value is, or another where there is none.
pub open spec fn number_or(v: Option<Value>, other: int) -> int {
    match v {
        Some(Value::Number(n)) => n as int,
        _ => other,
    }
}

/// The number that a value is, if there is one.
pub open spec fn number_if(v: Option<Value>) -> Option<int> {
    match v {
        Some(Value::Number(n)) => Some(n as int),
        _ => None,
    }
}

/// The position of the decimal fraction that a value stands for, if there is one.
pub open spec fn real_if(v: Option<Value>) -> Option<usize> {
    match v {
        Some(Value::Real(i)) => Some(i),
        _ => None,
    }
}

/// A string that may be missing, by its characters.
pub open spec fn maybe_text(s: Option<String>) -> Option<Seq<char>> {
    match s {
        Some(t) => Some(t@),
        None => None,
    }
}

/// A number that may be missing.
pub open spec fn maybe_number(n: Option<u64>) -> Option<int> {
    match n {
        Some(v) => Some(v as int),
        None => None,
    }
}

/// Whether all settings fit their options.
pub open spec fn all_fitting(
    table: Seq<OptionSpec>,
    args: Seq<Seq<char>>,
    fractions: Seq<bool>,
    settings: Seq<Setting>,
) -> bool {
    forall|j: int|
        0 <= j < settings.len() ==> fitting(table, args, fractions, #[trigger] settings[j])
}

/// Whether a value, if there is one, fits option `k`.
pub open spec fn value_fits(
    table: Seq<OptionSpec>,
    args: Seq<Seq<char>>,
    fractions: Seq<bool>,
    k: int,
    v: Option<Value>,
) -> bool {
    v matches Some(value) ==> fitting(
        table,
        args,
        fractions,
        (Setting { option: k as usize, value }),
    )
}

/// Finds the value that option `k` of a command line was given last, which fits it.
pub(crate) fn look_up(
    settings: &Vec<Setting>,
    k: usize,
    line: Ghost<(Seq<OptionSpec>, Seq<Seq<char>>, Seq<bool>)>,
) -> (r: Option<Value>)
    requires
        all_fitting(line@.0, line@.1, line@.2, settings@),
    ensures
        r == last_value(settings@, k as int),
        value_fits(line@.0, line@.1, line@.2, k as int, r),
{
    last_value_of(settings, k)
}

/// The text that a value stands for, or another where there is none.
pub fn take_text(args: &[String], v: Option<Value>, other: &str) -> (r: String)
    requires
        v matches Some(Value::Text(i)) ==> i < args@.len(),
    ensures
        r@ == text_or(texts(args@), v, other@),
{
    match v {
        Some(Value::Text(i)) => {
            assert(texts(args@)[i as int] == args@[i as int]@);
            owned(args[i].as_str())
        },
        _ => owned(other),
    }
}

/// The text that a value stands for, if there is one.
pub fn take_text_if(args: &[String], v: Option<Value>) -> (r: Option<String>)
    requires
        v matches Some(Value::Text(i)) ==> i < args@.len(),
    ensures
        maybe_text(r) == text_if(texts(args@), v),
{
    match v {
        Some(Value::Text(i)) => {
            assert(texts(args@)[i as int] == args@[i as int]@);
            Some(owned(args[i].as_str()))
        },
        _ => None,
    }
}

/// The number that a value is, or another where there is none.
pub fn take_number(v: Option<Value>, other: u64) -> (r: u64)
    ensures
        r == number_or(v, other as int),
{
    match v {
        Some(Value::Number(n)) => n,
        _ => other,
    }
}

/// The number that a value is, if there is one.
pub fn take_number_if(v: Option<Value>) -> (r: Option<u64>)
    ensures
        maybe_number(r) == number_if(v),
{
    match v {
        Some(Value::Number(n)) => Some(n),
        _ => None,
    }
}

/// The position of the decimal fraction that a value stands for, if there is one.
pub fn take_real_if(v: Option<Value>) -> (r: Option<usize>)
    ensures
        r == real_if(v),
{
    match v {
        Some(Value::Real(i)) => Some(i),
        _ => None,
    }
}

/// Every setting of a whole command line fits its option.
pub proof fn lemma_all_fitting(table: Seq<OptionSpec>, args: Seq<Seq<char>>, fractions: Seq<bool>)
    requires
        args.len() <= usize::MAX,
        table.len() <= usize::MAX,
        settings_from(table, args, fractions, 0) is Ok,
    ensures
        all_fitting(
            table,
            args,
            fractions,
            settings_from(table, args, fractions, 0)->Ok_0.0,
        ),
{
    let settings = settings_from(table, args, fractions, 0)->Ok_0.0;
    assert forall|j: int| 0 <= j < settings.len() implies fitting(
        table,
        args,
        fractions,
        #[trigger] settings[j],
    ) by {
        law_settings_fit(table, args, fractions, 0, j);
    }
}

/// A number that is read lies between zero and the largest that is allowed.
pub proof fn lemma_number_range(s: Seq<char>, max: int)
    requires
        max >= 0,
    ensures
        number(s, max) matches Ok(n) ==> 0 <= n <= max,
{
    lemma_number_bound(s, 0, 0, max);
    lemma_number_bound(s, 1, 0, max);
    lemma_number_positive(s, 0, 0, max);
    lemma_number_positive(s, 1, 0, max);
}

} // verus!
