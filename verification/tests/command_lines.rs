//! Command lines, and what is downloaded.

use soda_tts::cli::download::{
    count_voices, first_step, goes_on, next_step, parse_download, plan_downloads, DownloadCommand,
    FetchStep,
};
use soda_tts::cli::options::{device_of, ArgError, DeviceChoice};
use soda_tts::cli::roundtrip::{parse_roundtrip, RoundtripArgs, RoundtripCommand};
use soda_tts::cli::speak::{
    choose_input, parse_speak, parse_speak_candle, Input, InputError, SpeakArgs, SpeakCandleCommand,
    SpeakCommand,
};
use soda_tts::digits::NumberError;

fn args(line: &[&str]) -> (Vec<String>, Vec<bool>) {
    let list: Vec<String> = line.iter().map(|s| s.to_string()).collect();
    let fractions = list.iter().map(|s| s.parse::<f32>().is_ok()).collect();
    (list, fractions)
}

fn speak(line: &[&str]) -> Result<SpeakArgs, ArgError> {
    let (list, fractions) = args(line);
    match parse_speak(&list, &fractions) {
        Ok(SpeakCommand::Run(a)) => Ok(a),
        Ok(SpeakCommand::Help) => panic!("help"),
        Err(e) => Err(e),
    }
}

fn roundtrip(line: &[&str]) -> Result<RoundtripArgs, ArgError> {
    let (list, fractions) = args(line);
    match parse_roundtrip(&list, &fractions) {
        Ok(RoundtripCommand::Run(a)) => Ok(a),
        Ok(RoundtripCommand::Help) => panic!("help"),
        Err(e) => Err(e),
    }
}

fn failure<T>(r: Result<T, ArgError>) -> ArgError {
    match r {
        Ok(_) => panic!("accepted"),
        Err(e) => e,
    }
}

#[test]
fn speaking_has_defaults() {
    let a = speak(&[]).unwrap();
    assert_eq!(a.model_dir, "models");
    assert_eq!(a.voice, "models/voice_styles/M1.json");
    assert_eq!(a.text, None);
    assert_eq!(a.infile, None);
    assert_eq!(a.out, "hello.wav");
    assert_eq!(a.lang, "en");
    assert_eq!(a.speed, None);
    assert_eq!(a.steps, 8);
    assert_eq!(a.seed, None);
    assert_eq!(a.silence_ms, 300);
    assert!(!a.verbose);
}

#[test]
fn speaking_takes_options() {
    let a = speak(&[
        "--text", "hi", "--model-dir", "m", "--voice", "v", "--out", "o.wav", "--lang", "ko",
        "--speed", "1.5", "--steps", "4", "--seed", "42", "--silence-ms", "10", "--verbose",
        "--infile", "f",
    ])
    .unwrap();
    assert_eq!(a.text.as_deref(), Some("hi"));
    assert_eq!(a.infile.as_deref(), Some("f"));
    assert_eq!((a.model_dir.as_str(), a.voice.as_str()), ("m", "v"));
    assert_eq!((a.out.as_str(), a.lang.as_str()), ("o.wav", "ko"));
    assert_eq!(a.speed, Some(11));
    assert_eq!((a.steps, a.seed, a.silence_ms), (4, Some(42), 10));
    assert!(a.verbose);
}

#[test]
fn the_last_value_counts() {
    let a = speak(&["--out", "a", "--out", "b", "--steps", "1", "--steps", "2"]).unwrap();
    assert_eq!(a.out, "b");
    assert_eq!(a.steps, 2);
    assert_eq!(speak(&["--text", "--verbose"]).unwrap().text.as_deref(), Some("--verbose"));
}

#[test]
fn wrong_arguments_are_told_apart() {
    assert_eq!(failure(speak(&["--bogus"])), ArgError::Unknown(0));
    assert_eq!(failure(speak(&["--verbose", "x"])), ArgError::Unknown(1));
    assert_eq!(failure(speak(&["--out"])), ArgError::Missing(4));
    assert_eq!(failure(speak(&["--speed", "fast"])), ArgError::BadReal(6));
    assert_eq!(
        failure(speak(&["--steps", "x"])),
        ArgError::BadNumber(7, NumberError::InvalidDigit),
    );
    assert_eq!(
        failure(speak(&["--silence-ms", "4294967296"])),
        ArgError::BadNumber(9, NumberError::Overflow),
    );
    assert_eq!(failure(speak(&["--seed", ""])), ArgError::BadNumber(8, NumberError::Empty));
    assert_eq!(failure(speak(&["--speed", "fast", "--bogus"])), ArgError::BadReal(6));
    assert_eq!(failure(speak(&["--device", "cpu"])), ArgError::Unknown(0));
}

#[test]
fn help_comes_before_later_mistakes() {
    let (list, fractions) = args(&["--verbose", "-h", "--bogus"]);
    match parse_speak(&list, &fractions) {
        Ok(SpeakCommand::Help) => {}
        _ => panic!("no help"),
    }
    let (list, fractions) = args(&["--bogus", "--help"]);
    match parse_speak(&list, &fractions) {
        Err(e) => assert_eq!(e, ArgError::Unknown(0)),
        Ok(_) => panic!("accepted"),
    }
}

#[test]
fn devices_can_be_chosen() {
    let choose = |line: &[&str]| -> Result<DeviceChoice, ArgError> {
        let (list, fractions) = args(line);
        match parse_speak_candle(&list, &fractions) {
            Ok(SpeakCandleCommand::Run(_, d)) => Ok(d),
            Ok(SpeakCandleCommand::Help) => panic!("help"),
            Err(e) => Err(e),
        }
    };
    assert_eq!(choose(&["--text", "x"]), Ok(DeviceChoice::Auto));
    assert_eq!(choose(&["--device", "cpu"]), Ok(DeviceChoice::Cpu));
    assert_eq!(choose(&["--device", "metal", "--steps", "3"]), Ok(DeviceChoice::Metal));
    assert_eq!(choose(&["--device", "cpu", "--device", "auto"]), Ok(DeviceChoice::Auto));
    assert_eq!(choose(&["--device", "gpu"]), Err(ArgError::BadDevice(11)));
    assert_eq!(choose(&["--device"]), Err(ArgError::Missing(11)));
    assert_eq!(device_of("CPU"), None);
}

#[test]
fn the_text_comes_from_one_place() {
    let t = Some("t".to_string());
    let f = Some("f".to_string());
    match choose_input(&t, &None) {
        Ok(Input::Text(s)) => assert_eq!(s, "t"),
        _ => panic!("no text"),
    }
    match choose_input(&None, &f) {
        Ok(Input::File(s)) => assert_eq!(s, "f"),
        _ => panic!("no file"),
    }
    match choose_input(&t, &f) {
        Err(e) => assert_eq!(e, InputError::Both),
        Ok(_) => panic!("accepted"),
    }
    match choose_input(&None, &None) {
        Err(e) => assert_eq!(e, InputError::Neither),
        Ok(_) => panic!("accepted"),
    }
}

#[test]
fn roundtrips_have_defaults() {
    let a = roundtrip(&[]).unwrap();
    assert_eq!(a.samples, "tmp/samples.txt");
    assert_eq!((a.start, a.end), (0, None));
    assert_eq!(a.lines, None);
    assert_eq!(a.tmp_dir, "tmp/roundtrip");
    assert_eq!(a.asr_bin, "../nemotron-speech/target/release/transcribe");
    assert_eq!(a.nemo_tok, "../nemotron-speech/models/tokenizer.model");
    assert!(a.nemo_st.ends_with("nemotron-speech-streaming-en-0.6b.safetensors"));
    assert_eq!(a.steps, 8);
    assert!(!a.keep_wavs);
    assert!(a.summary);
}

#[test]
fn roundtrips_take_options() {
    let a = roundtrip(&[
        "--samples", "s", "--start", "3", "--end", "9", "--lines", "1,4-5", "--speed", "0.9",
        "--seed", "7", "--keep-wavs", "--no-summary", "--tmp-dir", "t", "--asr-bin", "b",
    ])
    .unwrap();
    assert_eq!(a.samples, "s");
    assert_eq!((a.start, a.end), (3, Some(9)));
    assert_eq!(a.lines, Some(vec![(1, 1), (4, 5)]));
    assert_eq!(a.speed, Some(9));
    assert_eq!(a.seed, Some(7));
    assert!(a.keep_wavs && !a.summary);
    assert_eq!((a.tmp_dir.as_str(), a.asr_bin.as_str()), ("t", "b"));
    assert_eq!(
        failure(roundtrip(&["--lines", "x"])),
        ArgError::BadLines(3, NumberError::InvalidDigit),
    );
    assert_eq!(failure(roundtrip(&["--text", "x"])), ArgError::Unknown(0));
}

#[test]
fn downloads_are_planned() {
    let (list, fractions) = args(&["--path", "p", "--voices", "M1, F2 ,X"]);
    let a = match parse_download(&list, &fractions) {
        Ok(DownloadCommand::Run(a)) => a,
        _ => panic!("nothing to run"),
    };
    assert_eq!(a.path, "p");
    assert_eq!(a.voices, vec!["M1", "F2", "X"]);
    let plan = plan_downloads(&a.voices);
    let paths: Vec<String> = plan.iter().map(|d| d.repo_path()).collect();
    assert_eq!(
        paths,
        vec![
            "onnx/text_encoder.onnx",
            "onnx/duration_predictor.onnx",
            "onnx/vector_estimator.onnx",
            "onnx/vocoder.onnx",
            "onnx/tts.json",
            "onnx/unicode_indexer.json",
            "voice_styles/M1.json",
            "voice_styles/F2.json",
            "voice_styles/X.json",
        ],
    );
    assert!(plan[5].required && !plan[6].required);
    assert_eq!(
        plan[6].url(),
        "https://huggingface.co/Supertone/supertonic-3/resolve/main/voice_styles/M1.json",
    );
}

#[test]
fn downloads_have_defaults() {
    match parse_download(&[], &[]) {
        Ok(DownloadCommand::Run(a)) => {
            assert_eq!(a.path, "./models");
            assert_eq!(a.voices.join(" "), "F1 F2 F3 F4 F5 M1 M2 M3 M4 M5");
        }
        _ => panic!("nothing to run"),
    }
    let (list, fractions) = args(&["--path"]);
    match parse_download(&list, &fractions) {
        Err(e) => assert_eq!(e, ArgError::Missing(0)),
        Ok(_) => panic!("accepted"),
    }
    let (list, fractions) = args(&["--help"]);
    match parse_download(&list, &fractions) {
        Ok(DownloadCommand::Help) => {}
        _ => panic!("no help"),
    }
}

#[test]
fn files_are_fetched_once() {
    assert_eq!(first_step(true), FetchStep::Nothing);
    assert_eq!(first_step(false), FetchStep::Ask);
    assert_eq!(next_step(true), FetchStep::Copy);
    assert_eq!(next_step(false), FetchStep::Get);
}

#[test]
fn voices_that_were_had_are_counted() {
    let plan = plan_downloads(&["F1".to_string(), "M2".to_string(), "M3".to_string()]);
    assert_eq!(count_voices(&plan, &[true; 9]), 3);
    assert_eq!(count_voices(&plan, &[false; 9]), 0);
    let some = [true, true, true, true, true, true, false, true, false];
    assert_eq!(count_voices(&plan, &some), 1);
    for (i, d) in plan.iter().enumerate() {
        assert!(goes_on(d, true));
        assert_eq!(goes_on(d, false), i >= 6);
    }
}
