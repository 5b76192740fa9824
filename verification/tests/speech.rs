//! Audio, voices, the latent, the order of the networks, and long-form synthesis.

use soda_tts::audio::{next_sample, resample_plan, wav_format, Resampling};
use soda_tts::model::config::{AeConfig, Config, TtlConfig};
use soda_tts::model::latent::{audible_part, latent_plan};
use soda_tts::model::pipeline::{tokenize, Feed, Network, Request, Stage, Utterance};
use soda_tts::model::voice::{component_to_array, Component, RawComponent, VoiceError, VoiceStyle};
use soda_tts::synthesis::{plan_chunks, Session, SynthesisError, Turn};
use soda_tts::text::preprocess::TextError;
use soda_tts::text::UnicodeIndexer;

#[test]
fn resampling_is_planned() {
    assert_eq!(resample_plan(44100, 44100, 16000), Resampling::Interpolate(16000));
    assert_eq!(resample_plan(3, 2, 3), Resampling::Interpolate(4));
    assert_eq!(resample_plan(5, 8000, 8000), Resampling::Keep);
    assert_eq!(resample_plan(0, 44100, 16000), Resampling::Keep);
    assert_eq!(resample_plan(1, 44100, 16000), Resampling::Drop);
    assert_eq!(resample_plan(1, 1, 2), Resampling::Drop);
    assert_eq!(resample_plan(2, 44100, 16000), Resampling::Drop);
    assert_eq!(resample_plan(7, 0, 0), Resampling::Keep);
}

#[test]
fn resampling_keeps_time() {
    for len in [2usize, 17, 1000, 44101] {
        if let Resampling::Interpolate(n) = resample_plan(len, 44100, 16000) {
            assert!(n * 44100 <= len * 16000);
            assert!(len * 16000 < (n + 1) * 44100);
            for i in [0, n / 2, n - 1] {
                assert!(i * len / n < len);
            }
        }
    }
}

#[test]
fn the_last_sample_follows_itself() {
    assert_eq!(next_sample(0, 3), 1);
    assert_eq!(next_sample(2, 3), 2);
    assert_eq!(next_sample(0, 1), 0);
}

#[test]
fn audio_is_mono_of_sixteen_bits() {
    let f = wav_format(44100);
    assert_eq!((f.channels, f.sample_rate, f.bits_per_sample), (1, 44100, 16));
    assert_eq!(wav_format(-1).sample_rate, u32::MAX);
}

#[test]
fn configurations_are_plain_values() {
    let c = Config {
        ae: AeConfig { sample_rate: 44100, base_chunk_size: 512 },
        ttl: TtlConfig { latent_dim: 24, chunk_compress_factor: 6 },
    };
    assert_eq!(c.ae.sample_rate, 44100);
    assert_eq!(c, c.clone());
}

fn component(data: Vec<Vec<Vec<f32>>>, dims: Vec<usize>, dtype: &str) -> RawComponent<f32> {
    RawComponent { data, dims, dtype: dtype.to_string() }
}

fn flaw(c: &RawComponent<f32>) -> VoiceError {
    match component_to_array(c) {
        Ok(_) => panic!("accepted"),
        Err(e) => e,
    }
}

#[test]
fn styles_are_laid_out_row_by_row() {
    let data = vec![
        vec![vec![1.0, 2.0, 3.0], vec![4.0, 5.0, 6.0]],
        vec![vec![7.0, 8.0, 9.0], vec![10.0, 11.0, 12.0]],
    ];
    let a = component_to_array(&component(data, vec![2, 2, 3], "float32")).unwrap();
    assert_eq!(a.dims, (2, 2, 3));
    assert_eq!(a.values, vec![1.0, 2.0, 3.0, 4.0, 5.0, 6.0, 7.0, 8.0, 9.0, 10.0, 11.0, 12.0]);
    let e = component_to_array(&component(vec![], vec![0, 4, 4], "float32")).unwrap();
    assert!(e.values.is_empty());
}

#[test]
fn style_errors_are_told_apart() {
    let data = || vec![vec![vec![1.0, 2.0]], vec![vec![3.0, 4.0]]];
    assert_eq!(flaw(&component(data(), vec![2, 1], "int8")), VoiceError::Type);
    assert_eq!(flaw(&component(data(), vec![2, 1], "float32")), VoiceError::Rank);
    assert_eq!(
        flaw(&component(data(), vec![3, 1, 2], "float32")),
        VoiceError::Batch { have: 2, want: 3 },
    );
    assert_eq!(
        flaw(&component(data(), vec![2, 4, 2], "float32")),
        VoiceError::Time { batch: 0, have: 1, want: 4 },
    );
    assert_eq!(
        flaw(&component(vec![vec![vec![1.0, 2.0]], vec![vec![3.0]]], vec![2, 1, 2], "float32")),
        VoiceError::Width { batch: 1, time: 0, have: 1, want: 2 },
    );
}

#[test]
fn voices_have_two_components() {
    let good = || component(vec![vec![vec![1.0]]], vec![1, 1, 1], "float32");
    let bad = || component(vec![vec![vec![1.0]]], vec![1, 1, 2], "float32");
    let width = VoiceError::Width { batch: 0, time: 0, have: 1, want: 2 };
    let v = VoiceStyle::load(&good(), &good()).unwrap();
    assert_eq!((v.ttl.values.len(), v.dp.values.len()), (1, 1));
    match VoiceStyle::load(&bad(), &bad()) {
        Err(e) => assert_eq!(e, (Component::Ttl, width)),
        Ok(_) => panic!("accepted"),
    }
    match VoiceStyle::load(&good(), &bad()) {
        Err(e) => assert_eq!(e, (Component::Dp, width)),
        Ok(_) => panic!("accepted"),
    }
}

#[test]
fn latents_hold_their_utterances() {
    let p = latent_plan(&[44100, 3072, 3073, 0], 44100, 512, 6, 24);
    assert_eq!(p.channels, 144);
    assert_eq!(p.len, 15);
    assert_eq!(p.row_lens, vec![15, 1, 2, 0]);
    assert_eq!(p.noise_len(), Some(4 * 144 * 15));
    let mask = p.mask();
    assert_eq!(mask[2].iter().filter(|m| **m).count(), 2);
    assert_eq!(mask[2][..3], [true, true, false]);
    let empty = latent_plan(&[0], 0, 512, 6, 24);
    assert_eq!((empty.len, empty.row_lens[0]), (1, 0));
    let single = latent_plan(&[10000], 10000, 512, 6, 24);
    assert_eq!(single.row_lens, vec![single.len]);
}

#[test]
fn latents_can_be_too_large() {
    let p = latent_plan(&[usize::MAX, 1], usize::MAX, 1, 1, 1000);
    assert_eq!(p.noise_len(), None);
}

#[test]
fn noise_past_the_end_is_blanked() {
    let p = latent_plan(&[3, 1], 3, 1, 1, 2);
    assert_eq!((p.channels, p.len), (2, 3));
    let mut noise: Vec<i32> = (1..13).collect();
    p.blank_padding(&mut noise, 0);
    assert_eq!(noise, vec![1, 2, 3, 4, 5, 6, 7, 0, 0, 10, 0, 0]);
}

#[test]
fn only_the_audible_part_is_heard() {
    assert_eq!(audible_part(&[1, 2, 3], 2), &[1, 2]);
    assert_eq!(audible_part(&[1, 2, 3], 9), &[1, 2, 3]);
}

#[test]
fn utterances_are_tokenized() {
    let indexer = UnicodeIndexer::from_table((0..256).collect());
    let t = tokenize(&indexer, "Hi", "en").unwrap();
    let said: Vec<i64> = "<en>Hi.</en>".chars().map(|c| c as i64).collect();
    assert_eq!(t.ids, said);
    assert_eq!(t.mask, vec![true; said.len()]);
    match tokenize(&indexer, "Hi", "xx") {
        Err(TextError::InvalidLang(l)) => assert_eq!(l, "xx"),
        Ok(_) => panic!("accepted"),
    }
}

fn feed_names(r: &Request<'_, &'static str>) -> Vec<String> {
    match r {
        Request::Run { network, feeds, output } => {
            let mut out = vec![format!("{:?} -> {}", network, output)];
            for (name, feed) in feeds {
                match feed {
                    Feed::Array(a) => out.push(format!("{}={}", name, a)),
                    Feed::Number(n) => out.push(format!("{}={}", name, n)),
                }
            }
            out
        }
        Request::Draw { duration } => vec![format!("draw {}", duration)],
        Request::Finish { samples } => vec![format!("finish {}", samples)],
    }
}

#[test]
fn networks_run_in_order() {
    let mut u = Utterance::start("ids", "mask", "ttl", "dp", 2);
    assert_eq!(
        feed_names(&u.request()),
        vec!["DurationPredictor -> duration", "text_ids=ids", "style_dp=dp", "text_mask=mask"],
    );
    u.reply("duration");
    assert_eq!(
        feed_names(&u.request()),
        vec!["TextEncoder -> text_emb", "text_ids=ids", "style_ttl=ttl", "text_mask=mask"],
    );
    u.reply("emb");
    assert_eq!(feed_names(&u.request()), vec!["draw duration"]);
    u.reply_noise("x0", "lm");
    assert_eq!(
        feed_names(&u.request()),
        vec![
            "VectorEstimator -> denoised_latent",
            "noisy_latent=x0",
            "text_emb=emb",
            "style_ttl=ttl",
            "latent_mask=lm",
            "text_mask=mask",
            "current_step=0",
            "total_step=2",
        ],
    );
    u.reply("x1");
    assert_eq!(u.stage, Stage::Flow(1));
    assert_eq!(feed_names(&u.request())[1], "noisy_latent=x1");
    assert_eq!(feed_names(&u.request())[6], "current_step=1");
    u.reply("x2");
    assert_eq!(feed_names(&u.request()), vec!["Vocoder -> wav_tts", "latent=x2"]);
    u.reply("wav");
    assert_eq!(feed_names(&u.request()), vec!["finish wav"]);
    assert_eq!(u.stage, Stage::Done);
}

#[test]
fn a_flow_of_no_steps_is_vocoded_at_once() {
    let mut u = Utterance::start(0, 0, 0, 0, 0);
    u.reply(1);
    u.reply(2);
    u.reply_noise(3, 4);
    match u.request() {
        Request::Run { network, .. } => assert_eq!(network, Network::Vocoder),
        _ => panic!("no network"),
    }
}

/// Speaks each chunk as its number, from 2 on, three times. Returns the output and the
/// pieces.
fn play(chunks: Vec<&str>, gap: usize) -> (Vec<i32>, Vec<Vec<i32>>) {
    let chunks = chunks.iter().map(|c| c.to_string()).collect();
    let mut session = Session::start(chunks, 0, gap).unwrap();
    let mut played = Vec::new();
    let mut next = 1;
    loop {
        let piece = match session.turn() {
            Turn::Finished => break,
            Turn::Pause => session.pause(),
            Turn::Speak => {
                next += 1;
                session.speak(&[next, next, next, 99], 3)
            }
        };
        played.push(piece);
    }
    (session.output, played)
}

#[test]
fn silence_stands_between_chunks() {
    let (output, played) = play(vec!["a", "b"], 2);
    assert_eq!(output, vec![2, 2, 2, 0, 0, 3, 3, 3]);
    assert_eq!(output, played.concat());
}

#[test]
fn blank_chunks_are_pauses() {
    let (output, played) = play(vec!["a", " ", "b"], 1);
    assert_eq!(output, vec![2, 2, 2, 0, 0, 3, 3, 3]);
    assert_eq!(output, played.concat());
    let (output, _) = play(vec![""], 3);
    assert_eq!(output, vec![0, 0, 0]);
}

#[test]
fn each_chunk_is_one_piece() {
    let (_, played) = play(vec!["a", "b", " ", "c"], 2);
    assert_eq!(
        played,
        vec![vec![2, 2, 2, 0, 0], vec![3, 3, 3, 0, 0], vec![0, 0], vec![4, 4, 4]],
    );
}

#[test]
fn waveforms_are_as_long_as_speech_and_silence() {
    let (output, _) = play(vec!["a", "b", "c"], 5);
    assert_eq!(output.len(), 3 * 3 + 2 * 5);
}

#[test]
fn a_text_without_chunks_is_refused() {
    match Session::<i32>::start(vec![], 0, 1) {
        Err(e) => assert_eq!(e, SynthesisError::NoChunks),
        Ok(_) => panic!("accepted"),
    }
}

#[test]
fn a_given_limit_takes_precedence() {
    let text = "One. Two.";
    assert_eq!(plan_chunks(text, "en", Some(4)), vec!["One.", "Two."]);
    assert_eq!(plan_chunks(text, "en", None), vec!["One. Two."]);
    let long = "word ".repeat(40);
    assert_eq!(plan_chunks(&long, "en", None).len(), 1);
    assert_eq!(plan_chunks(&long, "ko", None).len(), 2);
    assert_eq!(plan_chunks("", "en", None), vec![""]);
}

#[test]
fn samples_are_the_vocoded_flow() {
    for total in [0usize, 1, 3] {
        let mut u =
            Utterance::start("i".to_string(), "m".into(), "s".into(), "d".into(), total);
        let mut replies = 0;
        let samples = loop {
            let reply = match u.request() {
                Request::Finish { samples } => break samples.clone(),
                Request::Draw { duration } => {
                    let noise = format!("n({duration})");
                    u.reply_noise(noise, "lm".to_string());
                    replies += 1;
                    continue;
                }
                Request::Run { network, feeds, .. } => {
                    let fed: Vec<String> = feeds
                        .iter()
                        .map(|(_, f)| match f {
                            Feed::Array(a) => a.to_string(),
                            Feed::Number(n) => n.to_string(),
                        })
                        .collect();
                    let name = match network {
                        Network::DurationPredictor => "D",
                        Network::TextEncoder => "T",
                        Network::VectorEstimator => "F",
                        Network::Vocoder => "V",
                    };
                    format!("{name}({})", fed.join(","))
                }
            };
            u.reply(reply);
            replies += 1;
        };
        let mut latent = "n(D(i,d,m))".to_string();
        for step in 0..total {
            latent = format!("F({latent},T(i,s,m),s,lm,m,{step},{total})");
        }
        assert_eq!(samples, format!("V({latent})"));
        assert_eq!(replies, 4 + total);
    }
}
