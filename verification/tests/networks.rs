//! The networks as tensor programs.

use soda_tts::model::candle::attention::{
    absolute_position_to_relative_position, get_relative_embeddings,
    relative_position_to_absolute_position,
};
use soda_tts::model::candle::conditioning::{part_name_of, part_prefix_of};
use soda_tts::model::candle::graph::{Action, Op, Shape, Tape};
use soda_tts::model::candle::hooks::Hooks;
use soda_tts::model::candle::vector_estimator::StepRegs;
use soda_tts::model::candle::{
    CandleDurationPredictor, CandleTextEncoder, CandleVectorEstimator, CandleVocoder,
};

fn dims(s: Shape) -> Vec<usize> {
    match s {
        Shape::D0 => vec![],
        Shape::D1(a) => vec![a],
        Shape::D2(a, b) => vec![a, b],
        Shape::D3(a, b, c) => vec![a, b, c],
        Shape::D4(a, b, c, d) => vec![a, b, c, d],
    }
}

fn weights(tape: &Tape) -> Vec<(String, Vec<usize>)> {
    let mut out = Vec::new();
    for step in &tape.steps {
        if let Action::Weight(name) = &step.action {
            out.push((name.clone(), dims(step.shape)));
        }
    }
    out
}

fn has(list: &[(String, Vec<usize>)], name: &str, shape: &[usize]) -> bool {
    list.iter().any(|(n, d)| n == name && d == shape)
}

fn split(n: usize, shape: &[usize]) -> (usize, usize, usize) {
    let outer: usize = shape[..n].iter().product();
    let inner: usize = shape[n + 1..].iter().product();
    (outer, shape[n], inner)
}

fn narrow(x: &[i64], shape: &[usize], dim: usize, start: usize, len: usize) -> Vec<i64> {
    let (outer, n, inner) = split(dim, shape);
    let mut out = Vec::new();
    for o in 0..outer {
        for k in start..start + len {
            out.extend(&x[(o * n + k) * inner..(o * n + k + 1) * inner]);
        }
    }
    out
}

fn pad(x: &[i64], shape: &[usize], dim: usize, left: usize, right: usize, edge: bool) -> Vec<i64> {
    let (outer, n, inner) = split(dim, shape);
    let mut out = Vec::new();
    for o in 0..outer {
        for k in 0..left + n + right {
            for i in 0..inner {
                let inside = k >= left && k < left + n;
                let at = k.saturating_sub(left).min(n - 1);
                out.push(if inside || edge { x[(o * n + at) * inner + i] } else { 0 });
            }
        }
    }
    out
}

fn swap_last(x: &[i64], shape: &[usize]) -> Vec<i64> {
    let r = shape.len();
    let (m, n) = (shape[r - 2], shape[r - 1]);
    let outer: usize = shape[..r - 2].iter().product();
    let mut out = Vec::new();
    for o in 0..outer {
        for j in 0..n {
            for i in 0..m {
                out.push(x[(o * m + i) * n + j]);
            }
        }
    }
    out
}

/// Runs a program of operations that only move elements.
fn run(tape: &Tape, input: Vec<i64>) -> Vec<Vec<i64>> {
    let mut values: Vec<Vec<i64>> = Vec::new();
    for step in &tape.steps {
        let value = match &step.action {
            Action::Input(_) => input.clone(),
            Action::Apply(op, args) => {
                let x = &values[args[0]];
                let shape = dims(tape.steps[args[0]].shape);
                match op {
                    Op::PadZeros { dim, left, right } => pad(x, &shape, *dim, *left, *right, false),
                    Op::PadEdge { left, right } => {
                        pad(x, &shape, shape.len() - 1, *left, *right, true)
                    }
                    Op::Narrow { dim, start, len } => narrow(x, &shape, *dim, *start, *len),
                    Op::SwapLast => swap_last(x, &shape),
                    Op::Reshape(_) => x.clone(),
                    _ => panic!("{:?}", op),
                }
            }
            other => panic!("{:?}", other),
        };
        assert_eq!(value.len(), dims(step.shape).iter().product::<usize>());
        values.push(value);
    }
    values
}

#[test]
fn padding_repeats_the_edges() {
    let mut tape = Tape::new(false);
    let x = tape.input("x".to_string(), Shape::D3(1, 2, 3));
    let y = tape.op1(Op::PadEdge { left: 2, right: 1 }, x);
    assert_eq!(tape.steps[y].shape, Shape::D3(1, 2, 6));
    let values = run(&tape, vec![1, 2, 3, 4, 5, 6]);
    assert_eq!(values[y], vec![1, 1, 1, 2, 3, 3, 4, 4, 4, 5, 6, 6]);
}

#[test]
fn relative_scores_align_with_positions() {
    for t in 1usize..6 {
        let mut tape = Tape::new(false);
        let w = 2 * t - 1;
        let x = tape.input("x".to_string(), Shape::D4(1, 1, t, w));
        let y = relative_position_to_absolute_position(&mut tape, x, 1, 1, t);
        let input: Vec<i64> = (1..=(t * w) as i64).collect();
        let values = run(&tape, input.clone());
        for i in 0..t {
            for j in 0..t {
                assert_eq!(values[y][i * t + j], input[i * w + t - 1 + j - i]);
            }
        }
    }
}

#[test]
fn weights_align_with_relative_positions() {
    for t in 1usize..6 {
        let mut tape = Tape::new(false);
        let w = 2 * t - 1;
        let x = tape.input("x".to_string(), Shape::D4(1, 1, t, t));
        let y = absolute_position_to_relative_position(&mut tape, x, 1, 1, t);
        let input: Vec<i64> = (1..=(t * t) as i64).collect();
        let values = run(&tape, input.clone());
        for i in 0..t {
            for r in 0..w {
                let j = (i + r) as i64 - (t as i64 - 1);
                let want = if j >= 0 && j < t as i64 { input[i * t + j as usize] } else { 0 };
                assert_eq!(values[y][i * w + r], want);
            }
        }
    }
}

#[test]
fn relative_embeddings_are_zero_beyond_the_window() {
    for (t, want) in [
        (1usize, vec![5i64]),
        (3, vec![3, 4, 5, 6, 7]),
        (5, vec![1, 2, 3, 4, 5, 6, 7, 8, 9]),
        (7, vec![0, 0, 1, 2, 3, 4, 5, 6, 7, 8, 9, 0, 0]),
    ] {
        let mut tape = Tape::new(false);
        let e = tape.input("e".to_string(), Shape::D3(1, 9, 1));
        let y = get_relative_embeddings(&mut tape, e, 1, t);
        assert_eq!(run(&tape, (1..10).collect())[y], want);
    }
}

#[test]
fn unfolding_interleaves_packed_frames() {
    let mut tape = Tape::new(false);
    let x = tape.input("x".to_string(), Shape::D3(1, 144, 2));
    let a = tape.op1(Op::Reshape(Shape::D4(1, 24, 6, 2)), x);
    let b = tape.op1(Op::SwapLast, a);
    let y = tape.op1(Op::Reshape(Shape::D3(1, 24, 12)), b);
    let input: Vec<i64> = (0..288).collect();
    let values = run(&tape, input.clone());
    for c in 0..24 {
        for i in 0..2 {
            for j in 0..6 {
                assert_eq!(values[y][c * 12 + 6 * i + j], input[(6 * c + j) * 2 + i]);
            }
        }
    }
}

#[test]
fn shapes_follow_the_operations() {
    let mut tape = Tape::new(false);
    let x = tape.input("x".to_string(), Shape::D3(2, 4, 10));
    let w = tape.weight("w".to_string(), Shape::D3(6, 2, 3));
    let b = tape.weight("b".to_string(), Shape::D1(6));
    let y = tape.op3(Op::Conv { dilation: 2, groups: 2 }, x, w, b);
    assert_eq!(tape.steps[y].shape, Shape::D3(2, 6, 6));
    let one = tape.ones(Shape::D3(1, 6, 1));
    let z = tape.op2(Op::Mul, y, one);
    assert_eq!(tape.steps[z].shape, Shape::D3(2, 6, 6));
    let c = tape.op2(Op::Cat { dim: 1 }, z, y);
    assert_eq!(tape.steps[c].shape, Shape::D3(2, 12, 6));
    let n = tape.count(7);
    assert_eq!(tape.steps[n].shape, Shape::D1(7));
}

#[test]
fn vocoder_weights_are_loaded() {
    let mut tape = Tape::new(false);
    CandleVocoder::load(&mut tape);
    let list = weights(&tape);
    assert_eq!(list.len(), 3 + 2 + 10 * 9 + 4 + 1 + 3);
    assert!(has(&list, "tts.ttl.normalizer.scale", &[]));
    assert!(has(&list, "onnx::Conv_1441", &[512, 24, 7]));
    assert!(has(&list, "tts.ae.decoder.convnext.9.dwconv.net.weight", &[512, 1, 7]));
    assert!(has(&list, "tts.ae.decoder.convnext.0.gamma", &[1, 512, 1]));
    assert!(has(&list, "tts.ae.decoder.convnext.3.pwconv1.weight", &[2048, 512, 1]));
    assert!(has(&list, "tts.ae.decoder.final_norm.norm.running_var", &[512]));
    assert!(has(&list, "tts.ae.decoder.head.layer2.weight", &[512, 2048, 1]));
}

#[test]
fn the_vocoder_gives_samples() {
    let mut tape = Tape::new(true);
    let net = CandleVocoder::load(&mut tape);
    let x = tape.input("latent".to_string(), Shape::D3(1, 144, 5));
    let out = net.forward_with_hooks(&mut tape, x, 1, 5);
    assert_eq!(tape.steps[out].shape, Shape::D2(1, 15360));
    assert_eq!(tape.hooks.len(), 56);
    assert_eq!(tape.hooks[0].0, "pre_embed/after_unfold");
    assert_eq!(tape.hooks[2].0, "convnext.0/dwconv/net/Conv_output_0");
    assert_eq!(tape.hooks[55].0, "head/layer2/Conv_output_0");
    let mut dilations = Vec::new();
    for step in &tape.steps {
        if let Action::Apply(Op::Conv { dilation, groups: 512 }, _) = &step.action {
            dilations.push(*dilation);
        }
    }
    assert_eq!(dilations, vec![1, 2, 4, 1, 2, 4, 1, 1, 1, 1]);
    let mut quiet = Tape::new(false);
    let net = CandleVocoder::load(&mut quiet);
    let x = quiet.input("latent".to_string(), Shape::D3(1, 144, 5));
    net.forward(&mut quiet, x, 1, 5);
    assert!(quiet.hooks.is_empty());
    assert_eq!(quiet.steps.len(), tape.steps.len());
}

#[test]
fn the_vocoder_pads_on_the_left() {
    let mut tape = Tape::new(false);
    let net = CandleVocoder::load(&mut tape);
    let x = tape.input("latent".to_string(), Shape::D3(1, 144, 1));
    net.forward(&mut tape, x, 1, 1);
    for step in &tape.steps {
        if let Action::Apply(Op::PadEdge { right, .. }, _) = &step.action {
            assert_eq!(*right, 0);
        }
    }
}

#[test]
fn the_duration_predictor_gives_seconds() {
    let mut tape = Tape::new(true);
    let net = CandleDurationPredictor::load(&mut tape);
    let list = weights(&tape);
    assert!(has(
        &list,
        "tts.dp.sentence_encoder.text_embedder.char_embedder.weight",
        &[8322, 64],
    ));
    assert!(has(
        &list,
        "tts.dp.sentence_encoder.attn_encoder.attn_layers.1.emb_rel_k",
        &[1, 9, 32],
    ));
    assert!(has(&list, "tts.dp.sentence_encoder.convnext.convnext.5.dwconv.weight", &[64, 1, 5]));
    assert!(has(&list, "tts.dp.predictor.layers.0.weight", &[128, 192]));
    let ids = tape.input("ids".to_string(), Shape::D2(1, 12));
    let style = tape.input("style".to_string(), Shape::D3(1, 8, 16));
    let mask = tape.input("mask".to_string(), Shape::D3(1, 1, 12));
    let out = net.forward_with_hooks(&mut tape, ids, style, mask, 1, 12);
    assert_eq!(tape.steps[out].shape, Shape::D1(1));
    let names: Vec<&str> = tape.hooks.iter().map(|h| h.0.as_str()).collect();
    assert_eq!(names.len(), 6 * 5 + 2 * 17 + 6);
    assert!(names.contains(&"attn_encoder/Add_0_output_0"));
    assert!(names.contains(&"attn_encoder/Add_3_output_0"));
    assert_eq!(names[names.len() - 1], "duration");
    let pads: Vec<(usize, usize)> = tape
        .steps
        .iter()
        .filter_map(|s| match &s.action {
            Action::Apply(Op::PadEdge { left, right }, _) => Some((*left, *right)),
            _ => None,
        })
        .collect();
    assert_eq!(pads, vec![(2, 2); 6]);
}

#[test]
fn the_text_encoder_gives_an_embedding() {
    let mut tape = Tape::new(true);
    let net = CandleTextEncoder::load(&mut tape);
    let list = weights(&tape);
    for id in 3680..3688 {
        assert!(has(&list, &format!("onnx::MatMul_{}", id), &[256, 256]));
    }
    assert!(has(
        &list,
        "tts.ttl.speech_prompted_text_encoder.attention2.out_fc.linear.bias",
        &[256],
    ));
    let ids = tape.input("ids".to_string(), Shape::D2(1, 9));
    let style = tape.input("style".to_string(), Shape::D3(1, 50, 256));
    let mask = tape.input("mask".to_string(), Shape::D3(1, 1, 9));
    let out = net.forward_with_hooks(&mut tape, ids, style, mask, 1, 9);
    assert_eq!(tape.steps[out].shape, Shape::D3(1, 256, 9));
    let pads: Vec<(usize, usize)> = tape
        .steps
        .iter()
        .filter_map(|s| match &s.action {
            Action::Apply(Op::PadEdge { left, right }, _) => Some((*left, *right)),
            _ => None,
        })
        .collect();
    assert_eq!(pads, vec![(2, 2), (2, 2), (4, 4), (4, 4), (8, 8), (8, 8)]);
    let scale = tape
        .steps
        .iter()
        .filter(|s| matches!(&s.action, Action::Apply(Op::InvSqrt(256), _)))
        .count();
    assert_eq!(scale, 2);
    assert_eq!(tape.hooks[tape.hooks.len() - 1].0, "text_emb");
}

fn step_inputs(tape: &mut Tape, t: usize, s: usize) -> StepRegs {
    StepRegs {
        noisy_latent: tape.input("noisy_latent".to_string(), Shape::D3(1, 144, t)),
        text_emb: tape.input("text_emb".to_string(), Shape::D3(1, 256, s)),
        style_ttl: tape.input("style_ttl".to_string(), Shape::D3(1, 50, 256)),
        latent_mask: tape.input("latent_mask".to_string(), Shape::D3(1, 1, t)),
        text_mask: tape.input("text_mask".to_string(), Shape::D3(1, 1, s)),
        current_step: tape.input("current_step".to_string(), Shape::D1(1)),
        total_step: tape.input("total_step".to_string(), Shape::D1(1)),
    }
}

#[test]
fn the_flow_takes_a_step() {
    let mut tape = Tape::new(true);
    let net = CandleVectorEstimator::load(&mut tape);
    let list = weights(&tape);
    for block in 0..4 {
        let id = |offset: usize| format!("onnx::MatMul_{}", 3384 + 45 * block + offset);
        assert!(has(&list, &id(0), &[64, 512]));
        assert!(has(&list, &id(6), &[512, 512]));
        assert!(has(&list, &id(7), &[256, 512]));
        assert!(has(&list, &id(15), &[512, 512]));
        assert!(has(&list, &id(21), &[512, 256]));
        assert!(has(&list, &id(24), &[256, 512]));
    }
    let theta = "vector_estimator.tts.ttl.vector_field.main_blocks.3.attn.theta";
    assert_eq!(list.iter().filter(|(n, _)| n == theta).count(), 1);
    assert!(has(&list, "/vector_estimator/Expand_output_0", &[1, 50, 256]));
    let i = step_inputs(&mut tape, 21, 13);
    let (field, out) = net.forward_diagnostic(&mut tape, i, 21, 13);
    assert_eq!(tape.steps[field].shape, Shape::D3(2, 144, 21));
    assert_eq!(tape.steps[out].shape, Shape::D3(1, 144, 21));
    let names: Vec<&str> = tape.hooks.iter().map(|h| h.0.as_str()).collect();
    assert_eq!(names.len(), 2 + 4 * (4 + 1 + 1 + 7 + 1 + 7) + 4 + 1);
    assert_eq!(names[0], "time_encoder/output");
    assert_eq!(names[2], "main_blocks.0/convnext.0/Add_output_0");
    assert!(names.contains(&"main_blocks.21/text_cond/W_key/Add_output_0"));
    assert!(names.contains(&"main_blocks.23/Mul_1_output_0"));
    assert!(names.contains(&"last_convnext/convnext.3/Add_output_0"));
    assert_eq!(names[names.len() - 1], "proj_out/Mul_output_0");
}

#[test]
fn every_way_to_take_a_step_is_the_same() {
    let mut steps = Vec::new();
    for way in 0..3 {
        let mut tape = Tape::new(false);
        let net = CandleVectorEstimator::load(&mut tape);
        let i = step_inputs(&mut tape, 4, 3);
        let out = match way {
            0 => net.forward(&mut tape, i, 4, 3),
            1 => net.forward_with_vfield(&mut tape, i, 4, 3).1,
            _ => net.forward_diagnostic(&mut tape, i, 4, 3).1,
        };
        assert!(tape.hooks.is_empty());
        steps.push((out, format!("{:?}", tape.steps)));
    }
    assert_eq!(steps[0], steps[1]);
    assert_eq!(steps[1], steps[2]);
}

#[test]
fn guidance_weighs_four_against_three() {
    let mut tape = Tape::new(false);
    let net = CandleVectorEstimator::load(&mut tape);
    let i = step_inputs(&mut tape, 4, 3);
    net.forward(&mut tape, i, 4, 3);
    let factors: Vec<usize> = tape
        .steps
        .iter()
        .filter_map(|s| match &s.action {
            Action::Apply(Op::Times(n), _) => Some(*n),
            _ => None,
        })
        .collect();
    assert_eq!(factors, vec![4, 3]);
}

#[test]
fn programs_read_earlier_steps_only() {
    let mut tape = Tape::new(false);
    let net = CandleVectorEstimator::load(&mut tape);
    let i = step_inputs(&mut tape, 2, 2);
    net.forward(&mut tape, i, 2, 2);
    for (k, step) in tape.steps.iter().enumerate() {
        if let Action::Apply(_, args) = &step.action {
            assert!(args.iter().all(|a| *a < k));
        }
    }
}

#[test]
fn parts_of_blocks_are_numbered() {
    assert_eq!(
        part_prefix_of(3, 5),
        "vector_estimator.tts.ttl.vector_field.main_blocks.23",
    );
    assert_eq!(part_name_of(1, 2), "main_blocks.8/");
    let mut seen = Vec::new();
    for block in 0..4 {
        for offset in 0..6 {
            let name = part_name_of(block, offset);
            assert!(!seen.contains(&name));
            seen.push(name);
        }
    }
}

#[test]
fn hooks_find_the_first_record() {
    let mut hooks = Hooks::new();
    hooks.record("a".to_string(), 1);
    hooks.record("b".to_string(), 2);
    hooks.record("a".to_string(), 3);
    assert_eq!(hooks.get("a"), Some(&1));
    assert_eq!(hooks.get("b"), Some(&2));
    assert_eq!(hooks.get("c"), None);
}

fn assert_distinct(tape: &Tape) {
    for (i, a) in tape.hooks.iter().enumerate() {
        for b in &tape.hooks[..i] {
            assert_ne!(a.0, b.0);
        }
    }
}

#[test]
fn names_are_distinct() {
    let mut tape = Tape::new(true);
    let net = CandleVocoder::load(&mut tape);
    let x = tape.input("latent".to_string(), Shape::D3(1, 144, 1));
    net.forward_with_hooks(&mut tape, x, 1, 1);
    assert_distinct(&tape);

    let mut tape = Tape::new(true);
    let net = CandleDurationPredictor::load(&mut tape);
    let ids = tape.input("ids".to_string(), Shape::D2(1, 2));
    let style = tape.input("style".to_string(), Shape::D3(1, 8, 16));
    let mask = tape.input("mask".to_string(), Shape::D3(1, 1, 2));
    net.forward_with_hooks(&mut tape, ids, style, mask, 1, 2);
    assert_distinct(&tape);

    let mut tape = Tape::new(true);
    let net = CandleTextEncoder::load(&mut tape);
    let ids = tape.input("ids".to_string(), Shape::D2(1, 2));
    let style = tape.input("style".to_string(), Shape::D3(1, 50, 256));
    let mask = tape.input("mask".to_string(), Shape::D3(1, 1, 2));
    net.forward_with_hooks(&mut tape, ids, style, mask, 1, 2);
    assert_distinct(&tape);

    let mut tape = Tape::new(true);
    let net = CandleVectorEstimator::load(&mut tape);
    let i = step_inputs(&mut tape, 1, 1);
    net.forward_diagnostic(&mut tape, i, 1, 1);
    assert_distinct(&tape);
}

#[test]
fn kernels_read_what_the_padding_covers() {
    for (kernel, dilation) in [(7usize, 4usize), (5, 8), (5, 1), (3, 1)] {
        let total = dilation * (kernel - 1);
        for left in [total, total / 2] {
            for k in 0..kernel {
                let at = (dilation * k) as i64 - left as i64;
                assert!(at >= -(left as i64) && at <= (total - left) as i64);
                assert!(left != total || at <= 0);
            }
        }
    }
}

/// The latest frame of the latent that each element of each result depends on. Weights
/// depend on none and are left empty.
fn latest(tape: &Tape, latent: usize) -> Vec<Vec<i64>> {
    let mut values: Vec<Vec<i64>> = Vec::new();
    for step in &tape.steps {
        let count: usize = dims(step.shape).iter().product();
        let value = match &step.action {
            Action::Input(_) => (0..count).map(|k| (k % latent) as i64).collect(),
            Action::Apply(op, args) => {
                let x = &values[args[0]];
                let shape = dims(tape.steps[args[0]].shape);
                let last = shape[shape.len() - 1];
                match op {
                    Op::PadEdge { left, right } => {
                        pad(x, &shape, shape.len() - 1, *left, *right, true)
                    }
                    Op::SwapLast => swap_last(x, &shape),
                    Op::Add if !values[args[1]].is_empty() => {
                        x.iter().zip(&values[args[1]]).map(|(a, b)| *a.max(b)).collect()
                    }
                    Op::LayerNorm => x
                        .chunks(last)
                        .flat_map(|row| vec![*row.iter().max().unwrap(); last])
                        .collect(),
                    Op::Conv { dilation, groups } => {
                        let kernel = dims(tape.steps[args[1]].shape);
                        let rows: Vec<Vec<i64>> = if *groups == 1 {
                            let all = (0..last)
                                .map(|k| (0..shape[1]).map(|c| x[c * last + k]).max().unwrap())
                                .collect();
                            vec![all; kernel[0]]
                        } else {
                            assert_eq!(kernel[..2], [*groups, 1]);
                            x.chunks(last).map(|row| row.to_vec()).collect()
                        };
                        let mut out = Vec::new();
                        for row in &rows {
                            for s in 0..last - dilation * (kernel[2] - 1) {
                                let taps = (0..kernel[2]).map(|k| row[s + dilation * k]);
                                out.push(taps.max().unwrap());
                            }
                        }
                        out
                    }
                    Op::Reshape(_)
                    | Op::OverScalar
                    | Op::Mul
                    | Op::Add
                    | Op::Gelu
                    | Op::BatchNorm
                    | Op::PRelu => x.clone(),
                    _ => panic!("{:?}", op),
                }
            }
            _ => Vec::new(),
        };
        assert!(value.is_empty() || value.len() == count);
        values.push(value);
    }
    values
}

#[test]
fn samples_depend_on_no_later_frame() {
    let mut tape = Tape::new(false);
    let net = CandleVocoder::load(&mut tape);
    let x = tape.input("latent".to_string(), Shape::D3(1, 144, 3));
    let out = net.forward(&mut tape, x, 1, 3);
    let frames = &latest(&tape, 3)[out];
    assert_eq!(frames.len(), 3 * 3072);
    for (s, frame) in frames.iter().enumerate() {
        assert_eq!(*frame, (s / 3072) as i64);
    }
}

#[test]
fn every_way_to_run_a_network_names_the_same() {
    let names = |tape: &Tape| tape.hooks.clone();
    let build = |hooked: bool| {
        let mut tape = Tape::new(true);
        let net = CandleVocoder::load(&mut tape);
        let x = tape.input("latent".to_string(), Shape::D3(1, 144, 2));
        let out = if hooked {
            net.forward_with_hooks(&mut tape, x, 1, 2)
        } else {
            net.forward(&mut tape, x, 1, 2)
        };
        assert!(out < tape.steps.len());
        names(&tape)
    };
    assert_eq!(build(true), build(false));
    let build = |hooked: bool| {
        let mut tape = Tape::new(true);
        let net = CandleDurationPredictor::load(&mut tape);
        let ids = tape.input("ids".to_string(), Shape::D2(1, 3));
        let style = tape.input("style".to_string(), Shape::D3(1, 8, 16));
        let mask = tape.input("mask".to_string(), Shape::D3(1, 1, 3));
        let out = if hooked {
            net.forward_with_hooks(&mut tape, ids, style, mask, 1, 3)
        } else {
            net.forward(&mut tape, ids, style, mask, 1, 3)
        };
        assert!(out < tape.steps.len());
        names(&tape)
    };
    assert_eq!(build(true), build(false));
    let build = |hooked: bool| {
        let mut tape = Tape::new(true);
        let net = CandleTextEncoder::load(&mut tape);
        let ids = tape.input("ids".to_string(), Shape::D2(1, 3));
        let style = tape.input("style".to_string(), Shape::D3(1, 50, 256));
        let mask = tape.input("mask".to_string(), Shape::D3(1, 1, 3));
        let out = if hooked {
            net.forward_with_hooks(&mut tape, ids, style, mask, 1, 3)
        } else {
            net.forward(&mut tape, ids, style, mask, 1, 3)
        };
        assert!(out < tape.steps.len());
        names(&tape)
    };
    assert_eq!(build(true), build(false));
}
