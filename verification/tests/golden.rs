//! Archives of recorded results, and the names in them.

use safetensors::tensor::{serialize, Dtype, TensorView};
use soda_tts::golden::archive::{
    decode_single, load_integers, load_single, read_tensor, ArchiveError, StoredTensor,
};
use soda_tts::golden::{duration, flow, text, vocoder};
use soda_tts::model::candle::graph::{Shape, Tape};
use soda_tts::model::candle::vector_estimator::StepRegs;
use soda_tts::model::candle::{
    CandleDurationPredictor, CandleTextEncoder, CandleVectorEstimator, CandleVocoder,
};

fn archive() -> Vec<u8> {
    let mut floats = Vec::new();
    for v in [1.0f32, -2.5, 0.0, 1e-3, f32::MAX, -0.0] {
        floats.extend(v.to_le_bytes());
    }
    let mut ints = Vec::new();
    for v in [0i64, -1, i64::MIN, i64::MAX] {
        ints.extend(v.to_le_bytes());
    }
    let list = vec![
        ("floats", TensorView::new(Dtype::F32, vec![2, 3], &floats).unwrap()),
        ("ints", TensorView::new(Dtype::I64, vec![4], &ints).unwrap()),
    ];
    serialize(list, &None).unwrap()
}

fn failure<T>(r: Result<T, ArchiveError>) -> ArchiveError {
    match r {
        Ok(_) => panic!("accepted"),
        Err(e) => e,
    }
}

#[test]
fn tensors_are_found_by_name() {
    let bytes = archive();
    let t = read_tensor(&bytes, "floats").unwrap();
    assert!(t.single);
    assert_eq!(t.dims, vec![2, 3]);
    assert_eq!(t.data.len(), 24);
    assert!(!read_tensor(&bytes, "ints").unwrap().single);
    assert_eq!(failure(read_tensor(&bytes, "none")), ArchiveError::Missing);
    assert_eq!(failure(read_tensor(&bytes[..bytes.len() - 1], "floats")), ArchiveError::Malformed);
    assert_eq!(failure(read_tensor(b"abc", "floats")), ArchiveError::Malformed);
    assert_eq!(failure(read_tensor(&[255; 8], "floats")), ArchiveError::Malformed);
}

fn with_header(header: &str, data: &[u8]) -> Vec<u8> {
    let mut bytes = (header.len() as u64).to_le_bytes().to_vec();
    bytes.extend(header.as_bytes());
    bytes.extend(data);
    bytes
}

#[test]
fn ends_past_the_machine_word_are_refused() {
    for end in [usize::MAX, usize::MAX - 8, usize::MAX - 100, 1 << 40] {
        let header = format!(
            "{{\"x\":{{\"dtype\":\"U8\",\"shape\":[{}],\"data_offsets\":[0,{}]}}}}",
            end, end,
        );
        let bytes = with_header(&header, &[]);
        assert_eq!(failure(read_tensor(&bytes, "x")), ArchiveError::Malformed);
    }
}

#[test]
fn long_numbers_are_no_obstacle() {
    let name = "1234567890123456789012 \" 98765432109876543210";
    let header = "{\"1234567890123456789012 \\\" 98765432109876543210\":\
                  {\"dtype\":\"U8\",\"shape\":[1],\"data_offsets\":[0,1]}}";
    assert_eq!(read_tensor(&with_header(header, &[7]), name).unwrap().data, vec![7]);
    for n in ["1000000000000000000", "18446744073709551615"] {
        let header = format!(
            "{{\"x\":{{\"dtype\":\"F32\",\"shape\":[0,{}],\"data_offsets\":[0,0]}}}}",
            n,
        );
        let t = read_tensor(&with_header(&header, &[]), "x").unwrap();
        assert!(t.single && t.data.is_empty());
        assert_eq!(t.dims, vec![0, n.parse().unwrap()]);
    }
}

#[test]
fn single_precision_numbers_are_decoded() {
    let bytes = archive();
    let t = load_single(&bytes, "floats", None).unwrap();
    let values: Vec<f32> = t.bits.iter().map(|b| f32::from_bits(*b)).collect();
    assert_eq!(values, vec![1.0, -2.5, 0.0, 1e-3, f32::MAX, -0.0]);
    assert_eq!(t.bits[5], 0x8000_0000);
    assert_eq!(t.dims, vec![2, 3]);
    assert!(load_single(&bytes, "floats", Some(2)).is_ok());
    assert_eq!(failure(load_single(&bytes, "floats", Some(3))), ArchiveError::Rank);
    assert_eq!(failure(load_single(&bytes, "ints", None)), ArchiveError::Type);
    assert_eq!(failure(load_single(&bytes, "ints", Some(2))), ArchiveError::Rank);
    assert_eq!(failure(load_single(&bytes, "x", None)), ArchiveError::Missing);
}

#[test]
fn lengths_are_checked() {
    let t = |dims: Vec<usize>, n: usize| StoredTensor { single: true, dims, data: vec![0; n] };
    assert_eq!(failure(decode_single(t(vec![2, 2], 12), None)), ArchiveError::Length);
    assert_eq!(failure(decode_single(t(vec![usize::MAX, 4], 8), None)), ArchiveError::Length);
    assert_eq!(decode_single(t(vec![usize::MAX, 4, 0], 0), None).unwrap().bits.len(), 0);
    assert_eq!(decode_single(t(vec![], 4), None).unwrap().bits, vec![0]);
    assert_eq!(decode_single(t(vec![1], 7), None).unwrap().bits, vec![0]);
}

#[test]
fn integers_are_decoded() {
    let t = load_integers(&archive(), "ints").unwrap();
    assert_eq!(t.values, vec![0, -1, i64::MIN, i64::MAX]);
    assert_eq!(t.dims, vec![4]);
    assert_eq!(failure(load_integers(&archive(), "none")), ArchiveError::Missing);
}

#[test]
fn vocoder_results_are_compared_in_order() {
    let map = vocoder::hook_map();
    assert_eq!(map.len(), 56);
    assert_eq!(map[0], ("vocoder/Add_output_0".into(), "pre_embed/after_unfold".into()));
    assert_eq!(
        map[2],
        (
            "vocoder/convnext.0/dwconv/net/Conv_output_0".into(),
            "convnext.0/dwconv/net/Conv_output_0".into(),
        ),
    );
    assert_eq!(map[55].0, "vocoder/head/layer2/Conv_output_0");
    let mut tape = Tape::new(true);
    let net = CandleVocoder::load(&mut tape);
    let x = tape.input("latent".to_string(), Shape::D3(1, 144, 2));
    net.forward_with_hooks(&mut tape, x, 1, 2);
    let names: Vec<String> = tape.hooks.iter().map(|h| h.0.clone()).collect();
    let compared: Vec<String> = map.iter().map(|p| p.1.clone()).collect();
    assert_eq!(names, compared);
}

#[test]
fn duration_results_are_compared_in_order() {
    let map = duration::hook_map();
    assert_eq!(map.len(), 30 + 2 * 17 + 5);
    assert_eq!(
        map[0],
        (
            "duration_predictor/convnext/convnext.0/dwconv/Conv_output_0".into(),
            "convnext.0/dwconv/Conv_output_0".into(),
        ),
    );
    assert_eq!(map[64], ("duration_predictor/Add_output_0".into(), "Add_output_0".into()));
    let find = |name: &str| map.iter().find(|p| p.1 == name).map(|p| p.0.clone());
    assert_eq!(
        find("attn_encoder/Add_2_output_0").as_deref(),
        Some("duration_predictor/attn_encoder/Add_2_output_0"),
    );
    assert_eq!(
        find("norm_layers_2.1/norm/LayerNormalization_output_0").as_deref(),
        Some(
            "duration_predictor/attn_encoder/norm_layers_2.1/norm/LayerNormalization_output_0",
        ),
    );
    let mut tape = Tape::new(true);
    let net = CandleDurationPredictor::load(&mut tape);
    let ids = tape.input("ids".to_string(), Shape::D2(1, 3));
    let style = tape.input("style".to_string(), Shape::D3(1, 8, 16));
    let mask = tape.input("mask".to_string(), Shape::D3(1, 1, 3));
    net.forward_with_hooks(&mut tape, ids, style, mask, 1, 3);
    let mut compared: Vec<String> = map.iter().map(|p| p.1.clone()).collect();
    for k in 0..compared.len() {
        assert!(!compared[..k].contains(&compared[k]), "{}", compared[k]);
    }
    compared.push("duration".to_string());
    let names: Vec<String> = tape.hooks.iter().map(|h| h.0.clone()).collect();
    assert_eq!(names, compared);
}

#[test]
fn text_results_are_computed() {
    let map = text::hook_map();
    assert_eq!(map.len(), 30 + 4 * 15 + 4 + 8);
    assert_eq!(map[90], ("text_encoder/Add_output_0".into(), "spte/Add_output_0".into()));
    assert_eq!(
        map[101],
        (
            "text_encoder/attention2/out_fc/linear/Add_output_0".into(),
            "spte/attention2/out_fc".into(),
        ),
    );
    let mut tape = Tape::new(true);
    let net = CandleTextEncoder::load(&mut tape);
    let ids = tape.input("ids".to_string(), Shape::D2(1, 3));
    let style = tape.input("style".to_string(), Shape::D3(1, 50, 256));
    let mask = tape.input("mask".to_string(), Shape::D3(1, 1, 3));
    net.forward_with_hooks(&mut tape, ids, style, mask, 1, 3);
    for (_, name) in &map {
        assert!(tape.hooks.iter().any(|h| h.0 == *name), "{}", name);
    }
}

#[test]
fn names_in_the_flow_are_rewritten() {
    assert_eq!(
        flow::golden_key("main_blocks.3/text_cond/W_query/Add_output_0"),
        "vector_estimator/step_00/main_blocks.3/attn/W_query/linear/Add_output_0",
    );
    assert_eq!(
        flow::golden_key("main_blocks.3/text_cond/Add_output_0"),
        "vector_estimator/step_00/main_blocks.3/Add_output_0",
    );
    assert_eq!(
        flow::golden_key("main_blocks.5/style_cond/norm/output"),
        "vector_estimator/step_00/main_blocks.5/norm/norm/LayerNormalization_output_0",
    );
    assert_eq!(
        flow::golden_key("main_blocks.5/style_cond/out_fc/Add_output_0"),
        "vector_estimator/step_00/main_blocks.5/attention/out_fc/linear/Add_output_0",
    );
    assert_eq!(
        flow::golden_key("proj_in/Mul_output_0"),
        "vector_estimator/step_00/proj_in/Mul_output_0",
    );
    assert_eq!(flow::golden_key(""), "vector_estimator/step_00/");
    let mut tape = Tape::new(true);
    let net = CandleVectorEstimator::load(&mut tape);
    let i = StepRegs {
        noisy_latent: tape.input("a".to_string(), Shape::D3(1, 144, 1)),
        text_emb: tape.input("b".to_string(), Shape::D3(1, 256, 1)),
        style_ttl: tape.input("c".to_string(), Shape::D3(1, 50, 256)),
        latent_mask: tape.input("d".to_string(), Shape::D3(1, 1, 1)),
        text_mask: tape.input("e".to_string(), Shape::D3(1, 1, 1)),
        current_step: tape.input("f".to_string(), Shape::D1(1)),
        total_step: tape.input("g".to_string(), Shape::D1(1)),
    };
    net.forward_diagnostic(&mut tape, i, 1, 1);
    for (name, _) in &tape.hooks {
        let key = flow::golden_key(name);
        assert!(key.starts_with("vector_estimator/step_00/"));
        assert!(!key.contains("_cond/"));
    }
}
