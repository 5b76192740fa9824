# soda_tts

Text-to-speech with a four-network speech model (duration predictor, text encoder,
vector estimator, vocoder), in 31 languages and ten voices. The library is verified
with Verus; the programs around it run the networks with ONNX Runtime or candle.

## Layout

- `src/text/` cleans text, splits it into chunks and encodes it as token ids.
- `src/model/` holds the configuration, voices, the latent that the flow starts from,
  and the order in which the networks run (`pipeline`).
- `src/model/candle/` writes the networks down as tensor programs. A program can only
  be built from operations that fit the shapes of their arguments; its contract says
  which expression over inputs and weights it computes, and which results get names.
  `meaning` gives the value of an expression, and the vocoder's laws speak of values.
- `src/synthesis.rs` speaks long texts chunk by chunk.
- `src/golden/` reads recorded results and pairs them with computed ones.
- `src/roundtrip/` compares a text with the transcript of its audio.
- `src/cli/` reads command lines.
- `app/` is what Verus does not see: files, processes, downloads, sessions, and all
  floating-point arithmetic.
- `tests/` runs the library on concrete values.

## Programs

`soda_tts speak --text "Hello, world."` speaks with ONNX Runtime, `soda_tts
speak_candle` with candle. `download-model` fetches the model, `tts_asr_roundtrip`
measures word error rates, and `vocoder_check`, `dp_check`, `text_encoder_check` and
`ve_check` compare the networks with recorded results.

The model is expected under `models/`: `onnx/` (networks, `tts.json`,
`unicode_indexer.json`), `safetensors/` (weights for candle) and `voice_styles/`.
