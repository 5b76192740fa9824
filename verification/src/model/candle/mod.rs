//! The four networks as tensor programs: their weights, and what they compute.

pub mod attention;
pub mod attention_laws;
pub mod conditioning;
pub mod conditioning_laws;
pub mod cross;
pub mod cross_laws;
pub mod duration_laws;
pub mod duration_predictor;
pub mod graph;
pub mod hook_laws;
pub mod hooks;
pub mod layer_laws;
pub mod layers;
pub mod meaning;
pub mod step_laws;
pub mod text_encoder;
pub mod text_encoder_laws;
pub mod values;
pub mod vector_estimator;
pub mod vocoder;
pub mod vocoder_laws;
pub mod vocoder_values;

pub use self::duration_predictor::CandleDurationPredictor;
pub use self::text_encoder::CandleTextEncoder;
pub use self::vector_estimator::CandleVectorEstimator;
pub use self::vocoder::CandleVocoder;
