//! Text to token ids: cleaning, chunking and the code point table.

pub mod chunk;
pub mod chunk_laws;
pub mod chunking_laws;
pub mod cleaning_laws;
pub mod indexer;
pub mod packing_laws;
pub mod patterns;
pub mod preprocess;
pub mod preprocess_laws;
pub mod sentence_laws;

pub use self::chunk::chunk_text;
pub use self::indexer::UnicodeIndexer;
pub use self::preprocess::{chunk_max_for, is_valid_lang, preprocess};
