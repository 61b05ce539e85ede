//! A character-level n-gram text synthesizer.
//!
//! The library builds a weighted adjacency matrix from a normalized corpus
//! (mapping each fixed-length key window to the value windows that follow it,
//! with exact occurrence counts), flattens the counts into multiplicity lists
//! for uniform sampling, and chains sampled values into token streams or
//! sentences.

pub mod chars;
pub mod error;
pub mod flatten;
pub mod generate;
pub mod laws;
pub mod matrix;
pub mod normalize;
pub mod random;
pub mod sampler;
pub mod unicode;

pub use error::TextGenError;
pub use flatten::{flatten_adjacency_matrix, FlatAdjacencyMatrix, FlatEntry};
pub use generate::{generate, GenOutput, MAX_STEPS};
pub use matrix::{create_weighted_adjacency_matrix, AdjacencyMatrix, KeyEntry, ValueCount};
pub use normalize::normalize_corpus;
pub use random::RandomSource;
pub use sampler::{capitalized_keys, gen_sentence, gen_token_stream, generate_sequences, get_rand_value};
