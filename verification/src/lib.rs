//! The text tower of SigLIP, an embedding model, computed with `candle`.
//!
//! A batch of token sequences is padded to the length the model was trained
//! on, embedded, run through an unmasked transformer encoder, and read out:
//! pooled at the final position through a projection head, or raw, one row per
//! real token.
pub mod array;
pub mod attention;
pub mod batch;
pub mod config;
pub mod embeddings;
pub mod encoder;
pub mod entries;
pub mod error;
pub mod laws;
pub mod layers;
pub mod masking;
pub mod mlp;
pub mod model;
pub mod names;
pub mod outcome;
pub mod regroup;
pub mod tensor;
pub mod tokenizer;
pub mod weights;
