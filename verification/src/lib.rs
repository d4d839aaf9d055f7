//! Loudness-normalization core: parsing of an encoder's diagnostic output,
//! selection of a normalization strategy, and synthesis of the filter-chain
//! and argument lists handed to the encode invocation.

pub mod errors;
pub mod invoke;
pub mod kv;
pub mod loudnorm;
pub mod settings;
pub mod synth;
pub mod text;
pub mod volume;
