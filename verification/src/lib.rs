//! A compact codec for DNA nucleotide sequences.
//!
//! A sequence over the four-letter alphabet A, C, G, T is stored using two
//! bits per symbol: each 8-bit storage unit holds four symbols, the first
//! symbol of a unit in its most significant field.  The library offers
//! construction from text (case-insensitive) or from a stream of symbols,
//! random access decoding by 1-based index, and per-symbol counts.

pub mod nuc;
pub mod packed;
pub mod text;

pub use nuc::Nuc;
pub use nuc::ParseNucError;
pub use packed::PackedDna;
