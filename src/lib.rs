//! Decoding of an hourly weather history kept as comma-separated text.
//!
//! `text` holds the character-level rules (digits, decimal numbers, lines),
//! `record` turns the columns of one row into a typed record, and `stream`
//! drives a whole input through the decoder while reporting progress.
pub mod text;
pub mod record;
pub mod stream;
