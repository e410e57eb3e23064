//! A word-mangling rule engine.
//!
//! Rule text is compiled, one line at a time, into chains of [`rule::Rule`]
//! operations; every chain can then be applied to a word to obtain a
//! candidate. Words are handled as sequences of characters, never as bytes.
pub mod casing;
pub mod compiler;
pub mod driver;
pub mod engine;
pub mod isolation;
pub mod laws;
pub mod rule;
pub mod string_reader;
pub mod text;
