//! A lazily copying text rewriter.
//!
//! A [`Rewrite`] takes an original text and a sequence of writes that spell
//! out the wanted output. As long as every write repeats the original at the
//! current position nothing is copied, and the result borrows from the
//! original; the first write that differs makes the rewriter switch to an
//! owned buffer that holds everything written so far.
//!
//! The modules:
//! - [`model`]: a rewrite as a mathematical object, the [`model::Draft`];
//! - [`buffer`]: the rewriter itself, specified by the model;
//! - [`laws`]: what holds of every rewrite, proved of the model;
//! - [`bytes`]: the byte comparison that decides whether a write repeats the original;
//! - [`encoding`]: facts about UTF-8 that tie texts to their bytes;
//! - [`strings`]: what is taken on trust of the standard library's `char` and `String`.

pub mod buffer;
pub mod bytes;
pub mod encoding;
pub mod laws;
pub mod model;
mod private;
pub mod strings;

pub use buffer::{Rewritable, Rewrite};
