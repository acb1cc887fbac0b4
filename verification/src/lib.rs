//! Normalization of chapter titles for a merged media file.
//!
//! A batch of raw chapter titles (typically derived from filenames) is turned
//! into a coherent chapter list in three steps: bracket glyphs are
//! standardized to ASCII square brackets, each title is split into bracketed
//! and plain tokens, and a batch-wide frequency profile of the plain tokens is
//! used to strip a leading run of boilerplate tokens from each title.

pub mod chars;
pub mod tokenizer;
pub mod frequency;
pub mod cleaner;
