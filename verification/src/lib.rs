//! A lexical analyzer for a small C-like language.
//!
//! Source text is scanned line by line.  A comment state machine handles
//! `//` and `/* ... */` comments (the latter may span lines), a
//! literal-aware splitter cuts the remaining code into words without
//! breaking double-quoted string literals apart, and each word is reduced
//! to tokens by repeatedly stripping the first prefix that a fixed,
//! ordered table of patterns recognizes.

pub mod text;
pub mod tokenizer;
