//! A verified parser for an indentation-structured script language of
//! titled, cross-linked pages.
//!
//! Parsing runs in gated phases: the tokenizer classifies each physical
//! line, the block builder nests the lines into a forest by indentation,
//! the page resolver validates the forest against the directive grammar,
//! and the assembler resolves textual link targets to page indices. Each
//! phase runs only when the one before found no fault, and within a phase
//! every independently detectable fault is reported.

pub mod adventure;
pub mod block;
pub mod error;
pub mod line;
pub mod page_block;
pub mod script;
