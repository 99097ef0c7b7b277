//! A verified quasi-quotation engine.
//!
//! Templates are flat sequences of lexical tokens interleaved with
//! interpolation markers.  Expansion walks a template, recognises the
//! marker grammar (single-value splices, repetitions with an optional
//! separator, computed blocks, raw identifiers) and renders the bound
//! values into an output token sequence.

pub mod assemble;
pub mod classify;
pub mod collect;
pub mod display;
pub mod expand;
pub mod ident_fragment;
pub mod laws;
pub mod text;
pub mod to_tokens;
pub mod token;
pub mod tokens;
pub mod value;
pub mod walk;
