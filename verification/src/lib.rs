//! A parser for a declarative, nested widget-view language embedded as a
//! token stream.
//!
//! The input is a sequence of lexical tokens (identifiers, punctuation,
//! literals, and recursively delimited groups).  The parser is a
//! recursive-descent walk over that stream that produces a [`ir::Widget`]
//! tree: the intermediate representation later consumed by code generation.
//! Opaque expression fragments (property values, event payloads) are captured
//! as verbatim token spans and never interpreted here.

pub mod tokens;
pub mod names;
pub mod ir;
pub mod parser;
pub mod laws;
