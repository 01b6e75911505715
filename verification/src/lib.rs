//! Incremental splitting of a streamed JSON array into the raw byte spans of
//! its top-level elements.
//!
//! The crate is built from two cooperating state machines:
//!
//! * [`json_depth_analyzer::JsonDepthAnalyzer`], a byte-at-a-time pushdown
//!   automaton that tracks JSON structural depth and the lexical state of
//!   string literals, and
//! * a splitter that drives the analyzer over the input bytes and emits one
//!   buffered byte span per top-level array element as soon as its boundary
//!   is recognized.

pub mod grammar;
pub mod json_depth_analyzer;
pub mod splitter;

pub use json_depth_analyzer::JsonDepthAnalyzer;
pub use json_depth_analyzer::ParserError;
pub use json_depth_analyzer::ParserState;
pub use splitter::JsonArraySplitter;
pub use splitter::JsonStreamError;
pub use splitter::split_json_array;
