//! Streaming JSON parsing: a parser fed in chunks that emits events as soon
//! as they are known, with the language it accepts, the text of its string
//! fragments and the containers it reports specified and proved; a
//! chunk-aware input scanner; adapters that buffer strings and classify
//! container transitions; byte-level scanning of string ranges and path
//! patterns.
#![allow(unused_imports)]

pub mod text;
pub mod utf8;
pub mod escape_buffer;
pub mod scanner;
pub mod event;
pub mod frames;
pub mod options;
pub mod error;
pub mod buffer;
pub mod lexical;
pub mod parser;
pub mod escape;
pub mod path_ctx;
pub mod decode;
pub mod transition;
pub mod values;
pub mod buffers;
pub mod string_ranges;
pub mod json_number;
pub mod path_pattern;
pub mod string_decode;
pub mod nesting;
pub mod grammar;
pub mod value_tree;
pub mod applicator;
