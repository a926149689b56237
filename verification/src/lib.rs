//! Extraction of named, possibly nested regions of source text delimited by
//! in-line marker comments, and substitution of those regions into
//! documentation templates that reference them by file path and tag name.
//!
//! The engine is line oriented: a tokenizer classifies single lines as marker
//! or content, a region extractor runs a small state machine over a file's
//! lines, and a reference resolver recognizes `{{insert_code(..)}}` requests
//! inside fenced code blocks of a document and splices extracted text back in.

pub mod authors;
pub mod auto_doc;
pub mod auto_include;
pub mod extract;
pub mod reference;
pub mod replace_path;
pub mod resolve;
pub mod strings;
pub mod token;
