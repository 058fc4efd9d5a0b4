//! Directive interpretation for annotated C sources: the directive grammar and
//! its pairing rules, type rewriting through aliases, rendering of hook stubs,
//! and the splice that brings the rendered stubs into a source file.

pub mod cli;
pub mod decl;
pub mod directive;
pub mod error;
pub mod hooks;
pub mod patch;
pub mod render;
pub mod rewrite;
pub mod source;
pub mod tables;
pub mod text;
pub mod validate;
