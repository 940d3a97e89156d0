//! Infers a schema from one JSON document and renders it as type definitions
//! for a target language described by templates.
//!
//! The pipeline: [`lexer`] turns text into tokens, [`tokenizer`] builds the
//! schema tree of [`tree`], and [`transformer`] renders it with a
//! [`config::TransformConfig`], using [`case`] for names.
pub mod case;
pub mod config;
pub mod lexer;
pub mod text;
pub mod token;
pub mod tokenizer;
pub mod transformer;
pub mod tree;
