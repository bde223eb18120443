//! Comment-driven documentation. Tags of the form `//marker(body)` that
//! stand in a source text are located, resolved against a field schema,
//! built into document records and rendered as Markdown.
//!
//! The modules follow the data: [`locator`] finds the tags, [`text`],
//! [`grammar`], [`fields`] and [`schema`] read their bodies, [`builder`]
//! and [`model`] hold the records, [`render`] writes the Markdown, and
//! [`pipeline`] runs the whole. [`laws`], [`round_trip`], [`written_tags`]
//! and [`block_lines`] state what holds across them.

pub mod block_lines;
pub mod builder;
pub mod chars;
pub mod fields;
pub mod generators;
pub mod grammar;
pub mod laws;
pub mod locator;
pub mod model;
pub mod parsers;
pub mod pipeline;
pub mod render;
pub mod round_trip;
pub mod schema;
pub mod text;
pub mod written_tags;
