//! Generation from rendered templates: a rendered document names files to
//! write and patches to make to files that exist, and this crate reads the
//! document, decides what a patch makes of a text, and decides the course of
//! a run.
//!
//! - [`document`] cuts a rendered document into pairs of directive and body.
//! - [`directive`] and [`injection`] make directives and injections of the
//!   fields that a decoder hands over.
//! - [`positions`], [`insertion`] and [`injection`] find lines by a pattern
//!   and put a payload in, take lines out, or replace matches.
//! - [`machine`] decides, answer by answer, what a run does next; [`driver`]
//!   runs it against a storage and a printer; [`model`] states what a run
//!   makes of a storage in the abstract.
//! - [`pattern`] and [`filters`] rest on the `regex`, `heck` and `cruet`
//!   crates; [`text`] holds the work on characters and lines.

pub mod directive;
pub mod document;
pub mod driver;
pub mod error;
pub mod filters;
pub mod injection;
pub mod insertion;
pub mod machine;
pub mod model;
pub mod pattern;
pub mod positions;
pub mod text;
