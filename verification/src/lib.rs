//! Core of a personal task/category tracker.
//!
//! The library owns the domain model (tasks, categories, themes), the
//! registry that implements CRUD with category assignment, the text codec
//! used by the local persistence backend, the description of the remote
//! HTTP surface, and the grouping step of the presentation layer.
//! Everything here is verified; the surrounding command-line program only
//! performs I/O and hands plain values in and out.

pub mod codec;
pub mod errors;
pub mod grouping;
pub mod model;
pub mod registry;
pub mod remote;
pub mod theme;
pub mod text;
