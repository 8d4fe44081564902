//! Scriptural markup rendering engine.
//!
//! Turns raw per-verse markup (OSIS-tagged XML) into a structured,
//! UI-agnostic sequence of styled word tokens grouped into verses, and
//! walks a module's reference-key stream to recover book and chapter
//! boundaries and verse counts.

pub mod download;
pub mod engine;
pub mod events;
pub mod groups;
pub mod lexical;
pub mod model;
pub mod morph;
pub mod net;
pub mod notes;
pub mod osis;
pub mod page;
pub mod text;
pub mod walker;
