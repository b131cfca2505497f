//! Earliest-activation-date extraction for intermediary records.
//!
//! The library decodes semicolon-delimited record files, infers one
//! activation date per file from its name or its modification day, folds the
//! decoded rows into per-key earliest-date maps, and renders those maps as
//! SQL update scripts.

pub mod aggregate;
pub mod dates;
pub mod digits;
pub mod infer;
pub mod pipeline;
pub mod rows;
pub mod sql;
pub mod text;
