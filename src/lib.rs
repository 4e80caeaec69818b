//! A clipboard history kept as a directory of files, one file per capture,
//! named `{timestamp}.{type-tag}`. This crate holds the logic: how captures are
//! classified, ordered, deduplicated, selected and previewed.

pub mod classify;
pub mod entry;
pub mod history;
pub mod laws;
pub mod order;
pub mod preview;
pub mod size;
pub mod state;
pub mod text;
