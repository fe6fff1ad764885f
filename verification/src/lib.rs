//! Core engine of an interactive shell-history search box: history ranking,
//! query filtering, view bookkeeping, pagination and query editing, together
//! with a decoder for on-disk history encodings.

pub mod hstr;
pub mod search;
pub mod sort;
pub mod state;
pub mod ui;
