//! Core of a dirstate engine for a distributed version control system.
//!
//! The library covers three pieces of machinery:
//! - the per-path dirstate entry state machine (`entry`), including the
//!   truncated-timestamp type used for modification times;
//! - the "v2" on-disk container: a docket header plus a tree of fixed-size
//!   nodes (`on_disk`), with an in-memory tree to read it into and write it
//!   back from (`dirstate_map`);
//! - the pattern compiler that turns user-authored path patterns into byte
//!   regexes (`filepatterns`).
//!
//! Surrounding utilities (`errors`, `ref_sharing`, `ui`) carry the error
//! types, the shared-borrow discipline, and small encoding helpers.

pub mod dirstate_map;
pub mod entry;
pub mod errors;
pub mod filepatterns;
pub mod on_disk;
pub mod ref_sharing;
pub mod ui;
