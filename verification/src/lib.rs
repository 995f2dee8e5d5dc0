//! A personal budget tracker: dated expense records are kept on named
//! sheets, one sheet may be selected as active, and a command tree
//! resolves free-text tokens to handlers.
//!
//! The crate is organised leaf-first: calendar arithmetic (`dates`,
//! `period`), text primitives (`text`), the data model with its
//! on-disk text forms (`category`, `record`, `sheet`, `state`), path
//! derivation (`paths`), the configuration store (`config`), the
//! orchestrating manager (`manager`), the command tree (`cmd`),
//! prompt helpers (`interact`), and report rendering (`report`). File
//! and terminal I/O live outside the library: every operation that
//! persists hands back the full file content to write.

pub mod category;
pub mod clock;
pub mod cmd;
pub mod config;
pub mod dates;
pub mod error;
pub mod interact;
pub mod manager;
pub mod paths;
pub mod period;
pub mod record;
pub mod report;
pub mod sheet;
pub mod state;
pub mod text;

pub use error::{BtrError, BtrErrorKind, IoErrorKind};
