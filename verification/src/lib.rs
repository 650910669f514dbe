//! Converts directories of vector graphics into typed components and keeps
//! the barrel file that exports them.
//!
//! The library holds what is decided and computed: which files a scan
//! selects, how a component is named, how markup is rewritten and laid out,
//! which name each export takes, and what each command does next. Reading
//! and writing files, running other programs and calling services is left
//! to the program around it.

pub mod args;
pub mod assist;
pub mod chars;
pub mod commit;
pub mod convert;
pub mod export;
pub mod format;
pub mod format_laws;
pub mod naming;
pub mod pattern;
pub mod pull;
pub mod rewrite;
pub mod scan;
pub mod scan_laws;
pub mod text;
pub mod text_laws;
pub mod usage;
