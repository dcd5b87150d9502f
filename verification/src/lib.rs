//! Detects which entries of a flattened translation catalog are referenced
//! by a corpus of source files, so that unreferenced entries can be reported
//! or removed.

pub mod cli;
pub mod ignore;
pub mod matchers;
pub mod search;
pub mod stats;
pub mod translation;
