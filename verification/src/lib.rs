//! Symbol resolution and document state for a line-oriented notation:
//! definition lookup, single-document rename, and checker diagnostics.

pub mod applied;
pub mod diagnostics;
pub mod position;
pub mod rename;
pub mod resolver;
pub mod scanner;
pub mod store;
pub mod text;
pub mod token;
