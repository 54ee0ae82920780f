//! A style linter for C source files: a line index and display-width model of the
//! source text, a diagnostic model, and a catalog of rules evaluated over a syntax tree.

pub mod collapse;
pub mod diagnostic;
pub mod lines;
pub mod metadata;
pub mod registry;
pub mod report;
pub mod rules;
pub mod source;
pub mod syntax;
pub mod text;
