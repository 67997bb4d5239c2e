//! Rule dispatch, ignore directives and diagnostic reconciliation for a
//! source linter.
//!
//! Rules report into a per-file [`context::Context`]; the [`linter::Linter`]
//! runs them in registry order (priority, then code), drops what ignore
//! directives cover, adds the unknown-code and unused-directive diagnostics
//! where those checks are enabled, and sorts the result by line.
pub mod context;
pub mod diagnostic;
pub mod fresh_handler_export;
pub mod handler;
pub mod ignore_directives;
pub mod linter;
pub mod program;
pub mod rules;
pub mod text;
