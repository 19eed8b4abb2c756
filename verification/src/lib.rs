//! A rule-dispatch and safe-fix-application engine for a lint tool.
//!
//! Source text is kept as immutable byte buffers. Lint rules inspect a
//! syntax tree whose nodes carry byte-offset spans into one buffer, report
//! diagnostics with span annotations, and may attach a plan of textual
//! edits. The fixer merges the plans of many independently written rules,
//! rejects overlapping edits rather than guessing, and splices the accepted
//! replacements into a fresh output buffer.

pub mod span;
pub mod level;
pub mod text;
pub mod fix;
pub mod issue;
pub mod fixer;
pub mod ast;
pub mod context;
pub mod rule;
pub mod no_implicit_string_variable;
pub mod require_identity_comparison;
pub mod walker;
pub mod service;
