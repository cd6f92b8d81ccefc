//! Lexical front-end of a compiler for a small C-like teaching language:
//! classified tokens with exact source spans, error recovery that never
//! loses a byte, and diagnostics rendered as `file:line:col: message` lines.

pub mod grammar;
pub mod laws;
pub mod lexer;
pub mod log;
pub mod report;
pub mod span;
