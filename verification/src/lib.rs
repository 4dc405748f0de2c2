//! A template-rendering engine for annotated console output.
//!
//! A template is a plain string carrying three independent marker families:
//! style markers `@( ... )` that switch the active ANSI color/style set,
//! variable markers `{ expr }` (with an optional `:format` specifier and
//! optional `(args)`), and a single trailing separator directive `$( ... )`.
//! The lexer in [`formatext`] turns a template into an ordered token
//! sequence; the style engine in [`colorstyle`] maps style-name lists to
//! ANSI SGR escape sequences; the formatters in [`fmtbasic`], [`fmtmath`]
//! and [`fmttable`] pretty-print the textual debug representation of nested
//! containers; and [`render`] assembles the final output string from the
//! tokens and the values a caller resolved for them.
#![verifier::loop_isolation(false)]

pub mod colorstyle;
pub mod fmtbasic;
pub mod fmtcommon;
pub mod fmtmath;
pub mod fmttable;
pub mod formatext;
pub mod render;
pub mod strutil;
