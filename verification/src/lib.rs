//! Template substitution with positional and named arguments, alignment and
//! display-width aware padding and truncation.
//!
//! A template is text with placeholders in braces: `{}` takes the next
//! argument, `{2}` the argument at a position, `{name}` an argument given as
//! `name = value`. After a colon a placeholder may ask for an alignment
//! (`<`, `^`, `>`) and a width in terminal columns. `{{` and `}}` stand for
//! literal braces.

pub mod arg;
pub mod error;
pub mod formatter;
pub mod laws;
pub mod layout;
pub mod render;
pub mod scanner;
pub mod specifier;
pub mod text;
pub mod width;

pub use crate::arg::{FormatArg, FormatArgs};
pub use crate::error::Error;
pub use crate::formatter::Formatter;
pub use crate::specifier::{Alignment, FormatSpec};
