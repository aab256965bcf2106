//! Parser for a small line-oriented dialogue scripting language.
//!
//! A script is a sequence of text lines.  A line beginning with `::` opens a
//! named node; `@if <cond>` sets a condition for the next choice line;
//! `@action: <cmd>` appends an action; `@<key>: <value>` sets a metadata
//! entry; `* <text> => <target>` adds a choice (optionally gated by an inline
//! `@if`); any other non-blank line becomes body text.  Parsing either yields
//! a [`Dialogue`] holding every finalized node, or fails fast with a
//! [`ParseError`] naming the offending line.

mod text;
mod model;
mod parser;
mod laws;

pub use model::Action;
pub use model::Choice;
pub use model::Dialogue;
pub use model::Node;
pub use parser::ParseError;
pub use parser::ParseErrorKind;
pub use parser::parse;
