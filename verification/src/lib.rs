//! A terminal Markdown renderer: ANSI-aware text measurement and wrapping,
//! box-drawn tables, framed layout, and the state machine of an interactive
//! pager, each with a machine-checked contract.

pub mod text;
pub mod terminal;
pub mod layout;
pub mod table;
pub mod syntax;
pub mod render;
pub mod parse;
pub mod viewer;
pub mod cli;
