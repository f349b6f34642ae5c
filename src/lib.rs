//! A small line editor: a command language over a line-indexed text buffer.

pub mod buffer;
pub mod command;
pub mod editor;
pub mod text;
