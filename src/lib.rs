//! A small line-oriented stream editor: addresses that pick lines, commands
//! that edit a pattern space, and a parser from program text to a command tree.
pub mod pattern;
pub mod addr;
pub mod functions;
pub mod compile;
pub mod editor;
