//! The core of an interactive command shell: the tokenizer for submitted
//! lines, the line editor with its suggestions and prompt, the index of
//! executables reached through PATH, the resolver of directory change
//! targets, and the routing of commands to built-ins or child processes.
//! What touches the terminal, the environment or the disk is left to the
//! caller, which answers the questions these parts put.
use vstd::prelude::*;

pub mod editor;
pub mod index;
pub mod parser;
pub mod render;
pub mod resolve;
pub mod shell;
pub mod text;

verus! {

} // verus!
