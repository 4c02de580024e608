//! The Cabin compiler's core data structures and algorithms: the scope arena, the
//! variable dependency graph, the virtual memory for compile-time values, the state
//! of a compiler run, token queue handling for the parser, names and their C
//! mangling, object fields, built-in functions transpiled to C, project versions,
//! and the terminal colour themes.
pub mod api;
pub mod cli;
pub mod lexer;
pub mod parser;
mod text;
pub mod compile_time;
pub mod compiler;
pub mod comptime;
