//! Front end of a Lua-dialect runtime: the lexical scanner and the buffer
//! that collects generated machine code.

pub mod chars;
pub mod grammar;
pub mod lexer;
pub mod region;
pub mod runtime;
pub mod text;
pub mod token;
