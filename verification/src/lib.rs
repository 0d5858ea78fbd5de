//! askic: lexer, token cursor and recursive-descent parser for aski source.
use vstd::prelude::*;

pub mod std_string;
pub mod token;
pub mod grammar;
pub mod text;
pub mod lexer;
pub mod domain;
pub mod error;
pub mod token_stream;
pub mod ast;
pub mod syntax;
pub mod engine;
pub mod machine;
pub mod parse;
pub mod codegen;
