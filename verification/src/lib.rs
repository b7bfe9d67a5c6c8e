//! MoonJuice: lexer, parser and editor-support logic for the MoonJuice scripting language.

pub mod common;
pub mod peekable_stream;
pub mod chars;
pub mod text;
pub mod lexer;
pub mod parser;
pub mod lsp;
