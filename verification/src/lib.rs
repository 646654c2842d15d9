pub mod ast;
pub mod format;
pub mod format_canonical;
pub mod format_laws;
pub mod format_spec;
pub mod lexer;
pub mod lexer_laws;
pub mod lexer_spec;
pub mod output;
pub mod parser;
pub mod parser_laws;
pub mod parser_spec;
pub mod text;
pub mod token;
