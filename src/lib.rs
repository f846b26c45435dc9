pub mod ast;
pub mod lexer;
pub mod numeral;
pub mod parser;
pub mod symtab;
pub mod table;
