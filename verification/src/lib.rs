pub mod ast;
pub mod error;
pub mod lexer;
pub mod symbol_table;
pub mod texto;
pub mod semantic;
pub mod parser;
pub mod llvm;
pub mod codegen;
