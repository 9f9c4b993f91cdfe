pub mod bytecode;
pub mod chunk;
pub mod error;
pub mod lexer;
pub mod parser;
pub mod precedence;
pub mod scanner;
pub mod semantics;
pub mod span;
pub mod text;
pub mod token;
pub mod value;
pub mod vm;

pub use bytecode::{Instruction, OpCode};
pub use chunk::Chunk;
pub use error::{ErrorType, LangError};
pub use lexer::Lexer;
pub use parser::Parser;
pub use scanner::Scanner;
pub use span::Span;
pub use token::{LangToken, TokenType};
pub use value::Value;
pub use vm::VM;
