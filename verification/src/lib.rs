pub mod text;
pub mod lexer;
pub mod ast;
pub mod parser;
pub mod semantic;
pub mod ir;
pub mod optimizer;
pub mod codegen;
pub mod security;
pub mod voice;
pub mod obfuscator;
pub mod gemini;
pub mod self_modifier;
pub mod driver;
