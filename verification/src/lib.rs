//! A small expression compiler: a tokenizer, a recursive-descent parser over
//! a six-level precedence grammar, and a post-order code generator that emits
//! stack-machine instructions. Each stage is specified against a functional
//! model, and the generated code is proved to evaluate the expression.

pub mod codegen;
pub mod machine;
pub mod parser;
pub mod token;
