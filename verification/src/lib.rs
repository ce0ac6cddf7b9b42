pub mod ast;
pub mod builtins;
pub mod env;
pub mod evaluator;
pub mod jit;
pub mod laws;
pub mod reader;
pub mod runtime;
pub mod semantics;
pub mod server;
pub mod text;
pub mod value;
