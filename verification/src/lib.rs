//! A small embeddable scripting language: a lexer, a recursive-descent
//! parser, a bytecode emitter, and a stack-machine virtual machine that
//! executes the emitted bytecode against a persistent key-value variable
//! store (the "blackboard") and a request/reply bridge to host-supplied
//! globals and callable objects.

pub mod blackboard;
pub mod emitter;
pub mod htn_vm;
pub mod lexer;
pub mod parser;
pub mod parsing;
pub mod prelude;
pub mod states;
pub mod tokens;
