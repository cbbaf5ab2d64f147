//! Back end of a small interpreted language: static checks on a syntax
//! tree, a compiler from the tree to stack-machine bytecode, the versioned
//! container for that bytecode, and a virtual machine that executes it one
//! instruction at a time.

pub mod analysis;
pub mod ast;
pub mod bytecode;
pub mod compiler;
pub mod container;
pub mod flow;
pub mod laws;
pub mod pipeline;
pub mod render;
pub mod slots;
pub mod vm;
