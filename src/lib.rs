//! A small command shell: a scanner, a parser that builds an operator tree over commands,
//! pipes, redirections and heredocs, and an interpreter that decides, step by step, which
//! processes to run and which files to touch, leaving the work itself to its caller.
pub mod ast;
pub mod error;
pub mod interpreter;
pub mod parser;
pub mod paths;
pub mod scanner;
pub mod token;
