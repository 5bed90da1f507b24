//! A small arithmetic expression language and its compiler to native code.
//!
//! An expression holds integers and decimal fractions, the operators
//! `+ - * / % ^`, parentheses and the unary minus of a literal. The source
//! text is split into tokens by [`lexer`] and turned into a tree by
//! [`parser`]; [`codegen`] lowers the tree to instructions of a small
//! abstract machine, which a backend, [`x86_64`] or [`debug`], turns into
//! bytes in a [`buffer`]. [`interpreter`] gives integer expressions their
//! value directly.
//!
//! Every function carries a contract, and every contract is proved.

pub mod ast;
pub mod buffer;
pub mod codegen;
pub mod debug;
pub mod interpreter;
pub mod lexer;
pub mod listing;
pub mod number;
pub mod parser;
pub mod precedence;
pub mod render;
pub mod text;
pub mod x86_64;
