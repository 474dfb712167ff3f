//! Code generator for the haumea language: turns a parsed program into C source text.
//!
//! The syntax tree lives in [`ast`], the mathematical model of the generated text in
//! [`text`], the emitters in [`codegen`], and the properties the emitted text satisfies
//! in [`laws`].
use vstd::prelude::*;

pub mod ast;
pub mod codegen;
pub mod laws;
pub mod text;

verus! {

pub use ast::{Expression, Function, Operator, OwnershipViolation, Program, Statement};
pub use codegen::{
    compile_ast, compile_expression, compile_function, compile_statement, get_c_name,
    integer_literal, replicate, write_newline,
};

} // verus!
