//! A parser for the NL language: source text in, syntax tree out.
//!
//! The grammar is a recursive descent with ordered, backtracking
//! alternation.  Each parser states, in its contract, that it computes the
//! spec function of the same name over the characters it reads.
pub mod ast;
pub mod constant;
pub mod decl;
pub mod expr;
pub mod file;
pub mod lexer;
pub mod types;

pub use crate::ast::{
    BinaryKind, NLArgument, NLBlock, NLEncapsulationBlock, NLFunction, NLGetter,
    NLImplementation, NLImplementor, NLOperation, NLSetter, NLStruct, NLStructVariable, NLTrait,
    NLType, OpAssignment, OpConstant, OpOperator, OpVariable, RootDeclaration, UnaryKind,
};
pub use crate::file::{parse_expression, parse_file_root, parse_string, parse_type, NLFile, ParseError};
pub use crate::lexer::{Failure, Frame, Label, Source};
pub mod laws;
