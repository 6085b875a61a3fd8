//! A small C compiler front end and AArch64 code generator: tokenizer,
//! recursive-descent parser with scoped symbol tables, type checker and
//! assembly emitter, with their contracts proved by Verus.
use vstd::prelude::*;

pub mod types;
pub mod text;
pub mod diag;
pub mod type_utils;
pub mod new_node;
pub mod tokenize;
pub mod symbols;
pub mod layout;
pub mod parse;
pub mod codegen;
pub mod report;
pub mod laws;
pub mod machine;
pub mod semantics;


verus! {
} // verus!
