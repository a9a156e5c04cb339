//! Semantic analysis for a small C-like teaching language.
//!
//! The crate consumes a syntax tree of typed nodes (see [`ast`]) and checks
//! name resolution, type compatibility, declaration-before-use, absence of
//! redefinitions, and the presence of a `main` entry point. The first
//! violation found is reported as an [`Error`]; on success nothing is
//! reported. Parsing source text into the tree is the host program's job.

use vstd::prelude::*;

pub mod analyzer;
pub mod ast;
pub mod laws;
pub mod symtab;

use analyzer::{Micko, spec_analysis, spec_of_result, wf_program};
use ast::Program;

verus! {

/// A semantic error: the first rule violation found while walking the tree.
///
/// Each variant carries the offending identifier where one exists; turning a
/// value into a human-readable message is left to the host program.
pub enum Error {
    /// A `Function` or `Variable`/`Parameter` name was declared twice in the
    /// same active scope.
    Redefinition(String),
    /// An identifier or callee was referenced but never declared in any
    /// still-visible scope.
    Undeclared(String),
    /// The two sides of an assignment, or two operands of one numeric
    /// expression, resolved to different types.
    IncompatibleTypes,
    /// No function named `main` was declared.
    MissingEntryPoint,
}

/// Analyzes a whole parsed program with a fresh analyzer: success exactly
/// when every semantic rule holds, otherwise the first violation found.
pub fn run(program: &Program) -> (r: Result<(), Error>)
    requires
        wf_program(*program),
    ensures
        spec_of_result(r) == spec_analysis(*program),
{
    let mut micko = Micko::new();
    micko.code_gen(program)
}

} // verus!
