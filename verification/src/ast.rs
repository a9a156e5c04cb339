//! The syntax tree the analyzer consumes: typed nodes as the parser
//! collaborator produces them. Each node kind of the grammar — program,
//! function, id_decl, parameter, body, variable, compound_statement,
//! assignment_statement, if_statement, return_statement, num_exp, exp, arop,
//! function_call, literal, id — appears here either as a type or as a
//! variant; a tag outside this set cannot be represented, so a malformed
//! tree is a contract violation of the parser, not a value of these types.

use vstd::prelude::*;

use crate::symtab::Type;

verus! {

/// The lexical form of a numeric literal token: a plain integer
/// (`int_number`) or an unsigned-suffixed one (`uint_number`).
#[derive(Copy, Clone, Debug, PartialEq, Eq, Structural)]
pub enum LitForm {
    Plain,
    Unsigned,
}

/// A `literal` node: the token text together with its lexical form.
pub struct Literal {
    pub text: String,
    pub form: LitForm,
}

/// An `id_decl` node: a type annotation and the declared name. Both a
/// function's own declaration and each `parameter` node carry one.
pub struct IdDecl {
    pub s_type: Type,
    pub name: String,
}

/// An `exp` node: exactly one operand of a numeric expression.
pub enum Exp {
    /// A `function_call` node.
    Call(FunctionCall),
    /// A `literal` node.
    Lit(Literal),
    /// An `id` node: a name used as a value.
    Id(String),
    /// A parenthesized `num_exp` node.
    Paren(Box<NumExp>),
}

/// A `num_exp` node: a first operand followed by zero or more further
/// operands, each introduced by an arithmetic-operator (`arop`) token.
/// Operators carry no type rule of their own, so only the operands are kept.
pub struct NumExp {
    pub first: Exp,
    pub rest: Vec<Exp>,
}

/// A `function_call` node: the callee name and an optional argument
/// expression.
pub struct FunctionCall {
    pub callee: String,
    pub arg: Option<Box<NumExp>>,
}

/// An `assignment_statement` node: a left-hand identifier and the assigned
/// numeric expression.
pub struct Assignment {
    pub lhs: String,
    pub rhs: NumExp,
}

/// One immediate child of a `body` node. Compound statements, if-statements
/// and return-statements are legal syntax but are not walked for
/// declarations, so they carry nothing the analyzer reads.
pub enum Stmt {
    /// A `variable` node: a top-level local declaration.
    Variable(IdDecl),
    /// A `compound_statement` node.
    Compound,
    /// An `assignment_statement` node.
    Assignment(Assignment),
    /// An `if_statement` node.
    If,
    /// A `return_statement` node.
    Return,
}

/// A `function` node: the function's own `id_decl`, its `parameter` nodes in
/// declaration order, and the children of its `body` node.
pub struct Function {
    pub decl: IdDecl,
    pub params: Vec<IdDecl>,
    pub body: Vec<Stmt>,
}

/// A `program` node: the top-level function definitions.
pub struct Program {
    pub functions: Vec<Function>,
}

} // verus!
