//! The parts of a parsed module that the linter reads: its comments and its
//! exported declarations, each with its source range.
use vstd::prelude::*;
use crate::diagnostic::Range;

verus! {

/// A comment, without its delimiters.
#[derive(Debug)]
pub struct Comment {
    pub text: String,
    pub range: Range,
}

/// An identifier and where it stands.
#[derive(Debug)]
pub struct Ident {
    pub sym: String,
    pub range: Range,
}

/// A binding pattern.
#[derive(Debug)]
pub enum Pat {
    Ident(Ident),
    Other,
}

/// A declaration: variables (the pattern of each declarator), a function,
/// or another kind.
#[derive(Debug)]
pub enum Decl {
    Var(Vec<Pat>),
    Fn(Ident),
    Other,
}

/// `export <decl>`.
#[derive(Debug)]
pub struct ExportDecl {
    pub decl: Decl,
}

/// A parsed module, with its comments and exported declarations in source
/// order.
#[derive(Debug)]
pub struct Program {
    pub comments: Vec<Comment>,
    pub export_decls: Vec<ExportDecl>,
}

} // verus!
