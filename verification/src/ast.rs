//! The pieces of the parsed Rholang syntax that variable resolution reads.
use vstd::prelude::*;
use crate::span::SourcePos;

verus! {

/// An identifier with the position where it occurs.
#[derive(Clone, Debug, PartialEq, Eq)]
pub struct Id {
    pub name: String,
    pub pos: SourcePos,
}

/// A variable: `_` or an identifier.
#[derive(Clone, Debug, PartialEq, Eq)]
pub enum Var {
    Wildcard,
    Id(Id),
}

/// Which sort a variable reference `=x` / `=*x` expects.
#[derive(Clone, Copy, Debug, PartialEq, Eq, Structural)]
pub enum VarRefKind {
    Proc,
    Name,
}

/// The simple types that can stand in a pattern.
#[derive(Clone, Copy, Debug, PartialEq, Eq, Structural)]
pub enum SimpleType {
    Bool,
    Int,
    String,
    Uri,
    ByteArray,
}

/// The four bundle polarities.
#[derive(Clone, Copy, Debug, PartialEq, Eq, Structural)]
pub enum BundleType {
    BundleEquiv,
    BundleWrite,
    BundleRead,
    BundleReadWrite,
}

/// A single send `!` or a persistent send `!!`.
#[derive(Clone, Copy, Debug, PartialEq, Eq, Structural)]
pub enum SendType {
    Single,
    Multiple,
}

/// How a receive binds: `<-`, `<=` (repeated) or `<<-` (peek).
#[derive(Clone, Copy, Debug, PartialEq, Eq, Structural)]
pub enum BindKind {
    Linear,
    Repeated,
    Peek,
}

/// A literal process.
#[derive(Clone, Debug, PartialEq, Eq)]
pub enum GroundLiteral {
    BoolLiteral(bool),
    LongLiteral(i64),
    StringLiteral(String),
    UriLiteral(String),
}

/// A name declared by `new`, with the system URI it is bound to, if any.
#[derive(Clone, Debug, PartialEq, Eq)]
pub struct NameDecl {
    pub id: Id,
    pub uri: Option<String>,
}

} // verus!
