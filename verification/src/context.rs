//! What the environments record of a variable: its sort, its de Bruijn index
//! or level, and where it was bound; and the logical connectives a free map
//! collects.
use vstd::prelude::*;
use crate::span::{SourcePos, SourceSpan};

verus! {

/// Whether a variable stands for a process or for a name.
#[derive(Clone, Copy, Debug, PartialEq, Eq, Structural)]
pub enum VarSort {
    ProcSort,
    NameSort,
}

/// A bound variable as a lookup reports it: `index` counts binders from the
/// innermost one (0 is the most recent binding).
#[derive(Clone, Copy, Debug, PartialEq, Eq)]
pub struct BoundContext<T> {
    pub index: usize,
    pub typ: T,
    pub source_span: SourceSpan,
}

/// A free variable of a pattern: `level` counts free variables in the order
/// they were first met (0 is the first).
#[derive(Clone, Copy, Debug, PartialEq, Eq)]
pub struct FreeContext<T> {
    pub level: usize,
    pub typ: T,
    pub source_span: SourceSpan,
}

/// A reference `=x` to a variable bound `depth` pattern levels out, at
/// index `index` there.
#[derive(Clone, Copy, Debug, PartialEq, Eq, Structural)]
pub struct VarRef {
    pub index: usize,
    pub depth: usize,
}

/// The kind of a logical connective met in a pattern. The bodies of `/\`,
/// `\/` and `~` are kept by the normalized term, not here.
#[derive(Clone, Copy, Debug, PartialEq, Eq, Structural)]
pub enum ConnectiveInstance {
    ConnAndBody,
    ConnOrBody,
    ConnNotBody,
    VarRefBody(VarRef),
    ConnBool(bool),
    ConnInt(bool),
    ConnString(bool),
    ConnUri(bool),
    ConnByteArray(bool),
}

/// A variable binding with the span of its binder: name, sort, span.
pub type IdContextSpan<T> = (String, T, SourceSpan);

/// A variable binding with a single position: name, sort, position.
pub type IdContextPos<T> = (String, T, SourcePos);

} // verus!
