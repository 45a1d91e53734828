//! What a `let` is rewritten into, apart from the processes themselves: the
//! fresh names a concurrent `let` declares, and the spans given to the sends,
//! binds and matches it becomes.
use vstd::prelude::*;
use crate::ast::{Id, NameDecl};
use crate::span::{point_span, sat_add, spec_merge_two, SourcePos, SourceSpan, SpanContext};

verus! {

/// The span covering the right-hand sides of one binding: from the first to
/// the last when there are several, the one when there is one, and the whole
/// `let` when there are none.
pub fn rhs_list_span(rhs: &[SourceSpan], let_span: SourceSpan) -> (r: SourceSpan)
    ensures
        rhs@.len() > 1 ==> r == spec_merge_two(rhs@[0], rhs@[rhs@.len() - 1]),
        rhs@.len() == 1 ==> r == rhs@[0],
        rhs@.len() == 0 ==> r == let_span,
{
    if rhs.len() > 1 {
        SpanContext::merge_two_spans(rhs[0], rhs[rhs.len() - 1])
    } else if rhs.len() == 1 {
        rhs[0]
    } else {
        let_span
    }
}

/// The span standing for the left-hand side of a binding of several values:
/// that of its first right-hand side, or the whole `let` when there is none.
pub fn lhs_context_span(rhs: &[SourceSpan], let_span: SourceSpan) -> (r: SourceSpan)
    ensures
        rhs@.len() > 0 ==> r == rhs@[0],
        rhs@.len() == 0 ==> r == let_span,
{
    if rhs.len() > 0 { rhs[0] } else { let_span }
}

/// The spans of the name and of the send that carry the value of binding
/// `index` of a concurrent `let`, from the span of its right-hand side: the
/// name sits `index` columns in, the send ten columns in.
pub fn concurrent_send_spans(index: usize, rhs_span: SourceSpan) -> (r: (SourceSpan, SourceSpan))
    ensures
        r.0 == point_span(SourcePos { line: rhs_span.start.line, col: sat_add(rhs_span.start.col, index) }),
        r.1 == point_span(SourcePos { line: rhs_span.start.line, col: sat_add(rhs_span.start.col, 10) }),
{
    (SpanContext::variable_span_from_binding(rhs_span, index), SpanContext::synthetic_construct_span(rhs_span, 10))
}

/// The span of the match a sequential binding becomes: from its right-hand
/// side to the body.
pub fn sequential_match_span(rhs_span: SourceSpan, body_span: SourceSpan) -> (r: SourceSpan)
    ensures
        r == spec_merge_two(rhs_span, body_span),
{
    SpanContext::merge_two_spans(rhs_span, body_span)
}

/// `uuid::Uuid::new_v4().to_string()`: a fresh random identifier, written
/// in the hyphenated form of 36 characters with hyphens at positions 8, 13,
/// 18 and 23 (as the crate's formatting code writes it). Which identifier is
/// not stated: it is random.
#[verifier::external_body]
pub(crate) fn fresh_identifier() -> (r: String)
    ensures
        r@.len() == 36,
        r@[8] == '-' && r@[13] == '-' && r@[18] == '-' && r@[23] == '-',
{
    uuid::Uuid::new_v4().to_string()
}

/// The names a concurrent `let` of `count` bindings declares to carry their
/// values: fresh identifiers, the one of binding `i` placed `i` columns into
/// the `let`, none bound to a URI.
pub fn concurrent_let_decls(count: usize, let_span: SourceSpan) -> (r: Vec<NameDecl>)
    ensures
        r@.len() == count,
        forall|i: int| 0 <= i < count ==> {
            &&& (#[trigger] r@[i]).uri is None
            &&& r@[i].id.pos == (SourcePos { line: let_span.start.line, col: sat_add(let_span.start.col, i as usize) })
            &&& r@[i].id.name@.len() == 36
        },
{
    let mut decls: Vec<NameDecl> = Vec::new();
    let mut i: usize = 0;
    while i < count
        invariant
            i <= count,
            decls@.len() == i,
            forall|j: int| 0 <= j < i ==> {
                &&& (#[trigger] decls@[j]).uri is None
                &&& decls@[j].id.pos == (SourcePos { line: let_span.start.line, col: sat_add(let_span.start.col, j as usize) })
                &&& decls@[j].id.name@.len() == 36
            },
        decreases count - i,
    {
        let name = fresh_identifier();
        let span = SpanContext::variable_span_from_binding(let_span, i);
        decls.push(NameDecl { id: Id { name, pos: span.start }, uri: None });
        i = i + 1;
    }
    decls
}

} // verus!
