//! Source positions and spans, and the span helpers the normalizers use to
//! attach locations to variables, synthetic constructs and errors.
use vstd::prelude::*;

verus! {

/// A position in the source text: 1-based line and column.
#[derive(Clone, Copy, Debug, PartialEq, Eq, Structural)]
pub struct SourcePos {
    pub line: usize,
    pub col: usize,
}

/// A range of source text, from `start` to `end`.
#[derive(Clone, Copy, Debug, PartialEq, Eq, Structural)]
pub struct SourceSpan {
    pub start: SourcePos,
    pub end: SourcePos,
}

/// The row/column position used by older parts of the interpreter.
#[derive(Clone, Copy, Debug, PartialEq, Eq, Structural)]
pub struct SourcePosition {
    pub row: usize,
    pub column: usize,
}

/// Positions are ordered by line, then by column.
pub open spec fn pos_le(a: SourcePos, b: SourcePos) -> bool {
    a.line < b.line || (a.line == b.line && a.col <= b.col)
}

pub open spec fn pos_min(a: SourcePos, b: SourcePos) -> SourcePos {
    if pos_le(a, b) { a } else { b }
}

pub open spec fn pos_max(a: SourcePos, b: SourcePos) -> SourcePos {
    if pos_le(a, b) { b } else { a }
}

pub open spec fn point_span(p: SourcePos) -> SourceSpan {
    SourceSpan { start: p, end: p }
}

/// The smallest span that covers both `a` and `b`.
pub open spec fn spec_merge_two(a: SourceSpan, b: SourceSpan) -> SourceSpan {
    SourceSpan { start: pos_min(a.start, b.start), end: pos_max(a.end, b.end) }
}

/// Earliest start among the spans of `s` (the first start when none is earlier).
pub open spec fn min_start(s: Seq<SourceSpan>) -> SourcePos
    recommends s.len() > 0,
    decreases s.len(),
{
    if s.len() <= 1 {
        s[0].start
    } else {
        pos_min(min_start(s.drop_last()), s.last().start)
    }
}

/// Latest end among the spans of `s`.
pub open spec fn max_end(s: Seq<SourceSpan>) -> SourcePos
    recommends s.len() > 0,
    decreases s.len(),
{
    if s.len() <= 1 {
        s[0].end
    } else {
        pos_max(max_end(s.drop_last()), s.last().end)
    }
}

pub open spec fn legacy_of_pos(p: SourcePos) -> SourcePosition {
    SourcePosition { row: p.line, column: p.col }
}

pub open spec fn pos_of_legacy(l: SourcePosition) -> SourcePos {
    SourcePos { line: l.row, col: l.column }
}

pub open spec fn synthetic_origin() -> SourceSpan {
    point_span(SourcePos { line: 1, col: 1 })
}

/// `a + b`, or `usize::MAX` when the sum does not fit.
pub open spec fn sat_add(a: usize, b: usize) -> usize {
    if a + b <= usize::MAX { (a + b) as usize } else { usize::MAX }
}

pub fn pos_le_exec(a: SourcePos, b: SourcePos) -> (r: bool)
    ensures
        r == pos_le(a, b),
{
    a.line < b.line || (a.line == b.line && a.col <= b.col)
}

fn pos_min_exec(a: SourcePos, b: SourcePos) -> (r: SourcePos)
    ensures
        r == pos_min(a, b),
{
    if pos_le_exec(a, b) { a } else { b }
}

fn pos_max_exec(a: SourcePos, b: SourcePos) -> (r: SourcePos)
    ensures
        r == pos_max(a, b),
{
    if pos_le_exec(a, b) { b } else { a }
}

/// Span helpers for the normalizers.
pub struct SpanContext;

impl SpanContext {
    /// The synthetic span of compiler-generated nodes: line 1, column 1.
    pub fn zero_span() -> (r: SourceSpan)
        ensures
            r == synthetic_origin(),
    {
        SourceSpan { start: SourcePos { line: 1, col: 1 }, end: SourcePos { line: 1, col: 1 } }
    }

    /// The span given to wildcards, which carry no position of their own.
    pub fn wildcard_span() -> (r: SourceSpan)
        ensures
            r == synthetic_origin(),
    {
        Self::zero_span()
    }

    /// A wildcard placed at the start of the construct that contains it.
    pub fn wildcard_span_with_context(context_span: SourceSpan) -> (r: SourceSpan)
        ensures
            r == point_span(context_span.start),
    {
        SourceSpan { start: context_span.start, end: context_span.start }
    }

    /// The single-point span at `pos`.
    pub fn pos_to_span(pos: SourcePos) -> (r: SourceSpan)
        ensures
            r == point_span(pos),
    {
        SourceSpan { start: pos, end: pos }
    }

    /// The span from the earliest start to the latest end of `spans`; the
    /// synthetic origin when there are none.
    pub fn merge_spans(spans: &[SourceSpan]) -> (r: SourceSpan)
        ensures
            spans@.len() == 0 ==> r == synthetic_origin(),
            spans@.len() > 0 ==> r == (SourceSpan { start: min_start(spans@), end: max_end(spans@) }),
    {
        if spans.len() == 0 {
            return Self::zero_span();
        }
        let mut start = spans[0].start;
        let mut end = spans[0].end;
        let mut i: usize = 1;
        while i < spans.len()
            invariant
                1 <= i <= spans@.len(),
                start == min_start(spans@.subrange(0, i as int)),
                end == max_end(spans@.subrange(0, i as int)),
            decreases spans@.len() - i,
        {
            let ghost prefix = spans@.subrange(0, i as int);
            let ghost next = spans@.subrange(0, i + 1);
            assert(next.drop_last() =~= prefix);
            start = pos_min_exec(start, spans[i].start);
            end = pos_max_exec(end, spans[i].end);
            i = i + 1;
        }
        assert(spans@.subrange(0, spans@.len() as int) =~= spans@);
        SourceSpan { start, end }
    }

    /// The smallest span covering both `left` and `right`.
    pub fn merge_two_spans(left: SourceSpan, right: SourceSpan) -> (r: SourceSpan)
        ensures
            r == spec_merge_two(left, right),
    {
        SourceSpan { start: pos_min_exec(left.start, right.start), end: pos_max_exec(left.end, right.end) }
    }

    /// A synthetic span near `base`: `base` itself.
    pub fn synthetic_span_from(base: SourceSpan) -> (r: SourceSpan)
        ensures
            r == base,
    {
        base
    }

    /// A synthetic single-point span at `pos`.
    pub fn synthetic_span_at(pos: SourcePos) -> (r: SourceSpan)
        ensures
            r == point_span(pos),
    {
        SourceSpan { start: pos, end: pos }
    }

    pub fn span_start_pos(span: SourceSpan) -> (r: SourcePos)
        ensures
            r == span.start,
    {
        span.start
    }

    pub fn span_end_pos(span: SourceSpan) -> (r: SourcePos)
        ensures
            r == span.end,
    {
        span.end
    }

    /// Whether the span starts and ends at the same position.
    pub fn is_single_position(span: SourceSpan) -> (r: bool)
        ensures
            r == (span.start == span.end),
    {
        span.start.line == span.end.line && span.start.col == span.end.col
    }

    /// The legacy position of the start of `span`.
    pub fn to_legacy_source_position(span: SourceSpan) -> (r: SourcePosition)
        ensures
            r == legacy_of_pos(span.start),
    {
        SourcePosition { row: span.start.line, column: span.start.col }
    }

    pub fn pos_to_legacy_source_position(pos: SourcePos) -> (r: SourcePosition)
        ensures
            r == legacy_of_pos(pos),
    {
        SourcePosition { row: pos.line, column: pos.col }
    }

    pub fn legacy_to_pos(legacy: SourcePosition) -> (r: SourcePos)
        ensures
            r == pos_of_legacy(legacy),
    {
        SourcePos { line: legacy.row, col: legacy.column }
    }

    pub fn legacy_to_span(legacy: SourcePosition) -> (r: SourceSpan)
        ensures
            r == point_span(pos_of_legacy(legacy)),
    {
        let pos = Self::legacy_to_pos(legacy);
        Self::pos_to_span(pos)
    }

    /// A single-point span for the `var_index`-th synthetic variable of a
    /// binding: the binding's start, moved right by `var_index` columns
    /// (saturating).
    pub fn variable_span_from_binding(binding_span: SourceSpan, var_index: usize) -> (r: SourceSpan)
        ensures
            r == point_span(SourcePos {
                line: binding_span.start.line,
                col: sat_add(binding_span.start.col, var_index),
            }),
    {
        let start = SourcePos {
            line: binding_span.start.line,
            col: binding_span.start.col.saturating_add(var_index),
        };
        SourceSpan { start, end: start }
    }

    /// A single-point span for a synthetic construct: the context's start,
    /// moved right by `construct_offset` columns (saturating).
    pub fn synthetic_construct_span(context_span: SourceSpan, construct_offset: u32) -> (r: SourceSpan)
        ensures
            r == point_span(SourcePos {
                line: context_span.start.line,
                col: sat_add(context_span.start.col, construct_offset as usize),
            }),
    {
        let offset: usize = construct_offset as usize;
        let start = SourcePos {
            line: context_span.start.line,
            col: context_span.start.col.saturating_add(offset),
        };
        SourceSpan { start, end: start }
    }

    /// The span of a send generated from a binding: it covers both sides.
    /// The position of an identifier.
    pub fn extract_pos(id: &crate::ast::Id) -> (r: SourcePos)
        ensures
            r == id.pos,
    {
        id.pos
    }

    /// A name to show for a variable: its identifier, or `wildcard` for `_`.
    pub fn extract_name_hint_from_var(var: &crate::ast::Var) -> (r: String)
        ensures
            match var {
                crate::ast::Var::Id(id) => r@ == id.name@,
                crate::ast::Var::Wildcard => r@ == "wildcard"@,
            },
    {
        match var {
            crate::ast::Var::Id(id) => id.name.clone(),
            crate::ast::Var::Wildcard => "wildcard".to_string(),
        }
    }

    pub fn send_span_from_binding(lhs_span: SourceSpan, rhs_span: SourceSpan) -> (r: SourceSpan)
        ensures
            r == spec_merge_two(lhs_span, rhs_span),
    {
        Self::merge_two_spans(lhs_span, rhs_span)
    }
}

/// Merging two spans does not depend on their order.
pub proof fn lemma_merge_two_commutative(a: SourceSpan, b: SourceSpan)
    ensures
        spec_merge_two(a, b) == spec_merge_two(b, a),
{
}

/// Merging spans is associative.
pub proof fn lemma_merge_two_associative(a: SourceSpan, b: SourceSpan, c: SourceSpan)
    ensures
        spec_merge_two(spec_merge_two(a, b), c) == spec_merge_two(a, spec_merge_two(b, c)),
{
}

/// Merging two spans gives a span that covers both of them.
pub proof fn lemma_merge_two_covers(a: SourceSpan, b: SourceSpan)
    ensures
        pos_le(spec_merge_two(a, b).start, a.start),
        pos_le(spec_merge_two(a, b).start, b.start),
        pos_le(a.end, spec_merge_two(a, b).end),
        pos_le(b.end, spec_merge_two(a, b).end),
{
}

/// Merging a list of two spans is merging the two spans.
pub proof fn lemma_merge_spans_pair(a: SourceSpan, b: SourceSpan)
    ensures
        (SourceSpan { start: min_start(seq![a, b]), end: max_end(seq![a, b]) }) == spec_merge_two(a, b),
{
    let s = seq![a, b];
    assert(s.drop_last() =~= seq![a]);
    assert(min_start(seq![a]) == a.start);
    assert(max_end(seq![a]) == a.end);
    assert(min_start(s) == pos_min(a.start, b.start));
    assert(max_end(s) == pos_max(a.end, b.end));
}

/// Converting a position to the legacy form and back gives the position
/// again, and the other way round.
pub proof fn lemma_legacy_round_trip(p: SourcePos, l: SourcePosition)
    ensures
        pos_of_legacy(legacy_of_pos(p)) == p,
        legacy_of_pos(pos_of_legacy(l)) == l,
{
}

} // verus!
