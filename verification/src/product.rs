//! The lazy cartesian product of index ranges, from `itertools`: all tuples
//! `(i0, .., in)` with `ik < lens[k]`, in lexicographic order (the last index
//! changing fastest).
use vstd::prelude::*;
use std::ops::Range;
use itertools::structs::MultiProduct;

verus! {

#[verifier::external_type_specification]
#[verifier::external_body]
#[verifier::reject_recursive_types(I)]
pub struct ExMultiProduct<I: Iterator + Clone>(MultiProduct<I>) where I::Item: Clone;

/// The number of tuples below `lens`.
pub open spec fn tuple_count(lens: Seq<usize>) -> nat
    decreases lens.len(),
{
    if lens.len() == 0 { 1 } else { tuple_count(lens.drop_last()) * (lens.last() as nat) }
}

/// The `i`-th tuple below `lens` in lexicographic order: the digits of `i`
/// in the mixed radix `lens`.
pub open spec fn index_tuple(lens: Seq<usize>, i: nat) -> Seq<usize>
    decreases lens.len(),
{
    if lens.len() == 0 {
        Seq::empty()
    } else {
        index_tuple(lens.drop_last(), i / (lens.last() as nat)).push((i % (lens.last() as nat)) as usize)
    }
}

/// All tuples below `lens`, in lexicographic order.
pub open spec fn all_index_tuples(lens: Seq<usize>) -> Seq<Seq<usize>> {
    Seq::new(tuple_count(lens), |i: int| index_tuple(lens, i as nat))
}

/// The ends of ranges that all start at 0.
pub open spec fn range_ends(ranges: Seq<Range<usize>>) -> Seq<usize> {
    ranges.map_values(|r: Range<usize>| r.end)
}

/// The tuples a product has still to give, in order.
pub uninterp spec fn product_remaining(p: MultiProduct<Range<usize>>) -> Seq<Seq<usize>>;

/// `Itertools::multi_cartesian_product` over the ranges `0..n`: a lazy
/// product that will give every tuple of indices below the ends, in
/// lexicographic order, as its documentation shows.
#[verifier::external_body]
pub(crate) fn index_product(ranges: Vec<Range<usize>>) -> (r: MultiProduct<Range<usize>>)
    requires
        forall|k: int| 0 <= k < ranges@.len() ==> (#[trigger] ranges@[k]).start == 0,
    ensures
        product_remaining(r) == all_index_tuples(range_ends(ranges@)),
{
    itertools::Itertools::multi_cartesian_product(ranges.into_iter())
}

/// `Iterator::next` on such a product: the first tuple it has still to
/// give, which it then no longer has; nothing once all are given.
#[verifier::external_body]
pub(crate) fn product_next(p: &mut MultiProduct<Range<usize>>) -> (r: Option<Vec<usize>>)
    ensures
        product_remaining(*old(p)).len() == 0 ==> r is None && product_remaining(*final(p)).len() == 0,
        product_remaining(*old(p)).len() > 0 ==> (r matches Some(v) && v@ == product_remaining(*old(p))[0]
            && product_remaining(*final(p)) == product_remaining(*old(p)).drop_first()),
{
    Iterator::next(p)
}

/// Every tuple below `lens` has one index per range, each below its end.
pub proof fn lemma_index_tuple_bounds(lens: Seq<usize>, i: nat)
    requires
        i < tuple_count(lens),
    ensures
        index_tuple(lens, i).len() == lens.len(),
        forall|k: int| 0 <= k < lens.len() ==> #[trigger] index_tuple(lens, i)[k] < lens[k],
    decreases lens.len(),
{
    if lens.len() > 0 {
        let prefix = lens.drop_last();
        let last = lens.last() as nat;
        let c = tuple_count(prefix);
        assert(i < c * last);
        assert(last > 0) by (nonlinear_arith)
            requires i < c * last;
        assert(i / last < c) by (nonlinear_arith)
            requires i < c * last, last > 0;
        assert(i % last < last) by (nonlinear_arith)
            requires last > 0;
        lemma_index_tuple_bounds(prefix, i / last);
        let t = index_tuple(lens, i);
        assert forall|k: int| 0 <= k < lens.len() implies #[trigger] t[k] < lens[k] by {
            if k < lens.len() - 1 {
                assert(t[k] == index_tuple(prefix, i / last)[k]);
                assert(prefix[k] == lens[k]);
            }
        }
    }
}

/// No tuple is given twice: distinct positions in the enumeration hold
/// distinct tuples.
pub proof fn law_index_tuples_distinct(lens: Seq<usize>, i: nat, j: nat)
    requires
        i < tuple_count(lens),
        j < tuple_count(lens),
        i != j,
    ensures
        index_tuple(lens, i) != index_tuple(lens, j),
    decreases lens.len(),
{
    if lens.len() == 0 {
        assert(tuple_count(lens) == 1);
    } else {
        let prefix = lens.drop_last();
        let last = lens.last() as nat;
        let c = tuple_count(prefix);
        assert(last > 0) by (nonlinear_arith)
            requires i < c * last;
        assert(i / last < c) by (nonlinear_arith)
            requires i < c * last, last > 0;
        assert(j / last < c) by (nonlinear_arith)
            requires j < c * last, last > 0;
        let ti = index_tuple(lens, i);
        let tj = index_tuple(lens, j);
        if ti == tj {
            assert(ti.last() == tj.last());
            assert(ti.drop_last() =~= index_tuple(prefix, i / last));
            assert(tj.drop_last() =~= index_tuple(prefix, j / last));
            assert(i % last < last && j % last < last) by (nonlinear_arith)
                requires last > 0;
            assert(i % last == j % last);
            if i / last != j / last {
                law_index_tuples_distinct(prefix, i / last, j / last);
            }
            assert(i == j) by (nonlinear_arith)
                requires last > 0, i / last == j / last, i % last == j % last;
        }
    }
}

} // verus!
