//! The enumeration of the ways to split a process into two parts, as the
//! spatial matcher tries them: for each kind of term (sends, receives, news,
//! expressions, matches, unforgeable names, bundles) a split of that kind's
//! terms, within size bounds, and all combinations of those splits.
//!
//! A term is represented by the `u64` that identifies it.
use vstd::prelude::*;
use crate::subset::{enumeration_limit, lemma_split_sizes, mask_limit, popcount_spec, select, size_bounds, unselect, SubsetIterator};
use vstd::arithmetic::power2::pow2;
use crate::util::copy_vec;
use crate::product::{all_index_tuples, index_product, lemma_index_tuple_bounds, product_next, product_remaining, range_ends};
use itertools::structs::MultiProduct;
use std::ops::Range;

verus! {

/// The number of terms of each kind in a process.
#[derive(Clone, Copy, Debug, PartialEq, Eq, Structural)]
pub struct ParCount {
    pub sends: usize,
    pub receives: usize,
    pub news: usize,
    pub exprs: usize,
    pub matches: usize,
    pub unforgeables: usize,
    pub bundles: usize,
}

/// The terms of a process, by kind.
pub struct ParParts {
    pub sends: Vec<u64>,
    pub receives: Vec<u64>,
    pub news: Vec<u64>,
    pub exprs: Vec<u64>,
    pub matches: Vec<u64>,
    pub unforgeables: Vec<u64>,
    pub bundles: Vec<u64>,
}

impl View for ParParts {
    type V = Seq<Seq<u64>>;

    /// The terms of the seven kinds, in the order of the fields.
    open spec fn view(&self) -> Seq<Seq<u64>> {
        seq![self.sends@, self.receives@, self.news@, self.exprs@, self.matches@, self.unforgeables@, self.bundles@]
    }
}

/// The counts of a `ParCount`, in the order of the kinds.
pub open spec fn counts(c: ParCount) -> Seq<int> {
    seq![c.sends as int, c.receives as int, c.news as int, c.exprs as int, c.matches as int, c.unforgeables as int,
        c.bundles as int]
}

/// The size bounds of the part of a kind with `len` terms that the first half
/// of a split may take: at least `min` and at least what the second half
/// cannot hold (`len - max_prune`); at most `max` and at most what leaves the
/// second half its minimum (`len - min_prune`).
pub open spec fn part_bounds(len: int, min: int, max: int, min_prune: int, max_prune: int) -> (int, int) {
    (if min >= len - max_prune { min } else { len - max_prune }, if max <= len - min_prune { max } else { len - min_prune })
}

/// The splits of `items` that an enumeration with size bounds `lo..=hi`
/// yields among the masks below `m`, in mask order.
pub open spec fn splits_upto(items: Seq<u64>, lo: nat, hi: nat, m: nat) -> Seq<(Seq<u64>, Seq<u64>)>
    decreases m,
{
    if m == 0 {
        Seq::empty()
    } else {
        let prev = splits_upto(items, lo, hi, (m - 1) as nat);
        let k = (m - 1) as nat;
        if lo <= popcount_spec(k) <= hi { prev.push((select(items, k), unselect(items, k))) } else { prev }
    }
}

/// All the splits of `items` whose first part has between `min_size` and
/// `max_size` items, in the order a `SubsetIterator` yields them.
pub open spec fn all_splits(items: Seq<u64>, min_size: int, max_size: int) -> Seq<(Seq<u64>, Seq<u64>)> {
    let (lo, hi) = size_bounds(items.len(), min_size, max_size);
    splits_upto(items, lo, hi, enumeration_limit(items.len(), min_size, max_size))
}

pub open spec fn split_views(v: Seq<(Vec<u64>, Vec<u64>)>) -> Seq<(Seq<u64>, Seq<u64>)> {
    v.map_values(|p: (Vec<u64>, Vec<u64>)| (p.0@, p.1@))
}

proof fn lemma_splits_skip(items: Seq<u64>, lo: nat, hi: nat, a: nat, b: nat)
    requires
        a <= b,
        forall|j: nat| a <= j < b ==> !(lo <= #[trigger] popcount_spec(j) <= hi),
    ensures
        splits_upto(items, lo, hi, b) == splits_upto(items, lo, hi, a),
    decreases b - a,
{
    if a < b {
        lemma_splits_skip(items, lo, hi, a, (b - 1) as nat);
        assert(!(lo <= popcount_spec((b - 1) as nat) <= hi));
    }
}

/// All the splits of `items` with a first part of `min_size..=max_size`
/// items, gathered from a `SubsetIterator`.
fn collect_splits(items: &Vec<u64>, min_size: isize, max_size: isize) -> (r: Vec<(Vec<u64>, Vec<u64>)>)
    ensures
        split_views(r@) == all_splits(items@, min_size as int, max_size as int),
{
    let mut it = SubsetIterator::new(items.as_slice(), min_size, max_size);
    let ghost lo = it.min_size();
    let ghost hi = it.max_size();
    let mut r: Vec<(Vec<u64>, Vec<u64>)> = Vec::new();
    loop
        invariant
            it.items() == items@,
            it.min_size() == lo,
            it.max_size() == hi,
            (lo, hi) == size_bounds(items@.len(), min_size as int, max_size as int),
            it.limit() == enumeration_limit(items@.len(), min_size as int, max_size as int),
            it.current() <= it.limit(),
            split_views(r@) == splits_upto(items@, lo, hi, it.current()),
        ensures
            split_views(r@) == all_splits(items@, min_size as int, max_size as int),
        decreases it.limit() - it.current(),
    {
        let ghost before = it.current();
        let ghost it0 = it;
        let ghost rv = r@;
        let step = it.next();
        match step {
            Some(split) => {
                let ghost m = (it.current() - 1) as nat;
                proof {
                    assert forall|j: nat| before <= j < m implies !(lo <= #[trigger] popcount_spec(j) <= hi) by {
                        assert(!it0.admits(j));
                    }
                    lemma_splits_skip(items@, lo, hi, before, m);
                }
                r.push(split);
                proof {
                    assert(split_views(r@) =~= split_views(rv).push((select(items@, m), unselect(items@, m))));
                }
            },
            None => {
                proof {
                    assert forall|j: nat| before <= j < it.limit() implies !(lo <= #[trigger] popcount_spec(j) <= hi) by {
                        assert(!it0.admits(j));
                    }
                    lemma_splits_skip(items@, lo, hi, before, it.limit());
                }
                break;
            },
        }
    }
    r
}

/// The bounds of one kind, from its number of terms and the four counts.
fn part_bounds_exec(len: usize, min: usize, max: usize, min_prune: usize, max_prune: usize) -> (r: (isize, isize))
    requires
        len <= isize::MAX,
        min <= isize::MAX,
        max <= isize::MAX,
        min_prune <= isize::MAX,
        max_prune <= isize::MAX,
    ensures
        (r.0 as int, r.1 as int) == part_bounds(len as int, min as int, max as int, min_prune as int, max_prune as int),
{
    let l = len as isize;
    let lower = if (min as isize) >= l - (max_prune as isize) { min as isize } else { l - (max_prune as isize) };
    let upper = if (max as isize) <= l - (min_prune as isize) { max as isize } else { l - (min_prune as isize) };
    (lower, upper)
}

/// The pair of processes that the index tuple `t` picks: for each kind, the
/// first and the second part of its chosen split.
pub open spec fn combination(lists: Seq<Seq<(Seq<u64>, Seq<u64>)>>, t: Seq<usize>) -> (Seq<Seq<u64>>, Seq<Seq<u64>>) {
    (Seq::new(lists.len(), |k: int| lists[k][t[k] as int].0), Seq::new(lists.len(), |k: int| lists[k][t[k] as int].1))
}

/// An enumeration of the ways to split a process in two, each kind of term
/// split within its bounds: all combinations of one split per kind, in the
/// order of the kinds with the last kind (bundles) changing fastest. The
/// splits of each kind are all computed when the enumeration is made; their
/// combinations are produced one at a time.
pub struct SubParsIterator {
    splits: Vec<Vec<(Vec<u64>, Vec<u64>)>>,
    product: MultiProduct<Range<usize>>,
}

impl SubParsIterator {
    /// The choices still to be given each pick one split of each kind.
    pub closed spec fn wf(&self) -> bool {
        &&& self.splits@.len() == 7
        &&& forall|i: int| 0 <= i < product_remaining(self.product).len() ==> {
            &&& (#[trigger] product_remaining(self.product)[i]).len() == 7
            &&& forall|k: int| 0 <= k < 7 ==> #[trigger] product_remaining(self.product)[i][k] < self.splits@[k]@.len()
        }
    }

    /// The splits of each kind, in order.
    pub closed spec fn lists(&self) -> Seq<Seq<(Seq<u64>, Seq<u64>)>> {
        self.splits@.map_values(|l: Vec<(Vec<u64>, Vec<u64>)>| split_views(l@))
    }

    /// The choices, one split per kind, still to be given, in order.
    pub closed spec fn remaining(&self) -> Seq<Seq<usize>> {
        product_remaining(self.product)
    }

    /// The number of splits of each kind.
    pub open spec fn lens(&self) -> Seq<usize> {
        self.lists().map_values(|l: Seq<(Seq<u64>, Seq<u64>)>| l.len() as usize)
    }

    /// An enumeration of the splits of `par` into a first part whose counts of
    /// each kind lie within `min..=max`, leaving a second part whose counts lie
    /// within `min_prune..=max_prune`.
    pub fn new(par: &ParParts, min: &ParCount, max: &ParCount, min_prune: &ParCount, max_prune: &ParCount) -> (r: Self)
        requires
            forall|k: int| 0 <= k < 7 ==> #[trigger] par@[k].len() <= isize::MAX,
            forall|k: int| 0 <= k < 7 ==> #[trigger] counts(*min)[k] <= isize::MAX && counts(*max)[k] <= isize::MAX
                && counts(*min_prune)[k] <= isize::MAX && counts(*max_prune)[k] <= isize::MAX,
        ensures
            r.lists().len() == 7,
            forall|k: int| 0 <= k < 7 ==> {
                let (lo, hi) = part_bounds(par@[k].len() as int, counts(*min)[k], counts(*max)[k], counts(*min_prune)[k],
                    counts(*max_prune)[k]);
                #[trigger] r.lists()[k] == all_splits(par@[k], lo, hi)
            },
            forall|k: int, i: int| 0 <= k < 7 && 0 <= i < r.lists()[k].len() ==> {
                let e = #[trigger] r.lists()[k][i];
                &&& counts(*min)[k] <= e.0.len() <= counts(*max)[k]
                &&& counts(*min_prune)[k] <= e.1.len() <= counts(*max_prune)[k]
                &&& e.0.len() + e.1.len() == par@[k].len()
            },
            r.remaining() == all_index_tuples(r.lens()),
            r.wf(),
    {
        let mut splits: Vec<Vec<(Vec<u64>, Vec<u64>)>> = Vec::new();
        let ghost pv = par@;
        let kinds: [(&Vec<u64>, usize, usize, usize, usize); 7] = [
            (&par.sends, min.sends, max.sends, min_prune.sends, max_prune.sends),
            (&par.receives, min.receives, max.receives, min_prune.receives, max_prune.receives),
            (&par.news, min.news, max.news, min_prune.news, max_prune.news),
            (&par.exprs, min.exprs, max.exprs, min_prune.exprs, max_prune.exprs),
            (&par.matches, min.matches, max.matches, min_prune.matches, max_prune.matches),
            (&par.unforgeables, min.unforgeables, max.unforgeables, min_prune.unforgeables, max_prune.unforgeables),
            (&par.bundles, min.bundles, max.bundles, min_prune.bundles, max_prune.bundles),
        ];
        let mut k: usize = 0;
        while k < 7
            invariant
                k <= 7,
                splits@.len() == k,
                forall|j: int| 0 <= j < 7 ==> (#[trigger] kinds@[j]).0@ == pv[j]
                    && kinds@[j].1 as int == counts(*min)[j] && kinds@[j].2 as int == counts(*max)[j]
                    && kinds@[j].3 as int == counts(*min_prune)[j] && kinds@[j].4 as int == counts(*max_prune)[j],
                forall|j: int| 0 <= j < 7 ==> #[trigger] pv[j].len() <= isize::MAX,
                forall|j: int| 0 <= j < 7 ==> #[trigger] counts(*min)[j] <= isize::MAX && counts(*max)[j] <= isize::MAX
                    && counts(*min_prune)[j] <= isize::MAX && counts(*max_prune)[j] <= isize::MAX,
                forall|j: int| 0 <= j < k ==> {
                    let (lo, hi) = part_bounds(pv[j].len() as int, counts(*min)[j], counts(*max)[j], counts(*min_prune)[j],
                        counts(*max_prune)[j]);
                    split_views((#[trigger] splits@[j])@) == all_splits(pv[j], lo, hi)
                },
            decreases 7 - k,
        {
            let (items, lo_c, hi_c, lo_p, hi_p) = kinds[k];
            proof {
                assert(kinds@[k as int].0@ == pv[k as int]);
                assert(pv[k as int].len() <= isize::MAX);
                assert(counts(*min)[k as int] <= isize::MAX);
            }
            let (lo, hi) = part_bounds_exec(items.len(), lo_c, hi_c, lo_p, hi_p);
            let list = collect_splits(items, lo, hi);
            let ghost before = splits@;
            splits.push(list);
            proof {
                assert forall|j: int| 0 <= j < k + 1 implies {
                    let (lo, hi) = part_bounds(pv[j].len() as int, counts(*min)[j], counts(*max)[j], counts(*min_prune)[j],
                        counts(*max_prune)[j]);
                    split_views((#[trigger] splits@[j])@) == all_splits(pv[j], lo, hi)
                } by {
                    if j < k { assert(splits@[j] == before[j]); }
                }
            }
            k = k + 1;
        }
        let mut ranges: Vec<Range<usize>> = Vec::new();
        let mut i: usize = 0;
        while i < 7
            invariant
                i <= 7,
                splits@.len() == 7,
                ranges@.len() == i,
                forall|j: int| 0 <= j < i ==> (#[trigger] ranges@[j]).start == 0 && ranges@[j].end == splits@[j]@.len(),
            decreases 7 - i,
        {
            ranges.push(0..splits[i].len());
            i = i + 1;
        }
        let ghost lens = splits@.map_values(|l: Vec<(Vec<u64>, Vec<u64>)>| split_views(l@)).map_values(
            |l: Seq<(Seq<u64>, Seq<u64>)>| l.len() as usize);
        proof {
            assert(range_ends(ranges@) =~= lens);
        }
        let product = index_product(ranges);
        let r = SubParsIterator { splits, product };
        proof {
            assert(r.lens() == lens);
            assert forall|i: int| 0 <= i < product_remaining(r.product).len() implies {
                &&& (#[trigger] product_remaining(r.product)[i]).len() == 7
                &&& forall|k: int| 0 <= k < 7 ==> #[trigger] product_remaining(r.product)[i][k] < r.splits@[k]@.len()
            } by {
                lemma_index_tuple_bounds(lens, i as nat);
                assert forall|k: int| 0 <= k < 7 implies #[trigger] product_remaining(r.product)[i][k] < r.splits@[k]@.len() by {
                    assert(lens[k] == r.splits@[k]@.len());
                }
            }
            assert forall|k: int| 0 <= k < 7 implies #[trigger] r.lists()[k] == split_views(r.splits@[k]@) by {}
            assert forall|k: int, i: int| 0 <= k < 7 && 0 <= i < r.lists()[k].len() implies {
                let e = #[trigger] r.lists()[k][i];
                &&& counts(*min)[k] <= e.0.len() <= counts(*max)[k]
                &&& counts(*min_prune)[k] <= e.1.len() <= counts(*max_prune)[k]
                &&& e.0.len() + e.1.len() == par@[k].len()
            } by {
                law_splits_respect_counts(pv[k], counts(*min)[k] as nat, counts(*max)[k] as nat,
                    counts(*min_prune)[k] as nat, counts(*max_prune)[k] as nat, i);
            }
        }
        r
    }

    /// The next pair of processes, if any: the combination of splits that
    /// comes next.
    pub fn next(&mut self) -> (r: Option<(ParParts, ParParts)>)
        requires
            old(self).wf(),
        ensures
            final(self).wf(),
            final(self).lists() == old(self).lists(),
            old(self).remaining().len() == 0 ==> r is None && final(self).remaining().len() == 0,
            old(self).remaining().len() > 0 ==> (r matches Some(pair)
                && (pair.0@, pair.1@) == combination(old(self).lists(), old(self).remaining()[0])
                && final(self).remaining() == old(self).remaining().drop_first()),
    {
        let ghost lists = self.lists();
        let ghost rem = self.remaining();
        let step = product_next(&mut self.product);
        let t = match step {
            None => {
                return None;
            },
            Some(t) => t,
        };
        proof {
            assert(t@ == rem[0]);
            assert(t@.len() == 7);
            assert forall|i: int| 0 <= i < product_remaining(self.product).len() implies {
                &&& (#[trigger] product_remaining(self.product)[i]).len() == 7
                &&& forall|k: int| 0 <= k < 7 ==> #[trigger] product_remaining(self.product)[i][k] < self.splits@[k]@.len()
            } by {
                assert(product_remaining(self.product)[i] == rem[i + 1]);
            }
        }
        let mut firsts: Vec<Vec<u64>> = Vec::new();
        let mut seconds: Vec<Vec<u64>> = Vec::new();
        let mut k: usize = 0;
        while k < 7
            invariant
                k <= 7,
                self.splits@.len() == 7,
                t@.len() == 7,
                forall|j: int| 0 <= j < 7 ==> #[trigger] t@[j] < self.splits@[j]@.len(),
                lists == self.lists(),
                firsts@.len() == k,
                seconds@.len() == k,
                forall|j: int| 0 <= j < k ==> (#[trigger] firsts@[j])@ == lists[j][t@[j] as int].0 && seconds@[j]@ == lists[j][t@[j] as int].1,
            decreases 7 - k,
        {
            let pair = &self.splits[k][t[k]];
            proof {
                assert(lists[k as int] == split_views(self.splits@[k as int]@));
            }
            firsts.push(copy_vec(&pair.0));
            seconds.push(copy_vec(&pair.1));
            k = k + 1;
        }
        let first = parts_from(firsts);
        let second = parts_from(seconds);
        proof {
            assert(lists.len() == 7);
            assert(first@ =~= combination(lists, t@).0);
            assert(second@ =~= combination(lists, t@).1);
        }
        Some((first, second))
    }
}

/// The process whose seven kinds of terms are `parts`, in order.
fn parts_from(parts: Vec<Vec<u64>>) -> (r: ParParts)
    requires
        parts@.len() == 7,
    ensures
        r@ == Seq::new(7, |k: int| parts@[k]@),
{
    let ghost pv = parts@;
    let mut parts = parts;
    let bundles = parts.pop().unwrap();
    let unforgeables = parts.pop().unwrap();
    let matches = parts.pop().unwrap();
    let exprs = parts.pop().unwrap();
    let news = parts.pop().unwrap();
    let receives = parts.pop().unwrap();
    let sends = parts.pop().unwrap();
    let r = ParParts { sends, receives, news, exprs, matches, unforgeables, bundles };
    assert(r@ =~= Seq::new(7, |k: int| pv[k]@));
    r
}

proof fn lemma_splits_upto_sizes(items: Seq<u64>, lo: nat, hi: nat, m: nat)
    requires
        items.len() < 64,
        m <= pow2(items.len()),
    ensures
        forall|i: int| 0 <= i < splits_upto(items, lo, hi, m).len() ==> {
            let e = #[trigger] splits_upto(items, lo, hi, m)[i];
            &&& lo <= e.0.len() <= hi
            &&& e.0.len() + e.1.len() == items.len()
        },
    decreases m,
{
    if m > 0 {
        lemma_splits_upto_sizes(items, lo, hi, (m - 1) as nat);
        let k = (m - 1) as nat;
        let prev = splits_upto(items, lo, hi, k);
        let cur = splits_upto(items, lo, hi, m);
        if lo <= popcount_spec(k) <= hi {
            lemma_split_sizes(items, k, lo, hi);
            assert(cur == prev.push((select(items, k), unselect(items, k))));
            assert forall|i: int| 0 <= i < cur.len() implies {
                let e = #[trigger] cur[i];
                &&& lo <= e.0.len() <= hi
                &&& e.0.len() + e.1.len() == items.len()
            } by {
                if i < prev.len() {
                    assert(cur[i] == prev[i]);
                }
            }
        } else {
            assert(cur == prev);
        }
    }
}

/// Each split of a kind's terms that the enumeration offers keeps every term
/// in exactly one half, and gives the first half a size within the bounds
/// (after `SubsetIterator` clamps them to `0..=len`).
pub proof fn law_splits_partition(items: Seq<u64>, min_size: int, max_size: int, i: int)
    requires
        0 <= i < all_splits(items, min_size, max_size).len(),
    ensures
        ({
            let e = all_splits(items, min_size, max_size)[i];
            let (lo, hi) = size_bounds(items.len(), min_size, max_size);
            &&& lo <= e.0.len() <= hi
            &&& e.0.len() + e.1.len() == items.len()
        }),
{
    let (lo, hi) = size_bounds(items.len(), min_size, max_size);
    if items.len() < 64 && !(max_size < 0 || min_size > max_size) {
        lemma_splits_upto_sizes(items, lo, hi, mask_limit(items.len()));
    } else {
        assert(splits_upto(items, lo, hi, 0) =~= Seq::<(Seq<u64>, Seq<u64>)>::empty());
    }
}

} // verus!

verus! {

/// Each split of a kind that the enumeration offers respects the caller's
/// counts: the first part has at least `min` and at most `max` terms, the
/// second part at least `min_prune` and at most `max_prune`, and together
/// they hold the `len` terms of the kind.
pub proof fn law_splits_respect_counts(items: Seq<u64>, min: nat, max: nat, min_prune: nat, max_prune: nat, i: int)
    requires
        ({
            let (lo, hi) = part_bounds(items.len() as int, min as int, max as int, min_prune as int, max_prune as int);
            0 <= i < all_splits(items, lo, hi).len()
        }),
    ensures
        ({
            let (lo, hi) = part_bounds(items.len() as int, min as int, max as int, min_prune as int, max_prune as int);
            let e = all_splits(items, lo, hi)[i];
            &&& min <= e.0.len() <= max
            &&& min_prune <= e.1.len() <= max_prune
            &&& e.0.len() + e.1.len() == items.len()
        }),
{
    let (lo, hi) = part_bounds(items.len() as int, min as int, max as int, min_prune as int, max_prune as int);
    law_splits_partition(items, lo, hi, i);
    let (slo, shi) = size_bounds(items.len(), lo, hi);
    if hi < 0 || lo > hi {
        assert(enumeration_limit(items.len(), lo, hi) == 0);
        assert(splits_upto(items, slo, shi, 0) =~= Seq::<(Seq<u64>, Seq<u64>)>::empty());
    }
}

} // verus!
