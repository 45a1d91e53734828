//! Lazy enumeration of the (subset, complement) splits of a list, as the
//! spatial matcher uses it, and the bit-set adjustment applied to the locally
//! free variables of a body when its binders are removed.
use vstd::prelude::*;
use vstd::arithmetic::power2::{pow2, lemma_pow2_unfold, lemma_pow2_pos};
use vstd::bits::{lemma_u64_shl_is_mul, lemma_u64_pow2_no_overflow};

verus! {

/// The number of one bits of `m`.
pub open spec fn popcount_spec(m: nat) -> nat
    decreases m,
{
    if m == 0 { 0 } else { (m % 2) + popcount_spec(m / 2) }
}

/// The items whose bit is set in `mask` (bit `i` for item `i`), in order.
pub open spec fn select<T>(items: Seq<T>, mask: nat) -> Seq<T>
    decreases items.len(),
{
    if items.len() == 0 {
        Seq::empty()
    } else {
        (if mask % 2 == 1 { seq![items[0]] } else { Seq::empty() }) + select(items.drop_first(), mask / 2)
    }
}

/// The items whose bit is clear in `mask`, in order.
pub open spec fn unselect<T>(items: Seq<T>, mask: nat) -> Seq<T>
    decreases items.len(),
{
    if items.len() == 0 {
        Seq::empty()
    } else {
        (if mask % 2 == 0 { seq![items[0]] } else { Seq::empty() }) + unselect(items.drop_first(), mask / 2)
    }
}

/// `mask` shifted right by `i` bits.
pub open spec fn shr(mask: nat, i: nat) -> nat
    decreases i,
{
    if i == 0 { mask } else { shr(mask, (i - 1) as nat) / 2 }
}

/// Every item lands in exactly one of the two parts.
pub proof fn lemma_split_lengths<T>(items: Seq<T>, mask: nat)
    ensures
        select(items, mask).len() + unselect(items, mask).len() == items.len(),
    decreases items.len(),
{
    if items.len() > 0 {
        lemma_split_lengths(items.drop_first(), mask / 2);
    }
}

/// Below `2^n`, the selected part of `n` items has as many items as the mask
/// has one bits.
pub proof fn lemma_select_len<T>(items: Seq<T>, mask: nat)
    requires
        mask < pow2(items.len()),
    ensures
        select(items, mask).len() == popcount_spec(mask),
    decreases items.len(),
{
    if items.len() == 0 {
        assert(pow2(0) == 1) by { vstd::arithmetic::power2::lemma2_to64(); }
    } else {
        lemma_pow2_unfold(items.len());
        lemma_select_len(items.drop_first(), mask / 2);
    }
}

/// The number of one bits of `mask`.
pub fn popcount(mask: u64) -> (r: usize)
    ensures
        r == popcount_spec(mask as nat),
{
    let mut m = mask;
    let mut c: usize = 0;
    proof { lemma_u64_bits(mask); }
    while m > 0
        invariant
            c + popcount_spec(m as nat) == popcount_spec(mask as nat),
            c <= 64 - bits_left(m as nat),
            bits_left(m as nat) <= 64,
        decreases m,
    {
        proof { lemma_bits_left_step(m as nat); }
        c = c + (m % 2) as usize;
        m = m / 2;
    }
    c
}

/// The number of halvings that bring `m` to 0.
pub open spec fn bits_left(m: nat) -> nat
    decreases m,
{
    if m == 0 { 0 } else { 1 + bits_left(m / 2) }
}

proof fn lemma_bits_left_bound(m: nat, k: nat)
    requires
        m < pow2(k),
    ensures
        bits_left(m) <= k,
    decreases m,
{
    if m > 0 {
        if k == 0 {
            assert(pow2(0) == 1) by { vstd::arithmetic::power2::lemma2_to64(); }
        } else {
            lemma_pow2_unfold(k);
            lemma_bits_left_bound(m / 2, (k - 1) as nat);
        }
    }
}

proof fn lemma_bits_left_step(m: nat)
    requires
        m > 0,
    ensures
        bits_left(m) == 1 + bits_left(m / 2),
        popcount_spec(m) == m % 2 + popcount_spec(m / 2),
{
}

proof fn lemma_u64_bits(m: u64)
    ensures
        bits_left(m as nat) <= 64,
{
    vstd::arithmetic::power2::lemma2_to64();
    lemma_bits_left_bound(m as nat, 64);
}

/// Splits `items` by `mask`: the items whose bit is set, and the others.
pub fn mask_to_subsets<T: Copy>(items: &[T], mask: u64) -> (r: (Vec<T>, Vec<T>))
    ensures
        r.0@ == select(items@, mask as nat),
        r.1@ == unselect(items@, mask as nat),
{
    let mut subset: Vec<T> = Vec::new();
    let mut complement: Vec<T> = Vec::new();
    let mut m: u64 = mask;
    let mut i: usize = 0;
    proof {
        assert(items@.skip(0) =~= items@);
    }
    while i < items.len()
        invariant
            i <= items@.len(),
            subset@ + select(items@.skip(i as int), m as nat) == select(items@, mask as nat),
            complement@ + unselect(items@.skip(i as int), m as nat) == unselect(items@, mask as nat),
        decreases items@.len() - i,
    {
        let ghost rest = items@.skip(i as int);
        proof {
            assert(rest.drop_first() =~= items@.skip(i + 1));
            assert(rest[0] == items@[i as int]);
        }
        if m % 2 == 1 {
            subset.push(items[i]);
            proof {
                assert(subset@ + select(items@.skip(i + 1), (m / 2) as nat) =~= select(items@, mask as nat));
                assert(complement@ + unselect(items@.skip(i + 1), (m / 2) as nat) =~= unselect(items@, mask as nat));
            }
        } else {
            complement.push(items[i]);
            proof {
                assert(subset@ + select(items@.skip(i + 1), (m / 2) as nat) =~= select(items@, mask as nat));
                assert(complement@ + unselect(items@.skip(i + 1), (m / 2) as nat) =~= unselect(items@, mask as nat));
            }
        }
        m = m / 2;
        i = i + 1;
    }
    proof {
        assert(items@.skip(items@.len() as int) =~= Seq::<T>::empty());
        assert(subset@ + Seq::<T>::empty() =~= subset@);
        assert(complement@ + Seq::<T>::empty() =~= complement@);
    }
    (subset, complement)
}

/// A lazy enumeration of the splits of `items` into a subset, whose size lies
/// between the bounds, and its complement. Masks are tried in increasing
/// order from 0 to `2^n - 1`; lists of 64 or more items give no split, and
/// neither do bounds that admit no size.
pub struct SubsetIterator<'a, T> {
    items: &'a [T],
    min_size: usize,
    max_size: usize,
    current_mask: u64,
    max_mask: u64,
}

/// The size bounds a `SubsetIterator` uses: none at all when `max_size` is
/// negative or below `min_size`; otherwise `min_size` raised to 0 and
/// `max_size` lowered to `len`.
pub open spec fn size_bounds(len: nat, min_size: int, max_size: int) -> (nat, nat) {
    if max_size < 0 || min_size > max_size {
        (0, 0)
    } else {
        (if min_size < 0 { 0 } else { min_size as nat }, if max_size < len { max_size as nat } else { len })
    }
}

/// The number of masks to try for `len` items.
pub open spec fn mask_limit(len: nat) -> nat {
    if len < 64 { pow2(len) } else { 0 }
}

/// The number of masks an enumeration tries: none when the size bounds admit
/// no subset at all (`max_size` negative or below `min_size`).
pub open spec fn enumeration_limit(len: nat, min_size: int, max_size: int) -> nat {
    if max_size < 0 || min_size > max_size { 0 } else { mask_limit(len) }
}

impl<'a, T: Copy> SubsetIterator<'a, T> {
    pub closed spec fn items(&self) -> Seq<T> {
        self.items@
    }

    pub closed spec fn min_size(&self) -> nat {
        self.min_size as nat
    }

    pub closed spec fn max_size(&self) -> nat {
        self.max_size as nat
    }

    /// The next mask to try.
    pub closed spec fn current(&self) -> nat {
        self.current_mask as nat
    }

    /// One past the last mask to try.
    pub closed spec fn limit(&self) -> nat {
        self.max_mask as nat
    }

    /// Whether the subset of `mask` has an admissible size.
    pub open spec fn admits(&self, mask: nat) -> bool {
        self.min_size() <= popcount_spec(mask) <= self.max_size()
    }

    /// An enumeration of the splits of `items` whose subset has between
    /// `min_size` and `max_size` items.
    pub fn new(items: &'a [T], min_size: isize, max_size: isize) -> (r: Self)
        ensures
            r.items() == items@,
            (r.min_size(), r.max_size()) == size_bounds(items@.len(), min_size as int, max_size as int),
            r.current() == 0,
            r.limit() == enumeration_limit(items@.len(), min_size as int, max_size as int),
    {
        let len = items.len();
        let (lo, hi): (usize, usize) = if max_size < 0 || min_size > max_size {
            (0, 0)
        } else {
            let lo: usize = if min_size < 0 { 0 } else { min_size as usize };
            let hi: usize = if (max_size as usize) < len { max_size as usize } else { len };
            (lo, hi)
        };
        let max_mask: u64 = if max_size < 0 || min_size > max_size {
            0
        } else if len < 64 {
            let shift: u64 = len as u64;
            proof {
                lemma_u64_pow2_no_overflow(shift as nat);
                lemma_u64_shl_is_mul(1, shift);
            }
            1u64 << shift
        } else {
            0
        };
        SubsetIterator { items, min_size: lo, max_size: hi, current_mask: 0, max_mask }
    }

    /// The next admissible split, trying masks from the current one up.
    pub fn next(&mut self) -> (r: Option<(Vec<T>, Vec<T>)>)
        ensures
            final(self).items() == old(self).items(),
            final(self).min_size() == old(self).min_size(),
            final(self).max_size() == old(self).max_size(),
            final(self).limit() == old(self).limit(),
            r is None ==> final(self).current() >= final(self).limit(),
            old(self).current() >= old(self).limit() ==> r is None && final(self).current() == old(self).current(),
            match r {
                Some(split) => {
                    let m = (final(self).current() - 1) as nat;
                    &&& final(self).current() == m + 1
                    &&& old(self).current() <= m < old(self).limit()
                    &&& old(self).admits(m)
                    &&& forall|j: nat| old(self).current() <= j < m ==> !old(self).admits(j)
                    &&& split.0@ == select(old(self).items(), m)
                    &&& split.1@ == unselect(old(self).items(), m)
                },
                None => {
                    &&& forall|j: nat| old(self).current() <= j < old(self).limit() ==> !old(self).admits(j)
                    &&& final(self).current() == if old(self).current() < old(self).limit() { old(self).limit() } else { old(self).current() }
                },
            },
    {
        let ghost start = self.current_mask as nat;
        while self.current_mask < self.max_mask
            invariant
                self.items == old(self).items,
                self.min_size == old(self).min_size,
                self.max_size == old(self).max_size,
                self.max_mask == old(self).max_mask,
                start == old(self).current_mask,
                start <= self.current_mask,
                start < self.max_mask ==> self.current_mask <= self.max_mask,
                start >= self.max_mask ==> self.current_mask == start,
                forall|j: nat| start <= j < self.current_mask ==> !old(self).admits(j),
            decreases self.max_mask - self.current_mask,
        {
            let mask = self.current_mask;
            self.current_mask = self.current_mask + 1;
            let subset_size = popcount(mask);
            if subset_size >= self.min_size && subset_size <= self.max_size {
                return Some(mask_to_subsets(self.items, mask));
            }
        }
        None
    }
}

/// Every split an enumeration yields has a subset of admissible size, and the
/// two parts together hold all the items.
pub proof fn lemma_split_sizes<T>(items: Seq<T>, mask: nat, min_size: nat, max_size: nat)
    requires
        items.len() < 64,
        mask < pow2(items.len()),
        min_size <= popcount_spec(mask) <= max_size,
    ensures
        min_size <= select(items, mask).len() <= max_size,
        select(items, mask).len() + unselect(items, mask).len() == items.len(),
{
    lemma_select_len(items, mask);
    lemma_split_lengths(items, mask);
}

/// Whether the subset of `mask` has a size between `lo` and `hi`.
pub open spec fn admissible(lo: nat, hi: nat, mask: nat) -> bool {
    lo <= popcount_spec(mask) <= hi
}

/// The masks below `limit` whose subsets have an admissible size, in
/// increasing order.
pub open spec fn admissible_masks(lo: nat, hi: nat, limit: nat) -> Seq<nat>
    decreases limit,
{
    if limit == 0 {
        Seq::empty()
    } else {
        let prev = admissible_masks(lo, hi, (limit - 1) as nat);
        if admissible(lo, hi, (limit - 1) as nat) { prev.push((limit - 1) as nat) } else { prev }
    }
}

/// Whether `ms` is what an enumeration with bounds `lo`, `hi` and mask
/// limit `limit` yields from its start until `next` gives `None`, as the
/// contract of `next` describes each call: every mask yielded is admissible
/// and below the limit, each comes after the one before, no admissible mask
/// is passed over, and none is left after the last.
pub open spec fn enumeration_run(ms: Seq<nat>, lo: nat, hi: nat, limit: nat) -> bool {
    &&& forall|k: int| 0 <= k < ms.len() ==> #[trigger] ms[k] < limit && admissible(lo, hi, ms[k])
    &&& forall|k: int| 0 < k < ms.len() ==> ms[k - 1] < #[trigger] ms[k]
    &&& forall|k: int, j: nat| #![trigger ms[k], admissible(lo, hi, j)]
        0 <= k < ms.len() && (if k == 0 { 0 } else { ms[k - 1] + 1 }) <= j < ms[k] ==> !admissible(lo, hi, j)
    &&& forall|j: nat| (if ms.len() == 0 { 0 } else { ms.last() + 1 }) <= j < limit ==> !#[trigger] admissible(lo, hi, j)
}

proof fn lemma_run_prefix(ms: Seq<nat>, lo: nat, hi: nat, limit: nat, n: nat) -> (c: int)
    requires
        enumeration_run(ms, lo, hi, limit),
        n <= limit,
    ensures
        0 <= c <= ms.len(),
        ms.take(c) == admissible_masks(lo, hi, n),
        c == ms.len() || ms[c] >= n,
        c == 0 || ms[c - 1] < n,
    decreases n,
{
    if n == 0 {
        assert(ms.take(0) =~= Seq::<nat>::empty());
        0
    } else {
        let m = (n - 1) as nat;
        let c = lemma_run_prefix(ms, lo, hi, limit, m);
        if c < ms.len() && ms[c] == m {
            assert(admissible(lo, hi, ms[c]));
            assert(ms.take(c + 1) =~= ms.take(c).push(m));
            if c + 1 < ms.len() {
                assert(ms[c] < ms[c + 1]);
            }
            c + 1
        } else if c < ms.len() {
            assert(!admissible(lo, hi, m)) by {
                assert((if c == 0 { 0 } else { ms[c - 1] + 1 }) <= m < ms[c]);
            }
            c
        } else {
            assert(!admissible(lo, hi, m)) by {
                if ms.len() > 0 {
                    assert(ms.last() == ms[c - 1]);
                }
            }
            c
        }
    }
}

/// An enumeration yields each admissible split exactly once, in increasing
/// order of masks, and nothing else: the masks of a whole run are exactly
/// the admissible masks below the limit, so they are as many as the subsets
/// of admissible size, and no set of positions comes twice.
pub proof fn law_enumeration_yields_each_admissible_split_once(ms: Seq<nat>, lo: nat, hi: nat, limit: nat)
    requires
        enumeration_run(ms, lo, hi, limit),
    ensures
        ms == admissible_masks(lo, hi, limit),
        ms.len() == admissible_masks(lo, hi, limit).len(),
        forall|i: int, j: int| 0 <= i < j < ms.len() ==> ms[i] < ms[j],
{
    let c = lemma_run_prefix(ms, lo, hi, limit, limit);
    if c < ms.len() {
        assert(ms[c] < limit);
    }
    assert(ms.take(c) =~= ms);
    assert forall|i: int, j: int| 0 <= i < j < ms.len() implies ms[i] < ms[j] by {
        lemma_increasing_run(ms, i, j);
    }
}

proof fn lemma_increasing_run(ms: Seq<nat>, i: int, j: int)
    requires
        forall|k: int| 0 < k < ms.len() ==> ms[k - 1] < #[trigger] ms[k],
        0 <= i < j < ms.len(),
    ensures
        ms[i] < ms[j],
    decreases j - i,
{
    assert(ms[j - 1] < ms[j]);
    if i < j - 1 {
        lemma_increasing_run(ms, i, j - 1);
    }
}

/// The number of masks below `limit` whose subsets have an admissible size.
pub proof fn lemma_admissible_masks_count(lo: nat, hi: nat, limit: nat)
    ensures
        admissible_masks(lo, hi, limit).to_set() == Set::new(|m: nat| m < limit && admissible(lo, hi, m)),
        admissible_masks(lo, hi, limit).no_duplicates(),
    decreases limit,
{
    if limit > 0 {
        let m = (limit - 1) as nat;
        lemma_admissible_masks_count(lo, hi, m);
        lemma_admissible_masks_below(lo, hi, m);
        let prev = admissible_masks(lo, hi, m);
        if admissible(lo, hi, m) {
            assert(prev.push(m).to_set() =~= prev.to_set().insert(m)) by {
                assert forall|x: nat| prev.push(m).to_set().contains(x) <==> prev.to_set().insert(m).contains(x) by {
                    if prev.push(m).to_set().contains(x) {
                        let k = choose|k: int| 0 <= k < prev.push(m).len() && prev.push(m)[k] == x;
                        if k < prev.len() { assert(prev[k] == x); }
                    }
                    if prev.to_set().contains(x) {
                        let k = choose|k: int| 0 <= k < prev.len() && prev[k] == x;
                        assert(prev.push(m)[k] == x);
                    }
                    if x == m {
                        assert(prev.push(m)[prev.len() as int] == x);
                    }
                }
            }
            assert forall|a: int, b: int| 0 <= a < prev.push(m).len() && 0 <= b < prev.push(m).len() && a != b
                implies prev.push(m)[a] != prev.push(m)[b] by {
                if a < prev.len() && b < prev.len() {
                } else if a < prev.len() {
                    assert(prev[a] < m);
                } else if b < prev.len() {
                    assert(prev[b] < m);
                }
            }
        }
        assert(admissible_masks(lo, hi, limit).to_set() =~= Set::new(|x: nat| x < limit && admissible(lo, hi, x)));
    } else {
        assert(admissible_masks(lo, hi, limit).to_set() =~= Set::new(|x: nat| x < limit && admissible(lo, hi, x)));
    }
}

proof fn lemma_admissible_masks_below(lo: nat, hi: nat, limit: nat)
    ensures
        forall|k: int| 0 <= k < admissible_masks(lo, hi, limit).len() ==> #[trigger] admissible_masks(lo, hi, limit)[k] < limit,
    decreases limit,
{
    if limit > 0 {
        let m = (limit - 1) as nat;
        lemma_admissible_masks_below(lo, hi, m);
        let prev = admissible_masks(lo, hi, m);
        assert forall|k: int| 0 <= k < admissible_masks(lo, hi, limit).len() implies #[trigger] admissible_masks(lo, hi, limit)[k] < limit by {
            if k < prev.len() {
                assert(prev[k] < m);
            }
        }
    }
}

/// The set a bit vector stands for, one byte per position: position `i`
/// is in the set when byte `i` is not zero.
pub open spec fn bit_set(bits: Seq<u8>) -> Set<int> {
    Set::new(|i: int| 0 <= i < bits.len() && bits[i] != 0)
}

/// The members of `s` from `bound_count` on, each moved down by
/// `bound_count`: what is left free once `bound_count` binders are passed.
pub open spec fn shifted_down(s: Set<int>, bound_count: int) -> Set<int> {
    Set::new(|x: int| x >= 0 && s.contains(x + bound_count))
}

/// Drops the first `bound_count` positions of `bitset` and numbers the rest
/// from 0: the set of positions it stands for loses its members below
/// `bound_count`, and the others move down by `bound_count`.
pub fn filter_and_adjust_bitset(bitset: Vec<u8>, bound_count: usize) -> (r: Vec<u8>)
    ensures
        bit_set(r@) == shifted_down(bit_set(bitset@), bound_count as int),
        r@ == (if bound_count < bitset@.len() { bitset@.subrange(bound_count as int, bitset@.len() as int) }
            else { Seq::<u8>::empty() }),
{
    let mut r: Vec<u8> = Vec::new();
    let mut i: usize = bound_count;
    while i < bitset.len()
        invariant
            bound_count <= i,
            bound_count < bitset@.len() ==> i <= bitset@.len(),
            bound_count < bitset@.len() ==> r@ == bitset@.subrange(bound_count as int, i as int),
            bound_count >= bitset@.len() ==> r@.len() == 0,
        decreases bitset@.len() - i,
    {
        r.push(bitset[i]);
        proof {
            assert(r@ =~= bitset@.subrange(bound_count as int, i + 1));
        }
        i = i + 1;
    }
    proof {
        if bound_count < bitset@.len() {
            assert(i == bitset@.len());
        } else {
            assert(r@ =~= Seq::<u8>::empty());
        }
        assert(bit_set(r@) =~= shifted_down(bit_set(bitset@), bound_count as int));
    }
    r
}

} // verus!
