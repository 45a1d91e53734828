//! Small helpers over vectors of plain values.
use vstd::prelude::*;

verus! {

/// A copy of a vector of plain values.
pub fn copy_vec<V: Copy>(v: &Vec<V>) -> (r: Vec<V>)
    ensures
        r@ == v@,
{
    let mut r: Vec<V> = Vec::new();
    let mut i: usize = 0;
    while i < v.len()
        invariant
            i <= v@.len(),
            r@ == v@.subrange(0, i as int),
        decreases v@.len() - i,
    {
        r.push(v[i]);
        proof { assert(r@ =~= v@.subrange(0, i + 1)); }
        i = i + 1;
    }
    assert(v@.subrange(0, v@.len() as int) =~= v@);
    r
}

/// Whether two vectors hold the same values.
pub fn vec_eq(a: &Vec<u64>, b: &Vec<u64>) -> (r: bool)
    ensures
        r == (a@ == b@),
{
    if a.len() != b.len() {
        return false;
    }
    let mut i: usize = 0;
    while i < a.len()
        invariant
            i <= a@.len(),
            a@.len() == b@.len(),
            forall|j: int| 0 <= j < i ==> a@[j] == b@[j],
        decreases a@.len() - i,
    {
        if a[i] != b[i] {
            return false;
        }
        i = i + 1;
    }
    assert(a@ =~= b@);
    true
}

/// The values of a vector of vectors.
pub open spec fn nested_view(v: Seq<Vec<u64>>) -> Seq<Seq<u64>> {
    v.map_values(|j: Vec<u64>| j@)
}

/// A copy of a vector of vectors.
pub fn copy_nested(v: &Vec<Vec<u64>>) -> (r: Vec<Vec<u64>>)
    ensures
        nested_view(r@) == nested_view(v@),
{
    let mut r: Vec<Vec<u64>> = Vec::new();
    let mut i: usize = 0;
    while i < v.len()
        invariant
            i <= v@.len(),
            nested_view(r@) =~= nested_view(v@.subrange(0, i as int)),
        decreases v@.len() - i,
    {
        let c = copy_vec(&v[i]);
        let ghost before = r@;
        r.push(c);
        proof {
            assert(nested_view(r@) =~= nested_view(before).push(c@));
            assert(v@.subrange(0, i + 1) =~= v@.subrange(0, i as int).push(v@[i as int]));
            assert(nested_view(v@.subrange(0, i + 1)) =~= nested_view(v@.subrange(0, i as int)).push(v@[i as int]@));
        }
        i = i + 1;
    }
    assert(v@.subrange(0, v@.len() as int) =~= v@);
    r
}

} // verus!
