//! Association lists keyed by variable names: the storage behind the bound and
//! free variable maps. An entry's name occurs once; the list stands for the
//! map from each name to its value.
use vstd::prelude::*;

verus! {

/// No name occurs twice.
pub open spec fn keys_unique<V>(s: Seq<(String, V)>) -> bool {
    forall|i: int, j: int|
        0 <= i < s.len() && 0 <= j < s.len() && i != j ==> #[trigger] s[i].0@ != #[trigger] s[j].0@
}

pub open spec fn has_key<V>(s: Seq<(String, V)>, k: Seq<char>) -> bool {
    exists|i: int| 0 <= i < s.len() && #[trigger] s[i].0@ == k
}

pub open spec fn key_index<V>(s: Seq<(String, V)>, k: Seq<char>) -> int {
    choose|i: int| 0 <= i < s.len() && #[trigger] s[i].0@ == k
}

/// The map that the list stands for.
pub open spec fn assoc_map<V>(s: Seq<(String, V)>) -> Map<Seq<char>, V> {
    Map::new(|k: Seq<char>| has_key(s, k), |k: Seq<char>| s[key_index(s, k)].1)
}

pub proof fn lemma_assoc_entry<V>(s: Seq<(String, V)>, i: int)
    requires
        keys_unique(s),
        0 <= i < s.len(),
    ensures
        assoc_map(s).contains_key(s[i].0@),
        assoc_map(s)[s[i].0@] == s[i].1,
{
    let k = s[i].0@;
    assert(has_key(s, k));
    let j = key_index(s, k);
    assert(s[j].0@ == k);
}

pub proof fn lemma_assoc_absent<V>(s: Seq<(String, V)>, k: Seq<char>)
    requires
        forall|i: int| 0 <= i < s.len() ==> #[trigger] s[i].0@ != k,
    ensures
        !assoc_map(s).contains_key(k),
{
}

/// The list with one more entry, under a name it did not have, stands for
/// the map with that entry inserted.
pub proof fn lemma_assoc_push<V>(s: Seq<(String, V)>, k: String, v: V)
    requires
        keys_unique(s),
        !has_key(s, k@),
    ensures
        keys_unique(s.push((k, v))),
        assoc_map(s.push((k, v))) =~= assoc_map(s).insert(k@, v),
{
    let t = s.push((k, v));
    assert forall|i: int, j: int|
        0 <= i < t.len() && 0 <= j < t.len() && i != j implies #[trigger] t[i].0@ != #[trigger] t[j].0@ by {
        if i < s.len() && j < s.len() {
            assert(t[i] == s[i] && t[j] == s[j]);
        } else if i < s.len() {
            assert(t[i] == s[i]);
        } else {
            assert(t[j] == s[j]);
        }
    }
    assert forall|key: Seq<char>| #[trigger] assoc_map(t).contains_key(key) == assoc_map(s).insert(k@, v).contains_key(key) by {
        if has_key(s, key) {
            let i = choose|i: int| 0 <= i < s.len() && #[trigger] s[i].0@ == key;
            assert(t[i] == s[i]);
        }
        if key == k@ {
            assert(t[s.len() as int].0@ == k@);
        }
        if has_key(t, key) {
            let i = choose|i: int| 0 <= i < t.len() && #[trigger] t[i].0@ == key;
            if i < s.len() {
                assert(t[i] == s[i]);
            }
        }
    }
    assert forall|key: Seq<char>| #[trigger] assoc_map(t).contains_key(key) implies assoc_map(t)[key] == assoc_map(s).insert(k@, v)[key] by {
        if key == k@ {
            lemma_assoc_entry(t, s.len() as int);
        } else {
            let i = choose|i: int| 0 <= i < t.len() && #[trigger] t[i].0@ == key;
            assert(i < s.len());
            assert(t[i] == s[i]);
            lemma_assoc_entry(t, i);
            lemma_assoc_entry(s, i);
        }
    }
}

/// The position of the entry named `k`, if there is one.
pub fn assoc_find<V>(s: &Vec<(String, V)>, k: &String) -> (r: Option<usize>)
    ensures
        match r {
            Some(i) => i < s@.len() && s@[i as int].0@ == k@,
            None => forall|i: int| 0 <= i < s@.len() ==> #[trigger] s@[i].0@ != k@,
        },
{
    let mut i: usize = 0;
    while i < s.len()
        invariant
            i <= s@.len(),
            forall|j: int| 0 <= j < i ==> #[trigger] s@[j].0@ != k@,
        decreases s@.len() - i,
    {
        if s[i].0 == *k {
            return Some(i);
        }
        i = i + 1;
    }
    None
}

/// A copy of the list.
pub fn assoc_copy<V: Copy>(s: &Vec<(String, V)>) -> (r: Vec<(String, V)>)
    ensures
        r@ == s@,
{
    let mut r: Vec<(String, V)> = Vec::new();
    let mut i: usize = 0;
    while i < s.len()
        invariant
            i <= s@.len(),
            r@ == s@.subrange(0, i as int),
        decreases s@.len() - i,
    {
        let key = s[i].0.clone();
        let value = s[i].1;
        r.push((key, value));
        proof {
            assert(r@ =~= s@.subrange(0, i + 1));
        }
        i = i + 1;
    }
    assert(s@.subrange(0, s@.len() as int) =~= s@);
    r
}

/// The list with the entry for `k` set to `v`: the old entry under that name,
/// if any, is replaced.
pub fn assoc_insert<V: Copy>(s: &Vec<(String, V)>, k: String, v: V) -> (r: Vec<(String, V)>)
    requires
        keys_unique(s@),
    ensures
        keys_unique(r@),
        assoc_map(r@) =~= assoc_map(s@).insert(k@, v),
        r@.len() <= s@.len() + 1,
{
    let mut r: Vec<(String, V)> = Vec::new();
    let mut i: usize = 0;
    while i < s.len()
        invariant
            i <= s@.len(),
            keys_unique(s@),
            keys_unique(r@),
            r@.len() <= i,
            !has_key(r@, k@),
            forall|key: Seq<char>| key != k@ ==>
                (has_key(r@, key) <==> exists|j: int| 0 <= j < i && #[trigger] s@[j].0@ == key),
            forall|j: int| 0 <= j < r@.len() ==> exists|m: int| 0 <= m < i && #[trigger] r@[j] == s@[m],
        decreases s@.len() - i,
    {
        if s[i].0 != k {
            let key = s[i].0.clone();
            let value = s[i].1;
            let ghost old_r = r@;
            r.push((key, value));
            proof {
                assert(r@[old_r.len() as int] == s@[i as int]);
                assert forall|a: int, b: int|
                    0 <= a < r@.len() && 0 <= b < r@.len() && a != b implies #[trigger] r@[a].0@ != #[trigger] r@[b].0@ by {
                    if a < old_r.len() && b < old_r.len() {
                        assert(r@[a] == old_r[a] && r@[b] == old_r[b]);
                    } else if a < old_r.len() {
                        assert(r@[a] == old_r[a]);
                        let m = choose|m: int| 0 <= m < i && #[trigger] old_r[a] == s@[m];
                        assert(s@[m].0@ != s@[i as int].0@);
                    } else {
                        assert(r@[b] == old_r[b]);
                        let m = choose|m: int| 0 <= m < i && #[trigger] old_r[b] == s@[m];
                        assert(s@[m].0@ != s@[i as int].0@);
                    }
                }
                assert forall|key: Seq<char>| key != k@ implies
                    (has_key(r@, key) <==> exists|j: int| 0 <= j < i + 1 && #[trigger] s@[j].0@ == key) by {
                    if has_key(r@, key) {
                        let a = choose|a: int| 0 <= a < r@.len() && #[trigger] r@[a].0@ == key;
                        if a < old_r.len() {
                            assert(r@[a] == old_r[a]);
                            assert(has_key(old_r, key));
                        } else {
                            assert(s@[i as int].0@ == key);
                        }
                    }
                    if exists|j: int| 0 <= j < i + 1 && #[trigger] s@[j].0@ == key {
                        let j = choose|j: int| 0 <= j < i + 1 && #[trigger] s@[j].0@ == key;
                        if j < i {
                            assert(exists|j2: int| 0 <= j2 < i && #[trigger] s@[j2].0@ == key);
                            assert(has_key(old_r, key));
                            let a = choose|a: int| 0 <= a < old_r.len() && #[trigger] old_r[a].0@ == key;
                            assert(r@[a] == old_r[a]);
                        } else {
                            assert(r@[old_r.len() as int].0@ == key);
                        }
                    }
                }
                assert forall|j: int| 0 <= j < r@.len() implies exists|m: int| 0 <= m < i + 1 && #[trigger] r@[j] == s@[m] by {
                    if j < old_r.len() {
                        assert(r@[j] == old_r[j]);
                        let m = choose|m: int| 0 <= m < i && #[trigger] old_r[j] == s@[m];
                        assert(r@[j] == s@[m]);
                    } else {
                        assert(r@[j] == s@[i as int]);
                    }
                }
                assert(!has_key(r@, k@)) by {
                    if has_key(r@, k@) {
                        let a = choose|a: int| 0 <= a < r@.len() && #[trigger] r@[a].0@ == k@;
                        if a < old_r.len() {
                            assert(r@[a] == old_r[a]);
                        }
                    }
                }
            }
        } else {
            proof {
                assert forall|key: Seq<char>| key != k@ implies
                    (has_key(r@, key) <==> exists|j: int| 0 <= j < i + 1 && #[trigger] s@[j].0@ == key) by {
                    if exists|j: int| 0 <= j < i + 1 && #[trigger] s@[j].0@ == key {
                        let j = choose|j: int| 0 <= j < i + 1 && #[trigger] s@[j].0@ == key;
                        assert(j < i);
                    }
                }
                assert forall|j: int| 0 <= j < r@.len() implies exists|m: int| 0 <= m < i + 1 && #[trigger] r@[j] == s@[m] by {
                    let m = choose|m: int| 0 <= m < i && #[trigger] r@[j] == s@[m];
                    assert(r@[j] == s@[m]);
                }
            }
        }
        i = i + 1;
    }
    let ghost before = r@;
    proof {
        lemma_assoc_push(before, k, v);
        assert forall|key: Seq<char>| #[trigger] assoc_map(before).contains_key(key) == assoc_map(s@).remove(k@).contains_key(key) by {
            if key != k@ {
                if has_key(s@, key) {
                    let j = choose|j: int| 0 <= j < s@.len() && #[trigger] s@[j].0@ == key;
                    assert(exists|j: int| 0 <= j < s@.len() && #[trigger] s@[j].0@ == key);
                }
            }
        }
        assert forall|key: Seq<char>| #[trigger] assoc_map(before).contains_key(key) implies assoc_map(before)[key] == assoc_map(s@)[key] by {
            let a = choose|a: int| 0 <= a < before.len() && #[trigger] before[a].0@ == key;
            let m = choose|m: int| 0 <= m < s@.len() && #[trigger] before[a] == s@[m];
            lemma_assoc_entry(before, a);
            lemma_assoc_entry(s@, m);
        }
        assert(assoc_map(before) =~= assoc_map(s@).remove(k@));
        assert(assoc_map(s@).remove(k@).insert(k@, v) =~= assoc_map(s@).insert(k@, v));
    }
    r.push((k, v));
    r
}

/// A list without repeated keys stands for a finite map with one entry per
/// item.
pub proof fn lemma_assoc_map_len<V>(s: Seq<(String, V)>)
    requires
        keys_unique(s),
    ensures
        assoc_map(s).dom().finite(),
        assoc_map(s).dom().len() == s.len(),
    decreases s.len(),
{
    if s.len() == 0 {
        assert(assoc_map(s).dom() =~= Set::<Seq<char>>::empty());
    } else {
        let prefix = s.drop_last();
        assert(keys_unique(prefix)) by {
            assert forall|i: int, j: int| 0 <= i < prefix.len() && 0 <= j < prefix.len() && i != j implies
                #[trigger] prefix[i].0@ != #[trigger] prefix[j].0@ by {
                assert(prefix[i] == s[i] && prefix[j] == s[j]);
            }
        }
        lemma_assoc_map_len(prefix);
        let last = s.last();
        assert(!has_key(prefix, last.0@)) by {
            if has_key(prefix, last.0@) {
                let i = choose|i: int| 0 <= i < prefix.len() && #[trigger] prefix[i].0@ == last.0@;
                assert(s[i].0@ == s[s.len() - 1].0@);
            }
        }
        lemma_assoc_push(prefix, last.0, last.1);
        assert(prefix.push((last.0, last.1)) =~= s);
        assert(assoc_map(s).dom() =~= assoc_map(prefix).dom().insert(last.0@));
    }
}


} // verus!
