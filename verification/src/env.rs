//! The environment of the normalizer: processes bound to names, one per
//! name, kept in increasing order of name.
use vstd::prelude::*;
use crate::new_scope::{lemma_text_lt_irreflexive, lemma_text_lt_total, lemma_text_lt_transitive, text_lt, text_lt_exec};
use crate::term::{vec_to_list, seq_to_list, List, Par};

verus! {

/// Whether the names of `s` increase strictly.
pub open spec fn keys_increasing(s: Seq<(String, Par)>) -> bool {
    forall|i: int, j: int| 0 <= i < j < s.len() ==> text_lt(#[trigger] s[i].0@, #[trigger] s[j].0@)
}

/// `s` with `v` bound to `k`: in place of the entry named `k`, if there is
/// one, otherwise before the first entry whose name comes after `k`.
pub open spec fn insert_sorted(s: Seq<(String, Par)>, k: String, v: Par) -> Seq<(String, Par)>
    decreases s.len(),
{
    if s.len() == 0 {
        seq![(k, v)]
    } else if s[0].0@ == k@ {
        seq![(k, v)] + s.drop_first()
    } else if text_lt(k@, s[0].0@) {
        seq![(k, v)] + s
    } else {
        seq![s[0]] + insert_sorted(s.drop_first(), k, v)
    }
}

proof fn lemma_insert_sorted_at(s: Seq<(String, Par)>, k: String, v: Par, i: int)
    requires
        keys_increasing(s),
        0 <= i <= s.len(),
        forall|j: int| 0 <= j < i ==> text_lt(#[trigger] s[j].0@, k@),
        i < s.len() ==> !text_lt(s[i].0@, k@),
    ensures
        insert_sorted(s, k, v) == if i < s.len() && s[i].0@ == k@ { s.update(i, (k, v)) } else { s.insert(i, (k, v)) },
    decreases i,
{
    if i == 0 {
        if s.len() > 0 {
            lemma_text_lt_total(k@, s[0].0@);
            if s[0].0@ == k@ {
                assert(seq![(k, v)] + s.drop_first() =~= s.update(0, (k, v)));
            } else {
                assert(seq![(k, v)] + s =~= s.insert(0, (k, v)));
            }
        } else {
            assert(seq![(k, v)] =~= s.insert(0, (k, v)));
        }
    } else {
        let t = s.drop_first();
        assert(text_lt(s[0].0@, k@));
        lemma_text_lt_irreflexive(k@);
        assert(s[0].0@ != k@);
        if text_lt(k@, s[0].0@) {
            lemma_text_lt_transitive(k@, s[0].0@, k@);
        }
        assert forall|a: int, b: int| 0 <= a < b < t.len() implies text_lt(#[trigger] t[a].0@, #[trigger] t[b].0@) by {
            assert(text_lt(s[a + 1].0@, s[b + 1].0@));
        }
        assert forall|j: int| 0 <= j < i - 1 implies text_lt(#[trigger] t[j].0@, k@) by {
            assert(text_lt(s[j + 1].0@, k@));
        }
        lemma_insert_sorted_at(t, k, v, i - 1);
        if i < s.len() && s[i].0@ == k@ {
            assert(seq![s[0]] + t.update(i - 1, (k, v)) =~= s.update(i, (k, v)));
        } else {
            assert(seq![s[0]] + t.insert(i - 1, (k, v)) =~= s.insert(i, (k, v)));
        }
    }
}

/// The environment of the normalizer. What `new` binds records it.
pub struct Env {
    entries: Vec<(String, Par)>,
}

impl Env {
    #[verifier::type_invariant]
    closed spec fn inv(&self) -> bool {
        keys_increasing(self.entries@)
    }

    /// The bound processes, by name in increasing order.
    pub closed spec fn entries(&self) -> Seq<(String, Par)> {
        self.entries@
    }

    /// The environment that binds nothing.
    pub fn new() -> (r: Self)
        ensures
            r.entries() == Seq::<(String, Par)>::empty(),
    {
        Env { entries: Vec::new() }
    }

    /// Binds `value` to `name`, in place of what `name` was bound to.
    pub fn insert(&mut self, name: String, value: Par)
        ensures
            final(self).entries() == insert_sorted(old(self).entries(), name, value),
            keys_increasing(final(self).entries()),
    {
        proof { use_type_invariant(&*self); }
        let mut es: Vec<(String, Par)> = Vec::new();
        std::mem::swap(&mut es, &mut self.entries);
        let ghost s = es@;
        let mut i: usize = 0;
        while i < es.len() && text_lt_exec(&es[i].0, &name)
            invariant
                es@ == s,
                keys_increasing(s),
                i <= s.len(),
                forall|j: int| 0 <= j < i ==> text_lt(#[trigger] s[j].0@, name@),
            decreases s.len() - i,
        {
            i = i + 1;
        }
        proof { lemma_insert_sorted_at(s, name, value, i as int); }
        let ghost k = name@;
        if i < es.len() && es[i].0.eq(&name) {
            es.set(i, (name, value));
            proof {
                assert forall|a: int, b: int| 0 <= a < b < es@.len() implies text_lt(#[trigger] es@[a].0@, #[trigger] es@[b].0@) by {
                    assert(text_lt(s[a].0@, s[b].0@));
                }
            }
        } else {
            es.insert(i, (name, value));
            proof {
                if i < s.len() {
                    lemma_text_lt_total(s[i as int].0@, k);
                }
                assert forall|a: int, b: int| 0 <= a < b < es@.len() implies text_lt(#[trigger] es@[a].0@, #[trigger] es@[b].0@) by {
                    if b < i {
                        assert(text_lt(s[a].0@, s[b].0@));
                    } else if b == i {
                        assert(text_lt(s[a].0@, k));
                    } else if a < i {
                        assert(text_lt(s[a].0@, k));
                        assert(!text_lt(s[i as int].0@, k));
                        if b - 1 > i {
                            assert(text_lt(s[i as int].0@, s[b - 1].0@));
                            lemma_text_lt_transitive(k, s[i as int].0@, s[b - 1].0@);
                        }
                        lemma_text_lt_transitive(s[a].0@, k, s[b - 1].0@);
                    } else if a == i {
                        if b - 1 > i {
                            assert(text_lt(s[i as int].0@, s[b - 1].0@));
                            lemma_text_lt_transitive(k, s[i as int].0@, s[b - 1].0@);
                        }
                    } else {
                        assert(text_lt(s[a - 1].0@, s[b - 1].0@));
                    }
                }
            }
        }
        self.entries = es;
    }

    /// The bound processes, by name in increasing order, as a list of copies.
    pub fn injections(&self) -> (r: List<(String, Par)>)
        ensures
            r == seq_to_list(self.entries()),
    {
        let l = copy_entries(&self.entries);
        vec_to_list(l)
    }
}

fn copy_entries(es: &Vec<(String, Par)>) -> (r: Vec<(String, Par)>)
    ensures
        r@ == es@,
{
    let mut r: Vec<(String, Par)> = Vec::new();
    let mut i: usize = 0;
    while i < es.len()
        invariant
            i <= es@.len(),
            r@ == es@.subrange(0, i as int),
        decreases es@.len() - i,
    {
        let e = crate::term_copy::copy_injection(&es[i]);
        r.push(e);
        proof { assert(r@ =~= es@.subrange(0, i + 1)); }
        i = i + 1;
    }
    proof { assert(es@.subrange(0, es@.len() as int) =~= es@); }
    r
}

} // verus!
