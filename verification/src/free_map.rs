//! The free variables, wildcards and connectives met while normalizing a
//! pattern. Free variables get levels 0, 1, 2, ... in the order they are first
//! met; a later binder turns them into bound variables.
use vstd::prelude::*;
use crate::assoc::{assoc_copy, assoc_find, assoc_insert, assoc_map, has_key, keys_unique, lemma_assoc_absent,
    lemma_assoc_entry, lemma_assoc_push};
use crate::context::{ConnectiveInstance, FreeContext, IdContextPos, IdContextSpan};
use crate::span::{point_span, SourceSpan};
use crate::util::copy_vec;

verus! {

/// What a free map stands for.
pub struct FreeMapView<T> {
    /// The level the next free variable gets.
    pub next: nat,
    pub bindings: Map<Seq<char>, FreeContext<T>>,
    pub wildcards: Seq<SourceSpan>,
    pub connectives: Seq<(ConnectiveInstance, SourceSpan)>,
}

impl<T> FreeMapView<T> {
    /// Free variables, wildcards and connectives together.
    pub open spec fn count(self) -> nat {
        self.next + self.wildcards.len() + self.connectives.len()
    }

    /// Every level in use is below `next`, and the count fits a `usize`.
    pub open spec fn wf(self) -> bool {
        &&& forall|k: Seq<char>| #[trigger] self.bindings.contains_key(k) ==> self.bindings[k].level < self.next
        &&& self.count() <= usize::MAX
    }

    /// The map with `name` bound at the next level.
    pub open spec fn put(self, name: Seq<char>, typ: T, span: SourceSpan) -> FreeMapView<T> {
        FreeMapView {
            next: self.next + 1,
            bindings: self.bindings.insert(name, FreeContext { level: self.next as usize, typ, source_span: span }),
            wildcards: self.wildcards,
            connectives: self.connectives,
        }
    }

    /// The map with each binding of `bs` put in turn.
    pub open spec fn put_all(self, bs: Seq<IdContextSpan<T>>) -> FreeMapView<T>
        decreases bs.len(),
    {
        if bs.len() == 0 {
            self
        } else {
            self.put_all(bs.drop_last()).put(bs.last().0@, bs.last().1, bs.last().2)
        }
    }

    /// The map that results from merging `other` after `self`: the levels of
    /// `other` come after those of `self`, and its bindings win.
    pub open spec fn merged(self, other: FreeMapView<T>) -> FreeMapView<T> {
        FreeMapView {
            next: self.next + other.next,
            bindings: self.bindings.union_prefer_right(shift_levels(other.bindings, self.next)),
            wildcards: self.wildcards + other.wildcards,
            connectives: self.connectives + other.connectives,
        }
    }
}

pub proof fn lemma_put_wf<T>(v: FreeMapView<T>, name: Seq<char>, typ: T, span: SourceSpan)
    requires
        v.wf(),
        v.count() < usize::MAX,
    ensures
        v.put(name, typ, span).wf(),
{
    let p = v.put(name, typ, span);
    assert forall|k: Seq<char>| #[trigger] p.bindings.contains_key(k) implies p.bindings[k].level < p.next by {
        if k != name {
            assert(v.bindings.contains_key(k));
        }
    }
}

pub proof fn lemma_merged_wf<T>(a: FreeMapView<T>, b: FreeMapView<T>)
    requires
        a.wf(),
        b.wf(),
        a.count() + b.count() <= usize::MAX,
    ensures
        a.merged(b).wf(),
{
    let m = a.merged(b);
    assert forall|k: Seq<char>| #[trigger] m.bindings.contains_key(k) implies m.bindings[k].level < m.next by {
        if b.bindings.contains_key(k) {
            assert(b.bindings[k].level < b.next);
        } else {
            assert(a.bindings.contains_key(k));
        }
    }
}

/// Every level moved up by `offset`.
pub open spec fn shift_levels<T>(m: Map<Seq<char>, FreeContext<T>>, offset: nat) -> Map<Seq<char>, FreeContext<T>> {
    Map::new(
        |k: Seq<char>| m.contains_key(k),
        |k: Seq<char>| FreeContext { level: (m[k].level + offset) as usize, typ: m[k].typ, source_span: m[k].source_span },
    )
}

/// `shadowed` lists, once each, the names that both maps bind, with the span
/// they have in `other`.
pub open spec fn is_shadow_list<T>(
    shadowed: Seq<(String, SourceSpan)>,
    mine: Map<Seq<char>, FreeContext<T>>,
    other: Map<Seq<char>, FreeContext<T>>,
) -> bool {
    &&& forall|i: int| 0 <= i < shadowed.len() ==> {
        &&& mine.contains_key(#[trigger] shadowed[i].0@)
        &&& other.contains_key(shadowed[i].0@)
        &&& shadowed[i].1 == other[shadowed[i].0@].source_span
    }
    &&& forall|k: Seq<char>| mine.contains_key(k) && other.contains_key(k) ==>
        exists|i: int| 0 <= i < shadowed.len() && #[trigger] shadowed[i].0@ == k
    &&& keys_unique(shadowed)
}

/// The free variables, wildcards and connectives of a pattern.
pub struct FreeMap<T: Copy> {
    next_level: usize,
    level_bindings: Vec<(String, FreeContext<T>)>,
    wildcards: Vec<SourceSpan>,
    connectives: Vec<(ConnectiveInstance, SourceSpan)>,
}

impl<T: Copy> View for FreeMap<T> {
    type V = FreeMapView<T>;

    closed spec fn view(&self) -> FreeMapView<T> {
        FreeMapView {
            next: self.next_level as nat,
            bindings: assoc_map(self.level_bindings@),
            wildcards: self.wildcards@,
            connectives: self.connectives@,
        }
    }
}

impl<T: Copy> FreeMap<T> {
    #[verifier::type_invariant]
    closed spec fn inv(&self) -> bool {
        &&& keys_unique(self.level_bindings@)
        &&& self@.wf()
    }

    /// The empty map.
    pub fn new() -> (r: Self)
        ensures
            r@.next == 0,
            r@.bindings == Map::<Seq<char>, FreeContext<T>>::empty(),
            r@.wildcards == Seq::<SourceSpan>::empty(),
            r@.connectives == Seq::<(ConnectiveInstance, SourceSpan)>::empty(),
    {
        let r = FreeMap { next_level: 0, level_bindings: Vec::new(), wildcards: Vec::new(), connectives: Vec::new() };
        assert(r@.bindings =~= Map::<Seq<char>, FreeContext<T>>::empty());
        r
    }

    /// A copy of the map.
    pub fn copy(&self) -> (r: Self)
        ensures
            r@ == self@,
    {
        proof { use_type_invariant(self); }
        FreeMap {
            next_level: self.next_level,
            level_bindings: assoc_copy(&self.level_bindings),
            wildcards: copy_vec(&self.wildcards),
            connectives: copy_vec(&self.connectives),
        }
    }

    /// The context of the free variable `name`, if it is one.
    pub fn get(&self, name: &String) -> (r: Option<FreeContext<T>>)
        ensures
            r == (if self@.bindings.contains_key(name@) { Some(self@.bindings[name@]) } else { None::<FreeContext<T>> }),
    {
        proof { use_type_invariant(self); }
        match assoc_find(&self.level_bindings, name) {
            Some(i) => {
                proof { lemma_assoc_entry(self.level_bindings@, i as int); }
                Some(self.level_bindings[i].1)
            },
            None => None,
        }
    }

    /// The map with `name` added as the next free variable.
    pub fn put_span(&self, binding: IdContextSpan<T>) -> (r: Self)
        requires
            self@.count() < usize::MAX,
        ensures
            r@ == self@.put(binding.0@, binding.1, binding.2),
    {
        proof { use_type_invariant(self); }
        let (name, typ, source_span) = binding;
        let ctx = FreeContext { level: self.next_level, typ, source_span };
        let bindings = assoc_insert(&self.level_bindings, name, ctx);
        proof { lemma_put_wf(self@, binding.0@, binding.1, binding.2); }
        let r = FreeMap {
            next_level: self.next_level + 1,
            level_bindings: bindings,
            wildcards: copy_vec(&self.wildcards),
            connectives: copy_vec(&self.connectives),
        };
        assert(r@ == self@.put(binding.0@, binding.1, binding.2));
        r
    }

    /// As `put_span`, with the single-point span at the given position.
    pub fn put_pos(&self, binding: IdContextPos<T>) -> (r: Self)
        requires
            self@.count() < usize::MAX,
        ensures
            r@ == self@.put(binding.0@, binding.1, point_span(binding.2)),
    {
        let (name, typ, pos) = binding;
        let span = SourceSpan { start: pos, end: pos };
        self.put_span((name, typ, span))
    }

    /// The map with each binding added in turn.
    pub fn put_all_span(&self, bindings: Vec<IdContextSpan<T>>) -> (r: Self)
        requires
            self@.count() + bindings@.len() <= usize::MAX,
        ensures
            r@ == self@.put_all(bindings@),
    {
        let mut acc = self.copy();
        let mut i: usize = 0;
        while i < bindings.len()
            invariant
                i <= bindings@.len(),
                acc@ == self@.put_all(bindings@.subrange(0, i as int)),
                acc@.count() == self@.count() + i,
                self@.count() + bindings@.len() <= usize::MAX,
            decreases bindings@.len() - i,
        {
            let (name, typ, span) = &bindings[i];
            let b: IdContextSpan<T> = (name.clone(), *typ, *span);
            proof {
                assert(bindings@.subrange(0, i + 1).drop_last() =~= bindings@.subrange(0, i as int));
            }
            acc = acc.put_span(b);
            i = i + 1;
        }
        assert(bindings@.subrange(0, bindings@.len() as int) =~= bindings@);
        acc
    }

    /// The map with each binding added in turn, at single-point spans.
    pub fn put_all_pos(&self, bindings: Vec<IdContextPos<T>>) -> (r: Self)
        requires
            self@.count() + bindings@.len() <= usize::MAX,
        ensures
            r@ == self@.put_all(bindings@.map_values(|b: IdContextPos<T>| (b.0, b.1, point_span(b.2)))),
    {
        let mut spans: Vec<IdContextSpan<T>> = Vec::new();
        let mut i: usize = 0;
        while i < bindings.len()
            invariant
                i <= bindings@.len(),
                spans@ =~= bindings@.subrange(0, i as int).map_values(|b: IdContextPos<T>| (b.0, b.1, point_span(b.2))),
            decreases bindings@.len() - i,
        {
            let (name, typ, pos) = &bindings[i];
            spans.push((name.clone(), *typ, SourceSpan { start: *pos, end: *pos }));
            i = i + 1;
        }
        assert(bindings@.subrange(0, bindings@.len() as int) =~= bindings@);
        self.put_all_span(spans)
    }

    /// Merges `free_map` after this map. Returns the merged map and, once
    /// each, the names both maps bind (with their span in `free_map`).
    pub fn merge(&self, free_map: FreeMap<T>) -> (r: (FreeMap<T>, Vec<(String, SourceSpan)>))
        requires
            self@.count() + free_map@.count() <= usize::MAX,
        ensures
            r.0@ == self@.merged(free_map@),
            is_shadow_list(r.1@, self@.bindings, free_map@.bindings),
    {
        proof {
            use_type_invariant(self);
            use_type_invariant(&free_map);
        }
        let other = &free_map.level_bindings;
        let mut acc = assoc_copy(&self.level_bindings);
        let mut shadowed: Vec<(String, SourceSpan)> = Vec::new();
        let mut i: usize = 0;
        while i < other.len()
            invariant
                i <= other@.len(),
                keys_unique(other@),
                keys_unique(self.level_bindings@),
                keys_unique(acc@),
                free_map@.wf(),
                self@.wf(),
                free_map.level_bindings@ == other@,
                self@.count() + free_map@.count() <= usize::MAX,
                assoc_map(acc@) =~= assoc_map(self.level_bindings@).union_prefer_right(
                    shift_levels(assoc_map(other@.subrange(0, i as int)), self.next_level as nat)),
                is_shadow_list(shadowed@, assoc_map(self.level_bindings@), assoc_map(other@.subrange(0, i as int))),
            decreases other@.len() - i,
        {
            let ghost prefix = other@.subrange(0, i as int);
            let ghost next_prefix = other@.subrange(0, i + 1);
            let (name, ctx) = &other[i];
            proof {
                assert(next_prefix =~= prefix.push(other@[i as int]));
                assert(!has_key(prefix, name@)) by {
                    if has_key(prefix, name@) {
                        let j = choose|j: int| 0 <= j < prefix.len() && #[trigger] prefix[j].0@ == name@;
                        assert(prefix[j] == other@[j]);
                    }
                }
                assert(keys_unique(prefix)) by {
                    assert forall|a: int, b: int| 0 <= a < prefix.len() && 0 <= b < prefix.len() && a != b
                        implies #[trigger] prefix[a].0@ != #[trigger] prefix[b].0@ by {
                        assert(prefix[a] == other@[a] && prefix[b] == other@[b]);
                    }
                }
                lemma_assoc_push(prefix, other@[i as int].0, other@[i as int].1);
                lemma_assoc_entry(other@, i as int);
                assert(*ctx == other@[i as int].1);
                assert(free_map@.bindings.contains_key(other@[i as int].0@));
                assert(ctx.level < free_map.next_level);
            }
            let shifted = FreeContext { level: ctx.level + self.next_level, typ: ctx.typ, source_span: ctx.source_span };
            acc = assoc_insert(&acc, name.clone(), shifted);
            let found = assoc_find(&self.level_bindings, name);
            let ghost old_shadowed = shadowed@;
            if found.is_some() {
                shadowed.insert(0, (name.clone(), ctx.source_span));
            }
            proof {
                let m_prefix = assoc_map(prefix);
                let m_next = assoc_map(next_prefix);
                assert(m_next =~= m_prefix.insert(name@, *ctx));
                assert(shift_levels(m_next, self.next_level as nat) =~=
                    shift_levels(m_prefix, self.next_level as nat).insert(name@, shifted));
                let mine = assoc_map(self.level_bindings@);
                if found.is_some() {
                    lemma_assoc_entry(self.level_bindings@, found.unwrap() as int);
                    assert(mine.contains_key(name@));
                    assert(shadowed@ =~= seq![(*name, ctx.source_span)] + old_shadowed);
                    assert forall|a: int| 0 <= a < shadowed@.len() implies {
                        &&& mine.contains_key(#[trigger] shadowed@[a].0@)
                        &&& m_next.contains_key(shadowed@[a].0@)
                        &&& shadowed@[a].1 == m_next[shadowed@[a].0@].source_span
                    } by {
                        if a > 0 {
                            assert(shadowed@[a] == old_shadowed[a - 1]);
                        }
                    }
                    assert forall|k: Seq<char>| mine.contains_key(k) && m_next.contains_key(k) implies
                        exists|a: int| 0 <= a < shadowed@.len() && #[trigger] shadowed@[a].0@ == k by {
                        if k == name@ {
                            assert(shadowed@[0].0@ == k);
                        } else {
                            let a = choose|a: int| 0 <= a < old_shadowed.len() && #[trigger] old_shadowed[a].0@ == k;
                            assert(shadowed@[a + 1] == old_shadowed[a]);
                        }
                    }
                    assert forall|a: int, b: int| 0 <= a < shadowed@.len() && 0 <= b < shadowed@.len() && a != b
                        implies #[trigger] shadowed@[a].0@ != #[trigger] shadowed@[b].0@ by {
                        if a > 0 && b > 0 {
                            assert(shadowed@[a] == old_shadowed[a - 1]);
                            assert(shadowed@[b] == old_shadowed[b - 1]);
                        } else if a > 0 {
                            assert(shadowed@[a] == old_shadowed[a - 1]);
                            assert(m_prefix.contains_key(old_shadowed[a - 1].0@));
                        } else {
                            assert(shadowed@[b] == old_shadowed[b - 1]);
                            assert(m_prefix.contains_key(old_shadowed[b - 1].0@));
                        }
                    }
                } else {
                    lemma_assoc_absent(self.level_bindings@, name@);
                    assert forall|k: Seq<char>| mine.contains_key(k) && m_next.contains_key(k) implies
                        exists|a: int| 0 <= a < shadowed@.len() && #[trigger] shadowed@[a].0@ == k by {
                        assert(k != name@);
                        assert(m_prefix.contains_key(k));
                    }
                }
            }
            i = i + 1;
        }
        proof {
            assert(other@.subrange(0, other@.len() as int) =~= other@);
        }
        let mut wildcards = copy_vec(&self.wildcards);
        let mut more_wildcards = copy_vec(&free_map.wildcards);
        wildcards.append(&mut more_wildcards);
        let mut connectives = copy_vec(&self.connectives);
        let mut more_connectives = copy_vec(&free_map.connectives);
        connectives.append(&mut more_connectives);
        proof {
            lemma_merged_wf(self@, free_map@);
            assert(assoc_map(acc@) =~= self@.merged(free_map@).bindings);
        }
        let merged = FreeMap {
            next_level: self.next_level + free_map.next_level,
            level_bindings: acc,
            wildcards,
            connectives,
        };
        proof {
            let mv = merged@;
            assert(mv.bindings =~= self@.merged(free_map@).bindings);
            assert forall|k: Seq<char>| #[trigger] mv.bindings.contains_key(k) implies mv.bindings[k].level < mv.next by {
                if free_map@.bindings.contains_key(k) {
                } else {
                    assert(self@.bindings.contains_key(k));
                }
            }
        }
        (merged, shadowed)
    }

    /// The map with one more wildcard, at `source_span`.
    pub fn add_wildcard(&self, source_span: SourceSpan) -> (r: Self)
        requires
            self@.count() < usize::MAX,
        ensures
            r@ == (FreeMapView { wildcards: self@.wildcards.push(source_span), ..self@ }),
    {
        proof { use_type_invariant(self); }
        let mut wildcards = copy_vec(&self.wildcards);
        wildcards.push(source_span);
        FreeMap {
            next_level: self.next_level,
            level_bindings: assoc_copy(&self.level_bindings),
            wildcards,
            connectives: copy_vec(&self.connectives),
        }
    }

    /// The map with one more connective, at `source_span`.
    pub fn add_connective(&self, connective: ConnectiveInstance, source_span: SourceSpan) -> (r: Self)
        requires
            self@.count() < usize::MAX,
        ensures
            r@ == (FreeMapView { connectives: self@.connectives.push((connective, source_span)), ..self@ }),
    {
        proof { use_type_invariant(self); }
        let mut connectives = copy_vec(&self.connectives);
        connectives.push((connective, source_span));
        FreeMap {
            next_level: self.next_level,
            level_bindings: assoc_copy(&self.level_bindings),
            wildcards: copy_vec(&self.wildcards),
            connectives,
        }
    }

    /// Free variables, wildcards and connectives together.
    pub fn count(&self) -> (r: usize)
        ensures
            r == self@.count(),
            self@.wf(),
    {
        proof { use_type_invariant(self); }
        self.next_level + self.wildcards.len() + self.connectives.len()
    }

    /// The number of free variables: the level the next one gets.
    pub fn count_no_wildcards(&self) -> (r: usize)
        ensures
            r == self@.next,
            self@.wf(),
    {
        proof { use_type_invariant(self); }
        self.next_level
    }

    /// The level the next free variable gets.
    pub fn next_level(&self) -> (r: usize)
        ensures
            r == self@.next,
    {
        self.next_level
    }

    /// The spans of the wildcards, in the order they were met.
    pub fn wildcards(&self) -> (r: Vec<SourceSpan>)
        ensures
            r@ == self@.wildcards,
    {
        copy_vec(&self.wildcards)
    }

    /// The connectives, in the order they were met.
    pub fn connectives(&self) -> (r: Vec<(ConnectiveInstance, SourceSpan)>)
        ensures
            r@ == self@.connectives,
    {
        copy_vec(&self.connectives)
    }

    /// The free variables with their contexts, each once.
    pub fn level_bindings(&self) -> (r: Vec<(String, FreeContext<T>)>)
        ensures
            keys_unique(r@),
            assoc_map(r@) == self@.bindings,
    {
        proof { use_type_invariant(self); }
        assoc_copy(&self.level_bindings)
    }
}

impl<T: Copy> Default for FreeMap<T> {
    /// The empty map.
    fn default() -> (r: Self)
        ensures
            r@.next == 0,
            r@.bindings == Map::<Seq<char>, FreeContext<T>>::empty(),
            r@.wildcards == Seq::<SourceSpan>::empty(),
            r@.connectives == Seq::<(ConnectiveInstance, SourceSpan)>::empty(),
    {
        Self::new()
    }
}

} // verus!
