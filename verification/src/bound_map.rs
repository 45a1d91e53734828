//! The variables bound around the term being normalized, with their de Bruijn
//! indices, and the chain of such maps that nested patterns open.
use vstd::prelude::*;
use crate::assoc::{assoc_copy, assoc_find, assoc_insert, assoc_map, keys_unique, lemma_assoc_entry};
use crate::context::{BoundContext, FreeContext, IdContextPos, IdContextSpan};
use crate::free_map::{FreeMap, FreeMapView};
use crate::span::{point_span, SourceSpan};

verus! {

/// What a bound map stands for. Each binding records its binder's position
/// (0 for the first binder); a lookup turns it into a de Bruijn index.
pub struct BoundMapView<T> {
    /// The position the next binder gets.
    pub next: nat,
    pub bindings: Map<Seq<char>, BoundContext<T>>,
}

impl<T> BoundMapView<T> {
    pub open spec fn wf(self) -> bool {
        &&& forall|k: Seq<char>| #[trigger] self.bindings.contains_key(k) ==> self.bindings[k].index < self.next
        &&& self.next <= usize::MAX
    }

    /// What a lookup of `name` reports: the binding, with its index counted
    /// from the most recent binder.
    pub open spec fn lookup(self, name: Seq<char>) -> Option<BoundContext<T>> {
        if self.bindings.contains_key(name) {
            let c = self.bindings[name];
            Some(BoundContext { index: (self.next - c.index - 1) as usize, typ: c.typ, source_span: c.source_span })
        } else {
            None
        }
    }

    /// The map with `name` bound by one more binder.
    pub open spec fn put(self, name: Seq<char>, typ: T, span: SourceSpan) -> BoundMapView<T> {
        BoundMapView {
            next: self.next + 1,
            bindings: self.bindings.insert(name, BoundContext { index: self.next as usize, typ, source_span: span }),
        }
    }

    pub open spec fn put_all(self, bs: Seq<IdContextSpan<T>>) -> BoundMapView<T>
        decreases bs.len(),
    {
        if bs.len() == 0 {
            self
        } else {
            self.put_all(bs.drop_last()).put(bs.last().0@, bs.last().1, bs.last().2)
        }
    }

    /// The map in which the free variables of a pattern become bound, after
    /// the binders already here, in the order of their levels.
    pub open spec fn absorb(self, free: FreeMapView<T>) -> BoundMapView<T> {
        BoundMapView {
            next: self.next + free.next,
            bindings: self.bindings.union_prefer_right(levels_as_binders(free.bindings, self.next)),
        }
    }
}

/// Free variables at levels `l` become binders at positions `offset + l`.
pub open spec fn levels_as_binders<T>(m: Map<Seq<char>, FreeContext<T>>, offset: nat) -> Map<Seq<char>, BoundContext<T>> {
    Map::new(
        |k: Seq<char>| m.contains_key(k),
        |k: Seq<char>| BoundContext { index: (m[k].level + offset) as usize, typ: m[k].typ, source_span: m[k].source_span },
    )
}

pub open spec fn empty_bound_view<T>() -> BoundMapView<T> {
    BoundMapView { next: 0, bindings: Map::empty() }
}

pub proof fn lemma_bound_put_wf<T>(v: BoundMapView<T>, name: Seq<char>, typ: T, span: SourceSpan)
    requires
        v.wf(),
        v.next < usize::MAX,
    ensures
        v.put(name, typ, span).wf(),
{
    let p = v.put(name, typ, span);
    assert forall|k: Seq<char>| #[trigger] p.bindings.contains_key(k) implies p.bindings[k].index < p.next by {
        if k != name {
            assert(v.bindings.contains_key(k));
        }
    }
}

pub proof fn lemma_absorb_wf<T>(v: BoundMapView<T>, free: FreeMapView<T>)
    requires
        v.wf(),
        free.wf(),
        v.next + free.next <= usize::MAX,
    ensures
        v.absorb(free).wf(),
{
    let a = v.absorb(free);
    assert forall|k: Seq<char>| #[trigger] a.bindings.contains_key(k) implies a.bindings[k].index < a.next by {
        if free.bindings.contains_key(k) {
            assert(free.bindings[k].level < free.next);
        } else {
            assert(v.bindings.contains_key(k));
        }
    }
}

/// The variables bound in one pattern scope.
pub struct BoundMap<T: Copy> {
    next_index: usize,
    index_bindings: Vec<(String, BoundContext<T>)>,
}

impl<T: Copy> View for BoundMap<T> {
    type V = BoundMapView<T>;

    closed spec fn view(&self) -> BoundMapView<T> {
        BoundMapView { next: self.next_index as nat, bindings: assoc_map(self.index_bindings@) }
    }
}

impl<T: Copy> BoundMap<T> {
    #[verifier::type_invariant]
    closed spec fn inv(&self) -> bool {
        &&& keys_unique(self.index_bindings@)
        &&& self@.wf()
    }

    /// The empty map.
    pub fn new() -> (r: Self)
        ensures
            r@ == empty_bound_view::<T>(),
            r@.wf(),
    {
        let r = BoundMap { next_index: 0, index_bindings: Vec::new() };
        assert(r@.bindings =~= Map::<Seq<char>, BoundContext<T>>::empty());
        r
    }

    /// A copy of the map.
    pub fn copy(&self) -> (r: Self)
        ensures
            r@ == self@,
            r@.wf(),
    {
        proof { use_type_invariant(self); }
        BoundMap { next_index: self.next_index, index_bindings: assoc_copy(&self.index_bindings) }
    }

    /// The binding of `name`, with its de Bruijn index, if it is bound.
    pub fn get(&self, name: &String) -> (r: Option<BoundContext<T>>)
        ensures
            r == self@.lookup(name@),
            self@.wf(),
    {
        proof { use_type_invariant(self); }
        match assoc_find(&self.index_bindings, name) {
            Some(i) => {
                proof { lemma_assoc_entry(self.index_bindings@, i as int); }
                let c = self.index_bindings[i].1;
                Some(BoundContext { index: self.next_index - c.index - 1, typ: c.typ, source_span: c.source_span })
            },
            None => None,
        }
    }

    /// The map with `name` bound by one more binder.
    pub fn put_span(&self, binding: IdContextSpan<T>) -> (r: Self)
        requires
            self@.next < usize::MAX,
        ensures
            r@ == self@.put(binding.0@, binding.1, binding.2),
            r@.wf(),
    {
        proof {
            use_type_invariant(self);
            lemma_bound_put_wf(self@, binding.0@, binding.1, binding.2);
        }
        let (name, typ, source_span) = binding;
        let ctx = BoundContext { index: self.next_index, typ, source_span };
        let bindings = assoc_insert(&self.index_bindings, name, ctx);
        BoundMap { next_index: self.next_index + 1, index_bindings: bindings }
    }

    /// As `put_span`, with the single-point span at the given position.
    pub fn put_pos(&self, binding: IdContextPos<T>) -> (r: Self)
        requires
            self@.next < usize::MAX,
        ensures
            r@ == self@.put(binding.0@, binding.1, point_span(binding.2)),
            r@.wf(),
    {
        let (name, typ, pos) = binding;
        self.put_span((name, typ, SourceSpan { start: pos, end: pos }))
    }

    /// The map with each binding bound in turn.
    pub fn put_all_span(&self, bindings: Vec<IdContextSpan<T>>) -> (r: Self)
        requires
            self@.next + bindings@.len() <= usize::MAX,
        ensures
            r@ == self@.put_all(bindings@),
            r@.wf(),
    {
        let mut acc = self.copy();
        let mut i: usize = 0;
        while i < bindings.len()
            invariant
                i <= bindings@.len(),
                acc@ == self@.put_all(bindings@.subrange(0, i as int)),
                acc@.next == self@.next + i,
                acc@.wf(),
                self@.next + bindings@.len() <= usize::MAX,
            decreases bindings@.len() - i,
        {
            let (name, typ, span) = &bindings[i];
            let b: IdContextSpan<T> = (name.clone(), *typ, *span);
            proof {
                assert(bindings@.subrange(0, i + 1).drop_last() =~= bindings@.subrange(0, i as int));
            }
            acc = acc.put_span(b);
            i = i + 1;
        }
        assert(bindings@.subrange(0, bindings@.len() as int) =~= bindings@);
        acc
    }

    /// The map with each binding bound in turn, at single-point spans.
    pub fn put_all_pos(&self, bindings: Vec<IdContextPos<T>>) -> (r: Self)
        requires
            self@.next + bindings@.len() <= usize::MAX,
        ensures
            r@ == self@.put_all(bindings@.map_values(|b: IdContextPos<T>| (b.0, b.1, point_span(b.2)))),
            r@.wf(),
    {
        self.put_all_span(pos_bindings_to_spans(&bindings))
    }

    /// The map in which the free variables of `free_map` become bound.
    pub fn absorb_free_span(&self, free_map: &FreeMap<T>) -> (r: Self)
        requires
            self@.next + free_map@.next <= usize::MAX,
        ensures
            r@ == self@.absorb(free_map@),
            r@.wf(),
    {
        proof { use_type_invariant(self); }
        let free_next = free_map.count_no_wildcards();
        let entries = free_map.level_bindings();
        let mut acc = assoc_copy(&self.index_bindings);
        let mut i: usize = 0;
        while i < entries.len()
            invariant
                i <= entries@.len(),
                keys_unique(entries@),
                keys_unique(acc@),
                assoc_map(entries@) == free_map@.bindings,
                free_map@.wf(),
                self@.wf(),
                free_next == free_map@.next,
                self@.next + free_map@.next <= usize::MAX,
                assoc_map(acc@) =~= self@.bindings.union_prefer_right(
                    levels_as_binders(assoc_map(entries@.subrange(0, i as int)), self@.next)),
            decreases entries@.len() - i,
        {
            let ghost prefix = entries@.subrange(0, i as int);
            let (name, ctx) = &entries[i];
            proof {
                assert(entries@.subrange(0, i + 1) =~= prefix.push(entries@[i as int]));
                assert(keys_unique(prefix)) by {
                    assert forall|a: int, b: int| 0 <= a < prefix.len() && 0 <= b < prefix.len() && a != b
                        implies #[trigger] prefix[a].0@ != #[trigger] prefix[b].0@ by {
                        assert(prefix[a] == entries@[a] && prefix[b] == entries@[b]);
                    }
                }
                assert(!crate::assoc::has_key(prefix, name@)) by {
                    if crate::assoc::has_key(prefix, name@) {
                        let j = choose|j: int| 0 <= j < prefix.len() && #[trigger] prefix[j].0@ == name@;
                        assert(prefix[j] == entries@[j]);
                    }
                }
                crate::assoc::lemma_assoc_push(prefix, entries@[i as int].0, entries@[i as int].1);
                lemma_assoc_entry(entries@, i as int);
                assert(*ctx == entries@[i as int].1);
                assert(free_map@.bindings.contains_key(entries@[i as int].0@));
            }
            let shifted = BoundContext { index: ctx.level + self.next_index, typ: ctx.typ, source_span: ctx.source_span };
            acc = assoc_insert(&acc, name.clone(), shifted);
            proof {
                let m_prefix = assoc_map(prefix);
                let m_next = assoc_map(entries@.subrange(0, i + 1));
                assert(m_next =~= m_prefix.insert(name@, *ctx));
                assert(levels_as_binders(m_next, self@.next) =~= levels_as_binders(m_prefix, self@.next).insert(name@, shifted));
            }
            i = i + 1;
        }
        proof {
            assert(entries@.subrange(0, entries@.len() as int) =~= entries@);
            lemma_absorb_wf(self@, free_map@);
        }
        BoundMap { next_index: self.next_index + free_next, index_bindings: acc }
    }

    /// The number of binders so far.
    pub fn get_count(&self) -> (r: usize)
        ensures
            r == self@.next,
            self@.wf(),
    {
        proof { use_type_invariant(self); }
        self.next_index
    }
}

/// The bindings with single-point spans at their positions.
pub fn pos_bindings_to_spans<T: Copy>(bindings: &Vec<IdContextPos<T>>) -> (r: Vec<IdContextSpan<T>>)
    ensures
        r@ == bindings@.map_values(|b: IdContextPos<T>| (b.0, b.1, point_span(b.2))),
{
    let mut spans: Vec<IdContextSpan<T>> = Vec::new();
    let mut i: usize = 0;
    while i < bindings.len()
        invariant
            i <= bindings@.len(),
            spans@ =~= bindings@.subrange(0, i as int).map_values(|b: IdContextPos<T>| (b.0, b.1, point_span(b.2))),
        decreases bindings@.len() - i,
    {
        let (name, typ, pos) = &bindings[i];
        spans.push((name.clone(), *typ, SourceSpan { start: *pos, end: *pos }));
        i = i + 1;
    }
    assert(bindings@.subrange(0, bindings@.len() as int) =~= bindings@);
    spans
}

/// Looking up a name just bound reports index 0, its sort and its span.
pub proof fn lemma_lookup_after_put<T>(m: BoundMapView<T>, name: Seq<char>, typ: T, span: SourceSpan)
    requires
        m.wf(),
    ensures
        m.put(name, typ, span).lookup(name) == Some(BoundContext { index: 0usize, typ, source_span: span }),
{
}

/// Binding another name moves every other bound variable one index further
/// out and keeps its sort and span.
pub proof fn lemma_lookup_other_after_put<T>(m: BoundMapView<T>, name: Seq<char>, other: Seq<char>, typ: T, span: SourceSpan)
    requires
        m.wf(),
        name != other,
    ensures
        m.put(name, typ, span).lookup(other) == match m.lookup(other) {
            Some(c) => Some(BoundContext { index: (c.index + 1) as usize, typ: c.typ, source_span: c.source_span }),
            None => None::<BoundContext<T>>,
        },
{
}

/// After absorbing a pattern's free variables, the one at level `l` of `n`
/// is found at index `n - 1 - l`: the last one met is the innermost binder.
pub proof fn lemma_lookup_after_absorb<T>(m: BoundMapView<T>, free: FreeMapView<T>, name: Seq<char>)
    requires
        m.wf(),
        free.wf(),
        free.bindings.contains_key(name),
        m.next + free.next <= usize::MAX,
    ensures
        m.absorb(free).lookup(name) == Some(BoundContext {
            index: (free.next - free.bindings[name].level - 1) as usize,
            typ: free.bindings[name].typ,
            source_span: free.bindings[name].source_span,
        }),
{
    assert(free.bindings[name].level < free.next);
}

/// The chain of bound maps: the first is the innermost pattern scope.
pub struct BoundMapChain<T: Copy> {
    chain: Vec<BoundMap<T>>,
}

impl<T: Copy> View for BoundMapChain<T> {
    type V = Seq<BoundMapView<T>>;

    closed spec fn view(&self) -> Seq<BoundMapView<T>> {
        self.chain@.map_values(|m: BoundMap<T>| m@)
    }
}

/// The first scope, from the innermost, in which `name` is bound, with the
/// binding as that scope reports it.
pub open spec fn chain_find<T>(c: Seq<BoundMapView<T>>, name: Seq<char>) -> Option<(BoundContext<T>, usize)>
    decreases c.len(),
{
    if c.len() == 0 {
        None
    } else if c[0].lookup(name) is Some {
        Some((c[0].lookup(name).unwrap(), 0usize))
    } else {
        match chain_find(c.drop_first(), name) {
            Some((ctx, d)) => Some((ctx, (d + 1) as usize)),
            None => None,
        }
    }
}

pub open spec fn shift_depth<T>(o: Option<(BoundContext<T>, usize)>, d: nat) -> Option<(BoundContext<T>, usize)> {
    match o {
        Some(p) => Some((p.0, (p.1 + d) as usize)),
        None => None,
    }
}

pub proof fn lemma_chain_find_depth<T>(c: Seq<BoundMapView<T>>, name: Seq<char>)
    requires
        c.len() <= usize::MAX,
    ensures
        chain_find(c, name) matches Some(p) ==> p.1 < c.len(),
    decreases c.len(),
{
    if c.len() > 0 {
        lemma_chain_find_depth(c.drop_first(), name);
    }
}

/// A well-formed chain has at least one scope, each well formed.
pub open spec fn chain_wf<T>(c: Seq<BoundMapView<T>>) -> bool {
    &&& c.len() >= 1
    &&& forall|i: int| 0 <= i < c.len() ==> #[trigger] c[i].wf()
    &&& c.len() <= usize::MAX
}

impl<T: Copy> BoundMapChain<T> {
    #[verifier::type_invariant]
    closed spec fn inv(&self) -> bool {
        chain_wf(self@)
    }

    fn from_maps(chain: Vec<BoundMap<T>>) -> (r: Self)
        requires
            chain_wf(chain@.map_values(|m: BoundMap<T>| m@)),
        ensures
            r@ == chain@.map_values(|m: BoundMap<T>| m@),
    {
        BoundMapChain { chain }
    }

    fn copy_maps(&self) -> (r: Vec<BoundMap<T>>)
        ensures
            r@.map_values(|m: BoundMap<T>| m@) == self@,
    {
        let mut r: Vec<BoundMap<T>> = Vec::new();
        let mut i: usize = 0;
        while i < self.chain.len()
            invariant
                i <= self.chain@.len(),
                r@.map_values(|m: BoundMap<T>| m@) =~= self@.subrange(0, i as int),
            decreases self.chain@.len() - i,
        {
            let c = self.chain[i].copy();
            let ghost before = r@;
            r.push(c);
            proof {
                assert(self@[i as int] == self.chain@[i as int]@);
                assert(r@.map_values(|m: BoundMap<T>| m@) =~= before.map_values(|m: BoundMap<T>| m@).push(c@));
                assert(self@.subrange(0, i + 1) =~= self@.subrange(0, i as int).push(self@[i as int]));
            }
            i = i + 1;
        }
        r
    }

    /// A chain with one empty scope.
    pub fn new() -> (r: Self)
        ensures
            r@ == seq![empty_bound_view::<T>()],
    {
        let mut chain: Vec<BoundMap<T>> = Vec::new();
        chain.push(BoundMap::new());
        proof {
            assert(chain@.map_values(|m: BoundMap<T>| m@) =~= seq![empty_bound_view::<T>()]);
        }
        Self::from_maps(chain)
    }

    /// A copy of the chain.
    pub fn copy(&self) -> (r: Self)
        ensures
            r@ == self@,
    {
        proof { use_type_invariant(self); }
        Self::from_maps(self.copy_maps())
    }

    /// The binding of `name` in the innermost scope, if it has one.
    pub fn get(&self, name: &String) -> (r: Option<BoundContext<T>>)
        ensures
            r == self@[0].lookup(name@),
            chain_wf(self@),
    {
        proof { use_type_invariant(self); }
        self.chain[0].get(name)
    }

    /// The binding of `name` in the innermost scope that has one, with the
    /// number of scopes between (0 for the innermost).
    pub fn find(&self, name: &String) -> (r: Option<(BoundContext<T>, usize)>)
        ensures
            r == chain_find(self@, name@),
    {
        proof { use_type_invariant(self); }
        let mut d = self.chain.len();
        let mut result: Option<(BoundContext<T>, usize)> = None;
        while d > 0
            invariant
                d <= self.chain@.len(),
                chain_wf(self@),
                result == shift_depth(chain_find(self@.subrange(d as int, self@.len() as int), name@), d as nat),
            decreases d,
        {
            let ghost rest = self@.subrange(d as int, self@.len() as int);
            let ghost here = self@.subrange(d - 1, self@.len() as int);
            d = d - 1;
            proof {
                assert(here.drop_first() =~= rest);
                assert(here[0] == self@[d as int]);
                assert(self@[d as int] == self.chain@[d as int]@);
            }
            let found = self.chain[d].get(name);
            proof {
                if found is Some {
                    assert(chain_find(here, name@) == Some((here[0].lookup(name@).unwrap(), 0usize)));
                } else {
                    lemma_chain_find_depth(rest, name@);
                    assert(chain_find(here, name@) == shift_depth(chain_find(rest, name@), 1));
                }
            }
            match found {
                Some(ctx) => {
                    result = Some((ctx, d));
                },
                None => {},
            }
        }
        proof {
            assert(self@.subrange(0, self@.len() as int) =~= self@);
        }
        match result {
            Some(p) => Some(p),
            None => None,
        }
    }

    fn with_first(&self, first: BoundMap<T>) -> (r: Self)
        requires
            chain_wf(self@),
            first@.wf(),
        ensures
            r@ == self@.update(0, first@),
    {
        let mut maps = self.copy_maps();
        maps.set(0, first);
        proof {
            assert(maps@.map_values(|m: BoundMap<T>| m@) =~= self@.update(0, first@));
        }
        Self::from_maps(maps)
    }

    /// The chain with `name` bound in the innermost scope.
    pub fn put_span(&self, binding: IdContextSpan<T>) -> (r: Self)
        requires
            self@[0].next < usize::MAX,
        ensures
            r@ == self@.update(0, self@[0].put(binding.0@, binding.1, binding.2)),
    {
        proof { use_type_invariant(self); }
        let first = self.chain[0].put_span(binding);
        self.with_first(first)
    }

    /// As `put_span`, with the single-point span at the given position.
    pub fn put_pos(&self, binding: IdContextPos<T>) -> (r: Self)
        requires
            self@[0].next < usize::MAX,
        ensures
            r@ == self@.update(0, self@[0].put(binding.0@, binding.1, point_span(binding.2))),
    {
        proof { use_type_invariant(self); }
        let first = self.chain[0].put_pos(binding);
        self.with_first(first)
    }

    /// The chain with each binding bound in turn in the innermost scope.
    pub fn put_all_span(&self, bindings: Vec<IdContextSpan<T>>) -> (r: Self)
        requires
            self@[0].next + bindings@.len() <= usize::MAX,
        ensures
            r@ == self@.update(0, self@[0].put_all(bindings@)),
    {
        proof { use_type_invariant(self); }
        let first = self.chain[0].put_all_span(bindings);
        self.with_first(first)
    }

    /// As `put_all_span`, at single-point spans.
    pub fn put_all_pos(&self, bindings: Vec<IdContextPos<T>>) -> (r: Self)
        requires
            self@[0].next + bindings@.len() <= usize::MAX,
        ensures
            r@ == self@.update(0, self@[0].put_all(bindings@.map_values(|b: IdContextPos<T>| (b.0, b.1, point_span(b.2))))),
    {
        proof { use_type_invariant(self); }
        let first = self.chain[0].put_all_pos(bindings);
        self.with_first(first)
    }

    /// The chain in which the free variables of `free_map` become bound in
    /// the innermost scope.
    pub fn absorb_free_span(&self, free_map: &FreeMap<T>) -> (r: Self)
        requires
            self@[0].next + free_map@.next <= usize::MAX,
        ensures
            r@ == self@.update(0, self@[0].absorb(free_map@)),
    {
        proof { use_type_invariant(self); }
        let first = self.chain[0].absorb_free_span(free_map);
        self.with_first(first)
    }

    /// The chain with a new, empty innermost scope.
    pub fn push(&self) -> (r: Self)
        requires
            self@.len() < usize::MAX,
        ensures
            r@ == seq![empty_bound_view::<T>()] + self@,
    {
        proof { use_type_invariant(self); }
        let mut maps = self.copy_maps();
        maps.insert(0, BoundMap::new());
        proof {
            assert(maps@.map_values(|m: BoundMap<T>| m@) =~= seq![empty_bound_view::<T>()] + self@);
        }
        Self::from_maps(maps)
    }

    /// The number of binders in the innermost scope.
    pub fn get_count(&self) -> (r: usize)
        ensures
            r == self@[0].next,
            chain_wf(self@),
    {
        proof { use_type_invariant(self); }
        self.chain[0].get_count()
    }

    /// The number of enclosing scopes: 0 for a chain of one.
    pub fn depth(&self) -> (r: usize)
        ensures
            r == self@.len() - 1,
            chain_wf(self@),
    {
        proof { use_type_invariant(self); }
        self.chain.len() - 1
    }
}

/// Opening a new innermost scope moves every variable one pattern level
/// further out: a lookup through the longer chain finds the same binding at
/// one more depth.
pub proof fn law_push_shifts_depth<T>(c: Seq<BoundMapView<T>>, name: Seq<char>)
    ensures
        chain_find(seq![empty_bound_view::<T>()] + c, name) == shift_depth(chain_find(c, name), 1),
{
    let longer = seq![empty_bound_view::<T>()] + c;
    assert(longer.drop_first() =~= c);
    assert(longer[0].lookup(name) is None);
}

impl<T: Copy> Default for BoundMap<T> {
    /// The empty map.
    fn default() -> (r: Self)
        ensures
            r@ == empty_bound_view::<T>(),
    {
        Self::new()
    }
}

impl<T: Copy> Default for BoundMapChain<T> {
    /// A chain with one empty scope.
    fn default() -> (r: Self)
        ensures
            r@ == seq![empty_bound_view::<T>()],
    {
        Self::new()
    }
}

} // verus!
