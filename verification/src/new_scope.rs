//! The scope a `new` opens: its declarations, ordered by the system URI they
//! are bound to (plain names first, then URIs in lexicographic order, keeping
//! the written order among equals), bound as names in the innermost scope.
use vstd::prelude::*;
use crate::ast::NameDecl;
use crate::bound_map::{BoundMapChain, BoundMapView};
use crate::context::{IdContextPos, VarSort};
use crate::span::{point_span, SourcePos};

verus! {

/// Strict lexicographic order on texts, character by character (which is
/// the byte order of their UTF-8 encodings).
pub open spec fn text_lt(a: Seq<char>, b: Seq<char>) -> bool
    decreases a.len(),
{
    if a.len() == 0 {
        b.len() > 0
    } else if b.len() == 0 {
        false
    } else if a[0] != b[0] {
        (a[0] as int) < (b[0] as int)
    } else {
        text_lt(a.drop_first(), b.drop_first())
    }
}

/// Strict order on optional URIs: no URI comes before any URI.
pub open spec fn uri_lt(a: Option<Seq<char>>, b: Option<Seq<char>>) -> bool {
    match (a, b) {
        (None, Some(_)) => true,
        (Some(x), Some(y)) => text_lt(x, y),
        _ => false,
    }
}

pub proof fn lemma_text_lt_irreflexive(a: Seq<char>)
    ensures
        !text_lt(a, a),
    decreases a.len(),
{
    if a.len() > 0 {
        lemma_text_lt_irreflexive(a.drop_first());
    }
}

pub proof fn lemma_text_lt_transitive(a: Seq<char>, b: Seq<char>, c: Seq<char>)
    requires
        text_lt(a, b),
        text_lt(b, c),
    ensures
        text_lt(a, c),
    decreases a.len(),
{
    if a.len() > 0 && b.len() > 0 && c.len() > 0 && a[0] == b[0] && b[0] == c[0] {
        lemma_text_lt_transitive(a.drop_first(), b.drop_first(), c.drop_first());
    }
}

pub proof fn lemma_text_lt_total(a: Seq<char>, b: Seq<char>)
    ensures
        text_lt(a, b) || text_lt(b, a) || a == b,
    decreases a.len(),
{
    if a.len() > 0 && b.len() > 0 {
        if a[0] == b[0] {
            lemma_text_lt_total(a.drop_first(), b.drop_first());
            if a.drop_first() == b.drop_first() {
                assert(a =~= seq![a[0]] + a.drop_first());
                assert(b =~= seq![b[0]] + b.drop_first());
            }
        } else {
            assert((a[0] as int) != (b[0] as int));
        }
    } else if a.len() == 0 && b.len() == 0 {
        assert(a =~= b);
    }
}

pub proof fn lemma_uri_lt_facts()
    ensures
        forall|a: Option<Seq<char>>| !#[trigger] uri_lt(a, a),
        forall|a: Option<Seq<char>>, b: Option<Seq<char>>, c: Option<Seq<char>>|
            #[trigger] uri_lt(a, b) && #[trigger] uri_lt(b, c) ==> uri_lt(a, c),
        forall|a: Option<Seq<char>>, b: Option<Seq<char>>|
            #[trigger] uri_lt(a, b) || #[trigger] uri_lt(b, a) || a == b,
{
    assert forall|a: Option<Seq<char>>| !#[trigger] uri_lt(a, a) by {
        if let Some(x) = a {
            lemma_text_lt_irreflexive(x);
        }
    }
    assert forall|a: Option<Seq<char>>, b: Option<Seq<char>>, c: Option<Seq<char>>|
        #[trigger] uri_lt(a, b) && #[trigger] uri_lt(b, c) implies uri_lt(a, c) by {
        if let (Some(x), Some(y), Some(z)) = (a, b, c) {
            lemma_text_lt_transitive(x, y, z);
        }
    }
    assert forall|a: Option<Seq<char>>, b: Option<Seq<char>>|
        #[trigger] uri_lt(a, b) || #[trigger] uri_lt(b, a) || a == b by {
        if let (Some(x), Some(y)) = (a, b) {
            lemma_text_lt_total(x, y);
        }
    }
}

/// Whether `a` comes strictly before `b`.
pub fn text_lt_exec(a: &String, b: &String) -> (r: bool)
    ensures
        r == text_lt(a@, b@),
{
    let sa = a.as_str();
    let sb = b.as_str();
    let la = sa.unicode_len();
    let lb = sb.unicode_len();
    let mut k: usize = 0;
    assert(a@.subrange(0, la as int) =~= a@);
    assert(b@.subrange(0, lb as int) =~= b@);
    while k < la && k < lb
        invariant
            k <= la,
            k <= lb,
            la == a@.len(),
            lb == b@.len(),
            sa@ == a@,
            sb@ == b@,
            text_lt(a@, b@) == text_lt(a@.subrange(k as int, la as int), b@.subrange(k as int, lb as int)),
        decreases la - k,
    {
        let ca = sa.get_char(k);
        let cb = sb.get_char(k);
        let ghost ta = a@.subrange(k as int, la as int);
        let ghost tb = b@.subrange(k as int, lb as int);
        assert(ta[0] == ca);
        assert(tb[0] == cb);
        if ca != cb {
            return ca < cb;
        }
        assert(ta.drop_first() =~= a@.subrange(k + 1, la as int));
        assert(tb.drop_first() =~= b@.subrange(k + 1, lb as int));
        k = k + 1;
    }
    k == la && k < lb
}

/// Whether the optional URI `a` comes strictly before `b`.
fn uri_lt_exec(a: &Option<String>, b: &Option<String>) -> (r: bool)
    ensures
        r == uri_lt(opt_text(a), opt_text(b)),
{
    match (a, b) {
        (None, Some(_)) => true,
        (Some(x), Some(y)) => text_lt_exec(x, y),
        _ => false,
    }
}

/// The text of an optional string.
pub open spec fn opt_text(o: &Option<String>) -> Option<Seq<char>> {
    match o {
        Some(s) => Some(s@),
        None => None,
    }
}

/// The URI key of each declaration.
pub open spec fn decl_keys(decls: Seq<NameDecl>) -> Seq<Option<Seq<char>>> {
    decls.map_values(|d: NameDecl| opt_text(&d.uri))
}

/// `ord` lists the positions of `keys` in the order a stable sort by key
/// puts them: each position once, keys never decreasing, and positions with
/// equal keys in their original order.
pub open spec fn stable_order(keys: Seq<Option<Seq<char>>>, ord: Seq<usize>) -> bool {
    &&& ord.len() == keys.len()
    &&& forall|i: int| 0 <= i < ord.len() ==> #[trigger] ord[i] < keys.len()
    &&& forall|i: int, j: int| 0 <= i < j < ord.len() ==> #[trigger] ord[i] != #[trigger] ord[j]
    &&& forall|i: int, j: int| 0 <= i < j < ord.len() ==> !uri_lt(keys[#[trigger] ord[j] as int], keys[#[trigger] ord[i] as int])
    &&& forall|i: int, j: int| 0 <= i < j < ord.len() && keys[#[trigger] ord[i] as int] == keys[#[trigger] ord[j] as int] ==> ord[i] < ord[j]
}

/// The positions of `decls` in the order of their URIs (stable).
fn sort_order(decls: &Vec<NameDecl>) -> (ord: Vec<usize>)
    ensures
        stable_order(decl_keys(decls@), ord@),
{
    let ghost keys = decl_keys(decls@);
    proof { lemma_uri_lt_facts(); }
    let mut ord: Vec<usize> = Vec::new();
    let mut i: usize = 0;
    while i < decls.len()
        invariant
            i <= decls@.len(),
            keys == decl_keys(decls@),
            stable_order(keys.subrange(0, i as int), ord@),
            forall|a: Option<Seq<char>>| !#[trigger] uri_lt(a, a),
            forall|a: Option<Seq<char>>, b: Option<Seq<char>>, c: Option<Seq<char>>|
                #[trigger] uri_lt(a, b) && #[trigger] uri_lt(b, c) ==> uri_lt(a, c),
            forall|a: Option<Seq<char>>, b: Option<Seq<char>>|
                #[trigger] uri_lt(a, b) || #[trigger] uri_lt(b, a) || a == b,
        decreases decls@.len() - i,
    {
        let ghost old_ord = ord@;
        let ghost pre = keys.subrange(0, i as int);
        let ghost next = keys.subrange(0, i + 1);
        assert(forall|q: int| 0 <= q < i ==> #[trigger] pre[q] == next[q]);
        assert(next[i as int] == keys[i as int]);
        let mut p: usize = 0;
        while p < ord.len() && !uri_lt_exec(&decls[i].uri, &decls[ord[p]].uri)
            invariant
                p <= ord@.len(),
                ord@ == old_ord,
                i < decls@.len(),
                keys == decl_keys(decls@),
                stable_order(pre, ord@),
                pre.len() == i,
                keys.len() == decls@.len(),
                forall|q: int| 0 <= q < decls@.len() ==> #[trigger] keys[q] == opt_text(&decls@[q].uri),
                forall|q: int| 0 <= q < p ==> !uri_lt(keys[i as int], keys[#[trigger] ord@[q] as int]),
                forall|q: int| 0 <= q < i ==> #[trigger] pre[q] == keys[q],
            decreases ord@.len() - p,
        {
            assert(!uri_lt(keys[i as int], keys[ord@[p as int] as int]));
            p = p + 1;
        }
        proof {
            if p < ord@.len() {
                assert(uri_lt(keys[i as int], keys[ord@[p as int] as int]));
            }
        }
        ord.insert(p, i);
        proof {
            let o = ord@;
            assert(o == old_ord.insert(p as int, i));
            assert forall|q: int| 0 <= q < o.len() implies #[trigger] o[q] < next.len() by {
                if q < p { assert(o[q] == old_ord[q]); } else if q > p { assert(o[q] == old_ord[q - 1]); }
            }
            assert forall|a: int, b: int| 0 <= a < b < o.len() implies #[trigger] o[a] != #[trigger] o[b] by {
                if a < p { assert(o[a] == old_ord[a]); } else if a > p { assert(o[a] == old_ord[a - 1]); }
                if b < p { assert(o[b] == old_ord[b]); } else if b > p { assert(o[b] == old_ord[b - 1]); }
            }
            assert forall|a: int, b: int| 0 <= a < b < o.len() implies
                !uri_lt(next[#[trigger] o[b] as int], next[#[trigger] o[a] as int]) by {
                if a < p { assert(o[a] == old_ord[a]); } else if a > p { assert(o[a] == old_ord[a - 1]); }
                if b < p { assert(o[b] == old_ord[b]); } else if b > p { assert(o[b] == old_ord[b - 1]); }
                if b > p && a < p {
                    assert(!uri_lt(pre[old_ord[b - 1] as int], pre[old_ord[a] as int]));
                } else if b > p && a > p {
                    assert(!uri_lt(pre[old_ord[b - 1] as int], pre[old_ord[a - 1] as int]));
                } else if a == p {
                    // b > p: the element after the inserted one
                    assert(!uri_lt(pre[old_ord[b - 1] as int], pre[old_ord[p as int] as int]));
                    assert(uri_lt(keys[i as int], keys[old_ord[p as int] as int]));
                    if uri_lt(keys[old_ord[b - 1] as int], keys[i as int]) {
                        assert(uri_lt(keys[old_ord[b - 1] as int], keys[old_ord[p as int] as int]));
                    }
                } else if b == p {
                    assert(!uri_lt(keys[i as int], keys[old_ord[a] as int]));
                } else {
                    assert(!uri_lt(pre[old_ord[b] as int], pre[old_ord[a] as int]));
                }
            }
            assert forall|a: int, b: int| 0 <= a < b < o.len() && next[#[trigger] o[a] as int] == next[#[trigger] o[b] as int]
                implies o[a] < o[b] by {
                if a < p { assert(o[a] == old_ord[a]); } else if a > p { assert(o[a] == old_ord[a - 1]); }
                if b < p { assert(o[b] == old_ord[b]); } else if b > p { assert(o[b] == old_ord[b - 1]); }
                if a == p {
                    // every key after the inserted one is strictly greater
                    assert(!uri_lt(pre[old_ord[b - 1] as int], pre[old_ord[p as int] as int]));
                    assert(uri_lt(keys[i as int], keys[old_ord[p as int] as int]));
                    if keys[i as int] == keys[old_ord[b - 1] as int] {
                        if b - 1 == p as int {
                        } else {
                            assert(uri_lt(keys[old_ord[b - 1] as int], keys[old_ord[p as int] as int])
                                || keys[old_ord[b - 1] as int] == keys[old_ord[p as int] as int]
                                || uri_lt(keys[old_ord[p as int] as int], keys[old_ord[b - 1] as int]));
                        }
                    }
                }
            }
            assert(stable_order(next, o));
        }
        i = i + 1;
    }
    proof { assert(keys.subrange(0, decls@.len() as int) =~= keys); }
    ord
}

/// The declarations of `decls`, in the order `ord`, as names bound at the
/// positions of their identifiers.
pub open spec fn ordered_names(decls: Seq<NameDecl>, ord: Seq<usize>) -> Seq<(Seq<char>, VarSort, SourcePos)> {
    ord.map_values(|j: usize| (decls[j as int].id.name@, VarSort::NameSort, decls[j as int].id.pos))
}

/// The URIs of the declarations of `decls`, in the order `ord`; plain names
/// have none.
pub open spec fn ordered_uris(decls: Seq<NameDecl>, ord: Seq<usize>) -> Seq<Seq<char>>
    decreases ord.len(),
{
    if ord.len() == 0 {
        Seq::empty()
    } else {
        let prev = ordered_uris(decls, ord.drop_last());
        match decls[ord.last() as int].uri {
            Some(u) => prev.push(u@),
            None => prev,
        }
    }
}

/// The URIs of the declarations of `decls`, in the order `ord`, as the
/// declarations hold them.
pub open spec fn ordered_uri_strings(decls: Seq<NameDecl>, ord: Seq<usize>) -> Seq<String>
    decreases ord.len(),
{
    if ord.len() == 0 {
        Seq::empty()
    } else {
        let prev = ordered_uri_strings(decls, ord.drop_last());
        match decls[ord.last() as int].uri {
            Some(u) => prev.push(u),
            None => prev,
        }
    }
}

/// Binding names one after the other moves the next binder position on by
/// their number.
pub proof fn lemma_bind_names_next(m: BoundMapView<VarSort>, names: Seq<(Seq<char>, VarSort, SourcePos)>)
    ensures
        bind_names(m, names).next == m.next + names.len(),
    decreases names.len(),
{
    if names.len() > 0 {
        lemma_bind_names_next(m, names.drop_last());
    }
}

/// `m` with each of `names` bound in turn, at the single-point span of its
/// position.
pub open spec fn bind_names(m: BoundMapView<VarSort>, names: Seq<(Seq<char>, VarSort, SourcePos)>) -> BoundMapView<VarSort>
    decreases names.len(),
{
    if names.len() == 0 {
        m
    } else {
        bind_names(m, names.drop_last()).put(names.last().0, names.last().1, point_span(names.last().2))
    }
}

proof fn lemma_bind_names_put_all(m: BoundMapView<VarSort>, bs: Seq<IdContextPos<VarSort>>, names: Seq<(Seq<char>, VarSort, SourcePos)>)
    requires
        bs.len() == names.len(),
        forall|q: int| 0 <= q < bs.len() ==> (#[trigger] bs[q]).0@ == names[q].0 && bs[q].1 == names[q].1 && bs[q].2 == names[q].2,
    ensures
        m.put_all(bs.map_values(|b: IdContextPos<VarSort>| (b.0, b.1, point_span(b.2)))) == bind_names(m, names),
        bind_names(m, names).next == m.next + names.len(),
    decreases bs.len(),
{
    let spans = bs.map_values(|b: IdContextPos<VarSort>| (b.0, b.1, point_span(b.2)));
    if bs.len() > 0 {
        let bs2 = bs.drop_last();
        assert(bs2.map_values(|b: IdContextPos<VarSort>| (b.0, b.1, point_span(b.2))) =~= spans.drop_last());
        assert(bs[bs.len() - 1] == bs.last());
        lemma_bind_names_put_all(m, bs2, names.drop_last());
    }
}

/// What a `new` binds: the chain its body is normalized in, the number of
/// names it declares, and the URIs of its system names in binding order.
pub struct NewScope {
    pub body_chain: BoundMapChain<VarSort>,
    pub bind_count: usize,
    pub uris: Vec<String>,
}

/// The scope of `new decls in { .. }` inside `chain`: the declarations,
/// ordered by URI (plain names first, then URIs in lexicographic order, equal
/// ones as written), are bound as names in the innermost scope, each at the
/// position of its identifier.
pub fn new_scope(chain: &BoundMapChain<VarSort>, decls: &Vec<NameDecl>) -> (r: NewScope)
    requires
        chain@[0].next + decls@.len() <= usize::MAX,
    ensures
        r.bind_count == decls@.len(),
        exists|ord: Seq<usize>| {
            &&& stable_order(decl_keys(decls@), ord)
            &&& r.body_chain@ == chain@.update(0, bind_names(chain@[0], ordered_names(decls@, ord)))
            &&& r.uris@.map_values(|u: String| u@) == ordered_uris(decls@, ord)
            &&& r.uris@ == ordered_uri_strings(decls@, ord)
        },
{
    let ord = sort_order(decls);
    let mut bindings: Vec<IdContextPos<VarSort>> = Vec::new();
    let mut uris: Vec<String> = Vec::new();
    let mut j: usize = 0;
    while j < ord.len()
        invariant
            j <= ord@.len(),
            stable_order(decl_keys(decls@), ord@),
            decls@.len() == decl_keys(decls@).len(),
            bindings@.len() == j,
            forall|q: int| 0 <= q < j ==> (#[trigger] bindings@[q]).0@ == ordered_names(decls@, ord@)[q].0
                && bindings@[q].1 == ordered_names(decls@, ord@)[q].1 && bindings@[q].2 == ordered_names(decls@, ord@)[q].2,
            uris@.map_values(|u: String| u@) == ordered_uris(decls@, ord@.subrange(0, j as int)),
            uris@ == ordered_uri_strings(decls@, ord@.subrange(0, j as int)),
        decreases ord@.len() - j,
    {
        let d = &decls[ord[j]];
        bindings.push((d.id.name.clone(), VarSort::NameSort, d.id.pos));
        let ghost prefix = ord@.subrange(0, j + 1);
        proof {
            assert(prefix.drop_last() =~= ord@.subrange(0, j as int));
            assert(prefix.last() == ord@[j as int]);
        }
        let ghost before = uris@;
        match &d.uri {
            Some(u) => {
                uris.push(u.clone());
                proof { assert(uris@.map_values(|u: String| u@) =~= before.map_values(|u: String| u@).push(u@)); }
            },
            None => {},
        }
        j = j + 1;
    }
    proof {
        assert(ord@.subrange(0, ord@.len() as int) =~= ord@);
        lemma_bind_names_put_all(chain@[0], bindings@, ordered_names(decls@, ord@));
    }
    let start = chain.get_count();
    let body_chain = chain.put_all_pos(bindings);
    let bind_count = body_chain.get_count() - start;
    NewScope { body_chain, bind_count, uris }
}

proof fn lemma_order_covers(n: int, ord: Seq<usize>, x: int)
    requires
        ord.len() == n,
        forall|i: int| 0 <= i < ord.len() ==> #[trigger] ord[i] < n,
        forall|i: int, j: int| 0 <= i < j < ord.len() ==> #[trigger] ord[i] != #[trigger] ord[j],
        0 <= x < n,
    ensures
        exists|p: int| 0 <= p < n && ord[p] as int == x,
{
    let os = ord.map_values(|v: usize| v as int);
    assert forall|i: int, j: int| 0 <= i < os.len() && 0 <= j < os.len() && i != j implies os[i] != os[j] by {
        if i < j { assert(ord[i] != ord[j]); } else { assert(ord[j] != ord[i]); }
    }
    assert(os.no_duplicates());
    os.unique_seq_to_set();
    vstd::set_lib::lemma_int_range(0, n);
    let range = vstd::set_lib::set_int_range(0, n);
    assert forall|v: int| os.to_set().contains(v) implies range.contains(v) by {
        let i = choose|i: int| 0 <= i < os.len() && os[i] == v;
        assert(ord[i] < n);
    }
    assert(os.to_set().subset_of(range));
    vstd::set_lib::lemma_subset_equality(os.to_set(), range);
    assert(range.contains(x));
    assert(os.to_set().contains(x));
    let p = choose|p: int| 0 <= p < os.len() && os[p] == x;
    assert(ord[p] as int == x);
}

/// The order of a `new`'s declarations is determined by them: any two
/// stable orders of the same keys are the same.
pub proof fn law_stable_order_unique(keys: Seq<Option<Seq<char>>>, o1: Seq<usize>, o2: Seq<usize>)
    requires
        stable_order(keys, o1),
        stable_order(keys, o2),
    ensures
        o1 == o2,
{
    lemma_uri_lt_facts();
    let n = keys.len() as int;
    assert forall|t: int| 0 <= t < n implies o1[t] == o2[t] by {
        lemma_orders_agree_upto(keys, o1, o2, t);
    }
    assert(o1 =~= o2);
}

proof fn lemma_orders_agree_upto(keys: Seq<Option<Seq<char>>>, o1: Seq<usize>, o2: Seq<usize>, t: int)
    requires
        stable_order(keys, o1),
        stable_order(keys, o2),
        0 <= t < keys.len(),
        forall|a: Option<Seq<char>>, b: Option<Seq<char>>|
            #[trigger] uri_lt(a, b) || #[trigger] uri_lt(b, a) || a == b,
    ensures
        forall|s: int| 0 <= s <= t ==> o1[s] == o2[s],
    decreases t,
{
    if t > 0 {
        lemma_orders_agree_upto(keys, o1, o2, t - 1);
    }
    let n = keys.len() as int;
    let x = o1[t];
    let y = o2[t];
    if x != y {
        lemma_order_covers(n, o1, y as int);
        lemma_order_covers(n, o2, x as int);
        let p = choose|p: int| 0 <= p < n && o1[p] as int == y as int;
        let q = choose|q: int| 0 <= q < n && o2[q] as int == x as int;
        if p < t {
            assert(o1[p] == o2[p]);
            assert(o2[p] != o2[t]);
        }
        if q < t {
            assert(o1[q] == o2[q]);
            assert(o1[q] != o1[t]);
        }
        assert(p != t);
        assert(q != t);
        assert(!uri_lt(keys[o1[p] as int], keys[o1[t] as int]));
        assert(!uri_lt(keys[o2[q] as int], keys[o2[t] as int]));
        assert(keys[x as int] == keys[y as int]);
        assert(o1[t] < o1[p]);
        assert(o2[t] < o2[q]);
    }
}

} // verus!
