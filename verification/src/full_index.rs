//! A dataset of quads of identifiers indexed by every combination of terms:
//! each index maps the values of one, two or three terms of the quads it
//! holds to the values of the other terms.
//!
//! The indexes form three levels: four indexes keyed by three terms, six
//! keyed by two terms and four keyed by one term. The first index keyed by
//! three terms (graph name, predicate, subject) is always built; the others
//! are built the first time a request needs them.
use vstd::prelude::*;
use core::marker::PhantomData;
use std::collections::{BTreeMap, BTreeSet};
use vstd::laws_cmp::obeys_cmp;
use vstd::std_specs::btree::key_obeys_cmp_spec;
use crate::quad::{
    lemma_quads_of_prefix, lemma_quads_of_prefix_ends, quad_views, quads_of_arrays,
};
use crate::tree::distinct_quads;

verus! {

broadcast use vstd::std_specs::btree::group_btree_axioms;

/// The map sends `k` to a set that holds `v`.
pub open spec fn holds<K, V>(m: Map<K, BTreeSet<V>>, k: K, v: V) -> bool {
    m.contains_key(k) && m[k]@.contains(v)
}

/// Both types are lawfully ordered.
pub open spec fn lawful<K: Ord, V: Ord>() -> bool {
    &&& obeys_cmp::<K>()
    &&& key_obeys_cmp_spec::<K>()
    &&& obeys_cmp::<V>()
    &&& key_obeys_cmp_spec::<V>()
}

/// Adds `v` to the set that the map sends `k` to, creating the set if
/// needed.
pub(crate) fn add_pair<K: Ord + Copy, V: Ord + Copy>(map: &mut BTreeMap<K, BTreeSet<V>>, k: K, v: V)
    requires
        lawful::<K, V>(),
    ensures
        final(map)@.dom() == old(map)@.dom().insert(k),
        forall|kk: K, vv: V| holds(final(map)@, kk, vv) == (holds(old(map)@, kk, vv) || (kk == k && vv == v)),
{
    let ghost before = map@;
    match map.remove(&k) {
        Some(mut set) => {
            set.insert(v);
            map.insert(k, set);
        },
        None => {
            let mut set: BTreeSet<V> = BTreeSet::new();
            set.insert(v);
            map.insert(k, set);
        },
    }
    proof {
        assert(map@.dom() =~= before.dom().insert(k));
    }
}

/// Removes `v` from the set that the map sends `k` to (the set stays, even
/// when it becomes empty).
fn remove_pair<K: Ord + Copy, V: Ord + Copy>(map: &mut BTreeMap<K, BTreeSet<V>>, k: K, v: V)
    requires
        lawful::<K, V>(),
        old(map)@.contains_key(k),
    ensures
        final(map)@.dom() == old(map)@.dom(),
        forall|kk: K, vv: V| holds(final(map)@, kk, vv) == (holds(old(map)@, kk, vv) && !(kk == k && vv == v)),
{
    let ghost before = map@;
    match map.remove(&k) {
        Some(mut set) => {
            set.remove(&v);
            map.insert(k, set);
        },
        None => {},
    }
    proof {
        assert(map@.dom() =~= before.dom());
    }
}

/// Whether the map sends `k` to a set that holds `v`.
pub(crate) fn has_pair<K: Ord + Copy, V: Ord + Copy>(map: &BTreeMap<K, BTreeSet<V>>, k: &K, v: &V) -> (r: bool)
    requires
        lawful::<K, V>(),
    ensures
        r == holds(map@, *k, *v),
{
    match map.get(k) {
        Some(set) => set.contains(v),
        None => false,
    }
}

/// When `r` lists `all` and `all` holds the elements of `s`, `r` holds the
/// elements of `s`.
proof fn lemma_listed_when<V>(r: Seq<V>, all: Seq<V>, s: Set<V>, done: bool)
    requires
        done ==> r.len() == all.len(),
        forall|i: int| 0 <= i < r.len() && i < all.len() ==> r[i] == all[i],
        all.to_set() == s,
    ensures
        done ==> forall|v: V| r.contains(v) == s.contains(v),
{
    if done {
        assert(r =~= all);
        assert forall|v: V| r.contains(v) == s.contains(v) by {
            if s.contains(v) {
                assert(all.to_set().contains(v));
            }
        }
    }
}

/// The elements of the set, each once.
pub(crate) fn set_elements<V: Ord + Copy>(s: &BTreeSet<V>) -> (r: Vec<V>)
    requires
        key_obeys_cmp_spec::<V>(),
    ensures
        r@.no_duplicates(),
        forall|v: V| r@.contains(v) == s@.contains(v),
{
    let mut r: Vec<V> = Vec::new();
    for x in it: s.iter()
        invariant
            r@.len() == it.index(),
            forall|i: int| 0 <= i < it.index() ==> r@[i] == it.seq().unref()[i],
            it.seq().unref().no_duplicates(),
            it.seq().unref().to_set() == s@,
            it.index() == it.seq().len() ==> forall|v: V| r@.contains(v) == s@.contains(v),
    {
        r.push(*x);
        assert(it.index() + 1 == it.seq().len() ==> forall|v: V| r@.contains(v) == s@.contains(v)) by {
            lemma_listed_when(r@, it.seq().unref(), s@, it.index() + 1 == it.seq().len());
        }
    }
    r
}

/// The pairs `(k, v)` of keys `k` listed by the first `n` entries of `entries`
/// and of values `v` that the map sends them to.
pub open spec fn listed_pairs<K, V>(m: Map<K, BTreeSet<V>>, entries: Seq<(&K, &BTreeSet<V>)>, n: int, k: K, v: V) -> bool {
    holds(m, k, v) && exists|i: int| 0 <= i < n && *entries[i].0 == k
}

/// When every key of the map is among the listed entries, the listed pairs
/// are all the pairs of the map.
proof fn lemma_all_pairs_listed<K, V>(
    m: Map<K, BTreeSet<V>>,
    entries: Seq<(&K, &BTreeSet<V>)>,
    r: Seq<(K, V)>,
    n: int,
    done: bool,
)
    requires
        forall|k: K| m.contains_key(k) ==> entries.contains((&k, &m[k])),
        forall|k: K, v: V|
            #![trigger r.contains((k, v))]
            r.contains((k, v)) <==> listed_pairs(m, entries, n, k, v),
        done ==> n == entries.len(),
    ensures
        done ==> forall|k: K, v: V| #![trigger r.contains((k, v))] r.contains((k, v)) == holds(m, k, v),
{
    if done {
        assert forall|k: K, v: V| #![trigger r.contains((k, v))] r.contains((k, v)) == holds(m, k, v) by {
            if r.contains((k, v)) {
                assert(listed_pairs(m, entries, n, k, v));
            }
            if holds(m, k, v) {
                assert(m.contains_key(k));
                assert(entries.contains((&k, &m[k])));
                let i = choose|i: int| 0 <= i < entries.len() && entries[i] == (&k, &m[k]);
                assert(*entries[i].0 == k);
                assert(listed_pairs(m, entries, n, k, v));
            }
        }
    }
}

/// Every pair `(k, v)` such that the map sends `k` to a set that holds `v`,
/// each once.
pub(crate) fn map_pairs<K: Ord + Copy, V: Ord + Copy>(m: &BTreeMap<K, BTreeSet<V>>) -> (r: Vec<(K, V)>)
    requires
        lawful::<K, V>(),
    ensures
        r@.no_duplicates(),
        forall|k: K, v: V| r@.contains((k, v)) == holds(m@, k, v),
{
    let mut r: Vec<(K, V)> = Vec::new();
    for kv in it: m.iter()
        invariant
            lawful::<K, V>(),
            it.seq().no_duplicates(),
            forall|i: int|
                0 <= i < it.seq().len() ==> m@.contains_key(*(#[trigger] it.seq()[i]).0) && m@[*it.seq()[i].0]
                    == *it.seq()[i].1,
            forall|k: K| m@.contains_key(k) ==> it.seq().contains((&k, &m@[k])),
            r@.no_duplicates(),
            forall|k: K, v: V| r@.contains((k, v)) <==> listed_pairs(m@, it.seq(), it.index(), k, v),
            it.index() == it.seq().len() ==> forall|k: K, v: V| r@.contains((k, v)) == holds(m@, k, v),
    {
        let (k, set) = kv;
        let ghost n = it.index();
        proof {
            assert(it.seq()[n] == kv);
            assert(m@.contains_key(*k) && m@[*k] == *set);
            assert forall|i: int| 0 <= i < n implies *it.seq()[i].0 != *k by {
                if *it.seq()[i].0 == *k {
                    assert(it.seq()[i] == it.seq()[n]);
                }
            }
        }
        let values = set_elements(set);
        let ghost start = r@;
        proof {
            assert forall|v: V| !start.contains((*k, v)) by {
                if start.contains((*k, v)) {
                    assert(listed_pairs(m@, it.seq(), n, *k, v));
                    let i = choose|i: int| 0 <= i < n && *it.seq()[i].0 == *k;
                }
            }
        }
        let mut j: usize = 0;
        while j < values.len()
            invariant
                0 <= j <= values@.len(),
                lawful::<K, V>(),
                values@.no_duplicates(),
                forall|v: V| values@.contains(v) == set@.contains(v),
                start.no_duplicates(),
                forall|v: V| !start.contains((*k, v)),
                r@ == start + Seq::new(j as nat, |x: int| (*k, values@[x])),
            decreases values@.len() - j,
        {
            r.push((*k, values[j]));
            j = j + 1;
            proof {
                assert(r@ =~= start + Seq::new(j as nat, |x: int| (*k, values@[x])));
            }
        }
        proof {
            let added = Seq::new(j as nat, |x: int| (*k, values@[x]));
            assert forall|a: int, b: int| 0 <= a < b < r@.len() implies r@[a] != r@[b] by {
                if b >= start.len() && a >= start.len() {
                    assert(values@[a - start.len()] != values@[b - start.len()]);
                } else if b >= start.len() {
                    assert(start.contains(start[a]));
                }
            }
            assert forall|kk: K, v: V| r@.contains((kk, v)) <==> listed_pairs(m@, it.seq(), n + 1, kk, v) by {
                if r@.contains((kk, v)) {
                    let x = choose|x: int| 0 <= x < r@.len() && r@[x] == (kk, v);
                    if x >= start.len() {
                        assert(values@.contains(values@[x - start.len()]));
                        assert(*it.seq()[n].0 == kk);
                    } else {
                        assert(start.contains((kk, v)));
                        assert(listed_pairs(m@, it.seq(), n, kk, v));
                        let i = choose|i: int| 0 <= i < n && *it.seq()[i].0 == kk;
                        assert(0 <= i < n + 1 && *it.seq()[i].0 == kk);
                    }
                }
                if listed_pairs(m@, it.seq(), n + 1, kk, v) {
                    let i = choose|i: int| 0 <= i < n + 1 && *it.seq()[i].0 == kk;
                    if i == n {
                        assert(values@.contains(v));
                        let y = choose|y: int| 0 <= y < values@.len() && values@[y] == v;
                        assert(r@[start.len() + y] == (kk, v));
                    } else {
                        assert(listed_pairs(m@, it.seq(), n, kk, v));
                        assert(start.contains((kk, v)));
                        let x = choose|x: int| 0 <= x < start.len() && start[x] == (kk, v);
                        assert(r@[x] == (kk, v));
                    }
                }
            }
        }
        assert(it.index() + 1 == it.seq().len() ==> forall|kk: K, v: V| r@.contains((kk, v)) == holds(m@, kk, v)) by {
            lemma_all_pairs_listed(m@, it.seq(), r@, it.index() + 1, it.index() + 1 == it.seq().len());
        }
    }
    r
}

/// Position of the subject in a quad.
pub const QUAD_S: usize = 0;
/// Position of the predicate in a quad.
pub const QUAD_P: usize = 1;
/// Position of the object in a quad.
pub const QUAD_O: usize = 2;
/// Position of the graph name in a quad.
pub const QUAD_G: usize = 3;

/// For the index `position` of the given level: the positions of the terms
/// of the key, then those of the value.
pub open spec fn index_layout(level: u8, position: int) -> Seq<usize> {
    let s = 0usize;
    let p = 1usize;
    let o = 2usize;
    let g = 3usize;
    if level == 3 {
        if position == 0 {
            seq![g, p, s, o]
        } else if position == 1 {
            seq![g, p, o, s]
        } else if position == 2 {
            seq![g, s, o, p]
        } else {
            seq![p, s, o, g]
        }
    } else if level == 2 {
        if position == 0 {
            seq![g, p, s, o]
        } else if position == 1 {
            seq![g, s, p, o]
        } else if position == 2 {
            seq![p, s, g, o]
        } else if position == 3 {
            seq![g, o, p, s]
        } else if position == 4 {
            seq![p, o, g, s]
        } else {
            seq![s, o, g, p]
        }
    } else {
        if position == 0 {
            seq![g, p, s, o]
        } else if position == 1 {
            seq![p, g, s, o]
        } else if position == 2 {
            seq![s, g, p, o]
        } else {
            seq![o, g, p, s]
        }
    }
}

/// The number of indexes of a level.
pub open spec fn level_size(level: u8) -> nat {
    if level == 2 {
        6
    } else {
        4
    }
}

/// For the index `position` of the given level: the positions of the terms
/// of the key, then those of the value.
fn indexes(level: u8, position: usize) -> (r: (usize, usize, usize, usize))
    requires
        1 <= level <= 3,
        position < level_size(level),
    ensures
        seq![r.0, r.1, r.2, r.3] == index_layout(level, position as int),
{
    if level == 3 {
        if position == 0 {
            (QUAD_G, QUAD_P, QUAD_S, QUAD_O)
        } else if position == 1 {
            (QUAD_G, QUAD_P, QUAD_O, QUAD_S)
        } else if position == 2 {
            (QUAD_G, QUAD_S, QUAD_O, QUAD_P)
        } else {
            (QUAD_P, QUAD_S, QUAD_O, QUAD_G)
        }
    } else if level == 2 {
        if position == 0 {
            (QUAD_G, QUAD_P, QUAD_S, QUAD_O)
        } else if position == 1 {
            (QUAD_G, QUAD_S, QUAD_P, QUAD_O)
        } else if position == 2 {
            (QUAD_P, QUAD_S, QUAD_G, QUAD_O)
        } else if position == 3 {
            (QUAD_G, QUAD_O, QUAD_P, QUAD_S)
        } else if position == 4 {
            (QUAD_P, QUAD_O, QUAD_G, QUAD_S)
        } else {
            (QUAD_S, QUAD_O, QUAD_G, QUAD_P)
        }
    } else {
        if position == 0 {
            (QUAD_G, QUAD_P, QUAD_S, QUAD_O)
        } else if position == 1 {
            (QUAD_P, QUAD_G, QUAD_S, QUAD_O)
        } else if position == 2 {
            (QUAD_S, QUAD_G, QUAD_P, QUAD_O)
        } else {
            (QUAD_O, QUAD_G, QUAD_P, QUAD_S)
        }
    }
}

/// How the quads split into a key and a value in the indexes of one level.
///
/// `K` is the type of the keys of the indexes of the level, `V` that of
/// their values.
pub trait IndexLevel<K: Ord, V: Ord> {
    /// The level: how many terms the keys hold.
    spec fn level() -> u8;

    /// The key of the quad `q` in the index `position`.
    spec fn key_of(q: Seq<u32>, position: int) -> K;

    /// The value of the quad `q` in the index `position`.
    spec fn value_of(q: Seq<u32>, position: int) -> V;

    /// The quad made of the key `k` and the value `v` in the index
    /// `position`.
    spec fn compose(k: K, v: V, position: int) -> Seq<u32>;

    /// Keys and values are lawfully ordered, and a quad is its key and its
    /// value.
    proof fn lemma_level(position: int)
        requires
            0 <= position < level_size(Self::level()),
        ensures
            1 <= Self::level() <= 3,
            lawful::<K, V>(),
            forall|q: Seq<u32>|
                q.len() == 4 ==> #[trigger] Self::compose(Self::key_of(q, position), Self::value_of(q, position), position) == q,
            forall|k: K, v: V|
                (#[trigger] Self::compose(k, v, position)).len() == 4 && Self::key_of(Self::compose(k, v, position), position) == k
                    && Self::value_of(Self::compose(k, v, position), position) == v,
    ;

    /// The number of indexes of the level.
    fn count() -> (r: usize)
        ensures
            r == level_size(Self::level()),
    ;

    /// The key and the value of the quad in the index `position`.
    fn decompose(quad: &[u32; 4], position: usize) -> (r: (K, V))
        requires
            position < level_size(Self::level()),
        ensures
            r.0 == Self::key_of(quad@, position as int),
            r.1 == Self::value_of(quad@, position as int),
    ;

    /// The quad made of the key and the value in the index `position`.
    fn recompose(k: K, v: V, position: usize) -> (r: [u32; 4])
        requires
            position < level_size(Self::level()),
        ensures
            r@ == Self::compose(k, v, position as int),
    ;
}

/// Tuples of identifiers are lawfully ordered.
proof fn lemma_tuples_lawful()
    ensures
        lawful::<(u32, u32, u32), u32>(),
        lawful::<(u32, u32), (u32, u32)>(),
        lawful::<u32, (u32, u32, u32)>(),
{
    broadcast use vstd::laws_cmp::group_laws_cmp;

    assert(obeys_cmp::<(u32, u32, u32)>());
    assert(obeys_cmp::<(u32, u32)>());
    assert(obeys_cmp::<u32>());
}

/// The indexes keyed by three terms.
pub struct ThreeTermKeys {}

impl IndexLevel<(u32, u32, u32), u32> for ThreeTermKeys {
    open spec fn level() -> u8 {
        3
    }

    fn count() -> (r: usize) {
        4
    }

    open spec fn key_of(q: Seq<u32>, position: int) -> (u32, u32, u32) {
        let l = index_layout(3, position);
        (q[l[0] as int], q[l[1] as int], q[l[2] as int])
    }

    open spec fn value_of(q: Seq<u32>, position: int) -> u32 {
        q[index_layout(3, position)[3] as int]
    }

    open spec fn compose(k: (u32, u32, u32), v: u32, position: int) -> Seq<u32> {
        let l = index_layout(3, position);
        Seq::new(4, |j: int| if j == l[0] { k.0 } else if j == l[1] { k.1 } else if j == l[2] { k.2 } else { v })
    }

    proof fn lemma_level(position: int) {
        lemma_tuples_lawful();
        let l = index_layout(3, position);
        assert forall|q: Seq<u32>|
            q.len() == 4 implies #[trigger] Self::compose(Self::key_of(q, position), Self::value_of(q, position), position) == q by {
            assert(Self::compose(Self::key_of(q, position), Self::value_of(q, position), position) =~= q);
        }
    }

    fn decompose(quad: &[u32; 4], position: usize) -> (r: ((u32, u32, u32), u32)) {
        let (k1, k2, k3, v) = indexes(3, position);
        ((quad[k1], quad[k2], quad[k3]), quad[v])
    }

    fn recompose(k: (u32, u32, u32), v: u32, position: usize) -> (r: [u32; 4]) {
        let (k1, k2, k3, v1) = indexes(3, position);
        let mut quad: [u32; 4] = [0, 0, 0, 0];
        quad[k1] = k.0;
        quad[k2] = k.1;
        quad[k3] = k.2;
        quad[v1] = v;
        proof {
            assert(quad@ =~= Self::compose(k, v, position as int));
        }
        quad
    }
}

/// The indexes keyed by two terms.
pub struct TwoTermKeys {}

impl IndexLevel<(u32, u32), (u32, u32)> for TwoTermKeys {
    open spec fn level() -> u8 {
        2
    }

    fn count() -> (r: usize) {
        6
    }

    open spec fn key_of(q: Seq<u32>, position: int) -> (u32, u32) {
        let l = index_layout(2, position);
        (q[l[0] as int], q[l[1] as int])
    }

    open spec fn value_of(q: Seq<u32>, position: int) -> (u32, u32) {
        let l = index_layout(2, position);
        (q[l[2] as int], q[l[3] as int])
    }

    open spec fn compose(k: (u32, u32), v: (u32, u32), position: int) -> Seq<u32> {
        let l = index_layout(2, position);
        Seq::new(4, |j: int| if j == l[0] { k.0 } else if j == l[1] { k.1 } else if j == l[2] { v.0 } else { v.1 })
    }

    proof fn lemma_level(position: int) {
        lemma_tuples_lawful();
        assert forall|q: Seq<u32>|
            q.len() == 4 implies #[trigger] Self::compose(Self::key_of(q, position), Self::value_of(q, position), position) == q by {
            assert(Self::compose(Self::key_of(q, position), Self::value_of(q, position), position) =~= q);
        }
    }

    fn decompose(quad: &[u32; 4], position: usize) -> (r: ((u32, u32), (u32, u32))) {
        let (k1, k2, v1, v2) = indexes(2, position);
        ((quad[k1], quad[k2]), (quad[v1], quad[v2]))
    }

    fn recompose(k: (u32, u32), v: (u32, u32), position: usize) -> (r: [u32; 4]) {
        let (k1, k2, v1, v2) = indexes(2, position);
        let mut quad: [u32; 4] = [0, 0, 0, 0];
        quad[k1] = k.0;
        quad[k2] = k.1;
        quad[v1] = v.0;
        quad[v2] = v.1;
        proof {
            assert(quad@ =~= Self::compose(k, v, position as int));
        }
        quad
    }
}

/// The indexes keyed by one term.
pub struct OneTermKeys {}

impl IndexLevel<u32, (u32, u32, u32)> for OneTermKeys {
    open spec fn level() -> u8 {
        1
    }

    fn count() -> (r: usize) {
        4
    }

    open spec fn key_of(q: Seq<u32>, position: int) -> u32 {
        q[index_layout(1, position)[0] as int]
    }

    open spec fn value_of(q: Seq<u32>, position: int) -> (u32, u32, u32) {
        let l = index_layout(1, position);
        (q[l[1] as int], q[l[2] as int], q[l[3] as int])
    }

    open spec fn compose(k: u32, v: (u32, u32, u32), position: int) -> Seq<u32> {
        let l = index_layout(1, position);
        Seq::new(4, |j: int| if j == l[0] { k } else if j == l[1] { v.0 } else if j == l[2] { v.1 } else { v.2 })
    }

    proof fn lemma_level(position: int) {
        lemma_tuples_lawful();
        assert forall|q: Seq<u32>|
            q.len() == 4 implies #[trigger] Self::compose(Self::key_of(q, position), Self::value_of(q, position), position) == q by {
            assert(Self::compose(Self::key_of(q, position), Self::value_of(q, position), position) =~= q);
        }
    }

    fn decompose(quad: &[u32; 4], position: usize) -> (r: (u32, (u32, u32, u32))) {
        let (k, v1, v2, v3) = indexes(1, position);
        (quad[k], (quad[v1], quad[v2], quad[v3]))
    }

    fn recompose(k: u32, v: (u32, u32, u32), position: usize) -> (r: [u32; 4]) {
        let (k1, v1, v2, v3) = indexes(1, position);
        let mut quad: [u32; 4] = [0, 0, 0, 0];
        quad[k1] = k;
        quad[v1] = v.0;
        quad[v2] = v.1;
        quad[v3] = v.2;
        proof {
            assert(quad@ =~= Self::compose(k, v, position as int));
        }
        quad
    }
}

/// The indexes of one level, each built or not.
pub struct LevelIndexes<K, V, L> {
    maps: Vec<Option<BTreeMap<K, BTreeSet<V>>>>,
    level: PhantomData<L>,
}

impl<K: Ord + Copy, V: Ord + Copy, L: IndexLevel<K, V>> LevelIndexes<K, V, L> {
    /// The quads that the map holds as the index `position` of the level.
    pub open spec fn quads_in(m: Map<K, BTreeSet<V>>, position: int) -> Set<Seq<u32>> {
        Set::new(|q: Seq<u32>| q.len() == 4 && holds(m, L::key_of(q, position), L::value_of(q, position)))
    }

    /// The number of indexes.
    pub closed spec fn len(&self) -> nat {
        self.maps@.len()
    }

    /// Whether the index `i` is built.
    pub closed spec fn built(&self, i: int) -> bool {
        self.maps@[i] is Some
    }

    /// The keys of the index `i`, if it is built.
    pub closed spec fn keys(&self, i: int) -> Set<K> {
        self.maps@[i]->0@.dom()
    }

    /// The quads of the index `i`, if it is built.
    pub closed spec fn quads_of(&self, i: int) -> Set<Seq<u32>> {
        Self::quads_in(self.maps@[i]->0@, i)
    }

    /// The level has all its indexes, and every built one holds `quads`.
    pub open spec fn holds_quads(&self, quads: Set<Seq<u32>>) -> bool {
        &&& self.len() == level_size(L::level())
        &&& forall|i: int| 0 <= i < self.len() && #[trigger] self.built(i) ==> self.quads_of(i) == quads
    }

    /// The indexes of the level, none built but the first one if
    /// `first_built`, which is then empty.
    fn empty(first_built: bool) -> (r: Self)
        ensures
            r.len() == level_size(L::level()),
            forall|i: int| 0 <= i < r.len() ==> #[trigger] r.built(i) == (i == 0 && first_built),
            first_built ==> r.quads_of(0) == Set::<Seq<u32>>::empty(),
    {
        let n = L::count();
        let mut maps: Vec<Option<BTreeMap<K, BTreeSet<V>>>> = Vec::new();
        let mut i: usize = 0;
        while i < n
            invariant
                0 <= i <= n,
                n == level_size(L::level()),
                maps@.len() == i,
                forall|j: int| 0 <= j < i ==> (#[trigger] maps@[j]) is Some == (j == 0 && first_built),
                forall|j: int| 0 <= j < i && (#[trigger] maps@[j]) is Some ==> maps@[j]->0@ == Map::<K, BTreeSet<V>>::empty(),
            decreases n - i,
        {
            if i == 0 && first_built {
                maps.push(Some(BTreeMap::new()));
            } else {
                maps.push(None);
            }
            i = i + 1;
        }
        let r = LevelIndexes { maps, level: PhantomData };
        proof {
            if first_built {
                assert(r.quads_of(0) =~= Set::<Seq<u32>>::empty());
            }
        }
        r
    }

    /// Whether the built index `position` holds the quad.
    fn has_quad(&self, position: usize, quad: &[u32; 4]) -> (r: bool)
        requires
            position < self.len(),
            self.len() == level_size(L::level()),
            self.built(position as int),
        ensures
            r == self.quads_of(position as int).contains(quad@),
    {
        proof {
            L::lemma_level(position as int);
        }
        let (k, v) = L::decompose(quad, position);
        match &self.maps[position] {
            Some(m) => has_pair(m, &k, &v),
            None => false,
        }
    }

    /// Whether the built index `position` has the key of the quad.
    pub closed spec fn has_key_of(&self, position: int, q: Seq<u32>) -> bool {
        self.keys(position).contains(L::key_of(q, position))
    }

    /// Whether the built index `position` has the key of the quad.
    fn has_key(&self, position: usize, quad: &[u32; 4]) -> (r: bool)
        requires
            position < self.len(),
            self.len() == level_size(L::level()),
            self.built(position as int),
        ensures
            r == self.has_key_of(position as int, quad@),
    {
        proof {
            L::lemma_level(position as int);
        }
        let (k, _v) = L::decompose(quad, position);
        match &self.maps[position] {
            Some(m) => match m.get(&k) {
                Some(_) => true,
                None => false,
            },
            None => false,
        }
    }

    /// Adds the quad to every built index.
    fn add(&mut self, quad: &[u32; 4])
        requires
            old(self).len() == level_size(L::level()),
        ensures
            final(self).len() == old(self).len(),
            forall|i: int| 0 <= i < old(self).len() ==> #[trigger] final(self).built(i) == old(self).built(i),
            forall|i: int|
                0 <= i < old(self).len() && #[trigger] old(self).built(i) ==> final(self).quads_of(i) == old(
                    self,
                ).quads_of(i).insert(quad@) && final(self).keys(i) == old(self).keys(i).insert(
                    L::key_of(quad@, i),
                ),
    {
        let ghost old_maps = self.maps@;
        let n = self.maps.len();
        let mut i: usize = 0;
        while i < n
            invariant
                0 <= i <= n,
                n == self.maps@.len(),
                n == old_maps.len(),
                n == level_size(L::level()),
                forall|j: int| i <= j < n ==> #[trigger] self.maps@[j] == old_maps[j],
                forall|j: int| 0 <= j < i ==> (#[trigger] self.maps@[j]) is Some == old_maps[j] is Some,
                forall|j: int|
                    0 <= j < i && (#[trigger] old_maps[j]) is Some ==> Self::quads_in(self.maps@[j]->0@, j)
                        == Self::quads_in(old_maps[j]->0@, j).insert(quad@) && self.maps@[j]->0@.dom()
                        == old_maps[j]->0@.dom().insert(L::key_of(quad@, j)),
            decreases n - i,
        {
            proof {
                L::lemma_level(i as int);
            }
            let (k, v) = L::decompose(quad, i);
            let ghost before = self.maps@[i as int];
            match &mut self.maps[i] {
                Some(m) => {
                    add_pair(m, k, v);
                },
                None => {},
            }
            proof {
                if before is Some {
                    let after = self.maps@[i as int]->0@;
                    assert forall|q: Seq<u32>| #[trigger] Self::quads_in(after, i as int).contains(q) == Self::quads_in(
                        before->0@,
                        i as int,
                    ).insert(quad@).contains(q) by {
                        if q.len() == 4 && L::key_of(q, i as int) == k && L::value_of(q, i as int) == v {
                            assert(L::compose(L::key_of(q, i as int), L::value_of(q, i as int), i as int) == q);
                            assert(L::compose(L::key_of(quad@, i as int), L::value_of(quad@, i as int), i as int) == quad@);
                        }
                    }
                    assert(Self::quads_in(after, i as int) =~= Self::quads_in(before->0@, i as int).insert(quad@));
                }
            }
            i = i + 1;
        }
    }

    /// Removes the quad from every built index, each of which has the key of
    /// the quad (its set of values stays, even when it becomes empty).
    fn remove(&mut self, quad: &[u32; 4])
        requires
            old(self).len() == level_size(L::level()),
            forall|i: int| 0 <= i < old(self).len() && #[trigger] old(self).built(i) ==> old(self).has_key_of(i, quad@),
        ensures
            final(self).len() == old(self).len(),
            forall|i: int| 0 <= i < old(self).len() ==> #[trigger] final(self).built(i) == old(self).built(i),
            forall|i: int|
                0 <= i < old(self).len() && #[trigger] old(self).built(i) ==> final(self).quads_of(i) == old(
                    self,
                ).quads_of(i).remove(quad@) && final(self).keys(i) == old(self).keys(i),
    {
        let ghost old_maps = self.maps@;
        proof {
            assert forall|j: int|
                0 <= j < old_maps.len() && (#[trigger] old_maps[j]) is Some implies old_maps[j]->0@.dom().contains(
                L::key_of(quad@, j),
            ) by {
                assert(old(self).built(j));
                assert(old(self).has_key_of(j, quad@));
            }
        }
        let n = self.maps.len();
        let mut i: usize = 0;
        while i < n
            invariant
                0 <= i <= n,
                n == self.maps@.len(),
                n == old_maps.len(),
                n == level_size(L::level()),
                forall|j: int|
                    0 <= j < n && (#[trigger] old_maps[j]) is Some ==> old_maps[j]->0@.dom().contains(
                        L::key_of(quad@, j),
                    ),
                forall|j: int| i <= j < n ==> #[trigger] self.maps@[j] == old_maps[j],
                forall|j: int| 0 <= j < i ==> (#[trigger] self.maps@[j]) is Some == old_maps[j] is Some,
                forall|j: int|
                    0 <= j < i && (#[trigger] old_maps[j]) is Some ==> Self::quads_in(self.maps@[j]->0@, j)
                        == Self::quads_in(old_maps[j]->0@, j).remove(quad@) && self.maps@[j]->0@.dom()
                        == old_maps[j]->0@.dom(),
            decreases n - i,
        {
            proof {
                L::lemma_level(i as int);
            }
            let (k, v) = L::decompose(quad, i);
            let ghost before = self.maps@[i as int];
            match &mut self.maps[i] {
                Some(m) => {
                    remove_pair(m, k, v);
                },
                None => {},
            }
            proof {
                if before is Some {
                    let after = self.maps@[i as int]->0@;
                    assert forall|q: Seq<u32>| #[trigger] Self::quads_in(after, i as int).contains(q) == Self::quads_in(
                        before->0@,
                        i as int,
                    ).remove(quad@).contains(q) by {
                        if q.len() == 4 && L::key_of(q, i as int) == k && L::value_of(q, i as int) == v {
                            assert(L::compose(L::key_of(q, i as int), L::value_of(q, i as int), i as int) == q);
                            assert(L::compose(L::key_of(quad@, i as int), L::value_of(quad@, i as int), i as int) == quad@);
                        }
                    }
                    assert(Self::quads_in(after, i as int) =~= Self::quads_in(before->0@, i as int).remove(quad@));
                }
            }
            i = i + 1;
        }
    }
}

impl<K: Ord + Copy, V: Ord + Copy, L: IndexLevel<K, V>> LevelIndexes<K, V, L> {
    /// The index `position` of the level, holding the quads of `source`.
    fn build_from(position: usize, source: &Vec<[u32; 4]>) -> (r: BTreeMap<K, BTreeSet<V>>)
        requires
            position < level_size(L::level()),
        ensures
            Self::quads_in(r@, position as int) == quads_of_arrays(source@),
    {
        proof {
            L::lemma_level(position as int);
            lemma_quads_of_prefix_ends(source@);
        }
        let mut map: BTreeMap<K, BTreeSet<V>> = BTreeMap::new();
        proof {
            assert(Self::quads_in(map@, position as int) =~= Set::<Seq<u32>>::empty());
        }
        let mut i: usize = 0;
        while i < source.len()
            invariant
                0 <= i <= source@.len(),
                position < level_size(L::level()),
                lawful::<K, V>(),
                forall|q: Seq<u32>|
                    q.len() == 4 ==> #[trigger] L::compose(L::key_of(q, position as int), L::value_of(q, position as int), position as int) == q,
                Self::quads_in(map@, position as int) == quads_of_arrays(source@.subrange(0, i as int)),
            decreases source@.len() - i,
        {
            let (k, v) = L::decompose(&source[i], position);
            let ghost before = map@;
            add_pair(&mut map, k, v);
            proof {
                lemma_quads_of_prefix(source@, i as int);
                let quad = source@[i as int]@;
                assert forall|q: Seq<u32>| #[trigger] Self::quads_in(map@, position as int).contains(q) == Self::quads_in(
                    before,
                    position as int,
                ).insert(quad).contains(q) by {
                    if q.len() == 4 && L::key_of(q, position as int) == k && L::value_of(q, position as int) == v {
                        assert(L::compose(L::key_of(q, position as int), L::value_of(q, position as int), position as int) == q);
                        assert(L::compose(L::key_of(quad, position as int), L::value_of(quad, position as int), position as int) == quad);
                    }
                }
                assert(Self::quads_in(map@, position as int) =~= Self::quads_in(before, position as int).insert(quad));
            }
            i = i + 1;
        }
        map
    }

    /// Builds the index `position` from `source`, which holds the quads that
    /// the built indexes hold, if it is not built yet.
    fn ensure_built(&mut self, position: usize, source: &Vec<[u32; 4]>)
        requires
            old(self).holds_quads(quads_of_arrays(source@)),
            position < old(self).len(),
        ensures
            final(self).holds_quads(quads_of_arrays(source@)),
            final(self).built(position as int),
            forall|i: int| 0 <= i < old(self).len() && i != position ==> #[trigger] final(self).built(i) == old(self).built(i),
    {
        if self.maps[position].is_none() {
            let m = Self::build_from(position, source);
            let ghost before = *self;
            self.maps.set(position, Some(m));
            proof {
                assert forall|i: int| 0 <= i < self.len() && #[trigger] self.built(i) implies self.quads_of(i)
                    == quads_of_arrays(source@) by {
                    if i != position {
                        assert(before.built(i));
                    }
                }
            }
        }
    }

    /// The quads of the built index `position` whose key is `key`, each once.
    fn lookup(&self, position: usize, key: K) -> (r: Vec<[u32; 4]>)
        requires
            position < self.len(),
            self.len() == level_size(L::level()),
            self.built(position as int),
        ensures
            distinct_quads(r@),
            quads_of_arrays(r@) == self.quads_of(position as int).filter(|q: Seq<u32>| L::key_of(q, position as int) == key),
    {
        let ghost pos = position as int;
        let ghost wanted = self.quads_of(pos).filter(|q: Seq<u32>| L::key_of(q, pos) == key);
        proof {
            L::lemma_level(pos);
        }
        let map = match &self.maps[position] {
            Some(m) => m,
            None => {
                return Vec::new();
            },
        };
        match map.get(&key) {
            None => {
                proof {
                    lemma_quads_of_prefix_ends(Seq::<[u32; 4]>::empty());
                    assert(wanted =~= Set::<Seq<u32>>::empty());
                }
                Vec::new()
            },
            Some(set) => {
                let values = set_elements(set);
                let mut r: Vec<[u32; 4]> = Vec::new();
                let mut j: usize = 0;
                while j < values.len()
                    invariant
                        0 <= j <= values@.len(),
                        pos == position,
                        position < level_size(L::level()),
                        values@.no_duplicates(),
                        r@.len() == j,
                        forall|x: int| 0 <= x < j ==> (#[trigger] r@[x])@ == L::compose(key, values@[x], pos),
                        forall|k: K, v: V|
                            (#[trigger] L::compose(k, v, pos)).len() == 4 && L::key_of(L::compose(k, v, pos), pos) == k
                                && L::value_of(L::compose(k, v, pos), pos) == v,
                    decreases values@.len() - j,
                {
                    r.push(L::recompose(key, values[j], position));
                    j = j + 1;
                }
                proof {
                    assert forall|a: int, b: int| 0 <= a < b < r@.len() implies r@[a]@ != r@[b]@ by {
                        assert(L::value_of(r@[a]@, pos) == values@[a]);
                        assert(L::value_of(r@[b]@, pos) == values@[b]);
                    }
                    assert forall|q: Seq<u32>| #[trigger] quads_of_arrays(r@).contains(q) == wanted.contains(q) by {
                        if quads_of_arrays(r@).contains(q) {
                            let x = choose|x: int| 0 <= x < quad_views(r@).len() && quad_views(r@)[x] == q;
                            assert(r@[x]@ == q);
                            assert(values@.contains(values@[x]));
                        }
                        if wanted.contains(q) {
                            assert(L::compose(L::key_of(q, pos), L::value_of(q, pos), pos) == q);
                            assert(values@.contains(L::value_of(q, pos)));
                            let x = choose|x: int| 0 <= x < values@.len() && values@[x] == L::value_of(q, pos);
                            assert(quad_views(r@)[x] == q);
                        }
                    }
                    assert(quads_of_arrays(r@) =~= wanted);
                }
                r
            },
        }
    }

    /// The quads of the built index `position`, each once.
    fn all(&self, position: usize) -> (r: Vec<[u32; 4]>)
        requires
            position < self.len(),
            self.len() == level_size(L::level()),
            self.built(position as int),
        ensures
            distinct_quads(r@),
            quads_of_arrays(r@) == self.quads_of(position as int),
    {
        let ghost pos = position as int;
        proof {
            L::lemma_level(pos);
        }
        let map = match &self.maps[position] {
            Some(m) => m,
            None => {
                return Vec::new();
            },
        };
        let pairs = map_pairs(map);
        let mut r: Vec<[u32; 4]> = Vec::new();
        let mut j: usize = 0;
        while j < pairs.len()
            invariant
                0 <= j <= pairs@.len(),
                pos == position,
                position < level_size(L::level()),
                pairs@.no_duplicates(),
                r@.len() == j,
                forall|x: int| 0 <= x < j ==> (#[trigger] r@[x])@ == L::compose(pairs@[x].0, pairs@[x].1, pos),
                forall|k: K, v: V|
                    (#[trigger] L::compose(k, v, pos)).len() == 4 && L::key_of(L::compose(k, v, pos), pos) == k
                        && L::value_of(L::compose(k, v, pos), pos) == v,
            decreases pairs@.len() - j,
        {
            let (k, v) = pairs[j];
            r.push(L::recompose(k, v, position));
            j = j + 1;
        }
        proof {
            assert forall|a: int, b: int| 0 <= a < b < r@.len() implies r@[a]@ != r@[b]@ by {
                assert(L::key_of(r@[a]@, pos) == pairs@[a].0 && L::value_of(r@[a]@, pos) == pairs@[a].1);
                assert(L::key_of(r@[b]@, pos) == pairs@[b].0 && L::value_of(r@[b]@, pos) == pairs@[b].1);
            }
            assert forall|q: Seq<u32>| #[trigger] quads_of_arrays(r@).contains(q) == self.quads_of(pos).contains(q) by {
                if quads_of_arrays(r@).contains(q) {
                    let x = choose|x: int| 0 <= x < quad_views(r@).len() && quad_views(r@)[x] == q;
                    assert(r@[x]@ == q);
                    assert(pairs@.contains(pairs@[x]));
                }
                if self.quads_of(pos).contains(q) {
                    assert(L::compose(L::key_of(q, pos), L::value_of(q, pos), pos) == q);
                    assert(pairs@.contains((L::key_of(q, pos), L::value_of(q, pos))));
                    let x = choose|x: int| 0 <= x < pairs@.len() && pairs@[x] == (L::key_of(q, pos), L::value_of(q, pos));
                    assert(quad_views(r@)[x] == q);
                }
            }
            assert(quads_of_arrays(r@) =~= self.quads_of(pos));
        }
        r
    }
}

/// The indexes keyed by three terms.
pub type ThreeTermIndexes = LevelIndexes<(u32, u32, u32), u32, ThreeTermKeys>;
/// The indexes keyed by two terms.
pub type TwoTermIndexes = LevelIndexes<(u32, u32), (u32, u32), TwoTermKeys>;
/// The indexes keyed by one term.
pub type OneTermIndexes = LevelIndexes<u32, (u32, u32, u32), OneTermKeys>;

/// Index of the always built index: keyed by the graph name, the
/// predicate and the subject.
pub const POS_DEFAULT_BUILT: usize = 0;

/// The quads of a dataset, in fourteen indexes: four keyed by three terms,
/// six by two terms and four by one term.
pub struct Data {
    three_indexes: ThreeTermIndexes,
    two_indexes: TwoTermIndexes,
    one_indexes: OneTermIndexes,
}

impl Data {
    /// The quads of the dataset.
    pub closed spec fn quads(&self) -> Set<Seq<u32>> {
        self.three_indexes.quads_of(0)
    }

    /// Which indexes keyed by three terms are built.
    pub closed spec fn built_3(&self) -> Seq<bool> {
        Seq::new(4, |i: int| self.three_indexes.built(i))
    }

    /// Which indexes keyed by two terms are built.
    pub closed spec fn built_2(&self) -> Seq<bool> {
        Seq::new(6, |i: int| self.two_indexes.built(i))
    }

    /// Which indexes keyed by one term are built.
    pub closed spec fn built_1(&self) -> Seq<bool> {
        Seq::new(4, |i: int| self.one_indexes.built(i))
    }

    /// The first index is built, and every built index holds the quads of
    /// the dataset.
    pub closed spec fn well_formed(&self) -> bool {
        &&& self.three_indexes.built(0)
        &&& self.three_indexes.holds_quads(self.quads())
        &&& self.two_indexes.holds_quads(self.quads())
        &&& self.one_indexes.holds_quads(self.quads())
    }

    /// The first index has a set of values for the key that the quad has
    /// there: the quad was in the dataset at some point.
    pub closed spec fn knows_key_of(&self, quad: Seq<u32>) -> bool {
        self.three_indexes.has_key_of(0, quad)
    }

    /// Whether the first index has a set of values for the key that the
    /// quad has there, which [`remove`](Self::remove) needs.
    pub fn knows_key(&self, spog: &[u32; 4]) -> (r: bool)
        requires
            self.well_formed(),
        ensures
            r == self.knows_key_of(spog@),
    {
        proof {
            assert(self.three_indexes.built(0));
        }
        self.three_indexes.has_key(POS_DEFAULT_BUILT, spog)
    }

    /// An empty dataset, with only its first index built.
    pub fn new() -> (r: Data)
        ensures
            r.well_formed(),
            r.quads() == Set::<Seq<u32>>::empty(),
            r.built_3() == seq![true, false, false, false],
            r.built_2() == seq![false, false, false, false, false, false],
            r.built_1() == seq![false, false, false, false],
    {
        let r = Data {
            three_indexes: ThreeTermIndexes::empty(true),
            two_indexes: TwoTermIndexes::empty(false),
            one_indexes: OneTermIndexes::empty(false),
        };
        proof {
            assert(r.built_3() =~= seq![true, false, false, false]);
            assert(r.built_2() =~= seq![false, false, false, false, false, false]);
            assert(r.built_1() =~= seq![false, false, false, false]);
        }
        r
    }

    /// Inserts the quad in every built index. Returns true if it was not
    /// already in the dataset.
    pub fn insert(&mut self, spog: [u32; 4]) -> (r: bool)
        requires
            old(self).well_formed(),
        ensures
            final(self).well_formed(),
            final(self).quads() == old(self).quads().insert(spog@),
            r == !old(self).quads().contains(spog@),
            final(self).built_3() == old(self).built_3(),
            final(self).built_2() == old(self).built_2(),
            final(self).built_1() == old(self).built_1(),
            final(self).knows_key_of(spog@),
            forall|q: Seq<u32>| old(self).knows_key_of(q) ==> #[trigger] final(self).knows_key_of(q),
    {
        if self.three_indexes.has_quad(POS_DEFAULT_BUILT, &spog) {
            proof {
                assert(old(self).quads().insert(spog@) =~= old(self).quads());
                lemma_built_indexes_have_key(&self.three_indexes, self.quads(), spog@);
                assert(self.three_indexes.built(0));
            }
            return false;
        }
        let ghost q = self.quads().insert(spog@);
        self.three_indexes.add(&spog);
        self.two_indexes.add(&spog);
        self.one_indexes.add(&spog);
        proof {
            assert(self.built_3() =~= old(self).built_3());
            assert(self.built_2() =~= old(self).built_2());
            assert(self.built_1() =~= old(self).built_1());
        }
        true
    }

    /// Removes the quad from every built index. Returns true if it was in
    /// the dataset.
    pub fn remove(&mut self, spog: [u32; 4]) -> (r: bool)
        requires
            old(self).well_formed(),
            old(self).knows_key_of(spog@),
        ensures
            final(self).well_formed(),
            final(self).quads() == old(self).quads().remove(spog@),
            r == old(self).quads().contains(spog@),
            final(self).built_3() == old(self).built_3(),
            final(self).built_2() == old(self).built_2(),
            final(self).built_1() == old(self).built_1(),
            forall|q: Seq<u32>| old(self).knows_key_of(q) ==> #[trigger] final(self).knows_key_of(q),
    {
        if !self.three_indexes.has_quad(POS_DEFAULT_BUILT, &spog) {
            proof {
                assert(old(self).quads().remove(spog@) =~= old(self).quads());
            }
            return false;
        }
        proof {
            lemma_built_indexes_have_key(&self.three_indexes, self.quads(), spog@);
            lemma_built_indexes_have_key(&self.two_indexes, self.quads(), spog@);
            lemma_built_indexes_have_key(&self.one_indexes, self.quads(), spog@);
        }
        self.three_indexes.remove(&spog);
        self.two_indexes.remove(&spog);
        self.one_indexes.remove(&spog);
        proof {
            assert(self.built_3() =~= old(self).built_3());
            assert(self.built_2() =~= old(self).built_2());
            assert(self.built_1() =~= old(self).built_1());
        }
        true
    }

    /// Every quad of the dataset, each once.
    pub fn get(&self) -> (r: Vec<[u32; 4]>)
        requires
            self.well_formed(),
        ensures
            distinct_quads(r@),
            quads_of_arrays(r@) == self.quads(),
    {
        self.three_indexes.all(POS_DEFAULT_BUILT)
    }

    /// The quads whose terms at the positions of the key of the index
    /// `position` keyed by three terms are `key`, each once. Builds that
    /// index if it is not.
    pub fn get_3(&mut self, position: usize, key: [u32; 3]) -> (r: Vec<[u32; 4]>)
        requires
            old(self).well_formed(),
            position < 4,
        ensures
            final(self).well_formed(),
            final(self).quads() == old(self).quads(),
            final(self).built_3() == old(self).built_3().update(position as int, true),
            final(self).built_2() == old(self).built_2(),
            final(self).built_1() == old(self).built_1(),
            distinct_quads(r@),
            quads_of_arrays(r@) == old(self).quads().filter(
                |q: Seq<u32>| ThreeTermKeys::key_of(q, position as int) == (key[0], key[1], key[2]),
            ),
            position == 0 ==> forall|q: Seq<u32>|
                #[trigger] quads_of_arrays(r@).contains(q) <==> old(self).quads().contains(q) && q[3] == key[0]
                    && q[1] == key[1] && q[0] == key[2],
            position == 1 ==> forall|q: Seq<u32>|
                #[trigger] quads_of_arrays(r@).contains(q) <==> old(self).quads().contains(q) && q[3] == key[0]
                    && q[1] == key[1] && q[2] == key[2],
            position == 2 ==> forall|q: Seq<u32>|
                #[trigger] quads_of_arrays(r@).contains(q) <==> old(self).quads().contains(q) && q[3] == key[0]
                    && q[0] == key[1] && q[2] == key[2],
            position == 3 ==> forall|q: Seq<u32>|
                #[trigger] quads_of_arrays(r@).contains(q) <==> old(self).quads().contains(q) && q[1] == key[0]
                    && q[0] == key[1] && q[2] == key[2],
    {
        let all = self.get();
        self.three_indexes.ensure_built(position, &all);
        proof {
            assert(self.three_indexes.built(0));
            assert(self.three_indexes.quads_of(0) == old(self).quads());
            assert(self.built_3() =~= old(self).built_3().update(position as int, true));
        }
        let r = self.three_indexes.lookup(position, (key[0], key[1], key[2]));
        proof {
            assert(self.three_indexes.quads_of(position as int) == old(self).quads());
            assert(quads_of_arrays(r@) =~= old(self).quads().filter(
                |q: Seq<u32>| ThreeTermKeys::key_of(q, position as int) == (key[0], key[1], key[2]),
            ));
            law_three_term_lookup(old(self).quads(), position, key, r@);
        }
        r
    }

    /// The quads whose terms at the positions of the key of the index
    /// `position` keyed by two terms are `key`, each once. Builds that index
    /// if it is not.
    pub fn get_2(&mut self, position: usize, key: [u32; 2]) -> (r: Vec<[u32; 4]>)
        requires
            old(self).well_formed(),
            position < 6,
        ensures
            final(self).well_formed(),
            final(self).quads() == old(self).quads(),
            final(self).built_3() == old(self).built_3(),
            final(self).built_2() == old(self).built_2().update(position as int, true),
            final(self).built_1() == old(self).built_1(),
            distinct_quads(r@),
            quads_of_arrays(r@) == old(self).quads().filter(
                |q: Seq<u32>| TwoTermKeys::key_of(q, position as int) == (key[0], key[1]),
            ),
            position == 0 ==> forall|q: Seq<u32>|
                #[trigger] quads_of_arrays(r@).contains(q) <==> old(self).quads().contains(q) && q[3] == key[0] && q[1] == key[1],
            position == 1 ==> forall|q: Seq<u32>|
                #[trigger] quads_of_arrays(r@).contains(q) <==> old(self).quads().contains(q) && q[3] == key[0] && q[0] == key[1],
            position == 2 ==> forall|q: Seq<u32>|
                #[trigger] quads_of_arrays(r@).contains(q) <==> old(self).quads().contains(q) && q[1] == key[0] && q[0] == key[1],
            position == 3 ==> forall|q: Seq<u32>|
                #[trigger] quads_of_arrays(r@).contains(q) <==> old(self).quads().contains(q) && q[3] == key[0] && q[2] == key[1],
            position == 4 ==> forall|q: Seq<u32>|
                #[trigger] quads_of_arrays(r@).contains(q) <==> old(self).quads().contains(q) && q[1] == key[0] && q[2] == key[1],
            position == 5 ==> forall|q: Seq<u32>|
                #[trigger] quads_of_arrays(r@).contains(q) <==> old(self).quads().contains(q) && q[0] == key[0] && q[2] == key[1],
    {
        let all = self.get();
        self.two_indexes.ensure_built(position, &all);
        proof {
            assert(self.built_2() =~= old(self).built_2().update(position as int, true));
        }
        let r = self.two_indexes.lookup(position, (key[0], key[1]));
        proof {
            assert(self.two_indexes.quads_of(position as int) == old(self).quads());
            assert(quads_of_arrays(r@) =~= old(self).quads().filter(
                |q: Seq<u32>| TwoTermKeys::key_of(q, position as int) == (key[0], key[1]),
            ));
            law_two_term_lookup(old(self).quads(), position, key, r@);
        }
        r
    }

    /// The quads whose term at the position of the key of the index
    /// `position` keyed by one term is `key`, each once. Builds that index if
    /// it is not.
    pub fn get_1(&mut self, position: usize, key: u32) -> (r: Vec<[u32; 4]>)
        requires
            old(self).well_formed(),
            position < 4,
        ensures
            final(self).well_formed(),
            final(self).quads() == old(self).quads(),
            final(self).built_3() == old(self).built_3(),
            final(self).built_2() == old(self).built_2(),
            final(self).built_1() == old(self).built_1().update(position as int, true),
            distinct_quads(r@),
            quads_of_arrays(r@) == old(self).quads().filter(|q: Seq<u32>| OneTermKeys::key_of(q, position as int) == key),
            position == 0 ==> forall|q: Seq<u32>|
                #[trigger] quads_of_arrays(r@).contains(q) <==> old(self).quads().contains(q) && q[3] == key,
            position == 1 ==> forall|q: Seq<u32>|
                #[trigger] quads_of_arrays(r@).contains(q) <==> old(self).quads().contains(q) && q[1] == key,
            position == 2 ==> forall|q: Seq<u32>|
                #[trigger] quads_of_arrays(r@).contains(q) <==> old(self).quads().contains(q) && q[0] == key,
            position == 3 ==> forall|q: Seq<u32>|
                #[trigger] quads_of_arrays(r@).contains(q) <==> old(self).quads().contains(q) && q[2] == key,
    {
        let all = self.get();
        self.one_indexes.ensure_built(position, &all);
        proof {
            assert(self.built_1() =~= old(self).built_1().update(position as int, true));
        }
        let r = self.one_indexes.lookup(position, key);
        proof {
            assert(self.one_indexes.quads_of(position as int) == old(self).quads());
            assert(quads_of_arrays(r@) =~= old(self).quads().filter(
                |q: Seq<u32>| OneTermKeys::key_of(q, position as int) == key,
            ));
            law_one_term_lookup(old(self).quads(), position, key, r@);
        }
        r
    }
}

/// A quad of a level whose built indexes hold the quads `quads` is present,
/// by its key, in each of them.
proof fn lemma_built_indexes_have_key<K: Ord + Copy, V: Ord + Copy, L: IndexLevel<K, V>>(
    level: &LevelIndexes<K, V, L>,
    quads: Set<Seq<u32>>,
    quad: Seq<u32>,
)
    requires
        level.holds_quads(quads),
        quads.contains(quad),
    ensures
        forall|i: int| 0 <= i < level.len() && #[trigger] level.built(i) ==> level.has_key_of(i, quad),
{
    assert forall|i: int| 0 <= i < level.len() && #[trigger] level.built(i) implies level.has_key_of(i, quad) by {
        assert(level.quads_of(i).contains(quad));
    }
}


/// A lookup by three terms finds the quads named by the index: index 0 is
/// keyed by graph name, predicate and subject (GPS), index 1 by graph name,
/// predicate and object (GPO), index 2 by graph name, subject and object
/// (GSO) and index 3 by predicate, subject and object (PSO). The positions
/// of a quad are 0 for the subject, 1 for the predicate, 2 for the object
/// and 3 for the graph name.
pub proof fn law_three_term_lookup(quads: Set<Seq<u32>>, position: usize, key: [u32; 3], r: Seq<[u32; 4]>)
    requires
        position < 4,
        quads_of_arrays(r) == quads.filter(
            |q: Seq<u32>| ThreeTermKeys::key_of(q, position as int) == (key[0], key[1], key[2]),
        ),
    ensures
        position == 0 ==> forall|q: Seq<u32>|
            #[trigger] quads_of_arrays(r).contains(q) <==> quads.contains(q) && q[3] == key[0] && q[1] == key[1]
                && q[0] == key[2],
        position == 1 ==> forall|q: Seq<u32>|
            #[trigger] quads_of_arrays(r).contains(q) <==> quads.contains(q) && q[3] == key[0] && q[1] == key[1]
                && q[2] == key[2],
        position == 2 ==> forall|q: Seq<u32>|
            #[trigger] quads_of_arrays(r).contains(q) <==> quads.contains(q) && q[3] == key[0] && q[0] == key[1]
                && q[2] == key[2],
        position == 3 ==> forall|q: Seq<u32>|
            #[trigger] quads_of_arrays(r).contains(q) <==> quads.contains(q) && q[1] == key[0] && q[0] == key[1]
                && q[2] == key[2],
{
}

/// A lookup by two terms finds the quads named by the index: the six
/// indexes are keyed by graph name and predicate (GP), graph name and
/// subject (GS), predicate and subject (PS), graph name and object (GO),
/// predicate and object (PO), and subject and object (SO), in that order.
pub proof fn law_two_term_lookup(quads: Set<Seq<u32>>, position: usize, key: [u32; 2], r: Seq<[u32; 4]>)
    requires
        position < 6,
        quads_of_arrays(r) == quads.filter(|q: Seq<u32>| TwoTermKeys::key_of(q, position as int) == (key[0], key[1])),
    ensures
        position == 0 ==> forall|q: Seq<u32>|
            #[trigger] quads_of_arrays(r).contains(q) <==> quads.contains(q) && q[3] == key[0] && q[1] == key[1],
        position == 1 ==> forall|q: Seq<u32>|
            #[trigger] quads_of_arrays(r).contains(q) <==> quads.contains(q) && q[3] == key[0] && q[0] == key[1],
        position == 2 ==> forall|q: Seq<u32>|
            #[trigger] quads_of_arrays(r).contains(q) <==> quads.contains(q) && q[1] == key[0] && q[0] == key[1],
        position == 3 ==> forall|q: Seq<u32>|
            #[trigger] quads_of_arrays(r).contains(q) <==> quads.contains(q) && q[3] == key[0] && q[2] == key[1],
        position == 4 ==> forall|q: Seq<u32>|
            #[trigger] quads_of_arrays(r).contains(q) <==> quads.contains(q) && q[1] == key[0] && q[2] == key[1],
        position == 5 ==> forall|q: Seq<u32>|
            #[trigger] quads_of_arrays(r).contains(q) <==> quads.contains(q) && q[0] == key[0] && q[2] == key[1],
{
}

/// A lookup by one term finds the quads named by the index: the four
/// indexes are keyed by the graph name (G), the predicate (P), the subject
/// (S) and the object (O), in that order.
pub proof fn law_one_term_lookup(quads: Set<Seq<u32>>, position: usize, key: u32, r: Seq<[u32; 4]>)
    requires
        position < 4,
        quads_of_arrays(r) == quads.filter(|q: Seq<u32>| OneTermKeys::key_of(q, position as int) == key),
    ensures
        position == 0 ==> forall|q: Seq<u32>| #[trigger] quads_of_arrays(r).contains(q) <==> quads.contains(q) && q[3] == key,
        position == 1 ==> forall|q: Seq<u32>| #[trigger] quads_of_arrays(r).contains(q) <==> quads.contains(q) && q[1] == key,
        position == 2 ==> forall|q: Seq<u32>| #[trigger] quads_of_arrays(r).contains(q) <==> quads.contains(q) && q[0] == key,
        position == 3 ==> forall|q: Seq<u32>| #[trigger] quads_of_arrays(r).contains(q) <==> quads.contains(q) && q[2] == key,
{
}

} // verus!
