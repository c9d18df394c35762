//! Quads of identifiers, patterns over them, and the orders in which the
//! four positions of a quad can be visited.
use vstd::prelude::*;
use crate::identifier::Identifier;

verus! {

/// Number of positions in a quad (the subject, the predicate, the object and
/// the graph name).
pub const ORDER4_NB_OF_TERMS: usize = 4;

/// The positions of an order, as mathematical integers.
pub open spec fn order_ints(o: Seq<usize>) -> Seq<int> {
    o.map_values(|x: usize| x as int)
}

/// Every entry of `o` designates one of the four positions of a quad.
pub open spec fn is_within_quad(o: Seq<usize>) -> bool {
    &&& o.len() == 4
    &&& forall|k: int| 0 <= k < 4 ==> #[trigger] o[k] < 4
}

/// `o` visits each of the four positions of a quad exactly once.
pub open spec fn is_quad_order(o: Seq<usize>) -> bool {
    &&& is_within_quad(o)
    &&& forall|i: int, j: int| 0 <= i < j < 4 ==> o[i] != o[j]
}

/// The quad `q` has, at every position where the pattern `p` holds a value,
/// that value (`None` is a wildcard).
pub open spec fn quad_matches<I>(q: Seq<I>, p: Seq<Option<I>>) -> bool {
    forall|i: int| 0 <= i < 4 && #[trigger] p[i] is Some ==> q[i] == p[i]->0
}

/// The rank at which `o` first visits the position `j`, or 4 if it never does.
pub open spec fn position_in_order(o: Seq<usize>, j: int) -> int {
    if o[0] as int == j {
        0
    } else if o[1] as int == j {
        1
    } else if o[2] as int == j {
        2
    } else if o[3] as int == j {
        3
    } else {
        4
    }
}

/// How many of the first positions visited by `o` hold a value in the
/// pattern `p`, before the first wildcard.
pub open spec fn fixed_prefix_len<T>(p: Seq<Option<T>>, o: Seq<usize>) -> nat {
    if p[o[0] as int] is None {
        0
    } else if p[o[1] as int] is None {
        1
    } else if p[o[2] as int] is None {
        2
    } else if p[o[3] as int] is None {
        3
    } else {
        4
    }
}

/// The position `j` is one of those that `o` visits before the first wildcard
/// of `p`.
pub open spec fn in_fixed_prefix<T>(p: Seq<Option<T>>, o: Seq<usize>, j: int) -> bool {
    position_in_order(o, j) < fixed_prefix_len(p, o)
}

/// A bound of the range that `o` gives to `p`: the value of the pattern on the
/// fixed prefix, `fill` elsewhere.
pub open spec fn range_bound<I>(p: Seq<Option<I>>, o: Seq<usize>, fill: I) -> Seq<I> {
    Seq::new(4, |j: int| if in_fixed_prefix(p, o, j) { p[j]->0 } else { fill })
}

/// The part of the pattern `p` that the range given by `o` does not already
/// enforce: the pattern with its fixed prefix turned into wildcards.
pub open spec fn range_leftover<I>(p: Seq<Option<I>>, o: Seq<usize>) -> Seq<Option<I>> {
    Seq::new(4, |j: int| if in_fixed_prefix(p, o, j) { None } else { p[j] })
}

/// The values of the quad `q` in the order `o` visits them.
pub open spec fn permute<I>(q: Seq<I>, o: Seq<usize>) -> Seq<I> {
    Seq::new(4, |k: int| q[o[k] as int])
}

/// A valid order lists each position of a quad exactly once, so every
/// position is reached at the rank `position_in_order` gives it.
pub proof fn lemma_order_covers_quad(o: Seq<usize>)
    requires
        is_quad_order(o),
    ensures
        forall|j: int|
            0 <= j < 4 ==> 0 <= #[trigger] position_in_order(o, j) < 4 && o[position_in_order(o, j)]
                == j,
        forall|k: int| 0 <= k < 4 ==> position_in_order(o, #[trigger] o[k] as int) == k,
        order_ints(o) == seq![o[0] as int, o[1] as int, o[2] as int, o[3] as int],
        forall|j: int|
            0 <= j < 4 ==> #[trigger] order_ints(o)[position_in_order(o, j)] == j,
        forall|k: int|
            0 <= k < 4 ==> position_in_order(o, #[trigger] order_ints(o)[k]) == k && 0
                <= order_ints(o)[k] < 4,
{
    assert(order_ints(o) =~= seq![o[0] as int, o[1] as int, o[2] as int, o[3] as int]);
}

/// The positions of an order of length 4, as integers.
pub proof fn lemma_order_ints(o: Seq<usize>)
    requires
        o.len() == 4,
    ensures
        order_ints(o) == seq![o[0] as int, o[1] as int, o[2] as int, o[3] as int],
        order_ints(o).len() == 4,
{
    assert(order_ints(o) =~= seq![o[0] as int, o[1] as int, o[2] as int, o[3] as int]);
}

/// The key under which a tree sorted in the order `o` stores the quad `q`:
/// the values of `q` in the order `o` visits them.
pub open spec fn key_of<I>(q: Seq<I>, o: Seq<usize>) -> (I, I, I, I) {
    (q[o[0] as int], q[o[1] as int], q[o[2] as int], q[o[3] as int])
}

/// The `r`-th component of a key.
pub open spec fn key_at<I>(k: (I, I, I, I), r: int) -> I {
    if r == 0 {
        k.0
    } else if r == 1 {
        k.1
    } else if r == 2 {
        k.2
    } else {
        k.3
    }
}

/// The quad that a tree sorted in the order `o` stores under the key `k`.
pub open spec fn quad_of_key<I>(k: (I, I, I, I), o: Seq<usize>) -> Seq<I> {
    Seq::new(4, |j: int| key_at(k, position_in_order(o, j)))
}

/// The quads that a tree sorted in the order `o` stores under the keys `keys`.
pub open spec fn quads_of_keys<I>(keys: Set<(I, I, I, I)>, o: Seq<usize>) -> Set<Seq<I>> {
    keys.map(|k: (I, I, I, I)| quad_of_key(k, o))
}

/// The quads held by a sequence of arrays, in order.
pub open spec fn quad_views<I>(v: Seq<[I; 4]>) -> Seq<Seq<I>> {
    v.map_values(|a: [I; 4]| a@)
}

/// The quads held by a sequence of arrays.
pub open spec fn quads_of_arrays<I>(v: Seq<[I; 4]>) -> Set<Seq<I>> {
    quad_views(v).to_set()
}

/// The quads of `s` that match the pattern `p`.
pub open spec fn matching<I>(s: Set<Seq<I>>, p: Seq<Option<I>>) -> Set<Seq<I>> {
    s.filter(|q: Seq<I>| quad_matches(q, p))
}

/// The pattern made of four wildcards.
pub open spec fn wildcard_pattern<I>() -> Seq<Option<I>> {
    seq![None::<I>, None, None, None]
}

/// The pattern made of four wildcards matches every quad.
pub proof fn lemma_matching_everything<I>(s: Set<Seq<I>>)
    ensures
        matching(s, wildcard_pattern()) == s,
        forall|q: Seq<I>| #[trigger] quad_matches(q, wildcard_pattern()),
{
    assert(matching(s, wildcard_pattern()) =~= s);
}

/// Appending an array to a sequence adds its quad to the quads held.
pub proof fn lemma_quads_of_arrays_push<I>(v: Seq<[I; 4]>, a: [I; 4])
    ensures
        quads_of_arrays(v.push(a)) == quads_of_arrays(v).insert(a@),
        quads_of_arrays(Seq::<[I; 4]>::empty()) == Set::<Seq<I>>::empty(),
{
    assert(quad_views(v.push(a)) =~= quad_views(v).push(a@));
    assert forall|q: Seq<I>|
        #[trigger] quads_of_arrays(v.push(a)).contains(q) <==> quads_of_arrays(v).insert(
            a@,
        ).contains(q) by {
        if quads_of_arrays(v).contains(q) {
            let j = choose|j: int| 0 <= j < quad_views(v).len() && quad_views(v)[j] == q;
            assert(quad_views(v.push(a))[j] == q);
        }
        if q == a@ {
            assert(quad_views(v.push(a))[v.len() as int] == q);
        }
        if quads_of_arrays(v.push(a)).contains(q) {
            let j = choose|j: int| 0 <= j < quad_views(v.push(a)).len() && quad_views(v.push(a))[j] == q;
            if j < v.len() {
                assert(quad_views(v)[j] == q);
            }
        }
    }
    assert(quads_of_arrays(v.push(a)) =~= quads_of_arrays(v).insert(a@));
    assert(quads_of_arrays(Seq::<[I; 4]>::empty()) =~= Set::<Seq<I>>::empty());
}

/// The quads held by the first `i + 1` arrays of `v`.
pub proof fn lemma_quads_of_prefix<I>(v: Seq<[I; 4]>, i: int)
    requires
        0 <= i < v.len(),
    ensures
        quads_of_arrays(v.subrange(0, i + 1)) == quads_of_arrays(v.subrange(0, i)).insert(v[i]@),
        quads_of_arrays(v).contains(v[i]@),
{
    assert(v.subrange(0, i + 1) =~= v.subrange(0, i).push(v[i]));
    lemma_quads_of_arrays_push(v.subrange(0, i), v[i]);
    assert(quad_views(v)[i] == v[i]@);
}

/// The empty prefix of `v` holds no quad, and the whole of it holds the
/// quads of `v`.
pub proof fn lemma_quads_of_prefix_ends<I>(v: Seq<[I; 4]>)
    ensures
        quads_of_arrays(v.subrange(0, v.len() as int)) == quads_of_arrays(v),
        quads_of_arrays(v.subrange(0, 0)) == Set::<Seq<I>>::empty(),
{
    assert(v.subrange(0, v.len() as int) =~= v);
    assert(v.subrange(0, 0) =~= Seq::<[I; 4]>::empty());
    lemma_quads_of_arrays_push(v, v[0]);
}

/// Keys and quads correspond one to one, for a valid order.
pub proof fn lemma_keys_and_quads<I>(o: Seq<usize>)
    requires
        is_quad_order(o),
    ensures
        forall|q: Seq<I>| q.len() == 4 ==> #[trigger] quad_of_key(key_of(q, o), o) == q,
        forall|k: (I, I, I, I)| #[trigger] key_of(quad_of_key(k, o), o) == k,
        forall|k: (I, I, I, I)| (#[trigger] quad_of_key(k, o)).len() == 4,
{
    lemma_order_covers_quad(o);
    assert forall|q: Seq<I>| q.len() == 4 implies #[trigger] quad_of_key(key_of(q, o), o) == q by {
        assert(quad_of_key(key_of(q, o), o) =~= q);
    }
}

/// A quad is among those a tree sorted in the order `o` stores under `keys`
/// exactly when its key is one of `keys`.
pub proof fn lemma_quads_of_keys_contains<I>(keys: Set<(I, I, I, I)>, o: Seq<usize>)
    requires
        is_quad_order(o),
    ensures
        forall|q: Seq<I>| #[trigger]
            quads_of_keys(keys, o).contains(q) <==> q.len() == 4 && keys.contains(key_of(q, o)),
{
    lemma_keys_and_quads::<I>(o);
    let f = |k: (I, I, I, I)| quad_of_key(k, o);
    assert forall|q: Seq<I>| #[trigger]
        quads_of_keys(keys, o).contains(q) <==> q.len() == 4 && keys.contains(key_of(q, o)) by {
        if q.len() == 4 && keys.contains(key_of(q, o)) {
            assert(f(key_of(q, o)) == q);
        }
    }
}

/// What a tree sorted in the order `o` holds, seen as quads: a quad is there
/// exactly when its key is, and there are as many quads as keys.
pub proof fn lemma_quads_of_keys<I>(keys: Set<(I, I, I, I)>, o: Seq<usize>)
    requires
        is_quad_order(o),
        keys.finite(),
    ensures
        forall|q: Seq<I>| #[trigger]
            quads_of_keys(keys, o).contains(q) <==> q.len() == 4 && keys.contains(key_of(q, o)),
        quads_of_keys(keys, o).finite(),
        quads_of_keys(keys, o).len() == keys.len(),
{
    lemma_keys_and_quads::<I>(o);
    lemma_quads_of_keys_contains(keys, o);
    let f = |k: (I, I, I, I)| quad_of_key(k, o);
    assert(vstd::relations::injective_on(f, keys)) by {
        assert forall|a: (I, I, I, I), b: (I, I, I, I)|
            keys.contains(a) && keys.contains(b) && #[trigger] f(a) == #[trigger] f(b) implies a
            == b by {
            assert(key_of(f(a), o) == a);
            assert(key_of(f(b), o) == b);
        }
    }
    vstd::set_lib::lemma_map_size(keys, quads_of_keys(keys, o), f);
}

/// Matching a pattern does not depend on the order in which the positions
/// are visited.
pub proof fn lemma_permuted_match<I>(q: Seq<I>, p: Seq<Option<I>>, o: Seq<usize>)
    requires
        is_quad_order(o),
        q.len() == 4,
        p.len() == 4,
    ensures
        quad_matches(permute(q, o), permute(p, o)) <==> quad_matches(q, p),
{
    lemma_order_covers_quad(o);
    if quad_matches(permute(q, o), permute(p, o)) {
        assert forall|j: int| 0 <= j < 4 && #[trigger] p[j] is Some implies q[j] == p[j]->0 by {
            let k = position_in_order(o, j);
            assert(permute(p, o)[k] == p[j]);
        }
    }
}

/// Return true if the non None values of the given pattern are equals
/// to the values in quad. In other words, it can be seen as an
/// equality check where none serves as a wildcard.
pub fn pattern_match<T: Identifier>(quad: &[T; 4], pattern: &[Option<T>; 4]) -> (b: bool)
    ensures
        b == quad_matches(quad@, pattern@),
{
    let mut i: usize = 0;
    while i < 4
        invariant
            0 <= i <= 4,
            forall|k: int|
                0 <= k < i && #[trigger] pattern@[k] is Some ==> quad@[k] == pattern@[k]->0,
        decreases 4 - i,
    {
        match &pattern[i] {
            Some(v) => {
                proof {
                    T::lemma_well_ordered();
                }
                if quad[i] != *v {
                    return false;
                }
            },
            None => {},
        }
        i = i + 1;
    }
    true
}


/// How many terms the pattern `p` sets.
pub open spec fn set_count<T>(p: Seq<Option<T>>) -> nat {
    (if p[0] is Some { 1nat } else { 0nat }) + (if p[1] is Some { 1nat } else { 0nat }) + (if p[2] is Some {
        1nat
    } else {
        0nat
    }) + (if p[3] is Some { 1nat } else { 0nat })
}

/// The six orders that the forests use to serve every pattern: OGPS, SPOG,
/// GPSO, POGS, GSPO and OSGP.
pub open spec fn six_orders() -> Seq<Seq<usize>> {
    seq![
        seq![2usize, 3, 1, 0],
        seq![0usize, 1, 2, 3],
        seq![3usize, 1, 0, 2],
        seq![1usize, 2, 3, 0],
        seq![3usize, 0, 1, 2],
        seq![2usize, 0, 3, 1],
    ]
}

/// No order uses more terms of a pattern than the pattern sets.
pub proof fn lemma_prefix_at_most_set_count<T>(p: Seq<Option<T>>, o: Seq<usize>)
    requires
        p.len() == 4,
        is_quad_order(o),
    ensures
        fixed_prefix_len(p, o) <= set_count(p),
{
    assert(o[0] < 4 && o[1] < 4 && o[2] < 4 && o[3] < 4);
    assert(o[0] != o[1] && o[0] != o[2] && o[0] != o[3] && o[1] != o[2] && o[1] != o[3] && o[2] != o[3]);
}

/// Whatever terms a pattern sets, one of the six orders lists them first:
/// a tree in that order finds the quads that match by a range on all the
/// terms that the pattern sets, and no order does better.
pub proof fn law_six_orders_serve_every_pattern<T>(p: Seq<Option<T>>)
    requires
        p.len() == 4,
    ensures
        exists|i: int| 0 <= i < 6 && #[trigger] fixed_prefix_len(p, six_orders()[i]) == set_count(p),
        forall|o: Seq<usize>| is_quad_order(o) ==> #[trigger] fixed_prefix_len(p, o) <= set_count(p),
{
    if p[0] is Some && p[1] is Some && p[2] is Some && p[3] is Some {
        assert(fixed_prefix_len(p, six_orders()[0]) == set_count(p));
    } else if p[0] is Some && p[1] is Some && p[2] is Some && p[3] is None {
        assert(fixed_prefix_len(p, six_orders()[1]) == set_count(p));
    } else if p[0] is Some && p[1] is Some && p[2] is None && p[3] is Some {
        assert(fixed_prefix_len(p, six_orders()[2]) == set_count(p));
    } else if p[0] is Some && p[1] is Some && p[2] is None && p[3] is None {
        assert(fixed_prefix_len(p, six_orders()[1]) == set_count(p));
    } else if p[0] is Some && p[1] is None && p[2] is Some && p[3] is Some {
        assert(fixed_prefix_len(p, six_orders()[5]) == set_count(p));
    } else if p[0] is Some && p[1] is None && p[2] is Some && p[3] is None {
        assert(fixed_prefix_len(p, six_orders()[5]) == set_count(p));
    } else if p[0] is Some && p[1] is None && p[2] is None && p[3] is Some {
        assert(fixed_prefix_len(p, six_orders()[4]) == set_count(p));
    } else if p[0] is Some && p[1] is None && p[2] is None && p[3] is None {
        assert(fixed_prefix_len(p, six_orders()[1]) == set_count(p));
    } else if p[0] is None && p[1] is Some && p[2] is Some && p[3] is Some {
        assert(fixed_prefix_len(p, six_orders()[0]) == set_count(p));
    } else if p[0] is None && p[1] is Some && p[2] is Some && p[3] is None {
        assert(fixed_prefix_len(p, six_orders()[3]) == set_count(p));
    } else if p[0] is None && p[1] is Some && p[2] is None && p[3] is Some {
        assert(fixed_prefix_len(p, six_orders()[2]) == set_count(p));
    } else if p[0] is None && p[1] is Some && p[2] is None && p[3] is None {
        assert(fixed_prefix_len(p, six_orders()[3]) == set_count(p));
    } else if p[0] is None && p[1] is None && p[2] is Some && p[3] is Some {
        assert(fixed_prefix_len(p, six_orders()[0]) == set_count(p));
    } else if p[0] is None && p[1] is None && p[2] is Some && p[3] is None {
        assert(fixed_prefix_len(p, six_orders()[0]) == set_count(p));
    } else if p[0] is None && p[1] is None && p[2] is None && p[3] is Some {
        assert(fixed_prefix_len(p, six_orders()[2]) == set_count(p));
    } else if p[0] is None && p[1] is None && p[2] is None && p[3] is None {
        assert(fixed_prefix_len(p, six_orders()[0]) == set_count(p));
    }
    assert forall|o: Seq<usize>| is_quad_order(o) implies #[trigger] fixed_prefix_len(p, o) <= set_count(p) by {
        lemma_prefix_at_most_set_count(p, o);
    }
}

} // verus!
