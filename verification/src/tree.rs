//! Structures that store quads of identifiers, possibly lazily.
//!
//! - [`MaybeTree4`] is what can insert, remove, look up and filter quads; a
//!   structure may also not be built yet, in which case it produces no
//!   result until [`MaybeTree4::ensure_exists`] populates it.
//! - [`OnceTreeSet`] is an ordered set of quads, sorted in an order chosen at
//!   compile time, that may not be built yet.
use vstd::prelude::*;
use core::cmp::Ordering;
use core::marker::PhantomData;
use std::collections::BTreeSet;
use vstd::laws_cmp::obeys_cmp;
use vstd::std_specs::cmp::OrdSpec;
use crate::identifier::Identifier;
use crate::order::{
    FixedOrder4, Position, lex_le4, law_range_selects_matching_quads, lemma_key_order_is_lex,
    lemma_range_bounds_ordered,
};
use crate::quad::{
    pattern_match, is_quad_order, is_within_quad, key_of, quad_of_key, quads_of_keys,
    quads_of_arrays, matching, quad_matches, range_bound, range_leftover, lemma_keys_and_quads,
    lemma_quads_of_keys, lemma_order_covers_quad, order_ints, position_in_order, key_at,
    fixed_prefix_len, quad_views,
};

verus! {

broadcast use vstd::std_specs::btree::group_btree_axioms;

/// No quad occurs twice in `v`.
pub open spec fn distinct_quads<I>(v: Seq<[I; 4]>) -> bool {
    forall|a: int, b: int| 0 <= a < b < v.len() ==> v[a]@ != v[b]@
}

/// The result of a query for `pattern` on the quads `quads`: every quad that
/// matches the pattern, each once.
pub open spec fn answers_query<I>(r: Seq<[I; 4]>, quads: Set<Seq<I>>, pattern: Seq<Option<I>>) -> bool {
    &&& quads_of_arrays(r) == matching(quads, pattern)
    &&& distinct_quads(r)
}

/// The key `a` comes strictly before the key `b`.
pub open spec fn key_before<I: Ord>(a: (I, I, I, I), b: (I, I, I, I)) -> bool {
    a.cmp_spec(&b) == Ordering::Less
}

/// The keys of `keys` come in strictly ascending order.
pub open spec fn keys_in_order<I: Ord>(keys: Seq<(I, I, I, I)>) -> bool {
    forall|a: int, b: int| 0 <= a < b < keys.len() ==> key_before(#[trigger] keys[a], #[trigger] keys[b])
}

/// The quads of `r` come in strictly ascending order of their keys in the
/// order `o`.
pub open spec fn quads_in_key_order<I: Ord>(r: Seq<[I; 4]>, o: Seq<usize>) -> bool {
    forall|a: int, b: int| 0 <= a < b < r.len() ==> key_before(key_of((#[trigger] r[a])@, o), key_of((#[trigger] r[b])@, o))
}

/// What a structure of quads can do. A structure may not be built yet: it
/// then answers `None` to every request until
/// [`ensure_exists`](MaybeTree4::ensure_exists) populates it.
pub trait MaybeTree4<I: Identifier>: Sized {
    /// The structure is in a consistent state.
    spec fn wf(&self) -> bool;

    /// The quads stored by the structure, or `None` if it is not built.
    spec fn quads(&self) -> Option<Set<Seq<I>>>;

    /// What [`index_conformance`](MaybeTree4::index_conformance) answers.
    spec fn conformance(&self, can_build: bool, pattern: Seq<Option<I>>) -> Option<usize>;

    /// True if the structure is built.
    fn is_built(&self) -> (b: bool)
        requires
            self.wf(),
        ensures
            b == self.quads() is Some,
    ;

    /// Builds the structure from the quads of `source` if it is not built yet.
    fn ensure_exists(&mut self, source: &Vec<[I; 4]>)
        requires
            old(self).wf(),
        ensures
            final(self).wf(),
            final(self).quads() == (match old(self).quads() {
                Some(s) => Some(s),
                None => Some(quads_of_arrays(source@)),
            }),
    ;

    /// Every stored quad that matches `pattern` (`None` is a wildcard).
    fn get_quads(&mut self, pattern: [Option<I>; 4]) -> (r: Vec<[I; 4]>)
        requires
            old(self).wf(),
            old(self).quads() is Some,
        ensures
            final(self).wf(),
            final(self).quads() == old(self).quads(),
            answers_query(r@, old(self).quads()->0, pattern@),
    ;

    /// How many positions of the pattern this structure can use to narrow its
    /// search, or `None` if it is not built and may not be built.
    fn index_conformance(&self, can_build: bool, pattern_layout: &[Option<I>; 4]) -> (r: Option<
        usize,
    >)
        requires
            self.wf(),
        ensures
            r == self.conformance(can_build, pattern_layout@),
    ;

    /// Inserts a quad; returns whether it was absent, or `None` if the
    /// structure is not built.
    fn insert(&mut self, id_quad: &[I; 4]) -> (r: Option<bool>)
        requires
            old(self).wf(),
        ensures
            final(self).wf(),
            match old(self).quads() {
                None => r is None && final(self).quads() is None,
                Some(s) => r == Some(!s.contains(id_quad@)) && final(self).quads() == Some(
                    s.insert(id_quad@),
                ),
            },
    ;

    /// Removes a quad; returns whether it was present, or `None` if the
    /// structure is not built.
    fn delete(&mut self, id_quad: &[I; 4]) -> (r: Option<bool>)
        requires
            old(self).wf(),
        ensures
            final(self).wf(),
            match old(self).quads() {
                None => r is None && final(self).quads() is None,
                Some(s) => r == Some(s.contains(id_quad@)) && final(self).quads() == Some(
                    s.remove(id_quad@),
                ),
            },
    ;

    /// The number of stored quads, or `None` if the structure is not built.
    fn size(&self) -> (r: Option<usize>)
        requires
            self.wf(),
        ensures
            match self.quads() {
                None => r is None,
                Some(s) => r matches Some(n) && n == s.len(),
            },
    ;

    /// Whether the quad is stored, or `None` if the structure is not built.
    fn has(&self, id_quad: &[I; 4]) -> (r: Option<bool>)
        requires
            self.wf(),
        ensures
            match self.quads() {
                None => r is None,
                Some(s) => r == Some(s.contains(id_quad@)),
            },
    ;
}

/// A structure that can be created either not built or already built.
pub trait LazyStructure<I: Identifier>: MaybeTree4<I> {
    /// The type describes a structure that can be created.
    spec fn constructible() -> bool;

    /// The structure, not built: it is built later from another structure.
    fn new() -> (r: Self)
        requires
            Self::constructible(),
        ensures
            r.wf(),
            r.quads() is None,
    ;

    /// The structure, built and empty.
    fn new_instanciated() -> (r: Self)
        requires
            Self::constructible(),
        ensures
            r.wf(),
            r.quads() == Some(Set::<Seq<I>>::empty()),
    ;
}

/// `BTreeSet::range`: the keys of `tree` from `lo` to `hi`, both included,
/// listed once each and in ascending order, for key types whose `Ord` is
/// lawful.
#[verifier::external_body]
pub(crate) fn btree_keys_between<I: Identifier>(
    tree: &BTreeSet<(I, I, I, I)>,
    lo: (I, I, I, I),
    hi: (I, I, I, I),
) -> (r: Vec<(I, I, I, I)>)
    requires
        obeys_cmp::<(I, I, I, I)>(),
        lo.cmp_spec(&hi) != Ordering::Greater,
    ensures
        r@.no_duplicates(),
        forall|i: int, j: int|
            0 <= i < j < r@.len() ==> #[trigger] r@[i].cmp_spec(&r@[j]) == Ordering::Less,
        forall|k: (I, I, I, I)|
            r@.contains(k) == (tree@.contains(k) && lo.cmp_spec(&k) != Ordering::Greater
                && k.cmp_spec(&hi) != Ordering::Greater),
{
    tree.range(lo..=hi).copied().collect()
}

/// The tuples of identifiers are lawfully ordered.
pub(crate) proof fn lemma_keys_lawfully_ordered<I: Identifier>()
    ensures
        obeys_cmp::<(I, I, I, I)>(),
        vstd::std_specs::btree::key_obeys_cmp_spec::<(I, I, I, I)>(),
{
    broadcast use vstd::laws_cmp::group_laws_cmp;

    I::lemma_well_ordered();
    assert(obeys_cmp::<(I, I, I, I)>());
}

/// A (sometimes) tree of quads, whose order is defined at compile time.
///
/// The tree stores each quad under its key: its values in the order `A`,
/// `B`, `C`, `D`.
pub struct OnceTreeSet<I: Identifier, A: Position, B: Position, C: Position, D: Position> {
    /// The underlying tree, if it is built
    v: Option<BTreeSet<(I, I, I, I)>>,
    order: PhantomData<(A, B, C, D)>,
}

impl<I: Identifier, A: Position, B: Position, C: Position, D: Position> OnceTreeSet<I, A, B, C, D> {
    /// The order of the tree.
    pub open spec fn tree_order() -> Seq<usize> {
        FixedOrder4::<A, B, C, D>::order()
    }

    /// The quads of the tree, if it is built.
    pub closed spec fn stored(&self) -> Option<Set<Seq<I>>> {
        match self.v {
            Some(t) => Some(quads_of_keys(t@, Self::tree_order())),
            None => None,
        }
    }

    /// The order is valid and the tree finite.
    pub closed spec fn well_formed(&self) -> bool {
        &&& is_quad_order(Self::tree_order())
        &&& (self.v matches Some(t) ==> t@.finite())
    }

    /// The key of a quad in this tree.
    fn key(q: &[I; 4]) -> (k: (I, I, I, I))
        requires
            is_within_quad(Self::tree_order()),
        ensures
            k == key_of(q@, Self::tree_order()),
    {
        (q[A::VALUE], q[B::VALUE], q[C::VALUE], q[D::VALUE])
    }

    /// The quad stored under a key of this tree.
    fn quad(k: (I, I, I, I)) -> (q: [I; 4])
        requires
            is_quad_order(Self::tree_order()),
        ensures
            q@ == quad_of_key(k, Self::tree_order()),
    {
        let mut q = [k.0; 4];
        q[A::VALUE] = k.0;
        q[B::VALUE] = k.1;
        q[C::VALUE] = k.2;
        q[D::VALUE] = k.3;
        proof {
            lemma_order_covers_quad(Self::tree_order());
            assert(q@ =~= quad_of_key(k, Self::tree_order()));
        }
        q
    }

    /// The quads stored under `keys` that match `left`, each once.
    fn select_quads(keys: &Vec<(I, I, I, I)>, left: &[Option<I>; 4]) -> (r: Vec<[I; 4]>)
        requires
            is_quad_order(Self::tree_order()),
            keys@.no_duplicates(),
            keys_in_order(keys@),
        ensures
            distinct_quads(r@),
            quads_in_key_order(r@, Self::tree_order()),
            forall|q: Seq<I>|
                quads_of_arrays(r@).contains(q) == (q.len() == 4 && keys@.contains(
                    key_of(q, Self::tree_order()),
                ) && quad_matches(q, left@)),
    {
        let ghost o = Self::tree_order();
        proof {
            lemma_keys_and_quads::<I>(o);
        }
        let mut result: Vec<[I; 4]> = Vec::new();
        let mut i: usize = 0;
        while i < keys.len()
            invariant
                0 <= i <= keys.len(),
                is_quad_order(o),
                o == Self::tree_order(),
                keys@.no_duplicates(),
                keys_in_order(keys@),
                quads_in_key_order(result@, o),
                forall|q: Seq<I>| q.len() == 4 ==> #[trigger] quad_of_key(key_of(q, o), o) == q,
                forall|k: (I, I, I, I)| #[trigger] key_of(quad_of_key(k, o), o) == k,
                forall|k: (I, I, I, I)| (#[trigger] quad_of_key(k, o)).len() == 4,
                forall|m: int|
                    0 <= m < result.len() ==> keys@.subrange(0, i as int).contains(
                        key_of(#[trigger] result@[m]@, o),
                    ) && result@[m]@.len() == 4 && quad_matches(result@[m]@, left@),
                forall|j: int|
                    0 <= j < i && quad_matches(quad_of_key(#[trigger] keys@[j], o), left@)
                        ==> quads_of_arrays(result@).contains(quad_of_key(keys@[j], o)),
                distinct_quads(result@),
            decreases keys.len() - i,
        {
            let q = Self::quad(keys[i]);
            if pattern_match(&q, left) {
                proof {
                    assert forall|m: int| 0 <= m < result.len() implies result@[m]@ != q@ by {
                        if result@[m]@ == q@ {
                            assert(key_of(q@, o) == keys@[i as int]);
                            assert(keys@.subrange(0, i as int).contains(key_of(result@[m]@, o)));
                            let jj = choose|jj: int|
                                0 <= jj < i && keys@.subrange(0, i as int)[jj] == key_of(
                                    result@[m]@,
                                    o,
                                );
                            assert(keys@[jj] == keys@[i as int]);
                        }
                    }
                }
                let ghost before = result@;
                result.push(q);
                proof {
                    assert forall|a: int, b: int|
                        0 <= a < b < result@.len() implies key_before(key_of((#[trigger] result@[a])@, o), key_of((#[trigger] result@[b])@, o)) by {
                        if b == before.len() {
                            assert(result@[a] == before[a]);
                            let jj = choose|jj: int|
                                0 <= jj < i && keys@.subrange(0, i as int)[jj] == key_of(before[a]@, o);
                            assert(keys@[jj] == key_of(result@[a]@, o));
                            assert(key_of(result@[b]@, o) == keys@[i as int]);
                        } else {
                            assert(result@[a] == before[a] && result@[b] == before[b]);
                        }
                    }
                    assert forall|j: int|
                        0 <= j <= i && quad_matches(quad_of_key(#[trigger] keys@[j], o), left@)
                            implies quads_of_arrays(result@).contains(quad_of_key(keys@[j], o)) by {
                        if j < i {
                            let mm = choose|mm: int|
                                0 <= mm < before.len() && quad_views(before)[mm]
                                    == quad_of_key(keys@[j], o);
                            assert(quad_views(result@)[mm] == quad_of_key(
                                keys@[j],
                                o,
                            ));
                        } else {
                            assert(quad_views(result@)[before.len() as int]
                                == q@);
                        }
                    }
                }
            }
            proof {
                assert forall|m: int| 0 <= m < result.len() implies keys@.subrange(
                    0,
                    i + 1,
                ).contains(key_of(#[trigger] result@[m]@, o)) by {
                    if key_of(result@[m]@, o) == keys@[i as int] {
                        assert(keys@.subrange(0, i + 1)[i as int] == keys@[i as int]);
                    } else {
                        let jj = choose|jj: int|
                            0 <= jj < i && keys@.subrange(0, i as int)[jj] == key_of(
                                result@[m]@,
                                o,
                            );
                        assert(keys@.subrange(0, i + 1)[jj] == keys@[jj]);
                    }
                }
            }
            i = i + 1;
        }
        proof {
            assert forall|q: Seq<I>|
                quads_of_arrays(result@).contains(q) == (q.len() == 4 && keys@.contains(
                    key_of(q, o),
                ) && quad_matches(q, left@)) by {
                if quads_of_arrays(result@).contains(q) {
                    let mm = choose|mm: int|
                        0 <= mm < result@.len() && quad_views(result@)[mm] == q;
                    assert(result@[mm]@ == q);
                    assert(keys@.subrange(0, i as int) == keys@);
                }
                if q.len() == 4 && keys@.contains(key_of(q, o)) && quad_matches(q, left@) {
                    let jj = choose|jj: int| 0 <= jj < keys@.len() && keys@[jj] == key_of(q, o);
                    assert(quad_of_key(keys@[jj], o) == q);
                }
            }
        }
        result
    }

    /// Every quad of this built tree that matches `pattern`.
    pub fn quads_matching(&self, pattern: [Option<I>; 4]) -> (r: Vec<[I; 4]>)
        requires
            self.well_formed(),
            self.stored() is Some,
        ensures
            answers_query(r@, self.stored()->0, pattern@),
            quads_in_key_order(r@, Self::tree_order()),
    {
        let ghost o = Self::tree_order();
        let tree = match &self.v {
            Some(t) => t,
            None => {
                return Vec::new();
            },
        };
        let (lo, hi, left) = FixedOrder4::<A, B, C, D>::range_bounds(pattern);
        let lo_key = Self::key(&lo);
        let hi_key = Self::key(&hi);
        proof {
            lemma_keys_lawfully_ordered::<I>();
            lemma_range_bounds_ordered(pattern@, o);
            lemma_key_order_is_lex(lo@, hi@, o);
            lemma_keys_and_quads::<I>(o);
            lemma_quads_of_keys(tree@, o);
        }
        let keys = btree_keys_between(tree, lo_key, hi_key);
        let result = Self::select_quads(&keys, &left);
        proof {
            let s = self.stored()->0;
            assert forall|q: Seq<I>|
                quads_of_arrays(result@).contains(q) <==> #[trigger] matching(s, pattern@).contains(
                    q,
                ) by {
                if q.len() == 4 {
                    lemma_key_order_is_lex(lo@, q, o);
                    lemma_key_order_is_lex(q, hi@, o);
                    law_range_selects_matching_quads::<I, A, B, C, D>(pattern@, q);
                }
            }
            assert(quads_of_arrays(result@) =~= matching(s, pattern@));
        }
        result
    }
}

/// The quads of a built [`OnceTreeSet`] that match a pattern, handed out one
/// at a time.
pub struct OnceTreeSetIterator<I: Identifier> {
    quads: Vec<[I; 4]>,
    next_index: usize,
}

impl<I: Identifier> OnceTreeSetIterator<I> {
    /// The quads not handed out yet, in order.
    pub closed spec fn remaining(&self) -> Seq<[I; 4]> {
        self.quads@.subrange(self.next_index as int, self.quads@.len() as int)
    }

    /// The iterator is consistent.
    pub closed spec fn valid(&self) -> bool {
        self.next_index <= self.quads@.len()
    }

    /// An iterator over the quads of the built `tree` that match `pattern`
    /// (`None` is a wildcard).
    pub fn new<A: Position, B: Position, C: Position, D: Position>(
        tree: &OnceTreeSet<I, A, B, C, D>,
        pattern: [Option<I>; 4],
    ) -> (r: Self)
        requires
            tree.well_formed(),
            tree.stored() is Some,
        ensures
            r.valid(),
            answers_query(r.remaining(), tree.stored()->0, pattern@),
            quads_in_key_order(r.remaining(), OnceTreeSet::<I, A, B, C, D>::tree_order()),
    {
        let quads = tree.quads_matching(pattern);
        let r = OnceTreeSetIterator { quads, next_index: 0 };
        proof {
            assert(r.remaining() =~= r.quads@);
        }
        r
    }

    /// Hands out the next quad, if any is left.
    pub fn next(&mut self) -> (r: Option<[I; 4]>)
        requires
            old(self).valid(),
        ensures
            final(self).valid(),
            old(self).remaining().len() == 0 ==> r is None && final(self).remaining() == old(
                self,
            ).remaining(),
            old(self).remaining().len() > 0 ==> r == Some(old(self).remaining()[0])
                && final(self).remaining() == old(self).remaining().drop_first(),
    {
        if self.next_index < self.quads.len() {
            let q = self.quads[self.next_index];
            self.next_index = self.next_index + 1;
            proof {
                assert(self.remaining() =~= old(self).remaining().drop_first());
            }
            Some(q)
        } else {
            None
        }
    }
}

impl<I: Identifier, A: Position, B: Position, C: Position, D: Position> LazyStructure<I> for OnceTreeSet<
    I,
    A,
    B,
    C,
    D,
> {
    open spec fn constructible() -> bool {
        is_quad_order(FixedOrder4::<A, B, C, D>::order())
    }

    fn new() -> (r: Self) {
        OnceTreeSet { v: None, order: PhantomData }
    }

    fn new_instanciated() -> (r: Self) {
        let r = OnceTreeSet { v: Some(BTreeSet::new()), order: PhantomData };
        proof {
            lemma_quads_of_keys(Set::<(I, I, I, I)>::empty(), Self::tree_order());
            assert(quads_of_keys(Set::<(I, I, I, I)>::empty(), Self::tree_order()) =~= Set::<
                Seq<I>,
            >::empty());
        }
        r
    }
}

impl<I: Identifier, A: Position, B: Position, C: Position, D: Position> MaybeTree4<I> for OnceTreeSet<
    I,
    A,
    B,
    C,
    D,
> {
    open spec fn wf(&self) -> bool {
        self.well_formed()
    }

    open spec fn quads(&self) -> Option<Set<Seq<I>>> {
        self.stored()
    }

    open spec fn conformance(&self, can_build: bool, pattern: Seq<Option<I>>) -> Option<usize> {
        if !can_build && self.stored() is None {
            None
        } else {
            Some(fixed_prefix_len(pattern, Self::tree_order()) as usize)
        }
    }

    fn is_built(&self) -> (b: bool) {
        self.v.is_some()
    }

    fn ensure_exists(&mut self, source: &Vec<[I; 4]>) {
        if self.v.is_some() {
            return;
        }
        let ghost o = Self::tree_order();
        let mut tree: BTreeSet<(I, I, I, I)> = BTreeSet::new();
        proof {
            lemma_keys_lawfully_ordered::<I>();
            lemma_keys_and_quads::<I>(o);
        }
        let mut i: usize = 0;
        while i < source.len()
            invariant
                0 <= i <= source.len(),
                is_quad_order(o),
                o == Self::tree_order(),
                tree@.finite(),
                forall|k: (I, I, I, I)|
                    #[trigger] tree@.contains(k) <==> exists|j: int|
                        0 <= j < i && key_of(#[trigger] source@[j]@, o) == k,
            decreases source.len() - i,
        {
            let k = Self::key(&source[i]);
            proof {
                lemma_keys_lawfully_ordered::<I>();
            }
            tree.insert(k);
            proof {
                assert forall|kk: (I, I, I, I)|
                    #[trigger] tree@.contains(kk) <==> exists|j: int|
                        0 <= j < i + 1 && key_of(#[trigger] source@[j]@, o) == kk by {
                    if kk == k {
                        assert(key_of(source@[i as int]@, o) == kk);
                    }
                }
            }
            i = i + 1;
        }
        proof {
            lemma_quads_of_keys(tree@, o);
            assert forall|q: Seq<I>|
                #[trigger] quads_of_keys(tree@, o).contains(q) <==> quads_of_arrays(
                    source@,
                ).contains(q) by {
                if quads_of_arrays(source@).contains(q) {
                    let j = choose|j: int|
                        0 <= j < source@.len() && quad_views(source@)[j] == q;
                    assert(source@[j]@ == q);
                    assert(key_of(source@[j]@, o) == key_of(q, o));
                }
                if quads_of_keys(tree@, o).contains(q) {
                    let j = choose|j: int|
                        0 <= j < i && key_of(#[trigger] source@[j]@, o) == key_of(q, o);
                    assert(quad_of_key(key_of(source@[j]@, o), o) == source@[j]@);
                    assert(quad_views(source@)[j] == q);
                }
            }
            assert(quads_of_keys(tree@, o) =~= quads_of_arrays(source@));
        }
        self.v = Some(tree);
    }

    fn get_quads(&mut self, pattern: [Option<I>; 4]) -> (r: Vec<[I; 4]>)
        ensures
            quads_in_key_order(r@, Self::tree_order()),
    {
        self.quads_matching(pattern)
    }

    fn index_conformance(&self, can_build: bool, pattern_layout: &[Option<I>; 4]) -> (r: Option<
        usize,
    >) {
        if !can_build && self.v.is_none() {
            None
        } else {
            Some(FixedOrder4::<A, B, C, D>::index_conformance(pattern_layout))
        }
    }

    fn insert(&mut self, id_quad: &[I; 4]) -> (r: Option<bool>) {
        let ghost o = Self::tree_order();
        let k = Self::key(id_quad);
        proof {
            lemma_keys_lawfully_ordered::<I>();
            lemma_keys_and_quads::<I>(o);
        }
        match &mut self.v {
            None => None,
            Some(tree) => {
                let ghost before = tree@;
                let inserted = tree.insert(k);
                proof {
                    lemma_quads_of_keys(before, o);
                    lemma_quads_of_keys(tree@, o);
                    assert(quads_of_keys(tree@, o) =~= quads_of_keys(before, o).insert(id_quad@));
                }
                Some(inserted)
            },
        }
    }

    fn delete(&mut self, id_quad: &[I; 4]) -> (r: Option<bool>) {
        let ghost o = Self::tree_order();
        let k = Self::key(id_quad);
        proof {
            lemma_keys_lawfully_ordered::<I>();
            lemma_keys_and_quads::<I>(o);
        }
        match &mut self.v {
            None => None,
            Some(tree) => {
                let ghost before = tree@;
                let removed = tree.remove(&k);
                proof {
                    lemma_quads_of_keys(before, o);
                    lemma_quads_of_keys(tree@, o);
                    assert(quads_of_keys(tree@, o) =~= quads_of_keys(before, o).remove(id_quad@));
                }
                Some(removed)
            },
        }
    }

    fn size(&self) -> (r: Option<usize>) {
        proof {
            lemma_keys_lawfully_ordered::<I>();
        }
        match &self.v {
            None => None,
            Some(tree) => {
                proof {
                    lemma_quads_of_keys(tree@, Self::tree_order());
                }
                Some(tree.len())
            },
        }
    }

    fn has(&self, id_quad: &[I; 4]) -> (r: Option<bool>) {
        let ghost o = Self::tree_order();
        let k = Self::key(id_quad);
        proof {
            lemma_keys_lawfully_ordered::<I>();
            lemma_keys_and_quads::<I>(o);
        }
        match &self.v {
            None => None,
            Some(tree) => {
                proof {
                    lemma_quads_of_keys(tree@, o);
                }
                Some(tree.contains(&k))
            },
        }
    }
}

} // verus!
