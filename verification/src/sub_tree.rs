//! Trees of quads of identifiers ordered by a [`kind_order::BlockOrder`],
//! possibly not built yet, and a dataset made of two of them.
//!
//! A tree of this kind stores each quad under the block that
//! [`kind_order::BlockOrder::to_block`] builds from it, and is searched with
//! the range that [`kind_order::BlockOrder::range`] gives, then filtered by
//! the pattern: a search finds exactly the quads that match.
use vstd::prelude::*;
use core::cmp::Ordering;
use std::collections::BTreeSet;
use vstd::std_specs::cmp::OrdSpec;
use crate::block_order::{
    deref_request, IdentifierQuadFilter, key_lt, keys_ascend, quad_keys_ascend, quads_ascend,
    lemma_keys_ascend_is_blocks_ascend,
};
use crate::kind_order::{self, Block, BlockOrder, TermFilter, TermKind, kinds_positions};
use crate::order::{lemma_key_order_is_lex, lemma_range_selects_matching_quads, lex_le4};
use crate::identifier::lemma_u32_bounds;
use crate::quad::{
    lemma_matching_everything, wildcard_pattern, fixed_prefix_len, is_quad_order, key_of, lemma_keys_and_quads, lemma_order_covers_quad,
    lemma_quads_of_keys, lemma_quads_of_keys_contains, matching, order_ints, permute, position_in_order, quad_matches, quad_of_key,
    quads_of_arrays, quads_of_keys, quad_views, range_bound,
};
use crate::tree::{btree_keys_between, distinct_quads, lemma_keys_lawfully_ordered};

verus! {

broadcast use vstd::std_specs::btree::group_btree_axioms;

/// The iterator on the quads that a search in a [`SubBTreeDataset`] finds.
pub type QuadIndexFromSubTreeDataset = IdentifierQuadFilter;

/// The key under which a tree of the kind order `o` stores `q`: the terms
/// of `q` in the order of the kinds of `o`.
pub open spec fn kind_key(q: Seq<u32>, o: Seq<usize>) -> (u32, u32, u32, u32) {
    key_of(q, o)
}

/// The key stands between the two bounds of the range that the kind order
/// `o` gives to `p`.
pub open spec fn kind_key_in_range(k: (u32, u32, u32, u32), p: Seq<Option<u32>>, o: Seq<usize>) -> bool {
    let ident = seq![0usize, 1, 2, 3];
    &&& lex_le4(permute(range_bound(p, o, 0u32), o), quad_of_key(k, ident), order_ints(ident))
    &&& lex_le4(quad_of_key(k, ident), permute(range_bound(p, o, 0xffff_ffffu32), o), order_ints(ident))
}

/// The quads of `stored` whose key lies in the range that the kind order `o`
/// gives to `p`, and which match `p`.
spec fn range_selection(stored: Set<Seq<u32>>, p: Seq<Option<u32>>, o: Seq<usize>) -> Set<Seq<u32>> {
    stored.filter(|q: Seq<u32>| kind_key_in_range(kind_key(q, o), p, o) && quad_matches(q, p))
}

/// A tree of quads of identifiers, in a kind order chosen at execution time,
/// which may not be built yet.
pub struct SubBTreeDataset {
    block_order: BlockOrder,
    content: Option<BTreeSet<(u32, u32, u32, u32)>>,
}

impl SubBTreeDataset {
    /// The order of the tree.
    pub closed spec fn order(&self) -> Seq<usize> {
        self.block_order.order()
    }

    /// The kinds of the order of the tree, first to last.
    pub closed spec fn kinds(&self) -> Seq<TermKind> {
        self.block_order.kinds()
    }

    /// The keys of the tree, if it is built.
    pub closed spec fn keys(&self) -> Option<Set<(u32, u32, u32, u32)>> {
        match self.content {
            Some(t) => Some(t@),
            None => None,
        }
    }

    /// The quads of the tree, if it is built.
    pub open spec fn stored(&self) -> Option<Set<Seq<u32>>> {
        match self.keys() {
            Some(k) => Some(quads_of_keys(k, self.order())),
            None => None,
        }
    }

    /// The order is valid and the keys are finitely many.
    pub closed spec fn well_formed(&self) -> bool {
        &&& is_quad_order(self.block_order.order())
        &&& self.content matches Some(t) ==> t@.finite()
    }

    /// A tree in the given order, built (and empty) if `initialized`.
    pub fn new(terms_order: [TermKind; 4], initialized: bool) -> (r: SubBTreeDataset)
        requires
            is_quad_order(kinds_positions(terms_order@)),
        ensures
            r.well_formed(),
            r.kinds() == terms_order@,
            r.stored() == (if initialized {
                Some(Set::<Seq<u32>>::empty())
            } else {
                None
            }),
    {
        let block_order = BlockOrder::new(terms_order);
        let r = SubBTreeDataset {
            block_order,
            content: if initialized {
                Some(BTreeSet::new())
            } else {
                None
            },
        };
        proof {
            assert(quads_of_keys(Set::<(u32, u32, u32, u32)>::empty(), r.order()) =~= Set::<
                Seq<u32>,
            >::empty());
        }
        r
    }

    /// How many of the first kinds of the order of the tree the request
    /// sets.
    pub fn index_conformance(&self, requested_terms: &[&Option<u32>; 4]) -> (r: usize)
        ensures
            r == fixed_prefix_len(deref_request(requested_terms@), self.order()),
    {
        self.block_order.index_conformance(requested_terms)
    }

    /// The key under which the tree stores `spog`.
    fn key(&self, spog: &[u32; 4]) -> (k: (u32, u32, u32, u32))
        requires
            self.well_formed(),
        ensures
            k == kind_key(spog@, self.order()),
    {
        let b = self.block_order.to_block(spog);
        let v = b.values();
        (v[0], v[1], v[2], v[3])
    }

    /// Inserts the quad, if the tree is built: `Some(true)` if it was not
    /// there.
    pub fn insert(&mut self, spog: &[u32; 4]) -> (r: Option<bool>)
        requires
            old(self).well_formed(),
        ensures
            final(self).well_formed(),
            final(self).order() == old(self).order(),
            final(self).kinds() == old(self).kinds(),
            match old(self).stored() {
                None => r is None && final(self).stored() is None,
                Some(s) => r == Some(!s.contains(spog@)) && final(self).stored() == Some(s.insert(spog@)),
            },
    {
        let ghost o = self.order();
        let k = self.key(spog);
        proof {
            lemma_order_covers_quad(self.order());
            lemma_keys_lawfully_ordered::<u32>();
            lemma_keys_and_quads::<u32>(o);
        }
        match &mut self.content {
            None => None,
            Some(tree) => {
                let ghost before = tree@;
                let inserted = tree.insert(k);
                proof {
                    lemma_quads_of_keys(before, o);
                    lemma_quads_of_keys(tree@, o);
                    assert(quads_of_keys(tree@, o) =~= quads_of_keys(before, o).insert(spog@));
                }
                Some(inserted)
            },
        }
    }

    /// Deletes the quad, if the tree is built: `Some(true)` if it was there.
    pub fn delete(&mut self, spog: &[u32; 4]) -> (r: Option<bool>)
        requires
            old(self).well_formed(),
        ensures
            final(self).well_formed(),
            final(self).order() == old(self).order(),
            final(self).kinds() == old(self).kinds(),
            match old(self).stored() {
                None => r is None && final(self).stored() is None,
                Some(s) => r == Some(s.contains(spog@)) && final(self).stored() == Some(s.remove(spog@)),
            },
    {
        let ghost o = self.order();
        let k = self.key(spog);
        proof {
            lemma_order_covers_quad(self.order());
            lemma_keys_lawfully_ordered::<u32>();
            lemma_keys_and_quads::<u32>(o);
        }
        match &mut self.content {
            None => None,
            Some(tree) => {
                let ghost before = tree@;
                let removed = tree.remove(&k);
                proof {
                    lemma_quads_of_keys(before, o);
                    lemma_quads_of_keys(tree@, o);
                    assert(quads_of_keys(tree@, o) =~= quads_of_keys(before, o).remove(spog@));
                }
                Some(removed)
            },
        }
    }

    /// Whether the tree holds the quad, if it is built.
    pub fn contains(&self, spog: &[u32; 4]) -> (r: Option<bool>)
        requires
            self.well_formed(),
        ensures
            match self.stored() {
                None => r is None,
                Some(s) => r == Some(s.contains(spog@)),
            },
    {
        let ghost o = self.order();
        let k = self.key(spog);
        proof {
            lemma_order_covers_quad(self.order());
            lemma_keys_lawfully_ordered::<u32>();
            lemma_keys_and_quads::<u32>(o);
        }
        match &self.content {
            None => None,
            Some(tree) => {
                proof {
                    lemma_quads_of_keys(tree@, o);
                }
                Some(tree.contains(&k))
            },
        }
    }

    /// Whether the tree is built.
    pub fn is_built(&self) -> (r: bool)
        ensures
            r == self.stored() is Some,
    {
        self.content.is_some()
    }

    /// Builds the tree from the quads that `iterator` still has. Fails if
    /// the tree is already built, and then leaves it as it is.
    pub fn build_content(&mut self, iterator: QuadIndexFromSubTreeDataset) -> (r: Result<(), ()>)
        requires
            old(self).well_formed(),
            iterator.valid(),
        ensures
            final(self).well_formed(),
            final(self).order() == old(self).order(),
            final(self).kinds() == old(self).kinds(),
            old(self).stored() is Some ==> r is Err && final(self).stored() == old(self).stored(),
            old(self).stored() is None ==> r is Ok && final(self).stored() == Some(
                quads_of_arrays(iterator.remaining()),
            ),
    {
        if self.is_built() {
            return Err(());
        }
        let ghost o = self.order();
        proof {
            lemma_order_covers_quad(self.order());
            lemma_keys_lawfully_ordered::<u32>();
            lemma_keys_and_quads::<u32>(o);
        }
        let quads = iterator.into_vec();
        let mut map: BTreeSet<(u32, u32, u32, u32)> = BTreeSet::new();
        let mut i: usize = 0;
        while i < quads.len()
            invariant
                0 <= i <= quads@.len(),
                self.well_formed(),
                o == self.order(),
                is_quad_order(o),
                map@.finite(),
                forall|k: (u32, u32, u32, u32)|
                    #[trigger] map@.contains(k) <==> exists|j: int|
                        0 <= j < i && key_of(#[trigger] quads@[j]@, o) == k,
            decreases quads@.len() - i,
        {
            let k = self.key(&quads[i]);
            proof {
                lemma_keys_lawfully_ordered::<u32>();
            }
            map.insert(k);
            proof {
                assert forall|kk: (u32, u32, u32, u32)|
                    #[trigger] map@.contains(kk) <==> exists|j: int|
                        0 <= j < i + 1 && key_of(#[trigger] quads@[j]@, o) == kk by {
                    if kk == k {
                        assert(key_of(quads@[i as int]@, o) == kk);
                    }
                }
            }
            i = i + 1;
        }
        proof {
            lemma_keys_and_quads::<u32>(o);
            lemma_quads_of_keys(map@, o);
            assert forall|q: Seq<u32>|
                #[trigger] quads_of_keys(map@, o).contains(q) <==> quads_of_arrays(quads@).contains(q) by {
                if quads_of_arrays(quads@).contains(q) {
                    let j = choose|j: int| 0 <= j < quads@.len() && quad_views(quads@)[j] == q;
                    assert(quads@[j]@ == q);
                    assert(key_of(quads@[j]@, o) == key_of(q, o));
                }
                if quads_of_keys(map@, o).contains(q) {
                    let j = choose|j: int| 0 <= j < i && key_of(#[trigger] quads@[j]@, o) == key_of(q, o);
                    assert(quad_of_key(key_of(quads@[j]@, o), o) == quads@[j]@);
                    assert(quad_views(quads@)[j] == q);
                }
            }
            assert(quads_of_keys(map@, o) =~= quads_of_arrays(quads@));
        }
        self.content = Some(map);
        Ok(())
    }

    /// The quads stored under `keys` that the filter accepts, each once.
    fn select(&self, keys: &Vec<(u32, u32, u32, u32)>, filter: &TermFilter) -> (r: Vec<[u32; 4]>)
        requires
            self.well_formed(),
            keys@.no_duplicates(),
            keys_ascend(keys@),
        ensures
            distinct_quads(r@),
            quad_keys_ascend(r@, self.order()),
            forall|q: Seq<u32>|
                #[trigger] quads_of_arrays(r@).contains(q) == (q.len() == 4 && keys@.contains(
                    kind_key(q, self.order()),
                ) && quad_matches(q, filter.filtered_position@)),
    {
        let ghost o = self.order();
        let ghost pattern = filter.filtered_position@;
        proof {
            lemma_order_covers_quad(self.order());
            lemma_keys_and_quads::<u32>(o);
        }
        let mut result: Vec<[u32; 4]> = Vec::new();
        let mut i: usize = 0;
        while i < keys.len()
            invariant
                0 <= i <= keys.len(),
                self.well_formed(),
                is_quad_order(o),
                o == self.order(),
                keys@.no_duplicates(),
                keys_ascend(keys@),
                quad_keys_ascend(result@, o),
                pattern == filter.filtered_position@,
                forall|q: Seq<u32>| q.len() == 4 ==> #[trigger] quad_of_key(key_of(q, o), o) == q,
                forall|k: (u32, u32, u32, u32)| #[trigger] key_of(quad_of_key(k, o), o) == k,
                forall|k: (u32, u32, u32, u32)| (#[trigger] quad_of_key(k, o)).len() == 4,
                forall|m: int|
                    0 <= m < result.len() ==> keys@.subrange(0, i as int).contains(
                        key_of(#[trigger] result@[m]@, o),
                    ) && result@[m]@.len() == 4 && quad_matches(result@[m]@, pattern),
                forall|j: int|
                    0 <= j < i && quad_matches(quad_of_key(#[trigger] keys@[j], o), pattern)
                        ==> quads_of_arrays(result@).contains(quad_of_key(keys@[j], o)),
                distinct_quads(result@),
            decreases keys.len() - i,
        {
            let k = keys[i];
            let q = self.block_order.to_indices(&Block::new([k.0, k.1, k.2, k.3]));
            proof {
                lemma_order_covers_quad(o);
                assert(q@ =~= quad_of_key(k, o));
            }
            if filter.filter(&q) {
                proof {
                    assert forall|m: int| 0 <= m < result.len() implies result@[m]@ != q@ by {
                        if result@[m]@ == q@ {
                            assert(key_of(q@, o) == keys@[i as int]);
                            let jj = choose|jj: int|
                                0 <= jj < i && keys@.subrange(0, i as int)[jj] == key_of(result@[m]@, o);
                            assert(keys@[jj] == keys@[i as int]);
                        }
                    }
                }
                let ghost before = result@;
                result.push(q);
                proof {
                    assert forall|a: int, b: int|
                        0 <= a < b < result@.len() implies key_lt(key_of((#[trigger] result@[a])@, o), key_of((#[trigger] result@[b])@, o)) by {
                        if b == before.len() {
                            assert(result@[a] == before[a]);
                            let jj = choose|jj: int|
                                0 <= jj < i && keys@.subrange(0, i as int)[jj] == key_of(before[a]@, o);
                            assert(keys@[jj] == key_of(result@[a]@, o));
                            assert(key_of(result@[b]@, o) == keys@[i as int]);
                        } else {
                            assert(result@[a] == before[a] && result@[b] == before[b]);
                        }
                    }
                    assert forall|j: int|
                        0 <= j <= i && quad_matches(quad_of_key(#[trigger] keys@[j], o), pattern)
                            implies quads_of_arrays(result@).contains(quad_of_key(keys@[j], o)) by {
                        if j < i {
                            let mm = choose|mm: int|
                                0 <= mm < before.len() && quad_views(before)[mm] == quad_of_key(keys@[j], o);
                            assert(quad_views(result@)[mm] == quad_of_key(keys@[j], o));
                        } else {
                            assert(quad_views(result@)[before.len() as int] == q@);
                        }
                    }
                }
            }
            proof {
                assert forall|m: int| 0 <= m < result.len() implies keys@.subrange(0, i + 1).contains(
                    key_of(#[trigger] result@[m]@, o),
                ) by {
                    if key_of(result@[m]@, o) == keys@[i as int] {
                        assert(keys@.subrange(0, i + 1)[i as int] == keys@[i as int]);
                    } else {
                        let jj = choose|jj: int|
                            0 <= jj < i && keys@.subrange(0, i as int)[jj] == key_of(result@[m]@, o);
                        assert(keys@.subrange(0, i + 1)[jj] == keys@[jj]);
                    }
                }
            }
            i = i + 1;
        }
        proof {
            assert forall|q: Seq<u32>|
                #[trigger] quads_of_arrays(result@).contains(q) == (q.len() == 4 && keys@.contains(key_of(q, o))
                    && quad_matches(q, pattern)) by {
                if quads_of_arrays(result@).contains(q) {
                    let mm = choose|mm: int| 0 <= mm < result@.len() && quad_views(result@)[mm] == q;
                    assert(result@[mm]@ == q);
                    assert(keys@.subrange(0, i as int) == keys@);
                }
                if q.len() == 4 && keys@.contains(key_of(q, o)) && quad_matches(q, pattern) {
                    let jj = choose|jj: int| 0 <= jj < keys@.len() && keys@[jj] == key_of(q, o);
                    assert(quad_of_key(keys@[jj], o) == q);
                }
            }
        }
        result
    }

    /// The quads of the built tree whose key lies in the range that the
    /// order gives to the pattern, and which match the pattern (`None` is a
    /// wildcard), each once.
    pub fn range(
        &self,
        subject: Option<u32>,
        predicate: Option<u32>,
        object: Option<u32>,
        graph: Option<u32>,
    ) -> (r: QuadIndexFromSubTreeDataset)
        requires
            self.well_formed(),
            self.stored() is Some,
        ensures
            r.valid(),
            distinct_quads(r.remaining()),
            quads_of_arrays(r.remaining()) == matching(
                self.stored()->0,
                seq![subject, predicate, object, graph],
            ),
            quads_ascend(r.remaining(), self.order()),
    {
        let spog = [subject, predicate, object, graph];
        let ghost p = spog@;
        let ghost o = self.order();
        let (lo, hi) = self.block_order.bounds(&spog);
        let keys = self.keys_in_range(&lo, &hi, Ghost(spog@));
        let filter = TermFilter { filtered_position: spog };
        let quads = self.select(&keys, &filter);
        proof {
            lemma_order_covers_quad(o);
            lemma_keys_and_quads::<u32>(o);
            lemma_quads_of_keys(self.keys()->0, o);
            assert(spog@ =~= seq![subject, predicate, object, graph]);
            assert(quads_of_arrays(quads@) =~= range_selection(self.stored()->0, p, o));
            lemma_range_selection_is_matching(self.keys()->0, p, o);
            lemma_keys_ascend_is_blocks_ascend(quads@, o);
        }
        IdentifierQuadFilter::from_vec(quads)
    }

    /// The keys of the built tree that stand between the two bounds of the
    /// range that the order gives to `pattern`, each once.
    fn keys_in_range(&self, lo: &Block, hi: &Block, pattern: Ghost<Seq<Option<u32>>>) -> (r: Vec<
        (u32, u32, u32, u32),
    >)
        requires
            self.well_formed(),
            self.keys() is Some,
            pattern@.len() == 4,
            lo@ == permute(range_bound(pattern@, self.order(), 0u32), self.order()),
            hi@ == permute(range_bound(pattern@, self.order(), 0xffff_ffffu32), self.order()),
        ensures
            r@.no_duplicates(),
            keys_ascend(r@),
            forall|k: (u32, u32, u32, u32)|
                #[trigger] r@.contains(k) == (self.keys()->0.contains(k) && kind_key_in_range(k, pattern@, self.order())),
    {
        let ghost o = self.order();
        let ghost p = pattern@;
        let ghost ident = seq![0usize, 1, 2, 3];
        let lo_values = lo.values();
        let hi_values = hi.values();
        let lo_key = (lo_values[0], lo_values[1], lo_values[2], lo_values[3]);
        let hi_key = (hi_values[0], hi_values[1], hi_values[2], hi_values[3]);
        proof {
            lemma_u32_bounds();
            lemma_keys_lawfully_ordered::<u32>();
            lemma_keys_and_quads::<u32>(ident);
            lemma_order_covers_quad(o);
            assert(lo_key == key_of(lo@, ident));
            assert(hi_key == key_of(hi@, ident));
            lemma_key_order_is_lex(lo@, hi@, ident);
        }
        let tree = match &self.content {
            Some(t) => t,
            None => {
                return Vec::new();
            },
        };
        let r = btree_keys_between(tree, lo_key, hi_key);
        proof {
            assert forall|k: (u32, u32, u32, u32)|
                #[trigger] r@.contains(k) == (tree@.contains(k) && kind_key_in_range(k, p, o)) by {
                assert(key_of(quad_of_key(k, ident), ident) == k);
                lemma_key_order_is_lex(lo@, quad_of_key(k, ident), ident);
                lemma_key_order_is_lex(quad_of_key(k, ident), hi@, ident);
                assert(r@.contains(k) == (tree@.contains(k) && lo_key.cmp_spec(&k) != Ordering::Greater
                    && k.cmp_spec(&hi_key) != Ordering::Greater));
            }
        }
        r
    }
}

/// The quads of a tree whose key lies in the range that its order gives to
/// a pattern, and which match the pattern, are exactly those that match it.
proof fn lemma_range_selection_is_matching(keys: Set<(u32, u32, u32, u32)>, p: Seq<Option<u32>>, o: Seq<usize>)
    requires
        is_quad_order(o),
        p.len() == 4,
    ensures
        range_selection(quads_of_keys(keys, o), p, o) == matching(quads_of_keys(keys, o), p),
{
    let ident = seq![0usize, 1, 2, 3];
    let stored = quads_of_keys(keys, o);
    lemma_order_covers_quad(o);
    lemma_order_covers_quad(ident);
    lemma_u32_bounds();
    lemma_quads_of_keys_contains(keys, o);
    assert forall|q: Seq<u32>| #[trigger] range_selection(stored, p, o).contains(q) <==> matching(stored, p).contains(q) by {
        if stored.contains(q) {
            lemma_range_selects_matching_quads::<u32>(o, p, q);
            assert(quad_of_key(kind_key(q, o), ident) =~= permute(q, o));
        }
    }
    assert(range_selection(stored, p, o) =~= matching(stored, p));
}

/// The roles of the orders of the trees of [`TreedDataset::new`]: the first
/// tree in the OGPS order, built, and a second one in the GPSO order.
pub open spec fn two_kind_orders() -> Seq<Seq<TermKind>> {
    seq![
        seq![TermKind::Object, TermKind::Graph, TermKind::Predicate, TermKind::Subject],
        seq![TermKind::Graph, TermKind::Predicate, TermKind::Subject, TermKind::Object],
    ]
}

/// A dataset of quads of identifiers stored in several trees: the first
/// one is always built, the others are built when a search is better served
/// by them.
pub struct TreedDataset {
    subtrees: Vec<SubBTreeDataset>,
}

impl TreedDataset {
    /// The quads of the dataset.
    pub closed spec fn quads(&self) -> Set<Seq<u32>> {
        self.subtrees@[0].stored()->0
    }

    /// The kinds of the order of each tree.
    pub closed spec fn tree_kinds(&self) -> Seq<Seq<TermKind>> {
        self.subtrees@.map_values(|t: SubBTreeDataset| t.kinds())
    }

    /// The order of each tree.
    pub closed spec fn tree_orders(&self) -> Seq<Seq<usize>> {
        self.subtrees@.map_values(|t: SubBTreeDataset| t.order())
    }

    /// Which trees are built.
    pub closed spec fn built(&self) -> Seq<bool> {
        self.subtrees@.map_values(|t: SubBTreeDataset| t.stored() is Some)
    }

    /// Every tree is well formed, the first one is built, and every built
    /// tree holds the quads of the first one.
    pub closed spec fn well_formed(&self) -> bool {
        &&& self.subtrees@.len() >= 1
        &&& forall|i: int| 0 <= i < self.subtrees@.len() ==> (#[trigger] self.subtrees@[i]).well_formed()
        &&& self.subtrees@[0].stored() is Some
        &&& forall|i: int|
            0 <= i < self.subtrees@.len() && (#[trigger] self.subtrees@[i]).stored() is Some
                ==> self.subtrees@[i].stored() == self.subtrees@[0].stored()
    }

    /// The `c`-th tree is the one that a search for `pattern` uses: the
    /// first one with the highest conformance.
    pub open spec fn is_best_tree(&self, c: int, pattern: Seq<Option<u32>>) -> bool {
        &&& 0 <= c < self.tree_orders().len()
        &&& forall|j: int|
            0 <= j < self.tree_orders().len() ==> #[trigger] fixed_prefix_len(pattern, self.tree_orders()[j])
                <= fixed_prefix_len(pattern, self.tree_orders()[c])
        &&& forall|j: int|
            0 <= j < c ==> #[trigger] fixed_prefix_len(pattern, self.tree_orders()[j]) < fixed_prefix_len(
                pattern,
                self.tree_orders()[c],
            )
    }

    /// A dataset whose first tree, in the OGPS order, is built, and whose
    /// second tree is in the GPSO order.
    pub fn new() -> (r: TreedDataset)
        ensures
            r.well_formed(),
            r.quads() == Set::<Seq<u32>>::empty(),
            r.tree_kinds() == two_kind_orders(),
            r.built() == seq![true, false],
    {
        let subtrees = vec![
            SubBTreeDataset::new([TermKind::Object, TermKind::Graph, TermKind::Predicate, TermKind::Subject], true),
            SubBTreeDataset::new([TermKind::Graph, TermKind::Predicate, TermKind::Subject, TermKind::Object], false),
        ];
        let r = TreedDataset { subtrees };
        proof {
            assert(r.tree_kinds() =~= two_kind_orders());
            assert(r.built() =~= seq![true, false]);
        }
        r
    }

    /// The index of the tree that a search for the pattern uses.
    fn best_index(&self, term_kinds: &[&Option<u32>; 4]) -> (r: usize)
        requires
            self.well_formed(),
        ensures
            self.is_best_tree(r as int, deref_request(term_kinds@)),
    {
        let ghost p = deref_request(term_kinds@);
        let mut best_index: usize = 0;
        let mut best_index_score = self.subtrees[0].index_conformance(term_kinds);
        proof {
            assert(self.tree_orders()[0] == self.subtrees@[0].order());
        }
        let mut i: usize = 1;
        while i < self.subtrees.len()
            invariant
                1 <= i <= self.subtrees@.len(),
                self.well_formed(),
                p == deref_request(term_kinds@),
                best_index < i,
                best_index_score == fixed_prefix_len(p, self.tree_orders()[best_index as int]),
                forall|j: int| 0 <= j < i ==> #[trigger] fixed_prefix_len(p, self.tree_orders()[j]) <= best_index_score,
                forall|j: int| 0 <= j < best_index ==> #[trigger] fixed_prefix_len(p, self.tree_orders()[j]) < best_index_score,
            decreases self.subtrees@.len() - i,
        {
            let score = self.subtrees[i].index_conformance(term_kinds);
            proof {
                assert(self.tree_orders()[i as int] == self.subtrees@[i as int].order());
            }
            if score > best_index_score {
                best_index = i;
                best_index_score = score;
            }
            i = i + 1;
        }
        best_index
    }

    /// The quads that the search for the pattern (`None` is a wildcard)
    /// finds in the tree that best serves it (see
    /// [`SubBTreeDataset::range`]); that tree is built first if it was not.
    pub fn range(
        &mut self,
        subject: Option<u32>,
        predicate: Option<u32>,
        object: Option<u32>,
        graph: Option<u32>,
    ) -> (r: QuadIndexFromSubTreeDataset)
        requires
            old(self).well_formed(),
        ensures
            final(self).well_formed(),
            final(self).quads() == old(self).quads(),
            final(self).tree_orders() == old(self).tree_orders(),
            final(self).tree_kinds() == old(self).tree_kinds(),
            r.valid(),
            distinct_quads(r.remaining()),
            exists|c: int|
                old(self).is_best_tree(c, seq![subject, predicate, object, graph]) && final(self).built()
                    == old(self).built().update(c, true) && quads_ascend(r.remaining(), old(self).tree_orders()[c]),
            quads_of_arrays(r.remaining()) == matching(old(self).quads(), seq![subject, predicate, object, graph]),
    {
        let term_kinds = [&subject, &predicate, &object, &graph];
        proof {
            assert(deref_request(term_kinds@) =~= seq![subject, predicate, object, graph]);
        }
        let best_index = self.best_index(&term_kinds);
        let ghost old_trees = self.subtrees@;
        proof {
            assert(self.tree_orders()[best_index as int] == self.subtrees@[best_index as int].order());
        }
        if !self.subtrees[best_index].is_built() {
            let everything = self.subtrees[0].range(None, None, None, None);
            proof {
                lemma_matching_everything(self.quads());
                assert(seq![None::<u32>, None, None, None] =~= wildcard_pattern::<u32>());
            }
            let mut tree = self.subtrees.remove(best_index);
            let _built = tree.build_content(everything);
            self.subtrees.insert(best_index, tree);
            proof {
                assert(self.subtrees@ =~= old_trees.update(best_index as int, tree));
            }
        }
        proof {
            assert(self.built() =~= old(self).built().update(best_index as int, true));
            assert(self.tree_orders() =~= old(self).tree_orders());
            assert(self.tree_kinds() =~= old(self).tree_kinds());
            assert(self.subtrees@[best_index as int].order() == old(self).tree_orders()[best_index as int]);
        }
        self.subtrees[best_index].range(subject, predicate, object, graph)
    }

    /// Inserts the quad of identifiers in every built tree. Returns true if
    /// it was not already in the dataset.
    pub fn insert_by_index(&mut self, spog: [u32; 4]) -> (r: bool)
        requires
            old(self).well_formed(),
        ensures
            final(self).well_formed(),
            final(self).quads() == old(self).quads().insert(spog@),
            r == !old(self).quads().contains(spog@),
            final(self).tree_orders() == old(self).tree_orders(),
            final(self).tree_kinds() == old(self).tree_kinds(),
            final(self).built() == old(self).built(),
    {
        let ghost old_trees = self.subtrees@;
        let ghost s = self.quads();
        let mut i: usize = 0;
        while i < self.subtrees.len()
            invariant
                0 <= i <= self.subtrees@.len(),
                self.subtrees@.len() == old_trees.len(),
                old_trees == old(self).subtrees@,
                old_trees.len() >= 1,
                old_trees[0].stored() == Some(s),
                i > 0 ==> !s.contains(spog@),
                forall|j: int| 0 <= j < old_trees.len() ==> (#[trigger] old_trees[j]).well_formed(),
                forall|j: int|
                    0 <= j < old_trees.len() && (#[trigger] old_trees[j]).stored() is Some ==> old_trees[j].stored()
                        == Some(s),
                forall|j: int|
                    0 <= j < i ==> (#[trigger] self.subtrees@[j]).well_formed() && self.subtrees@[j].order()
                        == old_trees[j].order() && self.subtrees@[j].kinds() == old_trees[j].kinds() && (
                    if old_trees[j].stored() is Some {
                        self.subtrees@[j].stored() == Some(s.insert(spog@))
                    } else {
                        self.subtrees@[j].stored() is None
                    }),
                forall|j: int| i <= j < old_trees.len() ==> #[trigger] self.subtrees@[j] == old_trees[j],
            decreases old_trees.len() - i,
        {
            let inserted = self.subtrees[i].insert(&spog);
            if let Some(false) = inserted {
                proof {
                    assert(i == 0);
                    assert(s.insert(spog@) =~= s);
                    assert(forall|j: int| 1 <= j < old_trees.len() ==> self.subtrees@[j] == old_trees[j]);
                    assert(self.tree_orders() =~= old(self).tree_orders());
                    assert(self.tree_kinds() =~= old(self).tree_kinds());
                    assert(self.built() =~= old(self).built());
                }
                return false;
            }
            i = i + 1;
        }
        proof {
            assert(self.tree_orders() =~= old(self).tree_orders());
            assert(self.tree_kinds() =~= old(self).tree_kinds());
            assert(self.built() =~= old(self).built());
        }
        true
    }

    /// Deletes the quad of identifiers from every built tree. Returns true
    /// if it was in the dataset.
    pub fn delete_by_index(&mut self, spog: [u32; 4]) -> (r: bool)
        requires
            old(self).well_formed(),
        ensures
            final(self).well_formed(),
            final(self).quads() == old(self).quads().remove(spog@),
            r == old(self).quads().contains(spog@),
            final(self).tree_orders() == old(self).tree_orders(),
            final(self).tree_kinds() == old(self).tree_kinds(),
            final(self).built() == old(self).built(),
    {
        let ghost old_trees = self.subtrees@;
        let ghost s = self.quads();
        let mut i: usize = 0;
        while i < self.subtrees.len()
            invariant
                0 <= i <= self.subtrees@.len(),
                self.subtrees@.len() == old_trees.len(),
                old_trees == old(self).subtrees@,
                old_trees.len() >= 1,
                old_trees[0].stored() == Some(s),
                i > 0 ==> s.contains(spog@),
                forall|j: int| 0 <= j < old_trees.len() ==> (#[trigger] old_trees[j]).well_formed(),
                forall|j: int|
                    0 <= j < old_trees.len() && (#[trigger] old_trees[j]).stored() is Some ==> old_trees[j].stored()
                        == Some(s),
                forall|j: int|
                    0 <= j < i ==> (#[trigger] self.subtrees@[j]).well_formed() && self.subtrees@[j].order()
                        == old_trees[j].order() && self.subtrees@[j].kinds() == old_trees[j].kinds() && (
                    if old_trees[j].stored() is Some {
                        self.subtrees@[j].stored() == Some(s.remove(spog@))
                    } else {
                        self.subtrees@[j].stored() is None
                    }),
                forall|j: int| i <= j < old_trees.len() ==> #[trigger] self.subtrees@[j] == old_trees[j],
            decreases old_trees.len() - i,
        {
            let deleted = self.subtrees[i].delete(&spog);
            if let Some(false) = deleted {
                proof {
                    assert(i == 0);
                    assert(s.remove(spog@) =~= s);
                    assert(forall|j: int| 1 <= j < old_trees.len() ==> self.subtrees@[j] == old_trees[j]);
                    assert(self.tree_orders() =~= old(self).tree_orders());
                    assert(self.tree_kinds() =~= old(self).tree_kinds());
                    assert(self.built() =~= old(self).built());
                }
                return false;
            }
            i = i + 1;
        }
        proof {
            assert(self.tree_orders() =~= old(self).tree_orders());
            assert(self.tree_kinds() =~= old(self).tree_kinds());
            assert(self.built() =~= old(self).built());
        }
        true
    }
}

} // verus!
