//! A forest of ordered sets of identifier quads whose orders are chosen at
//! execution time: the base tree is always built, the optional trees are
//! built when a request can use them, and from then on they follow every
//! insertion and deletion.
use vstd::prelude::*;
use std::collections::BTreeSet;
use crate::block_order::{
    BlockOrder, IdentifierQuadFilter, TermRole, deref_request, roles_positions, NB_OF_TERMS, quads_ascend,
};
use crate::quad::{set_count, six_orders, law_six_orders_serve_every_pattern, fixed_prefix_len, matching, is_quad_order, lemma_matching_everything, quads_of_keys, wildcard_pattern};
use crate::tree::answers_query;

verus! {

broadcast use vstd::std_specs::btree::group_btree_axioms;

/// A tree of quads keyed in a block order.
pub type KeyTree = BTreeSet<(u32, u32, u32, u32)>;

/// The roles of each order of a list, as sequences.
pub open spec fn roles_seqs(v: Seq<[TermRole; 4]>) -> Seq<Seq<TermRole>> {
    v.map_values(|a: [TermRole; 4]| a@)
}

/// Each order of the list names each role once.
pub open spec fn valid_role_orders(v: Seq<[TermRole; 4]>) -> bool {
    forall|i: int| 0 <= i < v.len() ==> is_quad_order(roles_positions(#[trigger] v[i]@))
}

/// A tree with no key holds no quad, whatever its order.
proof fn lemma_no_keys_no_quads(o: Seq<usize>)
    ensures
        quads_of_keys(Set::<(u32, u32, u32, u32)>::empty(), o) == Set::<Seq<u32>>::empty(),
{
    assert(quads_of_keys(Set::<(u32, u32, u32, u32)>::empty(), o) =~= Set::<Seq<u32>>::empty());
}

/// A forest designed to index quads of four `u32` identifiers.
///
/// The base tree is always built; each optional tree is built the first time
/// a request is better answered by it, and is then kept up to date by every
/// insertion and deletion.
pub struct IndexingForest4Id {
    /// The tree that is always built, with its order.
    base_tree: (BlockOrder, KeyTree),
    /// The optional trees, with their orders; `None` for a tree not built
    /// yet.
    optional_trees: Vec<(BlockOrder, Option<KeyTree>)>,
}

impl IndexingForest4Id {
    /// The quads of the forest.
    pub closed spec fn quads(&self) -> Set<Seq<u32>> {
        quads_of_keys(self.base_tree.1@, self.base_tree.0.order())
    }

    /// The roles of the order of each tree: the base tree first, then the
    /// optional trees.
    pub closed spec fn tree_roles(&self) -> Seq<Seq<TermRole>> {
        seq![self.base_tree.0.roles()] + self.optional_trees@.map_values(
            |t: (BlockOrder, Option<KeyTree>)| t.0.roles(),
        )
    }

    /// Which trees are built, in the order of [`tree_roles`](Self::tree_roles).
    pub closed spec fn built(&self) -> Seq<bool> {
        seq![true] + self.optional_trees@.map_values(|t: (BlockOrder, Option<KeyTree>)| t.1 is Some)
    }

    /// The quads of the `i`-th tree (in the order of
    /// [`tree_roles`](Self::tree_roles)), if it is built.
    pub closed spec fn tree_quads(&self, i: int) -> Option<Set<Seq<u32>>> {
        if i == 0 {
            Some(self.quads())
        } else {
            match self.optional_trees@[i - 1].1 {
                Some(t) => Some(quads_of_keys(t@, self.optional_trees@[i - 1].0.order())),
                None => None,
            }
        }
    }

    /// Every built optional tree holds the quads of the base tree.
    pub closed spec fn well_formed(&self) -> bool {
        forall|i: int|
            0 <= i < self.optional_trees@.len() && (#[trigger] self.optional_trees@[i]).1 is Some
                ==> quads_of_keys(self.optional_trees@[i].1->0@, self.optional_trees@[i].0.order())
                == self.quads()
    }

    /// How many of the first roles of the order of the `i`-th tree hold a
    /// value in `pattern`.
    pub open spec fn conformance_of(&self, i: int, pattern: Seq<Option<u32>>) -> nat {
        fixed_prefix_len(pattern, roles_positions(self.tree_roles()[i]))
    }

    /// The `i`-th tree may answer a request: it is the base tree, it is
    /// built, or the request may build it.
    pub open spec fn usable(&self, i: int, can_build: bool) -> bool {
        i == 0 || can_build || self.built()[i]
    }

    /// The `c`-th tree is the one that answers a request for `pattern`: the
    /// first usable tree with the highest conformance.
    pub open spec fn is_best_tree(&self, c: int, pattern: Seq<Option<u32>>, can_build: bool) -> bool {
        &&& 0 <= c < self.tree_roles().len()
        &&& self.usable(c, can_build)
        &&& forall|j: int|
            0 <= j < self.tree_roles().len() && self.usable(j, can_build) ==> #[trigger] self.conformance_of(
                j,
                pattern,
            ) <= self.conformance_of(c, pattern)
        &&& forall|j: int|
            0 <= j < c && self.usable(j, can_build) ==> #[trigger] self.conformance_of(j, pattern)
                < self.conformance_of(c, pattern)
    }
}

impl IndexingForest4Id {
    /// Builds a forest with a built tree for each order of
    /// `default_initialized`, the first of which is the base tree, and a tree
    /// built on demand for each order of `optional_indexes`.
    pub fn new_with_indexes(
        default_initialized: &Vec<[TermRole; 4]>,
        optional_indexes: Option<&Vec<[TermRole; 4]>>,
    ) -> (r: Self)
        requires
            default_initialized@.len() > 0,
            valid_role_orders(default_initialized@),
            optional_indexes matches Some(v) ==> valid_role_orders(v@),
        ensures
            r.well_formed(),
            r.quads() == Set::<Seq<u32>>::empty(),
            r.tree_roles() == roles_seqs(default_initialized@) + match optional_indexes {
                Some(v) => roles_seqs(v@),
                None => Seq::<Seq<TermRole>>::empty(),
            },
            r.built() == Seq::new(
                r.tree_roles().len(),
                |i: int| i < default_initialized@.len(),
            ),
    {
        let d = default_initialized;
        let base_tree = (BlockOrder::new(d[0]), BTreeSet::new());
        let ghost base_order = base_tree.0.order();
        proof {
            lemma_no_keys_no_quads(base_order);
        }
        let mut optional_trees: Vec<(BlockOrder, Option<KeyTree>)> = Vec::new();
        let mut i: usize = 1;
        while i < d.len()
            invariant
                1 <= i <= d@.len(),
                valid_role_orders(d@),
                optional_trees@.len() == i - 1,
                forall|k: int|
                    0 <= k < i - 1 ==> (#[trigger] optional_trees@[k]).0.roles() == d@[k + 1]@
                        && optional_trees@[k].1 is Some && optional_trees@[k].1->0@ == Set::<(u32, u32, u32, u32)>::empty(),
            decreases d@.len() - i,
        {
            let tree = (BlockOrder::new(d[i]), Some(BTreeSet::new()));
            optional_trees.push(tree);
            i = i + 1;
        }
        let ghost n_default = optional_trees@.len();
        match optional_indexes {
            Some(v) => {
                let mut j: usize = 0;
                while j < v.len()
                    invariant
                        0 <= j <= v@.len(),
                        valid_role_orders(v@),
                        optional_trees@.len() == n_default + j,
                        n_default == d@.len() - 1,
                        forall|k: int|
                            0 <= k < n_default ==> (#[trigger] optional_trees@[k]).0.roles()
                                == d@[k + 1]@ && optional_trees@[k].1 is Some && optional_trees@[k].1->0@
                                == Set::<(u32, u32, u32, u32)>::empty(),
                        forall|k: int|
                            n_default <= k < n_default + j ==> (#[trigger] optional_trees@[k]).0.roles()
                                == v@[k - n_default]@ && optional_trees@[k].1 is None,
                    decreases v@.len() - j,
                {
                    let tree = (BlockOrder::new(v[j]), None);
                    optional_trees.push(tree);
                    j = j + 1;
                }
            },
            None => {},
        }
        let r = IndexingForest4Id { base_tree, optional_trees };
        proof {
            let extra = match optional_indexes {
                Some(v) => roles_seqs(v@),
                None => Seq::<Seq<TermRole>>::empty(),
            };
            assert forall|k: int|
                0 <= k < r.optional_trees@.len() && (#[trigger] r.optional_trees@[k]).1 is Some implies quads_of_keys(
                r.optional_trees@[k].1->0@,
                r.optional_trees@[k].0.order(),
            ) == r.quads() by {
                lemma_no_keys_no_quads(r.optional_trees@[k].0.order());
            }
            assert(r.tree_roles() =~= roles_seqs(d@) + extra);
            assert(r.built() =~= Seq::new(r.tree_roles().len(), |i: int| i < d@.len()));
        }
        r
    }
}

/// The roles of the orders of the trees of [`IndexingForest4Id::new`]: the
/// base tree OGPS, then GPSO, POGS, SPOG, GSPO and OSGP.
pub open spec fn default_forest_roles() -> Seq<Seq<TermRole>> {
    seq![
        seq![TermRole::Object, TermRole::Graph, TermRole::Predicate, TermRole::Subject],
        seq![TermRole::Graph, TermRole::Predicate, TermRole::Subject, TermRole::Object],
        seq![TermRole::Predicate, TermRole::Object, TermRole::Graph, TermRole::Subject],
        seq![TermRole::Subject, TermRole::Predicate, TermRole::Object, TermRole::Graph],
        seq![TermRole::Graph, TermRole::Subject, TermRole::Predicate, TermRole::Object],
        seq![TermRole::Object, TermRole::Subject, TermRole::Graph, TermRole::Predicate],
    ]
}

/// A forest of six trees whose first tree only is built.
pub open spec fn only_base_built(built: Seq<bool>) -> bool {
    built == seq![true, false, false, false, false, false]
}

impl IndexingForest4Id {
    /// Builds a forest whose base tree is in the OGPS order, with optional
    /// trees in the GPSO, POGS, SPOG, GSPO and OSGP orders.
    pub fn new() -> (r: Self)
        ensures
            r.well_formed(),
            r.quads() == Set::<Seq<u32>>::empty(),
            r.tree_roles() == default_forest_roles(),
            only_base_built(r.built()),
    {
        let default_initialized = vec![[TermRole::Object, TermRole::Graph, TermRole::Predicate, TermRole::Subject]];
        let optional = vec![
            [TermRole::Graph, TermRole::Predicate, TermRole::Subject, TermRole::Object],
            [TermRole::Predicate, TermRole::Object, TermRole::Graph, TermRole::Subject],
            [TermRole::Subject, TermRole::Predicate, TermRole::Object, TermRole::Graph],
            [TermRole::Graph, TermRole::Subject, TermRole::Predicate, TermRole::Object],
            [TermRole::Object, TermRole::Subject, TermRole::Graph, TermRole::Predicate],
        ];
        let r = Self::new_with_indexes(&default_initialized, Some(&optional));
        proof {
            assert(r.tree_roles() =~= default_forest_roles());
            assert(r.built() =~= seq![true, false, false, false, false, false]);
        }
        r
    }
}

/// The roles of the orders of the trees of [`IndexingForest4Id::default`]:
/// the base tree OGPS, then SPOG, GPSO, POGS, GSPO and OSGP.
pub open spec fn alternative_forest_roles() -> Seq<Seq<TermRole>> {
    seq![
        seq![TermRole::Object, TermRole::Graph, TermRole::Predicate, TermRole::Subject],
        seq![TermRole::Subject, TermRole::Predicate, TermRole::Object, TermRole::Graph],
        seq![TermRole::Graph, TermRole::Predicate, TermRole::Subject, TermRole::Object],
        seq![TermRole::Predicate, TermRole::Object, TermRole::Graph, TermRole::Subject],
        seq![TermRole::Graph, TermRole::Subject, TermRole::Predicate, TermRole::Object],
        seq![TermRole::Object, TermRole::Subject, TermRole::Graph, TermRole::Predicate],
    ]
}

impl Default for IndexingForest4Id {
    /// A forest whose base tree is in the OGPS order, with optional trees in
    /// the SPOG, GPSO, POGS, GSPO and OSGP orders.
    fn default() -> (r: Self)
        ensures
            r.well_formed(),
            r.quads() == Set::<Seq<u32>>::empty(),
            r.tree_roles() == alternative_forest_roles(),
            only_base_built(r.built()),
    {
        let default_initialized = vec![[TermRole::Object, TermRole::Graph, TermRole::Predicate, TermRole::Subject]];
        let optional = vec![
            [TermRole::Subject, TermRole::Predicate, TermRole::Object, TermRole::Graph],
            [TermRole::Graph, TermRole::Predicate, TermRole::Subject, TermRole::Object],
            [TermRole::Predicate, TermRole::Object, TermRole::Graph, TermRole::Subject],
            [TermRole::Graph, TermRole::Subject, TermRole::Predicate, TermRole::Object],
            [TermRole::Object, TermRole::Subject, TermRole::Graph, TermRole::Predicate],
        ];
        let r = IndexingForest4Id::new_with_indexes(&default_initialized, Some(&optional));
        proof {
            assert(r.tree_roles() =~= alternative_forest_roles());
            assert(r.built() =~= seq![true, false, false, false, false, false]);
        }
        r
    }
}

/// The pattern with which [`IndexingForest4Id::new_anti`] scores the orders:
/// a wildcard for each flagged term, a value for the others.
pub open spec fn anti_pattern(s: bool, p: bool, o: bool, g: bool) -> Seq<Option<u32>> {
    seq![
        if s { None } else { Some(0u32) },
        if p { None } else { Some(0u32) },
        if o { None } else { Some(0u32) },
        if g { None } else { Some(0u32) },
    ]
}

/// The score of the `i`-th order of [`default_forest_roles`] for the flags
/// of [`IndexingForest4Id::new_anti`].
pub open spec fn anti_score(i: int, s: bool, p: bool, o: bool, g: bool) -> nat {
    fixed_prefix_len(anti_pattern(s, p, o, g), roles_positions(default_forest_roles()[i]))
}

/// The `b`-th order of [`default_forest_roles`] is the first with the best
/// score.
pub open spec fn is_anti_choice(b: int, s: bool, p: bool, o: bool, g: bool) -> bool {
    &&& 0 <= b < 6
    &&& forall|j: int| 0 <= j < 6 ==> #[trigger] anti_score(j, s, p, o, g) <= anti_score(b, s, p, o, g)
    &&& forall|j: int| 0 <= j < b ==> #[trigger] anti_score(j, s, p, o, g) < anti_score(b, s, p, o, g)
}

impl IndexingForest4Id {
    /// Builds a forest whose base tree is the order, among OGPS, GPSO, POGS,
    /// SPOG, GSPO and OSGP, that best serves the requests where the flagged
    /// terms are wildcards and the others are set (the first of them on a
    /// tie); the five others are optional trees, in that order.
    pub fn new_anti(s: bool, p: bool, o: bool, g: bool) -> (r: Self)
        ensures
            r.well_formed(),
            r.quads() == Set::<Seq<u32>>::empty(),
            only_base_built(r.built()),
            exists|b: int|
                is_anti_choice(b, s, p, o, g) && r.tree_roles() == seq![default_forest_roles()[b]]
                    + default_forest_roles().remove(b),
    {
        let zero: Option<u32> = Some(0);
        let none: Option<u32> = None;
        let term_roles: [&Option<u32>; NB_OF_TERMS] = [
            if s { &none } else { &zero },
            if p { &none } else { &zero },
            if o { &none } else { &zero },
            if g { &none } else { &zero },
        ];
        let ghost pattern = anti_pattern(s, p, o, g);
        proof {
            assert(deref_request(term_roles@) =~= pattern);
        }
        let mut block_candidates = vec![
            [TermRole::Object, TermRole::Graph, TermRole::Predicate, TermRole::Subject],
            [TermRole::Graph, TermRole::Predicate, TermRole::Subject, TermRole::Object],
            [TermRole::Predicate, TermRole::Object, TermRole::Graph, TermRole::Subject],
            [TermRole::Subject, TermRole::Predicate, TermRole::Object, TermRole::Graph],
            [TermRole::Graph, TermRole::Subject, TermRole::Predicate, TermRole::Object],
            [TermRole::Object, TermRole::Subject, TermRole::Graph, TermRole::Predicate],
        ];
        proof {
            assert(roles_seqs(block_candidates@) =~= default_forest_roles());
        }
        let mut best_tree: usize = 0;
        let mut best_tree_score: usize = 0;
        let mut i: usize = 0;
        while i < block_candidates.len()
            invariant
                block_candidates@.len() == 6,
                roles_seqs(block_candidates@) == default_forest_roles(),
                valid_role_orders(block_candidates@),
                deref_request(term_roles@) == pattern,
                pattern == anti_pattern(s, p, o, g),
                0 <= i <= 6,
                best_tree < 6,
                i > 0 ==> best_tree < i && best_tree_score == anti_score(best_tree as int, s, p, o, g),
                i == 0 ==> best_tree == 0 && best_tree_score == 0,
                forall|j: int| 0 <= j < i ==> #[trigger] anti_score(j, s, p, o, g) <= best_tree_score,
                forall|j: int| 0 <= j < best_tree ==> #[trigger] anti_score(j, s, p, o, g) < best_tree_score,
            decreases 6 - i,
        {
            let block_order = BlockOrder::new(block_candidates[i]);
            let score = block_order.index_conformance(&term_roles);
            proof {
                assert(roles_seqs(block_candidates@)[i as int] == block_candidates@[i as int]@);
                assert(score == anti_score(i as int, s, p, o, g));
            }
            if score > best_tree_score {
                best_tree_score = score;
                best_tree = i;
            }
            i = i + 1;
        }
        let init_block = block_candidates[best_tree];
        let ghost candidates = block_candidates@;
        block_candidates.remove(best_tree);
        let default_initialized = vec![init_block];
        proof {
            assert forall|k: int| 0 <= k < block_candidates@.len() implies is_quad_order(
                roles_positions(#[trigger] block_candidates@[k]@),
            ) by {
                if k < best_tree {
                    assert(block_candidates@[k] == candidates[k]);
                } else {
                    assert(block_candidates@[k] == candidates[k + 1]);
                }
            }
            assert(is_quad_order(roles_positions(candidates[best_tree as int]@)));
            assert(default_initialized@ =~= seq![init_block]);
        }
        let r = Self::new_with_indexes(&default_initialized, Some(&block_candidates));
        proof {
            let b = best_tree as int;
            assert(roles_seqs(candidates)[b] == candidates[b]@);
            assert(roles_seqs(default_initialized@) =~= seq![default_forest_roles()[b]]);
            assert(roles_seqs(block_candidates@) =~= default_forest_roles().remove(b));
            assert(r.tree_roles() == seq![default_forest_roles()[b]] + default_forest_roles().remove(b));
            assert(is_anti_choice(b, s, p, o, g));
            assert(r.built() =~= seq![true, false, false, false, false, false]);
        }
        r
    }
}

impl IndexingForest4Id {
    /// The tree that answers a request for `pattern`: `None` for the base
    /// tree, `Some(i)` for the `i`-th optional tree.
    fn best_tree(&self, pattern: &[Option<u32>; NB_OF_TERMS], can_build: bool) -> (r: Option<usize>)
        ensures
            self.is_best_tree(
                match r {
                    None => 0,
                    Some(x) => x + 1,
                },
                pattern@,
                can_build,
            ),
            r matches Some(x) ==> x < self.optional_trees@.len(),
    {
        let term_roles = [&pattern[0], &pattern[1], &pattern[2], &pattern[3]];
        proof {
            assert(deref_request(term_roles@) =~= pattern@);
        }
        let ghost roles = self.tree_roles();
        let ghost p = pattern@;
        let mut best_alt: Option<usize> = None;
        let mut best_score = self.base_tree.0.index_conformance(&term_roles);
        proof {
            assert(roles[0] == self.base_tree.0.roles());
        }
        let mut i: usize = 0;
        while i < self.optional_trees.len()
            invariant
                0 <= i <= self.optional_trees@.len(),
                roles == self.tree_roles(),
                p == pattern@,
                deref_request(term_roles@) == p,
                best_alt matches Some(x) ==> x < i,
                self.usable(
                    match best_alt {
                        None => 0,
                        Some(x) => x + 1,
                    },
                    can_build,
                ),
                best_score == self.conformance_of(
                    match best_alt {
                        None => 0,
                        Some(x) => x + 1,
                    },
                    p,
                ),
                forall|j: int|
                    0 <= j <= i && self.usable(j, can_build) ==> #[trigger] self.conformance_of(j, p)
                        <= best_score,
                forall|j: int|
                    0 <= j < (match best_alt {
                        None => 0,
                        Some(x) => x + 1,
                    }) && self.usable(j, can_build) ==> #[trigger] self.conformance_of(j, p) < best_score,
            decreases self.optional_trees@.len() - i,
        {
            proof {
                assert(roles[i + 1] == self.optional_trees@[i as int].0.roles());
                assert(self.built()[i + 1] == self.optional_trees@[i as int].1 is Some);
            }
            if can_build || self.optional_trees[i].1.is_some() {
                let score = self.optional_trees[i].0.index_conformance(&term_roles);
                if score > best_score {
                    best_alt = Some(i);
                    best_score = score;
                }
            }
            i = i + 1;
        }
        best_alt
    }

    /// Builds the `x`-th optional tree from the base tree, if it is not built
    /// yet.
    fn ensure_built(&mut self, x: usize)
        requires
            old(self).well_formed(),
            x < old(self).optional_trees@.len(),
        ensures
            final(self).well_formed(),
            final(self).quads() == old(self).quads(),
            final(self).tree_roles() == old(self).tree_roles(),
            final(self).built() == old(self).built().update(x + 1, true),
            final(self).optional_trees@[x as int].1 is Some,
    {
        if self.optional_trees[x].1.is_none() {
            let content = self.base_tree.0.filter(&self.base_tree.1, [None, None, None, None]);
            let order = self.optional_trees[x].0;
            let mut map: KeyTree = BTreeSet::new();
            order.insert_all_into(&mut map, content);
            proof {
                lemma_no_keys_no_quads(order.order());
                lemma_matching_everything(self.quads());
                assert(seq![None::<u32>, None, None, None] =~= wildcard_pattern::<u32>());
                assert(quads_of_keys(map@, order.order()) =~= self.quads());
            }
            let ghost before = *self;
            self.optional_trees.set(x, (order, Some(map)));
            proof {
                assert(self.tree_roles() =~= before.tree_roles());
                assert(self.built() =~= before.built().update(x + 1, true));
            }
        } else {
            proof {
                assert(self.built() =~= self.built().update(x + 1, true));
            }
        }
    }

    /// Returns the identifier quads of the forest that match the given
    /// pattern (`None` is a wildcard), each once.
    ///
    /// The answer comes from the tree whose order best serves the pattern,
    /// among the built trees, and also among the trees not built yet if
    /// `can_build_new_tree` is true: such a tree is then built, and kept up
    /// to date from then on.
    pub fn search_all_matching_quads(
        &mut self,
        identifier_quad_pattern: [Option<u32>; NB_OF_TERMS],
        can_build_new_tree: bool,
    ) -> (r: IdentifierQuadFilter)
        requires
            old(self).well_formed(),
        ensures
            final(self).well_formed(),
            final(self).quads() == old(self).quads(),
            final(self).tree_roles() == old(self).tree_roles(),
            r.valid(),
            answers_query(r.remaining(), old(self).quads(), identifier_quad_pattern@),
            exists|c: int|
                old(self).is_best_tree(c, identifier_quad_pattern@, can_build_new_tree)
                    && final(self).built() == old(self).built().update(c, true)
                    && quads_ascend(r.remaining(), roles_positions(old(self).tree_roles()[c])),
            !can_build_new_tree ==> final(self).built() == old(self).built(),
    {
        proof {
            self.lemma_one_built_flag_per_tree();
        }
        let best = self.best_tree(&identifier_quad_pattern, can_build_new_tree);
        match best {
            None => {
                proof {
                    assert(self.built() =~= self.built().update(0, true));
                }
                self.base_tree.0.filter(&self.base_tree.1, identifier_quad_pattern)
            },
            Some(x) => {
                self.ensure_built(x);
                let order = self.optional_trees[x].0;
                match &self.optional_trees[x].1 {
                    Some(tree) => order.filter(tree, identifier_quad_pattern),
                    None => {
                        proof {
                            assert(false);
                        }
                        IdentifierQuadFilter::from_vec(Vec::new())
                    },
                }
            },
        }
    }

    /// Returns the identifier quads of the forest that match the given
    /// pattern (`None` is a wildcard), each once.
    ///
    /// An identifier quad is an array of four identifiers which represents
    /// the subject, the predicate, the object and the graph (in this order).
    ///
    /// This function builds a new tree whenever a tree not built yet serves
    /// the pattern better; [`search_all_matching_quads`](Self::search_all_matching_quads)
    /// can avoid it.
    pub fn filter(&mut self, identifier_quad_pattern: [Option<u32>; NB_OF_TERMS]) -> (r: IdentifierQuadFilter)
        requires
            old(self).well_formed(),
        ensures
            final(self).well_formed(),
            final(self).quads() == old(self).quads(),
            final(self).tree_roles() == old(self).tree_roles(),
            r.valid(),
            answers_query(r.remaining(), old(self).quads(), identifier_quad_pattern@),
            exists|c: int|
                old(self).is_best_tree(c, identifier_quad_pattern@, true) && final(self).built() == old(
                    self,
                ).built().update(c, true) && quads_ascend(r.remaining(), roles_positions(old(self).tree_roles()[c])),
    {
        self.search_all_matching_quads(identifier_quad_pattern, true)
    }
}

impl IndexingForest4Id {
    /// Inserts in the forest the quad described by the given array of
    /// identifiers, in the base tree and in every built optional tree.
    ///
    /// Returns true if the quad has been inserted (it was not already in the
    /// forest).
    pub fn insert(&mut self, identifier_quad: [u32; NB_OF_TERMS]) -> (r: bool)
        requires
            old(self).well_formed(),
        ensures
            final(self).well_formed(),
            final(self).quads() == old(self).quads().insert(identifier_quad@),
            r == !old(self).quads().contains(identifier_quad@),
            final(self).tree_roles() == old(self).tree_roles(),
            final(self).built() == old(self).built(),
    {
        let ghost old_quads = self.quads();
        let ghost old_optional = self.optional_trees@;
        let base_order = self.base_tree.0;
        if base_order.insert_into(&mut self.base_tree.1, &identifier_quad) {
            proof {
                assert(old_quads.insert(identifier_quad@) =~= old_quads);
            }
            return false;
        }
        let ghost new_quads = self.quads();
        let mut i: usize = 0;
        while i < self.optional_trees.len()
            invariant
                0 <= i <= self.optional_trees@.len(),
                self.optional_trees@.len() == old_optional.len(),
                self.quads() == new_quads,
                self.base_tree.0 == base_order,
                new_quads == old_quads.insert(identifier_quad@),
                forall|j: int|
                    0 <= j < old_optional.len() && (#[trigger] old_optional[j]).1 is Some ==> quads_of_keys(
                        old_optional[j].1->0@,
                        old_optional[j].0.order(),
                    ) == old_quads,
                forall|j: int|
                    0 <= j < i ==> (#[trigger] self.optional_trees@[j]).0 == old_optional[j].0 && (
                    self.optional_trees@[j].1 is Some) == (old_optional[j].1 is Some) && (
                    self.optional_trees@[j].1 is Some ==> quads_of_keys(
                        self.optional_trees@[j].1->0@,
                        self.optional_trees@[j].0.order(),
                    ) == new_quads),
                forall|j: int| i <= j < old_optional.len() ==> #[trigger] self.optional_trees@[j] == old_optional[j],
            decreases old_optional.len() - i,
        {
            let order = self.optional_trees[i].0;
            match &mut self.optional_trees[i].1 {
                Some(tree) => {
                    order.insert_into(tree, &identifier_quad);
                },
                None => {},
            }
            i = i + 1;
        }
        proof {
            assert forall|k: int| 0 <= k < self.tree_roles().len() implies #[trigger] self.tree_roles()[k]
                == old(self).tree_roles()[k] by {
                if k > 0 {
                    assert(self.optional_trees@[k - 1].0 == old_optional[k - 1].0);
                }
            }
            assert(self.tree_roles() =~= old(self).tree_roles());
            assert(self.built() =~= old(self).built());
        }
        true
    }

    /// Deletes from the forest the quad described by the given array of
    /// identifiers, from the base tree and from every built optional tree.
    ///
    /// Returns true if the quad was in the forest (and was deleted).
    pub fn delete(&mut self, identifier_quad: [u32; NB_OF_TERMS]) -> (r: bool)
        requires
            old(self).well_formed(),
        ensures
            final(self).well_formed(),
            final(self).quads() == old(self).quads().remove(identifier_quad@),
            r == old(self).quads().contains(identifier_quad@),
            final(self).tree_roles() == old(self).tree_roles(),
            final(self).built() == old(self).built(),
    {
        let ghost old_quads = self.quads();
        let ghost old_optional = self.optional_trees@;
        let base_order = self.base_tree.0;
        if !base_order.delete_from(&mut self.base_tree.1, &identifier_quad) {
            proof {
                assert(old_quads.remove(identifier_quad@) =~= old_quads);
            }
            return false;
        }
        let ghost new_quads = self.quads();
        let mut i: usize = 0;
        while i < self.optional_trees.len()
            invariant
                0 <= i <= self.optional_trees@.len(),
                self.optional_trees@.len() == old_optional.len(),
                self.quads() == new_quads,
                self.base_tree.0 == base_order,
                new_quads == old_quads.remove(identifier_quad@),
                forall|j: int|
                    0 <= j < old_optional.len() && (#[trigger] old_optional[j]).1 is Some ==> quads_of_keys(
                        old_optional[j].1->0@,
                        old_optional[j].0.order(),
                    ) == old_quads,
                forall|j: int|
                    0 <= j < i ==> (#[trigger] self.optional_trees@[j]).0 == old_optional[j].0 && (
                    self.optional_trees@[j].1 is Some) == (old_optional[j].1 is Some) && (
                    self.optional_trees@[j].1 is Some ==> quads_of_keys(
                        self.optional_trees@[j].1->0@,
                        self.optional_trees@[j].0.order(),
                    ) == new_quads),
                forall|j: int| i <= j < old_optional.len() ==> #[trigger] self.optional_trees@[j] == old_optional[j],
            decreases old_optional.len() - i,
        {
            let order = self.optional_trees[i].0;
            match &mut self.optional_trees[i].1 {
                Some(tree) => {
                    order.delete_from(tree, &identifier_quad);
                },
                None => {},
            }
            i = i + 1;
        }
        proof {
            assert forall|k: int| 0 <= k < self.tree_roles().len() implies #[trigger] self.tree_roles()[k]
                == old(self).tree_roles()[k] by {
                if k > 0 {
                    assert(self.optional_trees@[k - 1].0 == old_optional[k - 1].0);
                }
            }
            assert(self.tree_roles() =~= old(self).tree_roles());
            assert(self.built() =~= old(self).built());
        }
        true
    }
}

impl IndexingForest4Id {
    /// Each tree of the forest has a flag that says whether it is built.
    pub proof fn lemma_one_built_flag_per_tree(&self)
        ensures
            self.built().len() == self.tree_roles().len(),
    {
    }
}

/// All the built trees of a forest hold the same quads, each in its own
/// order: those of the forest. So whichever tree answers a request, the
/// answer is the same.
pub proof fn law_built_trees_hold_the_forest_quads(forest: &IndexingForest4Id, i: int)
    requires
        forest.well_formed(),
        0 <= i < forest.tree_roles().len(),
        forest.built()[i],
    ensures
        forest.tree_quads(i) == Some(forest.quads()),
{
    if i > 0 {
        assert(forest.built()[i] == (forest.optional_trees@[i - 1].1 is Some));
        assert(forest.optional_trees@[i - 1].1 is Some);
    }
}


/// The six trees of [`IndexingForest4Id::new`] serve every pattern at best:
/// whatever terms a pattern sets, one of their orders lists those terms
/// first, so its conformance is the number of terms that the pattern sets,
/// and no order has more.
pub proof fn law_default_forest_serves_every_pattern(p: Seq<Option<u32>>)
    requires
        p.len() == 4,
    ensures
        exists|i: int|
            0 <= i < 6 && #[trigger] fixed_prefix_len(p, roles_positions(default_forest_roles()[i])) == set_count(p),
        forall|i: int|
            0 <= i < 6 ==> #[trigger] fixed_prefix_len(p, roles_positions(default_forest_roles()[i])) <= set_count(p),
{
    law_six_orders_serve_every_pattern(p);
    let r = default_forest_roles();
    let six = six_orders();
    assert(roles_positions(r[0]) =~= six[0]);
    assert(roles_positions(r[1]) =~= six[2]);
    assert(roles_positions(r[2]) =~= six[3]);
    assert(roles_positions(r[3]) =~= six[1]);
    assert(roles_positions(r[4]) =~= six[4]);
    assert(roles_positions(r[5]) =~= six[5]);
    assert(is_quad_order(six[0]) && is_quad_order(six[1]) && is_quad_order(six[2]));
    assert(is_quad_order(six[3]) && is_quad_order(six[4]) && is_quad_order(six[5]));
    let w = choose|i: int| 0 <= i < 6 && #[trigger] fixed_prefix_len(p, six[i]) == set_count(p);
    if w == 0 {
        assert(fixed_prefix_len(p, roles_positions(r[0])) == set_count(p));
    } else if w == 1 {
        assert(fixed_prefix_len(p, roles_positions(r[3])) == set_count(p));
    } else if w == 2 {
        assert(fixed_prefix_len(p, roles_positions(r[1])) == set_count(p));
    } else if w == 3 {
        assert(fixed_prefix_len(p, roles_positions(r[2])) == set_count(p));
    } else if w == 4 {
        assert(fixed_prefix_len(p, roles_positions(r[4])) == set_count(p));
    } else {
        assert(fixed_prefix_len(p, roles_positions(r[5])) == set_count(p));
    }
    assert forall|i: int| 0 <= i < 6 implies #[trigger] fixed_prefix_len(p, roles_positions(r[i])) <= set_count(p) by {
        if i == 0 {
            assert(fixed_prefix_len(p, six[0]) <= set_count(p));
        } else if i == 1 {
            assert(fixed_prefix_len(p, six[2]) <= set_count(p));
        } else if i == 2 {
            assert(fixed_prefix_len(p, six[3]) <= set_count(p));
        } else if i == 3 {
            assert(fixed_prefix_len(p, six[1]) <= set_count(p));
        } else if i == 4 {
            assert(fixed_prefix_len(p, six[4]) <= set_count(p));
        } else {
            assert(fixed_prefix_len(p, six[5]) <= set_count(p));
        }
    }
}

} // verus!
