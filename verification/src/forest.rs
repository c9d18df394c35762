//! A forest of identifier trees: the same quads stored in several trees, each
//! sorted in its own order, to answer every pattern efficiently.
use vstd::prelude::*;
use crate::identifier::Identifier;
use crate::order::{Subject, Predicate, Object, Graph, Position, lemma_position_values};
use crate::quad::{
    set_count, six_orders, law_six_orders_serve_every_pattern, fixed_prefix_len, is_quad_order, matching, quads_of_arrays, quad_views, lemma_matching_everything,
    wildcard_pattern, lemma_quads_of_prefix, lemma_quads_of_arrays_push, lemma_quads_of_prefix_ends,
};
use crate::tree::{MaybeTree4, answers_query, distinct_quads};
use crate::dynamic::DynamicOnceTreeSet;

verus! {

/// A structure made of several trees of quads, some of which are built only
/// when a request makes them useful.
pub trait Forest4<I: Identifier>: MaybeTree4<I> {
    /// How many trees are built.
    spec fn living_trees(&self) -> nat;

    /// Returns the number of trees that are built.
    fn get_number_of_living_trees(&self) -> (r: usize)
        requires
            self.wf(),
        ensures
            r == self.living_trees(),
    ;

    /// The tree that this structure picks for `pattern`, when trees may be
    /// built, is built: the pattern can be answered by the best tree there is.
    spec fn has_index_for(&self, pattern: Seq<Option<I>>) -> bool;

    /// Builds, if it is not built yet, the tree best suited to answer
    /// `pattern`, and no other.
    fn ensure_has_index_for(&mut self, pattern: &[Option<I>; 4])
        requires
            old(self).wf(),
        ensures
            final(self).wf(),
            final(self).quads() == old(self).quads(),
            final(self).has_index_for(pattern@),
            old(self).living_trees() <= final(self).living_trees() <= old(self).living_trees() + 1,
            old(self).has_index_for(pattern@) ==> final(self).living_trees() == old(self).living_trees(),
    ;

    /// Every stored quad that matches `pattern`, answered by the best tree
    /// that is already built (no tree is built).
    fn get_quads_unamortized(&self, pattern: [Option<I>; 4]) -> (r: Vec<[I; 4]>)
        requires
            self.wf(),
            self.quads() is Some,
        ensures
            answers_query(r@, self.quads()->0, pattern@),
    ;
}

/// Set operations between two structures of quads.
pub trait BinaryMaybe4TreeOperations<I: Identifier>: MaybeTree4<I> {
    /// A new structure holding the quads present in both.
    fn intersect(&self, other: &Self) -> (r: Self)
        requires
            self.wf(),
            other.wf(),
            self.quads() is Some,
            other.quads() is Some,
        ensures
            r.wf(),
            r.quads() == Some(self.quads()->0.intersect(other.quads()->0)),
    ;

    /// A new structure holding the quads present in either.
    fn union(&self, other: &Self) -> (r: Self)
        requires
            self.wf(),
            other.wf(),
            self.quads() is Some,
            other.quads() is Some,
        ensures
            r.wf(),
            r.quads() == Some(self.quads()->0.union(other.quads()->0)),
    ;

    /// A new structure holding the quads of `self` absent from `other`.
    fn difference(&self, other: &Self) -> (r: Self)
        requires
            self.wf(),
            other.wf(),
            self.quads() is Some,
            other.quads() is Some,
        ensures
            r.wf(),
            r.quads() == Some(self.quads()->0.difference(other.quads()->0)),
    ;

    /// Whether every quad of `self` is also in `other`.
    fn contains(&self, other: &Self) -> (r: Option<bool>)
        requires
            self.wf(),
            other.wf(),
            self.quads() is Some,
            other.quads() is Some,
        ensures
            r == Some(self.quads()->0.subset_of(other.quads()->0)),
    ;
}

/// The number of built trees among `trees`.
pub open spec fn count_living<I: Identifier>(trees: Seq<DynamicOnceTreeSet<I>>) -> nat
    decreases trees.len(),
{
    if trees.len() == 0 {
        0
    } else {
        count_living(trees.drop_last()) + if trees.last().inner_quads() is Some {
            1nat
        } else {
            0nat
        }
    }
}

/// The smallest answer of `index_conformance` among the trees, `None` if no
/// tree answers.
pub open spec fn least_conformance<I: Identifier>(
    trees: Seq<DynamicOnceTreeSet<I>>,
    can_build: bool,
    pattern: Seq<Option<I>>,
) -> Option<usize>
    decreases trees.len(),
{
    if trees.len() == 0 {
        None
    } else {
        let prev = least_conformance(trees.drop_last(), can_build, pattern);
        let this = trees.last().inner_conformance(can_build, pattern);
        if this is Some && (prev is None || prev->0 > this->0) {
            this
        } else {
            prev
        }
    }
}

/// Replacing one tree by another changes the count of built trees by the
/// difference of their states.
pub proof fn lemma_count_living_update<I: Identifier>(
    trees: Seq<DynamicOnceTreeSet<I>>,
    i: int,
    t: DynamicOnceTreeSet<I>,
)
    requires
        0 <= i < trees.len(),
    ensures
        count_living(trees.update(i, t)) + (if trees[i].inner_quads() is Some {
            1nat
        } else {
            0nat
        }) == count_living(trees) + (if t.inner_quads() is Some {
            1nat
        } else {
            0nat
        }),
    decreases trees.len(),
{
    if i == trees.len() - 1 {
        assert(trees.update(i, t).drop_last() =~= trees.drop_last());
    } else {
        lemma_count_living_update(trees.drop_last(), i, t);
        assert(trees.update(i, t).drop_last() =~= trees.drop_last().update(i, t));
    }
}

/// The `j`-th trees of `a` and `b` are both built or both not built.
pub open spec fn count_living_agrees<I: Identifier>(
    a: Seq<DynamicOnceTreeSet<I>>,
    b: Seq<DynamicOnceTreeSet<I>>,
    j: int,
) -> bool {
    (a[j].inner_quads() is Some) == (b[j].inner_quads() is Some)
}

/// Two sequences of trees built at the same places have the same count of
/// built trees.
pub proof fn lemma_count_living_same<I: Identifier>(
    a: Seq<DynamicOnceTreeSet<I>>,
    b: Seq<DynamicOnceTreeSet<I>>,
)
    requires
        a.len() == b.len(),
        forall|j: int| 0 <= j < a.len() ==> count_living_agrees(a, b, j),
    ensures
        count_living(a) == count_living(b),
    decreases a.len(),
{
    if a.len() > 0 {
        assert forall|j: int| 0 <= j < a.drop_last().len() implies count_living_agrees(
            a.drop_last(),
            b.drop_last(),
            j,
        ) by {
            assert(count_living_agrees(a, b, j));
        }
        lemma_count_living_same(a.drop_last(), b.drop_last());
        assert(count_living_agrees(a, b, a.len() - 1));
    }
}

/// A forest of identifier trees. It stores quads of identifiers in several
/// trees sorted in different orders; the first tree is always built, the
/// others are built when a request can use them.
pub struct IndexingForest4<I: Identifier> {
    trees: Vec<DynamicOnceTreeSet<I>>,
}

impl<I: Identifier> IndexingForest4<I> {
    /// The quads of the forest.
    pub closed spec fn forest_quads(&self) -> Set<Seq<I>> {
        self.trees@[0].inner_quads()->0
    }

    /// The number of trees of the forest, built or not.
    pub closed spec fn tree_count(&self) -> nat {
        self.trees@.len()
    }

    /// The quads of the `i`-th tree, if it is built.
    pub closed spec fn tree_quads(&self, i: int) -> Option<Set<Seq<I>>> {
        self.trees@[i].inner_quads()
    }

    /// The number of built trees.
    pub closed spec fn living_count(&self) -> nat {
        count_living(self.trees@)
    }

    /// The smallest conformance among the trees.
    pub closed spec fn least_conformance_of_trees(&self, can_build: bool, pattern: Seq<Option<I>>) -> Option<usize> {
        least_conformance(self.trees@, can_build, pattern)
    }

    /// The order of the `i`-th tree.
    pub closed spec fn tree_order(&self, i: int) -> Seq<usize> {
        self.trees@[i].tree_order()
    }

    /// Every tree is well formed, the first one is built, and every built
    /// tree holds the quads of the first one.
    pub closed spec fn forest_wf(&self) -> bool {
        &&& self.trees@.len() >= 1
        &&& forall|i: int| 0 <= i < self.trees@.len() ==> (#[trigger] self.trees@[i]).inner_wf()
        &&& self.trees@[0].inner_quads() is Some
        &&& forall|i: int|
            0 <= i < self.trees@.len() && (#[trigger] self.trees@[i]).inner_quads() is Some
                ==> self.trees@[i].inner_quads() == self.trees@[0].inner_quads()
    }

    /// Build an `IndexingForest4` with maximum indexing capacity: a built
    /// OGPS tree and 5 lazy trees (SPOG, GPSO, POGS, GSPO, OSGP).
    pub fn new() -> (r: Self)
        ensures
            r.forest_wf(),
            r.forest_quads() == Set::<Seq<I>>::empty(),
            r.tree_count() == 6,
            r.living_count() == 1,
            forall|i: int| 0 <= i < 6 ==> #[trigger] r.tree_order(i) == six_orders()[i],
    {
        let s: usize = Subject::VALUE;
        let p: usize = Predicate::VALUE;
        let o: usize = Object::VALUE;
        let g: usize = Graph::VALUE;
        proof {
            lemma_position_values();
        }
        let default_initialized = [[o, g, p, s]];
        let will_be_initialized = [[s, p, o, g], [g, p, s, o], [p, o, g, s], [g, s, p, o], [
            o,
            s,
            g,
            p,
        ]];
        let r = Self::new_with_indexes(&default_initialized, &will_be_initialized);
        proof {
            assert forall|i: int| 0 <= i < 6 implies #[trigger] r.tree_order(i) == six_orders()[i] by {
                if i == 0 {
                    assert(r.tree_order(0) == default_initialized@[0]@);
                    assert(default_initialized@[0]@ =~= six_orders()[0]);
                } else {
                    assert(r.tree_order(1 + (i - 1)) == will_be_initialized@[i - 1]@);
                    assert(will_be_initialized@[i - 1]@ =~= six_orders()[i]);
                }
            }
        }
        r
    }

    /// Build an `IndexingForest4` with a built tree for each
    /// `default_initialized` order and a lazy tree for each
    /// `will_be_initialized` order.
    pub fn new_with_indexes(
        default_initialized: &[[usize; 4]],
        will_be_initialized: &[[usize; 4]],
    ) -> (r: Self)
        requires
            default_initialized@.len() > 0,
            forall|i: int|
                0 <= i < default_initialized@.len() ==> is_quad_order(
                    #[trigger] default_initialized@[i]@,
                ),
            forall|i: int|
                0 <= i < will_be_initialized@.len() ==> is_quad_order(
                    #[trigger] will_be_initialized@[i]@,
                ),
            default_initialized@.len() + will_be_initialized@.len() <= usize::MAX,
        ensures
            r.forest_wf(),
            r.forest_quads() == Set::<Seq<I>>::empty(),
            r.tree_count() == default_initialized@.len() + will_be_initialized@.len(),
            r.living_count() == default_initialized@.len(),
            forall|i: int|
                0 <= i < default_initialized@.len() ==> r.tree_order(i)
                    == #[trigger] default_initialized@[i]@,
            forall|i: int|
                0 <= i < will_be_initialized@.len() ==> r.tree_order(
                    default_initialized@.len() + i,
                ) == #[trigger] will_be_initialized@[i]@,
    {
        let mut trees: Vec<DynamicOnceTreeSet<I>> = Vec::new();
        let mut i: usize = 0;
        while i < default_initialized.len()
            invariant
                0 <= i <= default_initialized@.len(),
                trees@.len() == i,
                forall|k: int|
                    0 <= k < default_initialized@.len() ==> is_quad_order(
                        #[trigger] default_initialized@[k]@,
                    ),
                forall|k: int|
                    0 <= k < i ==> (#[trigger] trees@[k]).inner_wf() && trees@[k].inner_quads()
                        == Some(Set::<Seq<I>>::empty()) && trees@[k].tree_order()
                        == default_initialized@[k]@,
                count_living(trees@) == i,
            decreases default_initialized@.len() - i,
        {
            let tree = DynamicOnceTreeSet::<I>::new_instanciated(&default_initialized[i]);
            match tree {
                Some(t) => {
                    let ghost before = trees@;
                    trees.push(t);
                    proof {
                        assert(trees@.drop_last() =~= before);
                    }
                },
                None => {
                    proof {
                        assert(false);
                    }
                },
            }
            i = i + 1;
        }
        let mut j: usize = 0;
        while j < will_be_initialized.len()
            invariant
                0 <= j <= will_be_initialized@.len(),
                trees@.len() == default_initialized@.len() + j,
                default_initialized@.len() > 0,
                forall|k: int|
                    0 <= k < will_be_initialized@.len() ==> is_quad_order(
                        #[trigger] will_be_initialized@[k]@,
                    ),
                forall|k: int|
                    0 <= k < default_initialized@.len() ==> (#[trigger] trees@[k]).inner_wf()
                        && trees@[k].inner_quads() == Some(Set::<Seq<I>>::empty())
                        && trees@[k].tree_order() == default_initialized@[k]@,
                forall|k: int|
                    0 <= k < j ==> (#[trigger] trees@[default_initialized@.len() + k]).inner_wf()
                        && trees@[default_initialized@.len() + k].inner_quads() is None
                        && trees@[default_initialized@.len() + k].tree_order()
                        == will_be_initialized@[k]@,
                count_living(trees@) == default_initialized@.len(),
            decreases will_be_initialized@.len() - j,
        {
            let tree = DynamicOnceTreeSet::<I>::new(&will_be_initialized[j]);
            match tree {
                Some(t) => {
                    let ghost before = trees@;
                    trees.push(t);
                    proof {
                        assert(trees@.drop_last() =~= before);
                    }
                },
                None => {
                    proof {
                        assert(false);
                    }
                },
            }
            j = j + 1;
        }
        let r = IndexingForest4 { trees };
        proof {
            assert forall|k: int| 0 <= k < r.trees@.len() implies (#[trigger] r.trees@[k]).inner_wf()
                && (r.trees@[k].inner_quads() is Some ==> r.trees@[k].inner_quads()
                == r.trees@[0].inner_quads()) by {
                if k >= default_initialized@.len() {
                    let kk = k - default_initialized@.len();
                    assert(r.trees@[default_initialized@.len() + kk].inner_wf());
                }
            }
        }
        r
    }

    /// The index of the tree that answers `pattern` best: the first tree with
    /// the highest `index_conformance`, among the built trees, and the lazy
    /// trees too if `can_build`.
    fn best_tree_for(&self, pattern: &[Option<I>; 4], can_build: bool) -> (r: usize)
        requires
            self.forest_wf(),
        ensures
            0 <= r < self.trees@.len(),
            self.trees@[r as int].inner_conformance(can_build, pattern@) is Some,
            can_build || self.trees@[r as int].inner_quads() is Some,
            forall|j: int|
                0 <= j < self.trees@.len() ==> match #[trigger] self.trees@[j].inner_conformance(
                    can_build,
                    pattern@,
                ) {
                    Some(c) => c <= self.trees@[r as int].inner_conformance(
                        can_build,
                        pattern@,
                    )->0,
                    None => true,
                },
            forall|j: int|
                0 <= j < r ==> match #[trigger] self.trees@[j].inner_conformance(
                    can_build,
                    pattern@,
                ) {
                    Some(c) => c < self.trees@[r as int].inner_conformance(
                        can_build,
                        pattern@,
                    )->0,
                    None => true,
                },
    {
        let mut best_index: usize = 0;
        let mut best_score: usize = 0;
        let mut found = false;
        let mut i: usize = 0;
        while i < self.trees.len()
            invariant
                0 <= i <= self.trees@.len(),
                self.forest_wf(),
                found ==> 0 <= best_index < i && self.trees@[best_index as int].inner_conformance(
                    can_build,
                    pattern@,
                ) == Some(best_score),
                !found ==> forall|j: int|
                    0 <= j < i ==> (#[trigger] self.trees@[j]).inner_conformance(
                        can_build,
                        pattern@,
                    ) is None,
                i > 0 ==> found,
                forall|j: int|
                    0 <= j < i ==> match #[trigger] self.trees@[j].inner_conformance(
                        can_build,
                        pattern@,
                    ) {
                        Some(c) => c <= best_score,
                        None => true,
                    },
                forall|j: int|
                    0 <= j < best_index ==> match #[trigger] self.trees@[j].inner_conformance(
                        can_build,
                        pattern@,
                    ) {
                        Some(c) => c < best_score,
                        None => true,
                    },
            decreases self.trees@.len() - i,
        {
            let conformance = self.trees[i].index_conformance(can_build, pattern);
            match conformance {
                Some(c) => {
                    if !found || best_score < c {
                        best_index = i;
                        best_score = c;
                        found = true;
                    }
                },
                None => {
                    proof {
                        if i == 0 {
                            assert(self.trees@[0].inner_quads() is Some);
                            assert(false);
                        }
                    }
                },
            }
            i = i + 1;
        }
        proof {
            if !can_build {
                if self.trees@[best_index as int].inner_quads() is None {
                    assert(false);
                }
            }
        }
        best_index
    }

    /// The `r`-th tree is the first of those whose conformance to `pattern`
    /// is the greatest, when trees may be built.
    pub closed spec fn is_first_best_tree(&self, r: int, pattern: Seq<Option<I>>) -> bool {
        &&& 0 <= r < self.trees@.len()
        &&& self.trees@[r].inner_conformance(true, pattern) is Some
        &&& forall|j: int|
            0 <= j < self.trees@.len() ==> match #[trigger] self.trees@[j].inner_conformance(true, pattern) {
                Some(c) => c <= self.trees@[r].inner_conformance(true, pattern)->0,
                None => true,
            }
        &&& forall|j: int|
            0 <= j < r ==> match #[trigger] self.trees@[j].inner_conformance(true, pattern) {
                Some(c) => c < self.trees@[r].inner_conformance(true, pattern)->0,
                None => true,
            }
    }

    /// Only one tree is the first of greatest conformance.
    proof fn lemma_first_best_tree_unique(&self, a: int, b: int, pattern: Seq<Option<I>>)
        requires
            self.is_first_best_tree(a, pattern),
            self.is_first_best_tree(b, pattern),
        ensures
            a == b,
    {
        if a < b {
            assert(self.trees@[a].inner_conformance(true, pattern) is Some);
        } else if b < a {
            assert(self.trees@[b].inner_conformance(true, pattern) is Some);
        }
    }

    /// The first tree of greatest conformance to the pattern, when trees may
    /// be built, is built.
    pub open spec fn serves(&self, pattern: Seq<Option<I>>) -> bool {
        exists|r: int| #[trigger] self.is_first_best_tree(r, pattern) && self.tree_quads(r) is Some
    }

    /// Builds, if it is not built yet, the first tree of greatest
    /// conformance to the pattern, and returns its index.
    fn build_best_tree(&mut self, pattern: &[Option<I>; 4]) -> (best: usize)
        requires
            old(self).forest_wf(),
        ensures
            final(self).forest_wf(),
            final(self).forest_quads() == old(self).forest_quads(),
            best < final(self).trees@.len(),
            final(self).is_first_best_tree(best as int, pattern@),
            final(self).tree_quads(best as int) is Some,
            final(self).serves(pattern@),
            old(self).living_count() <= final(self).living_count() <= old(self).living_count() + 1,
            old(self).serves(pattern@) ==> final(self).living_count() == old(self).living_count(),
    {
        let ghost old_self = *self;
        let best = self.best_tree_for(pattern, true);
        proof {
            assert(self.is_first_best_tree(best as int, pattern@));
            if old_self.serves(pattern@) {
                let r = choose|r: int| #[trigger] old_self.is_first_best_tree(r, pattern@) && old_self.tree_quads(r) is Some;
                old_self.lemma_first_best_tree_unique(r, best as int, pattern@);
            }
        }
        self.ensure_tree_built(best);
        proof {
            assert forall|j: int| 0 <= j < self.trees@.len() implies #[trigger] self.trees@[j].inner_conformance(true, pattern@)
                == old_self.trees@[j].inner_conformance(true, pattern@) by {
                if j != best as int {
                    assert(self.trees@[j] == old_self.trees@[j]);
                }
            }
            assert(self.is_first_best_tree(best as int, pattern@));
        }
        best
    }

    /// Builds the `i`-th tree from the first one, if it is not built yet.
    fn ensure_tree_built(&mut self, i: usize)
        requires
            old(self).forest_wf(),
            i < old(self).trees@.len(),
        ensures
            final(self).forest_wf(),
            final(self).forest_quads() == old(self).forest_quads(),
            final(self).trees@.len() == old(self).trees@.len(),
            final(self).trees@[i as int].inner_quads() is Some,
            forall|p: Seq<Option<I>>|
                #[trigger] final(self).trees@[i as int].inner_conformance(true, p) == old(
                    self,
                ).trees@[i as int].inner_conformance(true, p),
            final(self).living_count() == old(self).living_count() + (if old(
                self,
            ).trees@[i as int].inner_quads() is Some {
                0nat
            } else {
                1nat
            }),
            forall|j: int|
                0 <= j < old(self).trees@.len() && j != i ==> final(self).trees@[j] == old(
                    self,
                ).trees@[j],
    {
        if !self.trees[i].is_built() {
            let all = self.trees[0].quads_matching([None, None, None, None]);
            proof {
                lemma_matching_everything(self.trees@[0].inner_quads()->0);
                assert(seq![None::<I>, None, None, None] =~= wildcard_pattern::<I>());
            }
            let ghost before = self.trees@;
            self.trees[i].ensure_exists(&all);
            proof {
                assert(self.trees@ == before.update(i as int, self.trees@[i as int]));
                lemma_count_living_update(before, i as int, self.trees@[i as int]);
            }
        }
    }

    /// A forest with the same trees, the first one built and empty, the
    /// others not built.
    fn reproduce_structure(&self) -> (r: Self)
        requires
            self.forest_wf(),
        ensures
            r.forest_wf(),
            r.forest_quads() == Set::<Seq<I>>::empty(),
            r.trees@.len() == self.trees@.len(),
    {
        let mut trees: Vec<DynamicOnceTreeSet<I>> = Vec::new();
        let mut i: usize = 0;
        while i < self.trees.len()
            invariant
                0 <= i <= self.trees@.len(),
                self.forest_wf(),
                trees@.len() == i,
                forall|k: int|
                    0 <= k < i ==> (#[trigger] trees@[k]).inner_wf() && (if k == 0 {
                        trees@[k].inner_quads() == Some(Set::<Seq<I>>::empty())
                    } else {
                        trees@[k].inner_quads() is None
                    }),
            decreases self.trees@.len() - i,
        {
            let order = self.trees[i].order_array();
            proof {
                self.trees@[i as int].lemma_tree_order_is_valid();
            }
            let tree = if i == 0 {
                DynamicOnceTreeSet::<I>::new_instanciated(&order)
            } else {
                DynamicOnceTreeSet::<I>::new(&order)
            };
            match tree {
                Some(t) => {
                    trees.push(t);
                },
                None => {
                    proof {
                        assert(false);
                    }
                },
            }
            i = i + 1;
        }
        IndexingForest4 { trees }
    }
}

impl<I: Identifier> MaybeTree4<I> for IndexingForest4<I> {
    open spec fn wf(&self) -> bool {
        self.forest_wf()
    }

    open spec fn quads(&self) -> Option<Set<Seq<I>>> {
        Some(self.forest_quads())
    }

    /// The smallest conformance among the trees.
    open spec fn conformance(&self, can_build: bool, pattern: Seq<Option<I>>) -> Option<usize> {
        self.least_conformance_of_trees(can_build, pattern)
    }

    fn is_built(&self) -> (b: bool) {
        true
    }

    fn ensure_exists(&mut self, source: &Vec<[I; 4]>) {
    }

    /// The answer comes from the first tree of greatest conformance to the
    /// pattern, which is built first if it is not.
    fn get_quads(&mut self, pattern: [Option<I>; 4]) -> (r: Vec<[I; 4]>)
        ensures
            final(self).serves(pattern@),
            old(self).living_count() <= final(self).living_count() <= old(self).living_count() + 1,
            old(self).serves(pattern@) ==> final(self).living_count() == old(self).living_count(),
    {
        let best = self.build_best_tree(&pattern);
        self.trees[best].quads_matching(pattern)
    }

    fn index_conformance(&self, can_build: bool, pattern_layout: &[Option<I>; 4]) -> (r: Option<
        usize,
    >) {
        let mut res: Option<usize> = None;
        let mut i: usize = 0;
        while i < self.trees.len()
            invariant
                0 <= i <= self.trees@.len(),
                self.forest_wf(),
                res == least_conformance(self.trees@.subrange(0, i as int), can_build, pattern_layout@),
            decreases self.trees@.len() - i,
        {
            let this_tree_conformance = self.trees[i].index_conformance(can_build, pattern_layout);
            proof {
                assert(self.trees@.subrange(0, i + 1).drop_last() =~= self.trees@.subrange(0, i as int));
            }
            match this_tree_conformance {
                Some(c) => {
                    match res {
                        None => {
                            res = this_tree_conformance;
                        },
                        Some(r) => {
                            if r > c {
                                res = this_tree_conformance;
                            }
                        },
                    }
                },
                None => {},
            }
            i = i + 1;
        }
        proof {
            assert(self.trees@.subrange(0, self.trees@.len() as int) =~= self.trees@);
        }
        res
    }

    fn insert(&mut self, id_quad: &[I; 4]) -> (r: Option<bool>) {
        let ghost old_trees = self.trees@;
        let ghost s = self.forest_quads();
        let mut opt: Option<bool> = None;
        let mut i: usize = 0;
        while i < self.trees.len()
            invariant
                0 <= i <= self.trees@.len(),
                self.trees@.len() == old_trees.len(),
                old_trees.len() >= 1,
                old_trees[0].inner_quads() == Some(s),
                forall|j: int| 0 <= j < old_trees.len() ==> (#[trigger] old_trees[j]).inner_wf(),
                forall|j: int|
                    0 <= j < old_trees.len() && (#[trigger] old_trees[j]).inner_quads() is Some
                        ==> old_trees[j].inner_quads() == Some(s),
                forall|j: int|
                    0 <= j < i ==> (#[trigger] self.trees@[j]).inner_wf() && (if old_trees[j].inner_quads() is Some {
                        self.trees@[j].inner_quads() == Some(s.insert(id_quad@))
                    } else {
                        self.trees@[j].inner_quads() is None
                    }),
                forall|j: int| i <= j < old_trees.len() ==> #[trigger] self.trees@[j] == old_trees[j],
                opt == (if i > 0 {
                    Some(!s.contains(id_quad@))
                } else {
                    None::<bool>
                }),
            decreases old_trees.len() - i,
        {
            let x = self.trees[i].insert(id_quad);
            if opt.is_none() {
                opt = x;
            }
            i = i + 1;
        }
        proof {
            assert forall|j: int| 0 <= j < self.trees@.len() implies count_living_agrees(old_trees, self.trees@, j) by {
            }
            lemma_count_living_same(old_trees, self.trees@);
        }
        opt
    }

    fn delete(&mut self, id_quad: &[I; 4]) -> (r: Option<bool>) {
        let ghost old_trees = self.trees@;
        let ghost s = self.forest_quads();
        let mut opt: Option<bool> = None;
        let mut i: usize = 0;
        while i < self.trees.len()
            invariant
                0 <= i <= self.trees@.len(),
                self.trees@.len() == old_trees.len(),
                old_trees.len() >= 1,
                old_trees[0].inner_quads() == Some(s),
                forall|j: int| 0 <= j < old_trees.len() ==> (#[trigger] old_trees[j]).inner_wf(),
                forall|j: int|
                    0 <= j < old_trees.len() && (#[trigger] old_trees[j]).inner_quads() is Some
                        ==> old_trees[j].inner_quads() == Some(s),
                forall|j: int|
                    0 <= j < i ==> (#[trigger] self.trees@[j]).inner_wf() && (if old_trees[j].inner_quads() is Some {
                        self.trees@[j].inner_quads() == Some(s.remove(id_quad@))
                    } else {
                        self.trees@[j].inner_quads() is None
                    }),
                forall|j: int| i <= j < old_trees.len() ==> #[trigger] self.trees@[j] == old_trees[j],
                opt == (if i > 0 {
                    Some(s.contains(id_quad@))
                } else {
                    None::<bool>
                }),
            decreases old_trees.len() - i,
        {
            let x = self.trees[i].delete(id_quad);
            if opt.is_none() {
                opt = x;
            }
            i = i + 1;
        }
        proof {
            assert forall|j: int| 0 <= j < self.trees@.len() implies count_living_agrees(old_trees, self.trees@, j) by {
            }
            lemma_count_living_same(old_trees, self.trees@);
        }
        opt
    }

    fn size(&self) -> (r: Option<usize>) {
        self.trees[0].size()
    }

    fn has(&self, id_quad: &[I; 4]) -> (r: Option<bool>) {
        self.trees[0].has(id_quad)
    }
}

impl<I: Identifier> Forest4<I> for IndexingForest4<I> {
    open spec fn living_trees(&self) -> nat {
        self.living_count()
    }

    fn get_number_of_living_trees(&self) -> (r: usize) {
        let mut count: usize = 0;
        let mut i: usize = 0;
        while i < self.trees.len()
            invariant
                0 <= i <= self.trees@.len(),
                self.forest_wf(),
                count == count_living(self.trees@.subrange(0, i as int)),
                count <= i,
            decreases self.trees@.len() - i,
        {
            proof {
                assert(self.trees@.subrange(0, i + 1).drop_last() =~= self.trees@.subrange(0, i as int));
            }
            if self.trees[i].is_built() {
                count = count + 1;
            }
            i = i + 1;
        }
        proof {
            assert(self.trees@.subrange(0, self.trees@.len() as int) =~= self.trees@);
        }
        count
    }

    /// The first tree of greatest conformance to the pattern, when trees may
    /// be built, is built.
    open spec fn has_index_for(&self, pattern: Seq<Option<I>>) -> bool {
        self.serves(pattern)
    }

    fn ensure_has_index_for(&mut self, pattern: &[Option<I>; 4]) {
        self.build_best_tree(pattern);
    }

    fn get_quads_unamortized(&self, pattern: [Option<I>; 4]) -> (r: Vec<[I; 4]>) {
        let best = self.best_tree_for(&pattern, false);
        self.trees[best].quads_matching(pattern)
    }
}

impl<I: Identifier> core::default::Default for IndexingForest4<I> {
    fn default() -> (r: Self)
        ensures
            r.forest_wf(),
            r.forest_quads() == Set::<Seq<I>>::empty(),
    {
        Self::new()
    }
}

impl<I: Identifier> IndexingForest4<I> {
    /// A copy of the structure of `self` holding the quads of `source` for
    /// which `keep(quad, other has quad)` holds, added to the quads of `base`.
    fn filtered_copy(&self, base: Self, source: &Vec<[I; 4]>, other: &Self, keep_present: bool) -> (r: Self)
        requires
            self.forest_wf(),
            base.forest_wf(),
            other.forest_wf(),
        ensures
            r.forest_wf(),
            r.forest_quads() == base.forest_quads().union(
                quads_of_arrays(source@).filter(|q: Seq<I>| other.forest_quads().contains(q) == keep_present),
            ),
    {
        let mut tree = base;
        let ghost start = tree.forest_quads();
        let ghost keep = |q: Seq<I>| other.forest_quads().contains(q) == keep_present;
        proof {
            lemma_quads_of_prefix_ends(source@);
            assert(start.union(quads_of_arrays(source@.subrange(0, 0)).filter(keep)) =~= start);
        }
        let mut i: usize = 0;
        while i < source.len()
            invariant
                0 <= i <= source@.len(),
                tree.forest_wf(),
                other.forest_wf(),
                keep == (|q: Seq<I>| other.forest_quads().contains(q) == keep_present),
                tree.forest_quads() == start.union(
                    quads_of_arrays(source@.subrange(0, i as int)).filter(keep),
                ),
            decreases source@.len() - i,
        {
            proof {
                lemma_quads_of_prefix(source@, i as int);
            }
            let present = other.has(&source[i]);
            let keep_it = match present {
                Some(b) => b == keep_present,
                None => false,
            };
            if keep_it {
                tree.insert(&source[i]);
            }
            proof {
                assert(tree.forest_quads() =~= start.union(
                    quads_of_arrays(source@.subrange(0, i + 1)).filter(keep),
                ));
            }
            i = i + 1;
        }
        proof {
            lemma_quads_of_prefix_ends(source@);
        }
        tree
    }

    /// Every quad of the forest.
    fn all_quads(&self) -> (r: Vec<[I; 4]>)
        requires
            self.forest_wf(),
        ensures
            quads_of_arrays(r@) == self.forest_quads(),
    {
        let r = self.trees[0].quads_matching([None, None, None, None]);
        proof {
            lemma_matching_everything(self.forest_quads());
            assert(seq![None::<I>, None, None, None] =~= wildcard_pattern::<I>());
        }
        r
    }
}

impl<I: Identifier> BinaryMaybe4TreeOperations<I> for IndexingForest4<I> {
    fn intersect(&self, other: &Self) -> (r: Self) {
        let mine = self.all_quads();
        let base = self.reproduce_structure();
        let r = self.filtered_copy(base, &mine, other, true);
        proof {
            assert(r.forest_quads() =~= self.forest_quads().intersect(other.forest_quads()));
        }
        r
    }

    fn union(&self, other: &Self) -> (r: Self) {
        let mine = self.all_quads();
        let yours = other.all_quads();
        let base = self.reproduce_structure();
        let with_present = self.filtered_copy(base, &mine, other, true);
        let with_absent = self.filtered_copy(with_present, &mine, other, false);
        let r = self.filtered_copy(with_absent, &yours, other, true);
        proof {
            assert(r.forest_quads() =~= self.forest_quads().union(other.forest_quads()));
        }
        r
    }

    fn difference(&self, other: &Self) -> (r: Self) {
        let mine = self.all_quads();
        let base = self.reproduce_structure();
        let r = self.filtered_copy(base, &mine, other, false);
        proof {
            assert(r.forest_quads() =~= self.forest_quads().difference(other.forest_quads()));
        }
        r
    }

    fn contains(&self, other: &Self) -> (r: Option<bool>) {
        let mine = self.all_quads();
        proof {
            lemma_quads_of_prefix_ends(mine@);
        }
        let mut i: usize = 0;
        while i < mine.len()
            invariant
                0 <= i <= mine@.len(),
                other.forest_wf(),
                quads_of_arrays(mine@) == self.forest_quads(),
                quads_of_arrays(mine@.subrange(0, i as int)).subset_of(other.forest_quads()),
            decreases mine@.len() - i,
        {
            proof {
                lemma_quads_of_prefix(mine@, i as int);
            }
            match other.has(&mine[i]) {
                Some(b) => {
                    if !b {
                        return Some(false);
                    }
                },
                None => {},
            }
            i = i + 1;
        }
        proof {
            lemma_quads_of_prefix_ends(mine@);
        }
        Some(true)
    }
}

/// All trees of the forest contain the same quads: the first tree is always
/// built, and every built tree holds exactly the quads of the forest, in its
/// own order.
pub proof fn law_living_trees_hold_the_forest<I: Identifier>(forest: &IndexingForest4<I>)
    requires
        forest.wf(),
    ensures
        forest.tree_count() >= 1,
        forest.tree_quads(0) == Some(forest.forest_quads()),
        forall|i: int|
            0 <= i < forest.tree_count() && (#[trigger] forest.tree_quads(i)) is Some
                ==> forest.tree_quads(i) == Some(forest.forest_quads()),
{
}


/// A forest with the six trees of [`IndexingForest4::new`] serves every
/// pattern at best: whatever terms a pattern sets, one of its trees lists
/// those terms first, so its conformance is the number of terms that the
/// pattern sets, and no tree has more.
pub proof fn law_new_forest_serves_every_pattern<I: Identifier>(forest: &IndexingForest4<I>, p: Seq<Option<I>>)
    requires
        p.len() == 4,
        forest.tree_count() == 6,
        forall|i: int| 0 <= i < 6 ==> #[trigger] forest.tree_order(i) == six_orders()[i],
    ensures
        exists|i: int| 0 <= i < 6 && #[trigger] fixed_prefix_len(p, forest.tree_order(i)) == set_count(p),
        forall|i: int| 0 <= i < 6 ==> #[trigger] fixed_prefix_len(p, forest.tree_order(i)) <= set_count(p),
{
    law_six_orders_serve_every_pattern(p);
    let six = six_orders();
    assert(is_quad_order(six[0]) && is_quad_order(six[1]) && is_quad_order(six[2]));
    assert(is_quad_order(six[3]) && is_quad_order(six[4]) && is_quad_order(six[5]));
    let w = choose|i: int| 0 <= i < 6 && #[trigger] fixed_prefix_len(p, six[i]) == set_count(p);
    assert(forest.tree_order(w) == six[w]);
    assert forall|i: int| 0 <= i < 6 implies #[trigger] fixed_prefix_len(p, forest.tree_order(i)) <= set_count(p) by {
        assert(forest.tree_order(i) == six[i]);
        assert(fixed_prefix_len(p, six[i]) <= set_count(p));
    }
}

} // verus!
