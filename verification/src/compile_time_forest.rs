//! An identifier forest whose trees are chosen at compile time instead of
//! run time: [`CTForest`].
//!
//! The purpose of this implementation is to be faster, at the cost of a less
//! flexible structure to pick the desired trees.
use vstd::prelude::*;
use crate::identifier::Identifier;
use crate::order::{FixedOrder4, Position, Subject, Predicate, Object, Graph, lemma_position_values};
use crate::quad::{
    is_quad_order, wildcard_pattern, lemma_matching_everything, set_count, six_orders,
    law_six_orders_serve_every_pattern, fixed_prefix_len,
};
use crate::tree::{OnceTreeSet, MaybeTree4, LazyStructure, answers_query};
use crate::forest::Forest4;

pub mod profile4;

verus! {

/// Which [`OnceTreeSet`] a [`CTForest`] must use: the order of the tree and
/// whether it is always built are given as bound types and a constant.
pub trait Tree4Profile {
    /// The first position of the order, corresponding to `A`
    type First: Position;
    /// The second position of the order, corresponding to `B`
    type Second: Position;
    /// The third position of the order, corresponding to `C`
    type Third: Position;
    /// The fourth position of the order, corresponding to `D`
    type Fourth: Position;
    /// True if the corresponding tree must always be built (it can not be
    /// lazy).
    const ALWAYS_INSTANCIATED: bool;

    /// The four positions list each position of a quad once.
    proof fn lemma_valid_profile()
        ensures
            is_quad_order(FixedOrder4::<Self::First, Self::Second, Self::Third, Self::Fourth>::order()),
    ;
}

/// Build a [`OnceTreeSet`] for quads of `I` using the order and strategy
/// specified in the [`Tree4Profile`] `P`.
pub fn make_once_tree_set<I: Identifier, P: Tree4Profile>() -> (r: OnceTreeSet<
    I,
    P::First,
    P::Second,
    P::Third,
    P::Fourth,
>)
    ensures
        r.wf(),
        r.quads() == (if P::ALWAYS_INSTANCIATED {
            Some(Set::<Seq<I>>::empty())
        } else {
            None
        }),
{
    proof {
        P::lemma_valid_profile();
    }
    if P::ALWAYS_INSTANCIATED {
        <OnceTreeSet<I, P::First, P::Second, P::Third, P::Fourth> as LazyStructure<I>>::new_instanciated()
    } else {
        <OnceTreeSet<I, P::First, P::Second, P::Third, P::Fourth> as LazyStructure<I>>::new()
    }
}

/// The position, 0-based, of the last greatest score among `cs`, with that
/// score; `None` if no score is given.
pub open spec fn last_best(cs: Seq<Option<usize>>) -> Option<(int, usize)>
    decreases cs.len(),
{
    if cs.len() == 0 {
        None
    } else {
        let prev = last_best(cs.drop_last());
        match cs.last() {
            Some(s) => if prev is None || s >= best_score(prev) {
                Some((cs.len() - 1, s))
            } else {
                prev
            },
            None => prev,
        }
    }
}

/// The score of a best choice, 0 if there is none.
pub open spec fn best_score(b: Option<(int, usize)>) -> usize {
    match b {
        Some(pair) => pair.1,
        None => 0,
    }
}

/// A [`CTForest`] with an always built OGPS tree, and 5 other trees that are
/// built depending on the patterns requested by the users. The trees are
/// chosen to have an optimal tree for each kind of pattern (see
/// [`law_lazy6_serves_every_pattern`]).
pub type CTForestLazy6<I> = CTForest<
    I,
    profile4::OGPSAlways,
    profile4::SPOG,
    profile4::GPSO,
    profile4::POGS,
    profile4::GSPO,
    profile4::OSGP,
>;

/// A [`CTForest`] with 6 always built trees, chosen to answer any kind of
/// pattern.
pub type CTForestGreedy6<I> = CTForest<
    I,
    profile4::OGPSAlways,
    profile4::SPOGAlways,
    profile4::GPSOAlways,
    profile4::POGSAlways,
    profile4::GSPOAlways,
    profile4::OSGPAlways,
>;

/// A `CTForest` (Compile Time Forest) is a forest composed of 6 trees
/// determined at compile time; the first one must always be built.
///
/// 6 trees is the minimal number to have an optimal tree for each quad query
/// pattern.
pub struct CTForest<I: Identifier, O1: Tree4Profile, O2: Tree4Profile, O3: Tree4Profile, O4: Tree4Profile, O5: Tree4Profile, O6: Tree4Profile> {
    tree1: OnceTreeSet<I, O1::First, O1::Second, O1::Third, O1::Fourth>,
    tree2: OnceTreeSet<I, O2::First, O2::Second, O2::Third, O2::Fourth>,
    tree3: OnceTreeSet<I, O3::First, O3::Second, O3::Third, O3::Fourth>,
    tree4: OnceTreeSet<I, O4::First, O4::Second, O4::Third, O4::Fourth>,
    tree5: OnceTreeSet<I, O5::First, O5::Second, O5::Third, O5::Fourth>,
    tree6: OnceTreeSet<I, O6::First, O6::Second, O6::Third, O6::Fourth>,
}

impl<I: Identifier, O1: Tree4Profile, O2: Tree4Profile, O3: Tree4Profile, O4: Tree4Profile, O5: Tree4Profile, O6: Tree4Profile> CTForest<I, O1, O2, O3, O4, O5, O6> {
    /// Every tree is well formed, the first one is built, and every built
    /// tree holds the quads of the first one.
    pub closed spec fn ct_wf(&self) -> bool {
        &&& self.tree1.wf()
        &&& self.tree2.wf()
        &&& self.tree3.wf()
        &&& self.tree4.wf()
        &&& self.tree5.wf()
        &&& self.tree6.wf()
        &&& self.tree1.quads() is Some
        &&& (self.tree2.quads() is Some ==> self.tree2.quads() == self.tree1.quads())
        &&& (self.tree3.quads() is Some ==> self.tree3.quads() == self.tree1.quads())
        &&& (self.tree4.quads() is Some ==> self.tree4.quads() == self.tree1.quads())
        &&& (self.tree5.quads() is Some ==> self.tree5.quads() == self.tree1.quads())
        &&& (self.tree6.quads() is Some ==> self.tree6.quads() == self.tree1.quads())
    }

    /// The quads of the forest.
    pub closed spec fn ct_quads(&self) -> Set<Seq<I>> {
        self.tree1.quads()->0
    }

    /// What each tree answers to `index_conformance`, in order.
    pub closed spec fn conformances(&self, can_build: bool, pattern: Seq<Option<I>>) -> Seq<Option<usize>> {
        seq![self.tree1.conformance(can_build, pattern), self.tree2.conformance(can_build, pattern), self.tree3.conformance(can_build, pattern), self.tree4.conformance(can_build, pattern), self.tree5.conformance(can_build, pattern), self.tree6.conformance(can_build, pattern)]
    }

    /// Whether the tree of 0-based position `k` is built.
    pub closed spec fn tree_built(&self, k: int) -> bool {
        if k == 0 {
            self.tree1.quads() is Some
        } else if k == 1 {
            self.tree2.quads() is Some
        } else if k == 2 {
            self.tree3.quads() is Some
        } else if k == 3 {
            self.tree4.quads() is Some
        } else if k == 4 {
            self.tree5.quads() is Some
        } else {
            self.tree6.quads() is Some
        }
    }

    /// The last tree of greatest conformance to the pattern, when trees may
    /// be built, is built.
    pub open spec fn serves(&self, pattern: Seq<Option<I>>) -> bool {
        match last_best(self.conformances(true, pattern)) {
            Some(b) => self.tree_built(b.0),
            None => true,
        }
    }

    /// The number of built trees.
    pub closed spec fn living(&self) -> nat {
        (if self.tree1.quads() is Some { 1nat } else { 0nat }) + (if self.tree2.quads() is Some { 1nat } else { 0nat }) + (if self.tree3.quads() is Some { 1nat } else { 0nat }) + (if self.tree4.quads() is Some { 1nat } else { 0nat }) + (if self.tree5.quads() is Some { 1nat } else { 0nat }) + (if self.tree6.quads() is Some { 1nat } else { 0nat })
    }

    /// A forest whose trees are built as their profiles say; the first tree
    /// is always built.
    pub fn new() -> (r: Self)
        ensures
            r.ct_wf(),
            r.ct_quads() == Set::<Seq<I>>::empty(),
    {
        proof {
            O1::lemma_valid_profile();
            O2::lemma_valid_profile();
            O3::lemma_valid_profile();
            O4::lemma_valid_profile();
            O5::lemma_valid_profile();
            O6::lemma_valid_profile();
        }
        CTForest {
            tree1: <OnceTreeSet<I, O1::First, O1::Second, O1::Third, O1::Fourth> as LazyStructure<I>>::new_instanciated(),
            tree2: make_once_tree_set::<I, O2>(),
            tree3: make_once_tree_set::<I, O3>(),
            tree4: make_once_tree_set::<I, O4>(),
            tree5: make_once_tree_set::<I, O5>(),
            tree6: make_once_tree_set::<I, O6>(),
        }
    }

    /// The tree, 1-based, with the greatest conformance to the pattern (the
    /// last one among equals), and that conformance.
    fn best_conformance(&self, can_build: bool, pattern_layout: &[Option<I>; 4]) -> (r: (usize, usize))
        requires
            self.ct_wf(),
        ensures
            last_best(self.conformances(can_build, pattern_layout@)) == Some((r.0 - 1, r.1)),
            1 <= r.0 <= 6,
    {
        let cs = [
            self.tree1.index_conformance(can_build, pattern_layout),
            self.tree2.index_conformance(can_build, pattern_layout),
            self.tree3.index_conformance(can_build, pattern_layout),
            self.tree4.index_conformance(can_build, pattern_layout),
            self.tree5.index_conformance(can_build, pattern_layout),
            self.tree6.index_conformance(can_build, pattern_layout),
        ];
        let ghost all = self.conformances(can_build, pattern_layout@);
        proof {
            assert(cs@ =~= all);
        }
        let mut best: Option<(usize, usize)> = None;
        let mut k: usize = 0;
        while k < 6
            invariant
                0 <= k <= 6,
                cs@ == all,
                all.len() == 6,
                all[0] is Some,
                match best {
                    None => last_best(all.subrange(0, k as int)) is None,
                    Some(b) => last_best(all.subrange(0, k as int)) == Some((b.0 as int, b.1)),
                },
                k > 0 ==> best is Some,
                best matches Some(b) ==> b.0 < k,
            decreases 6 - k,
        {
            proof {
                assert(all.subrange(0, k + 1).drop_last() =~= all.subrange(0, k as int));
            }
            match cs[k] {
                Some(s) => {
                    match best {
                        None => {
                            best = Some((k, s));
                        },
                        Some(b) => {
                            if s >= b.1 {
                                best = Some((k, s));
                            }
                        },
                    }
                },
                None => {},
            }
            k = k + 1;
        }
        proof {
            assert(all.subrange(0, 6) =~= all);
        }
        match best {
            Some(b) => (b.0 + 1, b.1),
            None => (1, 0),
        }
    }

    /// Every quad of the forest, read from the first tree.
    fn all_quads(&self) -> (r: Vec<[I; 4]>)
        requires
            self.ct_wf(),
        ensures
            answers_query(r@, self.ct_quads(), wildcard_pattern()),
            crate::quad::quads_of_arrays(r@) == self.ct_quads(),
    {
        let r = self.tree1.quads_matching([None, None, None, None]);
        proof {
            lemma_matching_everything(self.ct_quads());
            assert(seq![None::<I>, None, None, None] =~= wildcard_pattern::<I>());
        }
        r
    }

    /// Builds the tree 2 from the first one if it is not built yet.
    fn ensure_tree2(&mut self)
        requires
            old(self).ct_wf(),
        ensures
            final(self).ct_wf(),
            final(self).ct_quads() == old(self).ct_quads(),
            final(self).tree2.quads() is Some,
            final(self).tree1 == old(self).tree1,
            final(self).tree3 == old(self).tree3,
            final(self).tree4 == old(self).tree4,
            final(self).tree5 == old(self).tree5,
            final(self).tree6 == old(self).tree6,
            final(self).living() == old(self).living() + (if old(self).tree2.quads() is Some {
                0nat
            } else {
                1nat
            }),
    {
        if !self.tree2.is_built() {
            let all = self.all_quads();
            self.tree2.ensure_exists(&all);
        }
    }

    /// Builds the tree 3 from the first one if it is not built yet.
    fn ensure_tree3(&mut self)
        requires
            old(self).ct_wf(),
        ensures
            final(self).ct_wf(),
            final(self).ct_quads() == old(self).ct_quads(),
            final(self).tree3.quads() is Some,
            final(self).tree1 == old(self).tree1,
            final(self).tree2 == old(self).tree2,
            final(self).tree4 == old(self).tree4,
            final(self).tree5 == old(self).tree5,
            final(self).tree6 == old(self).tree6,
            final(self).living() == old(self).living() + (if old(self).tree3.quads() is Some {
                0nat
            } else {
                1nat
            }),
    {
        if !self.tree3.is_built() {
            let all = self.all_quads();
            self.tree3.ensure_exists(&all);
        }
    }

    /// Builds the tree 4 from the first one if it is not built yet.
    fn ensure_tree4(&mut self)
        requires
            old(self).ct_wf(),
        ensures
            final(self).ct_wf(),
            final(self).ct_quads() == old(self).ct_quads(),
            final(self).tree4.quads() is Some,
            final(self).tree1 == old(self).tree1,
            final(self).tree2 == old(self).tree2,
            final(self).tree3 == old(self).tree3,
            final(self).tree5 == old(self).tree5,
            final(self).tree6 == old(self).tree6,
            final(self).living() == old(self).living() + (if old(self).tree4.quads() is Some {
                0nat
            } else {
                1nat
            }),
    {
        if !self.tree4.is_built() {
            let all = self.all_quads();
            self.tree4.ensure_exists(&all);
        }
    }

    /// Builds the tree 5 from the first one if it is not built yet.
    fn ensure_tree5(&mut self)
        requires
            old(self).ct_wf(),
        ensures
            final(self).ct_wf(),
            final(self).ct_quads() == old(self).ct_quads(),
            final(self).tree5.quads() is Some,
            final(self).tree1 == old(self).tree1,
            final(self).tree2 == old(self).tree2,
            final(self).tree3 == old(self).tree3,
            final(self).tree4 == old(self).tree4,
            final(self).tree6 == old(self).tree6,
            final(self).living() == old(self).living() + (if old(self).tree5.quads() is Some {
                0nat
            } else {
                1nat
            }),
    {
        if !self.tree5.is_built() {
            let all = self.all_quads();
            self.tree5.ensure_exists(&all);
        }
    }

    /// Builds the tree 6 from the first one if it is not built yet.
    fn ensure_tree6(&mut self)
        requires
            old(self).ct_wf(),
        ensures
            final(self).ct_wf(),
            final(self).ct_quads() == old(self).ct_quads(),
            final(self).tree6.quads() is Some,
            final(self).tree1 == old(self).tree1,
            final(self).tree2 == old(self).tree2,
            final(self).tree3 == old(self).tree3,
            final(self).tree4 == old(self).tree4,
            final(self).tree5 == old(self).tree5,
            final(self).living() == old(self).living() + (if old(self).tree6.quads() is Some {
                0nat
            } else {
                1nat
            }),
    {
        if !self.tree6.is_built() {
            let all = self.all_quads();
            self.tree6.ensure_exists(&all);
        }
    }

}

impl<I: Identifier, O1: Tree4Profile, O2: Tree4Profile, O3: Tree4Profile, O4: Tree4Profile, O5: Tree4Profile, O6: Tree4Profile> MaybeTree4<I> for CTForest<I, O1, O2, O3, O4, O5, O6> {
    open spec fn wf(&self) -> bool {
        self.ct_wf()
    }

    open spec fn quads(&self) -> Option<Set<Seq<I>>> {
        Some(self.ct_quads())
    }

    /// The greatest conformance among the trees.
    open spec fn conformance(&self, can_build: bool, pattern: Seq<Option<I>>) -> Option<usize> {
        match last_best(self.conformances(can_build, pattern)) {
            Some(b) => Some(b.1),
            None => None,
        }
    }

    fn is_built(&self) -> (b: bool) {
        true
    }

    fn ensure_exists(&mut self, source: &Vec<[I; 4]>) {
    }

    /// The answer comes from the last tree of greatest conformance to the
    /// pattern, which is built first if it is not.
    fn get_quads(&mut self, pattern: [Option<I>; 4]) -> (r: Vec<[I; 4]>)
        ensures
            final(self).serves(pattern@),
            old(self).living() <= final(self).living() <= old(self).living() + 1,
            old(self).serves(pattern@) ==> final(self).living() == old(self).living(),
    {
        let ghost old_self = *self;
        let best = self.best_conformance(true, &pattern).0;
        proof {
            assert(self.conformances(true, pattern@) == old_self.conformances(true, pattern@));
        }
        if best == 2 {
            self.ensure_tree2();
            self.tree2.quads_matching(pattern)
        } else if best == 3 {
            self.ensure_tree3();
            self.tree3.quads_matching(pattern)
        } else if best == 4 {
            self.ensure_tree4();
            self.tree4.quads_matching(pattern)
        } else if best == 5 {
            self.ensure_tree5();
            self.tree5.quads_matching(pattern)
        } else if best == 6 {
            self.ensure_tree6();
            self.tree6.quads_matching(pattern)
        } else {
            self.tree1.quads_matching(pattern)
        }
    }

    fn index_conformance(&self, can_build: bool, pattern_layout: &[Option<I>; 4]) -> (r: Option<
        usize,
    >) {
        Some(self.best_conformance(can_build, pattern_layout).1)
    }

    fn insert(&mut self, id_quad: &[I; 4]) -> (r: Option<bool>) {
        self.tree6.insert(id_quad);
        self.tree5.insert(id_quad);
        self.tree4.insert(id_quad);
        self.tree3.insert(id_quad);
        self.tree2.insert(id_quad);
        self.tree1.insert(id_quad)
    }

    fn delete(&mut self, id_quad: &[I; 4]) -> (r: Option<bool>) {
        self.tree6.delete(id_quad);
        self.tree5.delete(id_quad);
        self.tree4.delete(id_quad);
        self.tree3.delete(id_quad);
        self.tree2.delete(id_quad);
        self.tree1.delete(id_quad)
    }

    fn size(&self) -> (r: Option<usize>) {
        self.tree1.size()
    }

    fn has(&self, id_quad: &[I; 4]) -> (r: Option<bool>) {
        self.tree1.has(id_quad)
    }
}

impl<I: Identifier, O1: Tree4Profile, O2: Tree4Profile, O3: Tree4Profile, O4: Tree4Profile, O5: Tree4Profile, O6: Tree4Profile> Forest4<I> for CTForest<I, O1, O2, O3, O4, O5, O6> {
    open spec fn living_trees(&self) -> nat {
        self.living()
    }

    fn get_number_of_living_trees(&self) -> (r: usize) {
        let mut count: usize = 0;
        if self.tree1.is_built() {
            count = count + 1;
        }
        if self.tree2.is_built() {
            count = count + 1;
        }
        if self.tree3.is_built() {
            count = count + 1;
        }
        if self.tree4.is_built() {
            count = count + 1;
        }
        if self.tree5.is_built() {
            count = count + 1;
        }
        if self.tree6.is_built() {
            count = count + 1;
        }
        count
    }

    /// The last tree of greatest conformance to the pattern, when trees may
    /// be built, is built.
    open spec fn has_index_for(&self, pattern: Seq<Option<I>>) -> bool {
        self.serves(pattern)
    }

    fn ensure_has_index_for(&mut self, pattern: &[Option<I>; 4]) {
        let ghost old_self = *self;
        let best = self.best_conformance(true, pattern).0;
        if best == 2 {
            self.ensure_tree2();
        } else if best == 3 {
            self.ensure_tree3();
        } else if best == 4 {
            self.ensure_tree4();
        } else if best == 5 {
            self.ensure_tree5();
        } else if best == 6 {
            self.ensure_tree6();
        }
        proof {
            assert(self.conformances(true, pattern@) == old_self.conformances(true, pattern@));
        }
    }

    fn get_quads_unamortized(&self, pattern: [Option<I>; 4]) -> (r: Vec<[I; 4]>) {
        let best = self.best_conformance(false, &pattern).0;
        if best == 2 && self.tree2.is_built() {
            self.tree2.quads_matching(pattern)
        } else if best == 3 && self.tree3.is_built() {
            self.tree3.quads_matching(pattern)
        } else if best == 4 && self.tree4.is_built() {
            self.tree4.quads_matching(pattern)
        } else if best == 5 && self.tree5.is_built() {
            self.tree5.quads_matching(pattern)
        } else if best == 6 && self.tree6.is_built() {
            self.tree6.quads_matching(pattern)
        } else {
            self.tree1.quads_matching(pattern)
        }
    }
}

impl<I: Identifier, O1: Tree4Profile, O2: Tree4Profile, O3: Tree4Profile, O4: Tree4Profile, O5: Tree4Profile, O6: Tree4Profile> core::default::Default for CTForest<I, O1, O2, O3, O4, O5, O6> {
    fn default() -> (r: Self)
        ensures
            r.ct_wf(),
            r.ct_quads() == Set::<Seq<I>>::empty(),
    {
        Self::new()
    }
}


/// When every tree gives a score, the best choice has the greatest score,
/// which one of the trees gives.
proof fn lemma_last_best_is_greatest(cs: Seq<Option<usize>>)
    requires
        cs.len() > 0,
        forall|i: int| 0 <= i < cs.len() ==> (#[trigger] cs[i]) is Some,
    ensures
        last_best(cs) is Some,
        forall|i: int| 0 <= i < cs.len() ==> (#[trigger] cs[i])->0 <= best_score(last_best(cs)),
        exists|i: int| 0 <= i < cs.len() && (#[trigger] cs[i])->0 == best_score(last_best(cs)),
    decreases cs.len(),
{
    let n = cs.len();
    if n == 1 {
        assert(cs.drop_last().len() == 0);
        assert(cs[0]->0 == best_score(last_best(cs)));
    } else {
        let prev = cs.drop_last();
        assert forall|i: int| 0 <= i < prev.len() implies (#[trigger] prev[i]) is Some by {
            assert(prev[i] == cs[i]);
        }
        lemma_last_best_is_greatest(prev);
        let j = choose|j: int| 0 <= j < prev.len() && (#[trigger] prev[j])->0 == best_score(last_best(prev));
        assert(prev[j] == cs[j]);
        assert forall|i: int| 0 <= i < cs.len() implies (#[trigger] cs[i])->0 <= best_score(last_best(cs)) by {
            if i < n - 1 {
                assert(prev[i] == cs[i]);
            }
        }
        if cs.last()->0 >= best_score(last_best(prev)) {
            assert(cs[n - 1]->0 == best_score(last_best(cs)));
        } else {
            assert(cs[j]->0 == best_score(last_best(cs)));
        }
    }
}

/// A [`CTForestLazy6`] serves every pattern at best: whatever terms a
/// pattern sets, the best of its six trees lists those terms first, so the
/// conformance of the forest is the number of terms that the pattern sets.
pub proof fn law_lazy6_serves_every_pattern<I: Identifier>(forest: &CTForestLazy6<I>, p: Seq<Option<I>>)
    requires
        p.len() == 4,
    ensures
        forest.conformance(true, p) matches Some(c) && c == set_count(p),
{
    lemma_position_values();
    law_six_orders_serve_every_pattern(p);
    let six = six_orders();
    assert(is_quad_order(six[0]) && is_quad_order(six[1]) && is_quad_order(six[2]));
    assert(is_quad_order(six[3]) && is_quad_order(six[4]) && is_quad_order(six[5]));
    let cs = forest.conformances(true, p);
    assert(FixedOrder4::<Object, Graph, Predicate, Subject>::order() =~= six[0]);
    assert(FixedOrder4::<Subject, Predicate, Object, Graph>::order() =~= six[1]);
    assert(FixedOrder4::<Graph, Predicate, Subject, Object>::order() =~= six[2]);
    assert(FixedOrder4::<Predicate, Object, Graph, Subject>::order() =~= six[3]);
    assert(FixedOrder4::<Graph, Subject, Predicate, Object>::order() =~= six[4]);
    assert(FixedOrder4::<Object, Subject, Graph, Predicate>::order() =~= six[5]);
    assert forall|i: int| 0 <= i < 6 implies (#[trigger] cs[i]) is Some && cs[i]->0 == fixed_prefix_len(p, six[i]) by {
    }
    lemma_last_best_is_greatest(cs);
    let w = choose|i: int| 0 <= i < 6 && #[trigger] fixed_prefix_len(p, six[i]) == set_count(p);
    assert(cs[w]->0 <= best_score(last_best(cs)));
    let j = choose|j: int| 0 <= j < cs.len() && (#[trigger] cs[j])->0 == best_score(last_best(cs));
    assert(fixed_prefix_len(p, six[j]) <= set_count(p));
}

} // verus!
