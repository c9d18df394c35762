//! A [`OnceTreeSet`] whose order is chosen at execution time.
use vstd::prelude::*;
use crate::identifier::Identifier;
use crate::order::{Subject, Predicate, Object, Graph, FixedOrder4, Position, lemma_position_values};
use crate::quad::{is_quad_order, matching, lemma_order_covers_quad};
use crate::tree::{OnceTreeSet, MaybeTree4, LazyStructure, answers_query, quads_in_key_order};

verus! {

/// A [`MaybeTree4`] implementation whose order is decided at execution time.
///
/// The choice is made by using the appropriate constructor with the position
/// order as an argument instead of generic parameters. The matching
/// [`OnceTreeSet`] is created, and this structure then acts as that tree by
/// forwarding the calls to it.
pub enum DynamicOnceTreeSet<I: Identifier> {
    /// A tree sorted in the SPOG order.
    SPOG(OnceTreeSet<I, Subject, Predicate, Object, Graph>),
    /// A tree sorted in the SPGO order.
    SPGO(OnceTreeSet<I, Subject, Predicate, Graph, Object>),
    /// A tree sorted in the SOPG order.
    SOPG(OnceTreeSet<I, Subject, Object, Predicate, Graph>),
    /// A tree sorted in the SOGP order.
    SOGP(OnceTreeSet<I, Subject, Object, Graph, Predicate>),
    /// A tree sorted in the SGPO order.
    SGPO(OnceTreeSet<I, Subject, Graph, Predicate, Object>),
    /// A tree sorted in the SGOP order.
    SGOP(OnceTreeSet<I, Subject, Graph, Object, Predicate>),
    /// A tree sorted in the PSOG order.
    PSOG(OnceTreeSet<I, Predicate, Subject, Object, Graph>),
    /// A tree sorted in the PSGO order.
    PSGO(OnceTreeSet<I, Predicate, Subject, Graph, Object>),
    /// A tree sorted in the POSG order.
    POSG(OnceTreeSet<I, Predicate, Object, Subject, Graph>),
    /// A tree sorted in the POGS order.
    POGS(OnceTreeSet<I, Predicate, Object, Graph, Subject>),
    /// A tree sorted in the PGSO order.
    PGSO(OnceTreeSet<I, Predicate, Graph, Subject, Object>),
    /// A tree sorted in the PGOS order.
    PGOS(OnceTreeSet<I, Predicate, Graph, Object, Subject>),
    /// A tree sorted in the OSPG order.
    OSPG(OnceTreeSet<I, Object, Subject, Predicate, Graph>),
    /// A tree sorted in the OSGP order.
    OSGP(OnceTreeSet<I, Object, Subject, Graph, Predicate>),
    /// A tree sorted in the OPSG order.
    OPSG(OnceTreeSet<I, Object, Predicate, Subject, Graph>),
    /// A tree sorted in the OPGS order.
    OPGS(OnceTreeSet<I, Object, Predicate, Graph, Subject>),
    /// A tree sorted in the OGSP order.
    OGSP(OnceTreeSet<I, Object, Graph, Subject, Predicate>),
    /// A tree sorted in the OGPS order.
    OGPS(OnceTreeSet<I, Object, Graph, Predicate, Subject>),
    /// A tree sorted in the GSPO order.
    GSPO(OnceTreeSet<I, Graph, Subject, Predicate, Object>),
    /// A tree sorted in the GSOP order.
    GSOP(OnceTreeSet<I, Graph, Subject, Object, Predicate>),
    /// A tree sorted in the GPSO order.
    GPSO(OnceTreeSet<I, Graph, Predicate, Subject, Object>),
    /// A tree sorted in the GPOS order.
    GPOS(OnceTreeSet<I, Graph, Predicate, Object, Subject>),
    /// A tree sorted in the GOSP order.
    GOSP(OnceTreeSet<I, Graph, Object, Subject, Predicate>),
    /// A tree sorted in the GOPS order.
    GOPS(OnceTreeSet<I, Graph, Object, Predicate, Subject>),
}

impl<I: Identifier> DynamicOnceTreeSet<I> {
    /// The order of the underlying tree.
    pub open spec fn tree_order(&self) -> Seq<usize> {
        match self {
            Self::SPOG(_) => seq![0usize, 1usize, 2usize, 3usize],
            Self::SPGO(_) => seq![0usize, 1usize, 3usize, 2usize],
            Self::SOPG(_) => seq![0usize, 2usize, 1usize, 3usize],
            Self::SOGP(_) => seq![0usize, 2usize, 3usize, 1usize],
            Self::SGPO(_) => seq![0usize, 3usize, 1usize, 2usize],
            Self::SGOP(_) => seq![0usize, 3usize, 2usize, 1usize],
            Self::PSOG(_) => seq![1usize, 0usize, 2usize, 3usize],
            Self::PSGO(_) => seq![1usize, 0usize, 3usize, 2usize],
            Self::POSG(_) => seq![1usize, 2usize, 0usize, 3usize],
            Self::POGS(_) => seq![1usize, 2usize, 3usize, 0usize],
            Self::PGSO(_) => seq![1usize, 3usize, 0usize, 2usize],
            Self::PGOS(_) => seq![1usize, 3usize, 2usize, 0usize],
            Self::OSPG(_) => seq![2usize, 0usize, 1usize, 3usize],
            Self::OSGP(_) => seq![2usize, 0usize, 3usize, 1usize],
            Self::OPSG(_) => seq![2usize, 1usize, 0usize, 3usize],
            Self::OPGS(_) => seq![2usize, 1usize, 3usize, 0usize],
            Self::OGSP(_) => seq![2usize, 3usize, 0usize, 1usize],
            Self::OGPS(_) => seq![2usize, 3usize, 1usize, 0usize],
            Self::GSPO(_) => seq![3usize, 0usize, 1usize, 2usize],
            Self::GSOP(_) => seq![3usize, 0usize, 2usize, 1usize],
            Self::GPSO(_) => seq![3usize, 1usize, 0usize, 2usize],
            Self::GPOS(_) => seq![3usize, 1usize, 2usize, 0usize],
            Self::GOSP(_) => seq![3usize, 2usize, 0usize, 1usize],
            Self::GOPS(_) => seq![3usize, 2usize, 1usize, 0usize],
        }
    }

    /// The underlying tree is well formed.
    pub open spec fn inner_wf(&self) -> bool {
        match self {
            Self::SPOG(t) => t.well_formed(),
            Self::SPGO(t) => t.well_formed(),
            Self::SOPG(t) => t.well_formed(),
            Self::SOGP(t) => t.well_formed(),
            Self::SGPO(t) => t.well_formed(),
            Self::SGOP(t) => t.well_formed(),
            Self::PSOG(t) => t.well_formed(),
            Self::PSGO(t) => t.well_formed(),
            Self::POSG(t) => t.well_formed(),
            Self::POGS(t) => t.well_formed(),
            Self::PGSO(t) => t.well_formed(),
            Self::PGOS(t) => t.well_formed(),
            Self::OSPG(t) => t.well_formed(),
            Self::OSGP(t) => t.well_formed(),
            Self::OPSG(t) => t.well_formed(),
            Self::OPGS(t) => t.well_formed(),
            Self::OGSP(t) => t.well_formed(),
            Self::OGPS(t) => t.well_formed(),
            Self::GSPO(t) => t.well_formed(),
            Self::GSOP(t) => t.well_formed(),
            Self::GPSO(t) => t.well_formed(),
            Self::GPOS(t) => t.well_formed(),
            Self::GOSP(t) => t.well_formed(),
            Self::GOPS(t) => t.well_formed(),
        }
    }

    /// The quads of the underlying tree, if it is built.
    pub open spec fn inner_quads(&self) -> Option<Set<Seq<I>>> {
        match self {
            Self::SPOG(t) => t.stored(),
            Self::SPGO(t) => t.stored(),
            Self::SOPG(t) => t.stored(),
            Self::SOGP(t) => t.stored(),
            Self::SGPO(t) => t.stored(),
            Self::SGOP(t) => t.stored(),
            Self::PSOG(t) => t.stored(),
            Self::PSGO(t) => t.stored(),
            Self::POSG(t) => t.stored(),
            Self::POGS(t) => t.stored(),
            Self::PGSO(t) => t.stored(),
            Self::PGOS(t) => t.stored(),
            Self::OSPG(t) => t.stored(),
            Self::OSGP(t) => t.stored(),
            Self::OPSG(t) => t.stored(),
            Self::OPGS(t) => t.stored(),
            Self::OGSP(t) => t.stored(),
            Self::OGPS(t) => t.stored(),
            Self::GSPO(t) => t.stored(),
            Self::GSOP(t) => t.stored(),
            Self::GPSO(t) => t.stored(),
            Self::GPOS(t) => t.stored(),
            Self::GOSP(t) => t.stored(),
            Self::GOPS(t) => t.stored(),
        }
    }

    /// What the underlying tree answers to `index_conformance`.
    pub open spec fn inner_conformance(&self, can_build: bool, pattern: Seq<Option<I>>) -> Option<usize> {
        match self {
            Self::SPOG(t) => t.conformance(can_build, pattern),
            Self::SPGO(t) => t.conformance(can_build, pattern),
            Self::SOPG(t) => t.conformance(can_build, pattern),
            Self::SOGP(t) => t.conformance(can_build, pattern),
            Self::SGPO(t) => t.conformance(can_build, pattern),
            Self::SGOP(t) => t.conformance(can_build, pattern),
            Self::PSOG(t) => t.conformance(can_build, pattern),
            Self::PSGO(t) => t.conformance(can_build, pattern),
            Self::POSG(t) => t.conformance(can_build, pattern),
            Self::POGS(t) => t.conformance(can_build, pattern),
            Self::PGSO(t) => t.conformance(can_build, pattern),
            Self::PGOS(t) => t.conformance(can_build, pattern),
            Self::OSPG(t) => t.conformance(can_build, pattern),
            Self::OSGP(t) => t.conformance(can_build, pattern),
            Self::OPSG(t) => t.conformance(can_build, pattern),
            Self::OPGS(t) => t.conformance(can_build, pattern),
            Self::OGSP(t) => t.conformance(can_build, pattern),
            Self::OGPS(t) => t.conformance(can_build, pattern),
            Self::GSPO(t) => t.conformance(can_build, pattern),
            Self::GSOP(t) => t.conformance(can_build, pattern),
            Self::GPSO(t) => t.conformance(can_build, pattern),
            Self::GPOS(t) => t.conformance(can_build, pattern),
            Self::GOSP(t) => t.conformance(can_build, pattern),
            Self::GOPS(t) => t.conformance(can_build, pattern),
        }
    }

    /// Every order of the variants lists each position once.
    pub proof fn lemma_tree_order_is_valid(&self)
        ensures
            is_quad_order(self.tree_order()),
    {
    }

    /// Builds a new tree whose order is defined at execution time, not built (see [`OnceTreeSet`] and [`LazyStructure::new`]).
    /// Returns `None` if `order` does not list each of the four positions once.
    pub fn new(order: &[usize; 4]) -> (r: Option<DynamicOnceTreeSet<I>>)
        ensures
            r is Some <==> is_quad_order(order@),
            r matches Some(t) ==> t.inner_wf() && t.tree_order() == order@ && t.inner_quads() is None,
    {
        let o0 = order[0];
        let o1 = order[1];
        let o2 = order[2];
        let o3 = order[3];
        if o0 == 0 && o1 == 1 && o2 == 2 && o3 == 3 {
            proof {
                lemma_position_values();
                assert(FixedOrder4::<Subject, Predicate, Object, Graph>::order() =~= order@);
            }
            let t = <OnceTreeSet<I, Subject, Predicate, Object, Graph> as LazyStructure<I>>::new();
            proof {
                assert(order@ =~= seq![0usize, 1usize, 2usize, 3usize]);
            }
            Some(Self::SPOG(t))
        } else if o0 == 0 && o1 == 1 && o2 == 3 && o3 == 2 {
            proof {
                lemma_position_values();
                assert(FixedOrder4::<Subject, Predicate, Graph, Object>::order() =~= order@);
            }
            let t = <OnceTreeSet<I, Subject, Predicate, Graph, Object> as LazyStructure<I>>::new();
            proof {
                assert(order@ =~= seq![0usize, 1usize, 3usize, 2usize]);
            }
            Some(Self::SPGO(t))
        } else if o0 == 0 && o1 == 2 && o2 == 1 && o3 == 3 {
            proof {
                lemma_position_values();
                assert(FixedOrder4::<Subject, Object, Predicate, Graph>::order() =~= order@);
            }
            let t = <OnceTreeSet<I, Subject, Object, Predicate, Graph> as LazyStructure<I>>::new();
            proof {
                assert(order@ =~= seq![0usize, 2usize, 1usize, 3usize]);
            }
            Some(Self::SOPG(t))
        } else if o0 == 0 && o1 == 2 && o2 == 3 && o3 == 1 {
            proof {
                lemma_position_values();
                assert(FixedOrder4::<Subject, Object, Graph, Predicate>::order() =~= order@);
            }
            let t = <OnceTreeSet<I, Subject, Object, Graph, Predicate> as LazyStructure<I>>::new();
            proof {
                assert(order@ =~= seq![0usize, 2usize, 3usize, 1usize]);
            }
            Some(Self::SOGP(t))
        } else if o0 == 0 && o1 == 3 && o2 == 1 && o3 == 2 {
            proof {
                lemma_position_values();
                assert(FixedOrder4::<Subject, Graph, Predicate, Object>::order() =~= order@);
            }
            let t = <OnceTreeSet<I, Subject, Graph, Predicate, Object> as LazyStructure<I>>::new();
            proof {
                assert(order@ =~= seq![0usize, 3usize, 1usize, 2usize]);
            }
            Some(Self::SGPO(t))
        } else if o0 == 0 && o1 == 3 && o2 == 2 && o3 == 1 {
            proof {
                lemma_position_values();
                assert(FixedOrder4::<Subject, Graph, Object, Predicate>::order() =~= order@);
            }
            let t = <OnceTreeSet<I, Subject, Graph, Object, Predicate> as LazyStructure<I>>::new();
            proof {
                assert(order@ =~= seq![0usize, 3usize, 2usize, 1usize]);
            }
            Some(Self::SGOP(t))
        } else if o0 == 1 && o1 == 0 && o2 == 2 && o3 == 3 {
            proof {
                lemma_position_values();
                assert(FixedOrder4::<Predicate, Subject, Object, Graph>::order() =~= order@);
            }
            let t = <OnceTreeSet<I, Predicate, Subject, Object, Graph> as LazyStructure<I>>::new();
            proof {
                assert(order@ =~= seq![1usize, 0usize, 2usize, 3usize]);
            }
            Some(Self::PSOG(t))
        } else if o0 == 1 && o1 == 0 && o2 == 3 && o3 == 2 {
            proof {
                lemma_position_values();
                assert(FixedOrder4::<Predicate, Subject, Graph, Object>::order() =~= order@);
            }
            let t = <OnceTreeSet<I, Predicate, Subject, Graph, Object> as LazyStructure<I>>::new();
            proof {
                assert(order@ =~= seq![1usize, 0usize, 3usize, 2usize]);
            }
            Some(Self::PSGO(t))
        } else if o0 == 1 && o1 == 2 && o2 == 0 && o3 == 3 {
            proof {
                lemma_position_values();
                assert(FixedOrder4::<Predicate, Object, Subject, Graph>::order() =~= order@);
            }
            let t = <OnceTreeSet<I, Predicate, Object, Subject, Graph> as LazyStructure<I>>::new();
            proof {
                assert(order@ =~= seq![1usize, 2usize, 0usize, 3usize]);
            }
            Some(Self::POSG(t))
        } else if o0 == 1 && o1 == 2 && o2 == 3 && o3 == 0 {
            proof {
                lemma_position_values();
                assert(FixedOrder4::<Predicate, Object, Graph, Subject>::order() =~= order@);
            }
            let t = <OnceTreeSet<I, Predicate, Object, Graph, Subject> as LazyStructure<I>>::new();
            proof {
                assert(order@ =~= seq![1usize, 2usize, 3usize, 0usize]);
            }
            Some(Self::POGS(t))
        } else if o0 == 1 && o1 == 3 && o2 == 0 && o3 == 2 {
            proof {
                lemma_position_values();
                assert(FixedOrder4::<Predicate, Graph, Subject, Object>::order() =~= order@);
            }
            let t = <OnceTreeSet<I, Predicate, Graph, Subject, Object> as LazyStructure<I>>::new();
            proof {
                assert(order@ =~= seq![1usize, 3usize, 0usize, 2usize]);
            }
            Some(Self::PGSO(t))
        } else if o0 == 1 && o1 == 3 && o2 == 2 && o3 == 0 {
            proof {
                lemma_position_values();
                assert(FixedOrder4::<Predicate, Graph, Object, Subject>::order() =~= order@);
            }
            let t = <OnceTreeSet<I, Predicate, Graph, Object, Subject> as LazyStructure<I>>::new();
            proof {
                assert(order@ =~= seq![1usize, 3usize, 2usize, 0usize]);
            }
            Some(Self::PGOS(t))
        } else if o0 == 2 && o1 == 0 && o2 == 1 && o3 == 3 {
            proof {
                lemma_position_values();
                assert(FixedOrder4::<Object, Subject, Predicate, Graph>::order() =~= order@);
            }
            let t = <OnceTreeSet<I, Object, Subject, Predicate, Graph> as LazyStructure<I>>::new();
            proof {
                assert(order@ =~= seq![2usize, 0usize, 1usize, 3usize]);
            }
            Some(Self::OSPG(t))
        } else if o0 == 2 && o1 == 0 && o2 == 3 && o3 == 1 {
            proof {
                lemma_position_values();
                assert(FixedOrder4::<Object, Subject, Graph, Predicate>::order() =~= order@);
            }
            let t = <OnceTreeSet<I, Object, Subject, Graph, Predicate> as LazyStructure<I>>::new();
            proof {
                assert(order@ =~= seq![2usize, 0usize, 3usize, 1usize]);
            }
            Some(Self::OSGP(t))
        } else if o0 == 2 && o1 == 1 && o2 == 0 && o3 == 3 {
            proof {
                lemma_position_values();
                assert(FixedOrder4::<Object, Predicate, Subject, Graph>::order() =~= order@);
            }
            let t = <OnceTreeSet<I, Object, Predicate, Subject, Graph> as LazyStructure<I>>::new();
            proof {
                assert(order@ =~= seq![2usize, 1usize, 0usize, 3usize]);
            }
            Some(Self::OPSG(t))
        } else if o0 == 2 && o1 == 1 && o2 == 3 && o3 == 0 {
            proof {
                lemma_position_values();
                assert(FixedOrder4::<Object, Predicate, Graph, Subject>::order() =~= order@);
            }
            let t = <OnceTreeSet<I, Object, Predicate, Graph, Subject> as LazyStructure<I>>::new();
            proof {
                assert(order@ =~= seq![2usize, 1usize, 3usize, 0usize]);
            }
            Some(Self::OPGS(t))
        } else if o0 == 2 && o1 == 3 && o2 == 0 && o3 == 1 {
            proof {
                lemma_position_values();
                assert(FixedOrder4::<Object, Graph, Subject, Predicate>::order() =~= order@);
            }
            let t = <OnceTreeSet<I, Object, Graph, Subject, Predicate> as LazyStructure<I>>::new();
            proof {
                assert(order@ =~= seq![2usize, 3usize, 0usize, 1usize]);
            }
            Some(Self::OGSP(t))
        } else if o0 == 2 && o1 == 3 && o2 == 1 && o3 == 0 {
            proof {
                lemma_position_values();
                assert(FixedOrder4::<Object, Graph, Predicate, Subject>::order() =~= order@);
            }
            let t = <OnceTreeSet<I, Object, Graph, Predicate, Subject> as LazyStructure<I>>::new();
            proof {
                assert(order@ =~= seq![2usize, 3usize, 1usize, 0usize]);
            }
            Some(Self::OGPS(t))
        } else if o0 == 3 && o1 == 0 && o2 == 1 && o3 == 2 {
            proof {
                lemma_position_values();
                assert(FixedOrder4::<Graph, Subject, Predicate, Object>::order() =~= order@);
            }
            let t = <OnceTreeSet<I, Graph, Subject, Predicate, Object> as LazyStructure<I>>::new();
            proof {
                assert(order@ =~= seq![3usize, 0usize, 1usize, 2usize]);
            }
            Some(Self::GSPO(t))
        } else if o0 == 3 && o1 == 0 && o2 == 2 && o3 == 1 {
            proof {
                lemma_position_values();
                assert(FixedOrder4::<Graph, Subject, Object, Predicate>::order() =~= order@);
            }
            let t = <OnceTreeSet<I, Graph, Subject, Object, Predicate> as LazyStructure<I>>::new();
            proof {
                assert(order@ =~= seq![3usize, 0usize, 2usize, 1usize]);
            }
            Some(Self::GSOP(t))
        } else if o0 == 3 && o1 == 1 && o2 == 0 && o3 == 2 {
            proof {
                lemma_position_values();
                assert(FixedOrder4::<Graph, Predicate, Subject, Object>::order() =~= order@);
            }
            let t = <OnceTreeSet<I, Graph, Predicate, Subject, Object> as LazyStructure<I>>::new();
            proof {
                assert(order@ =~= seq![3usize, 1usize, 0usize, 2usize]);
            }
            Some(Self::GPSO(t))
        } else if o0 == 3 && o1 == 1 && o2 == 2 && o3 == 0 {
            proof {
                lemma_position_values();
                assert(FixedOrder4::<Graph, Predicate, Object, Subject>::order() =~= order@);
            }
            let t = <OnceTreeSet<I, Graph, Predicate, Object, Subject> as LazyStructure<I>>::new();
            proof {
                assert(order@ =~= seq![3usize, 1usize, 2usize, 0usize]);
            }
            Some(Self::GPOS(t))
        } else if o0 == 3 && o1 == 2 && o2 == 0 && o3 == 1 {
            proof {
                lemma_position_values();
                assert(FixedOrder4::<Graph, Object, Subject, Predicate>::order() =~= order@);
            }
            let t = <OnceTreeSet<I, Graph, Object, Subject, Predicate> as LazyStructure<I>>::new();
            proof {
                assert(order@ =~= seq![3usize, 2usize, 0usize, 1usize]);
            }
            Some(Self::GOSP(t))
        } else if o0 == 3 && o1 == 2 && o2 == 1 && o3 == 0 {
            proof {
                lemma_position_values();
                assert(FixedOrder4::<Graph, Object, Predicate, Subject>::order() =~= order@);
            }
            let t = <OnceTreeSet<I, Graph, Object, Predicate, Subject> as LazyStructure<I>>::new();
            proof {
                assert(order@ =~= seq![3usize, 2usize, 1usize, 0usize]);
            }
            Some(Self::GOPS(t))
        } else {
            None
        }
    }

    /// Builds a new tree whose order is defined at execution time, built and empty (see [`LazyStructure::new_instanciated`]).
    /// Returns `None` if `order` does not list each of the four positions once.
    pub fn new_instanciated(order: &[usize; 4]) -> (r: Option<DynamicOnceTreeSet<I>>)
        ensures
            r is Some <==> is_quad_order(order@),
            r matches Some(t) ==> t.inner_wf() && t.tree_order() == order@ && t.inner_quads() == Some(Set::<Seq<I>>::empty()),
    {
        let o0 = order[0];
        let o1 = order[1];
        let o2 = order[2];
        let o3 = order[3];
        if o0 == 0 && o1 == 1 && o2 == 2 && o3 == 3 {
            proof {
                lemma_position_values();
                assert(FixedOrder4::<Subject, Predicate, Object, Graph>::order() =~= order@);
            }
            let t = <OnceTreeSet<I, Subject, Predicate, Object, Graph> as LazyStructure<I>>::new_instanciated();
            proof {
                assert(order@ =~= seq![0usize, 1usize, 2usize, 3usize]);
            }
            Some(Self::SPOG(t))
        } else if o0 == 0 && o1 == 1 && o2 == 3 && o3 == 2 {
            proof {
                lemma_position_values();
                assert(FixedOrder4::<Subject, Predicate, Graph, Object>::order() =~= order@);
            }
            let t = <OnceTreeSet<I, Subject, Predicate, Graph, Object> as LazyStructure<I>>::new_instanciated();
            proof {
                assert(order@ =~= seq![0usize, 1usize, 3usize, 2usize]);
            }
            Some(Self::SPGO(t))
        } else if o0 == 0 && o1 == 2 && o2 == 1 && o3 == 3 {
            proof {
                lemma_position_values();
                assert(FixedOrder4::<Subject, Object, Predicate, Graph>::order() =~= order@);
            }
            let t = <OnceTreeSet<I, Subject, Object, Predicate, Graph> as LazyStructure<I>>::new_instanciated();
            proof {
                assert(order@ =~= seq![0usize, 2usize, 1usize, 3usize]);
            }
            Some(Self::SOPG(t))
        } else if o0 == 0 && o1 == 2 && o2 == 3 && o3 == 1 {
            proof {
                lemma_position_values();
                assert(FixedOrder4::<Subject, Object, Graph, Predicate>::order() =~= order@);
            }
            let t = <OnceTreeSet<I, Subject, Object, Graph, Predicate> as LazyStructure<I>>::new_instanciated();
            proof {
                assert(order@ =~= seq![0usize, 2usize, 3usize, 1usize]);
            }
            Some(Self::SOGP(t))
        } else if o0 == 0 && o1 == 3 && o2 == 1 && o3 == 2 {
            proof {
                lemma_position_values();
                assert(FixedOrder4::<Subject, Graph, Predicate, Object>::order() =~= order@);
            }
            let t = <OnceTreeSet<I, Subject, Graph, Predicate, Object> as LazyStructure<I>>::new_instanciated();
            proof {
                assert(order@ =~= seq![0usize, 3usize, 1usize, 2usize]);
            }
            Some(Self::SGPO(t))
        } else if o0 == 0 && o1 == 3 && o2 == 2 && o3 == 1 {
            proof {
                lemma_position_values();
                assert(FixedOrder4::<Subject, Graph, Object, Predicate>::order() =~= order@);
            }
            let t = <OnceTreeSet<I, Subject, Graph, Object, Predicate> as LazyStructure<I>>::new_instanciated();
            proof {
                assert(order@ =~= seq![0usize, 3usize, 2usize, 1usize]);
            }
            Some(Self::SGOP(t))
        } else if o0 == 1 && o1 == 0 && o2 == 2 && o3 == 3 {
            proof {
                lemma_position_values();
                assert(FixedOrder4::<Predicate, Subject, Object, Graph>::order() =~= order@);
            }
            let t = <OnceTreeSet<I, Predicate, Subject, Object, Graph> as LazyStructure<I>>::new_instanciated();
            proof {
                assert(order@ =~= seq![1usize, 0usize, 2usize, 3usize]);
            }
            Some(Self::PSOG(t))
        } else if o0 == 1 && o1 == 0 && o2 == 3 && o3 == 2 {
            proof {
                lemma_position_values();
                assert(FixedOrder4::<Predicate, Subject, Graph, Object>::order() =~= order@);
            }
            let t = <OnceTreeSet<I, Predicate, Subject, Graph, Object> as LazyStructure<I>>::new_instanciated();
            proof {
                assert(order@ =~= seq![1usize, 0usize, 3usize, 2usize]);
            }
            Some(Self::PSGO(t))
        } else if o0 == 1 && o1 == 2 && o2 == 0 && o3 == 3 {
            proof {
                lemma_position_values();
                assert(FixedOrder4::<Predicate, Object, Subject, Graph>::order() =~= order@);
            }
            let t = <OnceTreeSet<I, Predicate, Object, Subject, Graph> as LazyStructure<I>>::new_instanciated();
            proof {
                assert(order@ =~= seq![1usize, 2usize, 0usize, 3usize]);
            }
            Some(Self::POSG(t))
        } else if o0 == 1 && o1 == 2 && o2 == 3 && o3 == 0 {
            proof {
                lemma_position_values();
                assert(FixedOrder4::<Predicate, Object, Graph, Subject>::order() =~= order@);
            }
            let t = <OnceTreeSet<I, Predicate, Object, Graph, Subject> as LazyStructure<I>>::new_instanciated();
            proof {
                assert(order@ =~= seq![1usize, 2usize, 3usize, 0usize]);
            }
            Some(Self::POGS(t))
        } else if o0 == 1 && o1 == 3 && o2 == 0 && o3 == 2 {
            proof {
                lemma_position_values();
                assert(FixedOrder4::<Predicate, Graph, Subject, Object>::order() =~= order@);
            }
            let t = <OnceTreeSet<I, Predicate, Graph, Subject, Object> as LazyStructure<I>>::new_instanciated();
            proof {
                assert(order@ =~= seq![1usize, 3usize, 0usize, 2usize]);
            }
            Some(Self::PGSO(t))
        } else if o0 == 1 && o1 == 3 && o2 == 2 && o3 == 0 {
            proof {
                lemma_position_values();
                assert(FixedOrder4::<Predicate, Graph, Object, Subject>::order() =~= order@);
            }
            let t = <OnceTreeSet<I, Predicate, Graph, Object, Subject> as LazyStructure<I>>::new_instanciated();
            proof {
                assert(order@ =~= seq![1usize, 3usize, 2usize, 0usize]);
            }
            Some(Self::PGOS(t))
        } else if o0 == 2 && o1 == 0 && o2 == 1 && o3 == 3 {
            proof {
                lemma_position_values();
                assert(FixedOrder4::<Object, Subject, Predicate, Graph>::order() =~= order@);
            }
            let t = <OnceTreeSet<I, Object, Subject, Predicate, Graph> as LazyStructure<I>>::new_instanciated();
            proof {
                assert(order@ =~= seq![2usize, 0usize, 1usize, 3usize]);
            }
            Some(Self::OSPG(t))
        } else if o0 == 2 && o1 == 0 && o2 == 3 && o3 == 1 {
            proof {
                lemma_position_values();
                assert(FixedOrder4::<Object, Subject, Graph, Predicate>::order() =~= order@);
            }
            let t = <OnceTreeSet<I, Object, Subject, Graph, Predicate> as LazyStructure<I>>::new_instanciated();
            proof {
                assert(order@ =~= seq![2usize, 0usize, 3usize, 1usize]);
            }
            Some(Self::OSGP(t))
        } else if o0 == 2 && o1 == 1 && o2 == 0 && o3 == 3 {
            proof {
                lemma_position_values();
                assert(FixedOrder4::<Object, Predicate, Subject, Graph>::order() =~= order@);
            }
            let t = <OnceTreeSet<I, Object, Predicate, Subject, Graph> as LazyStructure<I>>::new_instanciated();
            proof {
                assert(order@ =~= seq![2usize, 1usize, 0usize, 3usize]);
            }
            Some(Self::OPSG(t))
        } else if o0 == 2 && o1 == 1 && o2 == 3 && o3 == 0 {
            proof {
                lemma_position_values();
                assert(FixedOrder4::<Object, Predicate, Graph, Subject>::order() =~= order@);
            }
            let t = <OnceTreeSet<I, Object, Predicate, Graph, Subject> as LazyStructure<I>>::new_instanciated();
            proof {
                assert(order@ =~= seq![2usize, 1usize, 3usize, 0usize]);
            }
            Some(Self::OPGS(t))
        } else if o0 == 2 && o1 == 3 && o2 == 0 && o3 == 1 {
            proof {
                lemma_position_values();
                assert(FixedOrder4::<Object, Graph, Subject, Predicate>::order() =~= order@);
            }
            let t = <OnceTreeSet<I, Object, Graph, Subject, Predicate> as LazyStructure<I>>::new_instanciated();
            proof {
                assert(order@ =~= seq![2usize, 3usize, 0usize, 1usize]);
            }
            Some(Self::OGSP(t))
        } else if o0 == 2 && o1 == 3 && o2 == 1 && o3 == 0 {
            proof {
                lemma_position_values();
                assert(FixedOrder4::<Object, Graph, Predicate, Subject>::order() =~= order@);
            }
            let t = <OnceTreeSet<I, Object, Graph, Predicate, Subject> as LazyStructure<I>>::new_instanciated();
            proof {
                assert(order@ =~= seq![2usize, 3usize, 1usize, 0usize]);
            }
            Some(Self::OGPS(t))
        } else if o0 == 3 && o1 == 0 && o2 == 1 && o3 == 2 {
            proof {
                lemma_position_values();
                assert(FixedOrder4::<Graph, Subject, Predicate, Object>::order() =~= order@);
            }
            let t = <OnceTreeSet<I, Graph, Subject, Predicate, Object> as LazyStructure<I>>::new_instanciated();
            proof {
                assert(order@ =~= seq![3usize, 0usize, 1usize, 2usize]);
            }
            Some(Self::GSPO(t))
        } else if o0 == 3 && o1 == 0 && o2 == 2 && o3 == 1 {
            proof {
                lemma_position_values();
                assert(FixedOrder4::<Graph, Subject, Object, Predicate>::order() =~= order@);
            }
            let t = <OnceTreeSet<I, Graph, Subject, Object, Predicate> as LazyStructure<I>>::new_instanciated();
            proof {
                assert(order@ =~= seq![3usize, 0usize, 2usize, 1usize]);
            }
            Some(Self::GSOP(t))
        } else if o0 == 3 && o1 == 1 && o2 == 0 && o3 == 2 {
            proof {
                lemma_position_values();
                assert(FixedOrder4::<Graph, Predicate, Subject, Object>::order() =~= order@);
            }
            let t = <OnceTreeSet<I, Graph, Predicate, Subject, Object> as LazyStructure<I>>::new_instanciated();
            proof {
                assert(order@ =~= seq![3usize, 1usize, 0usize, 2usize]);
            }
            Some(Self::GPSO(t))
        } else if o0 == 3 && o1 == 1 && o2 == 2 && o3 == 0 {
            proof {
                lemma_position_values();
                assert(FixedOrder4::<Graph, Predicate, Object, Subject>::order() =~= order@);
            }
            let t = <OnceTreeSet<I, Graph, Predicate, Object, Subject> as LazyStructure<I>>::new_instanciated();
            proof {
                assert(order@ =~= seq![3usize, 1usize, 2usize, 0usize]);
            }
            Some(Self::GPOS(t))
        } else if o0 == 3 && o1 == 2 && o2 == 0 && o3 == 1 {
            proof {
                lemma_position_values();
                assert(FixedOrder4::<Graph, Object, Subject, Predicate>::order() =~= order@);
            }
            let t = <OnceTreeSet<I, Graph, Object, Subject, Predicate> as LazyStructure<I>>::new_instanciated();
            proof {
                assert(order@ =~= seq![3usize, 2usize, 0usize, 1usize]);
            }
            Some(Self::GOSP(t))
        } else if o0 == 3 && o1 == 2 && o2 == 1 && o3 == 0 {
            proof {
                lemma_position_values();
                assert(FixedOrder4::<Graph, Object, Predicate, Subject>::order() =~= order@);
            }
            let t = <OnceTreeSet<I, Graph, Object, Predicate, Subject> as LazyStructure<I>>::new_instanciated();
            proof {
                assert(order@ =~= seq![3usize, 2usize, 1usize, 0usize]);
            }
            Some(Self::GOPS(t))
        } else {
            None
        }
    }

    /// The order of the underlying tree, as an array of positions.
    pub fn order_array(&self) -> (r: [usize; 4])
        ensures
            r@ == self.tree_order(),
    {
        let r = match self {
            Self::SPOG(_) => [0, 1, 2, 3],
            Self::SPGO(_) => [0, 1, 3, 2],
            Self::SOPG(_) => [0, 2, 1, 3],
            Self::SOGP(_) => [0, 2, 3, 1],
            Self::SGPO(_) => [0, 3, 1, 2],
            Self::SGOP(_) => [0, 3, 2, 1],
            Self::PSOG(_) => [1, 0, 2, 3],
            Self::PSGO(_) => [1, 0, 3, 2],
            Self::POSG(_) => [1, 2, 0, 3],
            Self::POGS(_) => [1, 2, 3, 0],
            Self::PGSO(_) => [1, 3, 0, 2],
            Self::PGOS(_) => [1, 3, 2, 0],
            Self::OSPG(_) => [2, 0, 1, 3],
            Self::OSGP(_) => [2, 0, 3, 1],
            Self::OPSG(_) => [2, 1, 0, 3],
            Self::OPGS(_) => [2, 1, 3, 0],
            Self::OGSP(_) => [2, 3, 0, 1],
            Self::OGPS(_) => [2, 3, 1, 0],
            Self::GSPO(_) => [3, 0, 1, 2],
            Self::GSOP(_) => [3, 0, 2, 1],
            Self::GPSO(_) => [3, 1, 0, 2],
            Self::GPOS(_) => [3, 1, 2, 0],
            Self::GOSP(_) => [3, 2, 0, 1],
            Self::GOPS(_) => [3, 2, 1, 0],
        };
        proof {
            assert(r@ =~= self.tree_order());
        }
        r
    }

    /// Every quad of this built tree that matches `pattern`.
    pub fn quads_matching(&self, pattern: [Option<I>; 4]) -> (r: Vec<[I; 4]>)
        requires
            self.inner_wf(),
            self.inner_quads() is Some,
        ensures
            answers_query(r@, self.inner_quads()->0, pattern@),
            quads_in_key_order(r@, self.tree_order()),
    {
        proof {
            lemma_position_values();
        }
        match self {
            Self::SPOG(t) => t.quads_matching(pattern),
            Self::SPGO(t) => t.quads_matching(pattern),
            Self::SOPG(t) => t.quads_matching(pattern),
            Self::SOGP(t) => t.quads_matching(pattern),
            Self::SGPO(t) => t.quads_matching(pattern),
            Self::SGOP(t) => t.quads_matching(pattern),
            Self::PSOG(t) => t.quads_matching(pattern),
            Self::PSGO(t) => t.quads_matching(pattern),
            Self::POSG(t) => t.quads_matching(pattern),
            Self::POGS(t) => t.quads_matching(pattern),
            Self::PGSO(t) => t.quads_matching(pattern),
            Self::PGOS(t) => t.quads_matching(pattern),
            Self::OSPG(t) => t.quads_matching(pattern),
            Self::OSGP(t) => t.quads_matching(pattern),
            Self::OPSG(t) => t.quads_matching(pattern),
            Self::OPGS(t) => t.quads_matching(pattern),
            Self::OGSP(t) => t.quads_matching(pattern),
            Self::OGPS(t) => t.quads_matching(pattern),
            Self::GSPO(t) => t.quads_matching(pattern),
            Self::GSOP(t) => t.quads_matching(pattern),
            Self::GPSO(t) => t.quads_matching(pattern),
            Self::GPOS(t) => t.quads_matching(pattern),
            Self::GOSP(t) => t.quads_matching(pattern),
            Self::GOPS(t) => t.quads_matching(pattern),
        }
    }
}

impl<I: Identifier> MaybeTree4<I> for DynamicOnceTreeSet<I> {
    open spec fn wf(&self) -> bool {
        self.inner_wf()
    }

    open spec fn quads(&self) -> Option<Set<Seq<I>>> {
        self.inner_quads()
    }

    open spec fn conformance(&self, can_build: bool, pattern: Seq<Option<I>>) -> Option<usize> {
        self.inner_conformance(can_build, pattern)
    }

    fn is_built(&self) -> (b: bool) {
        match self {
            Self::SPOG(t) => t.is_built(),
            Self::SPGO(t) => t.is_built(),
            Self::SOPG(t) => t.is_built(),
            Self::SOGP(t) => t.is_built(),
            Self::SGPO(t) => t.is_built(),
            Self::SGOP(t) => t.is_built(),
            Self::PSOG(t) => t.is_built(),
            Self::PSGO(t) => t.is_built(),
            Self::POSG(t) => t.is_built(),
            Self::POGS(t) => t.is_built(),
            Self::PGSO(t) => t.is_built(),
            Self::PGOS(t) => t.is_built(),
            Self::OSPG(t) => t.is_built(),
            Self::OSGP(t) => t.is_built(),
            Self::OPSG(t) => t.is_built(),
            Self::OPGS(t) => t.is_built(),
            Self::OGSP(t) => t.is_built(),
            Self::OGPS(t) => t.is_built(),
            Self::GSPO(t) => t.is_built(),
            Self::GSOP(t) => t.is_built(),
            Self::GPSO(t) => t.is_built(),
            Self::GPOS(t) => t.is_built(),
            Self::GOSP(t) => t.is_built(),
            Self::GOPS(t) => t.is_built(),
        }
    }

    fn ensure_exists(&mut self, source: &Vec<[I; 4]>)
        ensures
            forall|p: Seq<Option<I>>|
                #[trigger] final(self).inner_conformance(true, p) == old(self).inner_conformance(true, p),
    {
        match self {
            Self::SPOG(t) => t.ensure_exists(source),
            Self::SPGO(t) => t.ensure_exists(source),
            Self::SOPG(t) => t.ensure_exists(source),
            Self::SOGP(t) => t.ensure_exists(source),
            Self::SGPO(t) => t.ensure_exists(source),
            Self::SGOP(t) => t.ensure_exists(source),
            Self::PSOG(t) => t.ensure_exists(source),
            Self::PSGO(t) => t.ensure_exists(source),
            Self::POSG(t) => t.ensure_exists(source),
            Self::POGS(t) => t.ensure_exists(source),
            Self::PGSO(t) => t.ensure_exists(source),
            Self::PGOS(t) => t.ensure_exists(source),
            Self::OSPG(t) => t.ensure_exists(source),
            Self::OSGP(t) => t.ensure_exists(source),
            Self::OPSG(t) => t.ensure_exists(source),
            Self::OPGS(t) => t.ensure_exists(source),
            Self::OGSP(t) => t.ensure_exists(source),
            Self::OGPS(t) => t.ensure_exists(source),
            Self::GSPO(t) => t.ensure_exists(source),
            Self::GSOP(t) => t.ensure_exists(source),
            Self::GPSO(t) => t.ensure_exists(source),
            Self::GPOS(t) => t.ensure_exists(source),
            Self::GOSP(t) => t.ensure_exists(source),
            Self::GOPS(t) => t.ensure_exists(source),
        }
    }

    fn get_quads(&mut self, pattern: [Option<I>; 4]) -> (r: Vec<[I; 4]>)
        ensures
            quads_in_key_order(r@, old(self).tree_order()),
    {
        proof {
            lemma_position_values();
        }
        match self {
            Self::SPOG(t) => t.get_quads(pattern),
            Self::SPGO(t) => t.get_quads(pattern),
            Self::SOPG(t) => t.get_quads(pattern),
            Self::SOGP(t) => t.get_quads(pattern),
            Self::SGPO(t) => t.get_quads(pattern),
            Self::SGOP(t) => t.get_quads(pattern),
            Self::PSOG(t) => t.get_quads(pattern),
            Self::PSGO(t) => t.get_quads(pattern),
            Self::POSG(t) => t.get_quads(pattern),
            Self::POGS(t) => t.get_quads(pattern),
            Self::PGSO(t) => t.get_quads(pattern),
            Self::PGOS(t) => t.get_quads(pattern),
            Self::OSPG(t) => t.get_quads(pattern),
            Self::OSGP(t) => t.get_quads(pattern),
            Self::OPSG(t) => t.get_quads(pattern),
            Self::OPGS(t) => t.get_quads(pattern),
            Self::OGSP(t) => t.get_quads(pattern),
            Self::OGPS(t) => t.get_quads(pattern),
            Self::GSPO(t) => t.get_quads(pattern),
            Self::GSOP(t) => t.get_quads(pattern),
            Self::GPSO(t) => t.get_quads(pattern),
            Self::GPOS(t) => t.get_quads(pattern),
            Self::GOSP(t) => t.get_quads(pattern),
            Self::GOPS(t) => t.get_quads(pattern),
        }
    }

    fn index_conformance(&self, can_build: bool, pattern_layout: &[Option<I>; 4]) -> (r: Option<usize>) {
        match self {
            Self::SPOG(t) => t.index_conformance(can_build, pattern_layout),
            Self::SPGO(t) => t.index_conformance(can_build, pattern_layout),
            Self::SOPG(t) => t.index_conformance(can_build, pattern_layout),
            Self::SOGP(t) => t.index_conformance(can_build, pattern_layout),
            Self::SGPO(t) => t.index_conformance(can_build, pattern_layout),
            Self::SGOP(t) => t.index_conformance(can_build, pattern_layout),
            Self::PSOG(t) => t.index_conformance(can_build, pattern_layout),
            Self::PSGO(t) => t.index_conformance(can_build, pattern_layout),
            Self::POSG(t) => t.index_conformance(can_build, pattern_layout),
            Self::POGS(t) => t.index_conformance(can_build, pattern_layout),
            Self::PGSO(t) => t.index_conformance(can_build, pattern_layout),
            Self::PGOS(t) => t.index_conformance(can_build, pattern_layout),
            Self::OSPG(t) => t.index_conformance(can_build, pattern_layout),
            Self::OSGP(t) => t.index_conformance(can_build, pattern_layout),
            Self::OPSG(t) => t.index_conformance(can_build, pattern_layout),
            Self::OPGS(t) => t.index_conformance(can_build, pattern_layout),
            Self::OGSP(t) => t.index_conformance(can_build, pattern_layout),
            Self::OGPS(t) => t.index_conformance(can_build, pattern_layout),
            Self::GSPO(t) => t.index_conformance(can_build, pattern_layout),
            Self::GSOP(t) => t.index_conformance(can_build, pattern_layout),
            Self::GPSO(t) => t.index_conformance(can_build, pattern_layout),
            Self::GPOS(t) => t.index_conformance(can_build, pattern_layout),
            Self::GOSP(t) => t.index_conformance(can_build, pattern_layout),
            Self::GOPS(t) => t.index_conformance(can_build, pattern_layout),
        }
    }

    fn insert(&mut self, id_quad: &[I; 4]) -> (r: Option<bool>) {
        match self {
            Self::SPOG(t) => t.insert(id_quad),
            Self::SPGO(t) => t.insert(id_quad),
            Self::SOPG(t) => t.insert(id_quad),
            Self::SOGP(t) => t.insert(id_quad),
            Self::SGPO(t) => t.insert(id_quad),
            Self::SGOP(t) => t.insert(id_quad),
            Self::PSOG(t) => t.insert(id_quad),
            Self::PSGO(t) => t.insert(id_quad),
            Self::POSG(t) => t.insert(id_quad),
            Self::POGS(t) => t.insert(id_quad),
            Self::PGSO(t) => t.insert(id_quad),
            Self::PGOS(t) => t.insert(id_quad),
            Self::OSPG(t) => t.insert(id_quad),
            Self::OSGP(t) => t.insert(id_quad),
            Self::OPSG(t) => t.insert(id_quad),
            Self::OPGS(t) => t.insert(id_quad),
            Self::OGSP(t) => t.insert(id_quad),
            Self::OGPS(t) => t.insert(id_quad),
            Self::GSPO(t) => t.insert(id_quad),
            Self::GSOP(t) => t.insert(id_quad),
            Self::GPSO(t) => t.insert(id_quad),
            Self::GPOS(t) => t.insert(id_quad),
            Self::GOSP(t) => t.insert(id_quad),
            Self::GOPS(t) => t.insert(id_quad),
        }
    }

    fn delete(&mut self, id_quad: &[I; 4]) -> (r: Option<bool>) {
        match self {
            Self::SPOG(t) => t.delete(id_quad),
            Self::SPGO(t) => t.delete(id_quad),
            Self::SOPG(t) => t.delete(id_quad),
            Self::SOGP(t) => t.delete(id_quad),
            Self::SGPO(t) => t.delete(id_quad),
            Self::SGOP(t) => t.delete(id_quad),
            Self::PSOG(t) => t.delete(id_quad),
            Self::PSGO(t) => t.delete(id_quad),
            Self::POSG(t) => t.delete(id_quad),
            Self::POGS(t) => t.delete(id_quad),
            Self::PGSO(t) => t.delete(id_quad),
            Self::PGOS(t) => t.delete(id_quad),
            Self::OSPG(t) => t.delete(id_quad),
            Self::OSGP(t) => t.delete(id_quad),
            Self::OPSG(t) => t.delete(id_quad),
            Self::OPGS(t) => t.delete(id_quad),
            Self::OGSP(t) => t.delete(id_quad),
            Self::OGPS(t) => t.delete(id_quad),
            Self::GSPO(t) => t.delete(id_quad),
            Self::GSOP(t) => t.delete(id_quad),
            Self::GPSO(t) => t.delete(id_quad),
            Self::GPOS(t) => t.delete(id_quad),
            Self::GOSP(t) => t.delete(id_quad),
            Self::GOPS(t) => t.delete(id_quad),
        }
    }

    fn size(&self) -> (r: Option<usize>) {
        match self {
            Self::SPOG(t) => t.size(),
            Self::SPGO(t) => t.size(),
            Self::SOPG(t) => t.size(),
            Self::SOGP(t) => t.size(),
            Self::SGPO(t) => t.size(),
            Self::SGOP(t) => t.size(),
            Self::PSOG(t) => t.size(),
            Self::PSGO(t) => t.size(),
            Self::POSG(t) => t.size(),
            Self::POGS(t) => t.size(),
            Self::PGSO(t) => t.size(),
            Self::PGOS(t) => t.size(),
            Self::OSPG(t) => t.size(),
            Self::OSGP(t) => t.size(),
            Self::OPSG(t) => t.size(),
            Self::OPGS(t) => t.size(),
            Self::OGSP(t) => t.size(),
            Self::OGPS(t) => t.size(),
            Self::GSPO(t) => t.size(),
            Self::GSOP(t) => t.size(),
            Self::GPSO(t) => t.size(),
            Self::GPOS(t) => t.size(),
            Self::GOSP(t) => t.size(),
            Self::GOPS(t) => t.size(),
        }
    }

    fn has(&self, id_quad: &[I; 4]) -> (r: Option<bool>) {
        match self {
            Self::SPOG(t) => t.has(id_quad),
            Self::SPGO(t) => t.has(id_quad),
            Self::SOPG(t) => t.has(id_quad),
            Self::SOGP(t) => t.has(id_quad),
            Self::SGPO(t) => t.has(id_quad),
            Self::SGOP(t) => t.has(id_quad),
            Self::PSOG(t) => t.has(id_quad),
            Self::PSGO(t) => t.has(id_quad),
            Self::POSG(t) => t.has(id_quad),
            Self::POGS(t) => t.has(id_quad),
            Self::PGSO(t) => t.has(id_quad),
            Self::PGOS(t) => t.has(id_quad),
            Self::OSPG(t) => t.has(id_quad),
            Self::OSGP(t) => t.has(id_quad),
            Self::OPSG(t) => t.has(id_quad),
            Self::OPGS(t) => t.has(id_quad),
            Self::OGSP(t) => t.has(id_quad),
            Self::OGPS(t) => t.has(id_quad),
            Self::GSPO(t) => t.has(id_quad),
            Self::GSOP(t) => t.has(id_quad),
            Self::GPSO(t) => t.has(id_quad),
            Self::GPOS(t) => t.has(id_quad),
            Self::GOSP(t) => t.has(id_quad),
            Self::GOPS(t) => t.has(id_quad),
        }
    }

}

} // verus!
