//! The identifier part of a dataset stored as a forest of trees: a
//! [`TreedDataset`] answers requests, inserts and deletes quads of
//! identifiers with an [`IndexingForest4Id`]. The mapping between terms and
//! identifiers is kept by the caller.
use vstd::prelude::*;
use crate::block_forest::{
    IndexingForest4Id, anti_pattern, default_forest_roles, is_anti_choice, only_base_built,
    roles_seqs, valid_role_orders,
};
use crate::block_order::{FilteredIndexQuads, TermRole, NB_OF_TERMS, quads_ascend, roles_positions};
use crate::tree::answers_query;

verus! {

/// A forest of trees of quads of identifiers, with a main tree and several
/// optional trees.
pub struct TreedDataset {
    forest: IndexingForest4Id,
}

/// The roles of the orders of the trees of [`TreedDataset::default`]: the
/// main tree OGPS and an optional tree GSPO.
pub open spec fn two_tree_roles() -> Seq<Seq<TermRole>> {
    seq![
        seq![TermRole::Object, TermRole::Graph, TermRole::Predicate, TermRole::Subject],
        seq![TermRole::Graph, TermRole::Subject, TermRole::Predicate, TermRole::Object],
    ]
}

impl TreedDataset {
    /// The forest that stores the quads.
    pub closed spec fn forest(&self) -> IndexingForest4Id {
        self.forest
    }

    /// The quads of the dataset.
    pub open spec fn quads(&self) -> Set<Seq<u32>> {
        self.forest().quads()
    }

    /// The forest is well formed.
    pub open spec fn well_formed(&self) -> bool {
        self.forest().well_formed()
    }

    /// Builds a dataset with a built tree for each order of
    /// `default_initialized`, the first of which is the main tree, and a
    /// tree built on demand for each order of `optional_indexes`.
    pub fn new_with_indexes(
        default_initialized: &Vec<[TermRole; 4]>,
        optional_indexes: Option<&Vec<[TermRole; 4]>>,
    ) -> (r: TreedDataset)
        requires
            default_initialized@.len() > 0,
            valid_role_orders(default_initialized@),
            optional_indexes matches Some(v) ==> valid_role_orders(v@),
        ensures
            r.well_formed(),
            r.quads() == Set::<Seq<u32>>::empty(),
            r.forest().tree_roles() == roles_seqs(default_initialized@) + match optional_indexes {
                Some(v) => roles_seqs(v@),
                None => Seq::<Seq<TermRole>>::empty(),
            },
            r.forest().built() == Seq::new(
                r.forest().tree_roles().len(),
                |i: int| i < default_initialized@.len(),
            ),
    {
        TreedDataset { forest: IndexingForest4Id::new_with_indexes(default_initialized, optional_indexes) }
    }

    /// A dataset whose main tree is in the OGPS order, with optional trees
    /// in the GPSO, POGS, SPOG, GSPO and OSGP orders.
    pub fn new() -> (r: TreedDataset)
        ensures
            r.well_formed(),
            r.quads() == Set::<Seq<u32>>::empty(),
            r.forest().tree_roles() == default_forest_roles(),
            only_base_built(r.forest().built()),
    {
        TreedDataset { forest: IndexingForest4Id::new() }
    }

    /// A dataset whose main tree best serves the requests where the flagged
    /// terms are wildcards and the others are set (see
    /// [`IndexingForest4Id::new_anti`]).
    pub fn new_anti(s: bool, p: bool, o: bool, g: bool) -> (r: TreedDataset)
        ensures
            r.well_formed(),
            r.quads() == Set::<Seq<u32>>::empty(),
            only_base_built(r.forest().built()),
            exists|b: int|
                is_anti_choice(b, s, p, o, g) && r.forest().tree_roles() == seq![default_forest_roles()[b]]
                    + default_forest_roles().remove(b),
    {
        TreedDataset { forest: IndexingForest4Id::new_anti(s, p, o, g) }
    }

    /// The quads of identifiers of the dataset that match the pattern
    /// (`None` is a wildcard), each once, from the tree that best serves the
    /// pattern, which is built if it was not.
    pub fn filter(&mut self, spog: [Option<u32>; NB_OF_TERMS]) -> (r: FilteredIndexQuads)
        requires
            old(self).well_formed(),
        ensures
            final(self).well_formed(),
            final(self).quads() == old(self).quads(),
            final(self).forest().tree_roles() == old(self).forest().tree_roles(),
            r.valid(),
            answers_query(r.remaining(), old(self).quads(), spog@),
            exists|c: int|
                old(self).forest().is_best_tree(c, spog@, true) && final(self).forest().built() == old(
                    self,
                ).forest().built().update(c, true) && quads_ascend(
                    r.remaining(),
                    roles_positions(old(self).forest().tree_roles()[c]),
                ),
    {
        self.forest.filter(spog)
    }

    /// Inserts the quad of identifiers. Returns true if it was not already
    /// in the dataset.
    pub fn insert_by_index(&mut self, spog: [u32; NB_OF_TERMS]) -> (r: bool)
        requires
            old(self).well_formed(),
        ensures
            final(self).well_formed(),
            final(self).quads() == old(self).quads().insert(spog@),
            r == !old(self).quads().contains(spog@),
            final(self).forest().tree_roles() == old(self).forest().tree_roles(),
            final(self).forest().built() == old(self).forest().built(),
    {
        self.forest.insert(spog)
    }

    /// Deletes the quad of identifiers. Returns true if it was in the
    /// dataset.
    pub fn delete_by_index(&mut self, spog: [u32; NB_OF_TERMS]) -> (r: bool)
        requires
            old(self).well_formed(),
        ensures
            final(self).well_formed(),
            final(self).quads() == old(self).quads().remove(spog@),
            r == old(self).quads().contains(spog@),
            final(self).forest().tree_roles() == old(self).forest().tree_roles(),
            final(self).forest().built() == old(self).forest().built(),
    {
        self.forest.delete(spog)
    }
}

impl Default for TreedDataset {
    /// A dataset whose main tree is in the OGPS order, with one optional
    /// tree in the GSPO order.
    fn default() -> (r: TreedDataset)
        ensures
            r.well_formed(),
            r.quads() == Set::<Seq<u32>>::empty(),
            r.forest().tree_roles() == two_tree_roles(),
            r.forest().built() == seq![true, false],
    {
        let default_initialized = vec![[TermRole::Object, TermRole::Graph, TermRole::Predicate, TermRole::Subject]];
        let optional = vec![[TermRole::Graph, TermRole::Subject, TermRole::Predicate, TermRole::Object]];
        let forest = IndexingForest4Id::new_with_indexes(&default_initialized, Some(&optional));
        proof {
            assert(forest.tree_roles() =~= two_tree_roles());
            assert(forest.built() =~= seq![true, false]);
        }
        TreedDataset { forest }
    }
}

} // verus!
