use identifier_forest::compile_time_forest::profile4::{GSPO, GPSO, OGPSAlways, OSGP, POGS, SPOG};
use identifier_forest::compile_time_forest::CTForest;
use identifier_forest::forest::{Forest4, IndexingForest4};
use identifier_forest::order::{Graph, Object, Position, Predicate, Subject};
use identifier_forest::tree::{LazyStructure, MaybeTree4, OnceTreeSet, OnceTreeSetIterator};
use std::collections::BTreeSet;

type SpogTree = OnceTreeSet<u32, Subject, Predicate, Object, Graph>;
type OgpsTree = OnceTreeSet<u32, Object, Graph, Predicate, Subject>;

const S: usize = Subject::VALUE;
const P: usize = Predicate::VALUE;
const O: usize = Object::VALUE;
const G: usize = Graph::VALUE;

#[test]
fn instanciation() {
    assert!(!SpogTree::new().is_built());
    assert!(!OgpsTree::new().is_built());
    assert!(SpogTree::new_instanciated().is_built());
    assert!(OgpsTree::new_instanciated().is_built());
}

fn check_lazy_structure<T>()
where
    T: MaybeTree4<u32> + LazyStructure<u32>,
{
    // Testing the fact that the implementation does something
    let _not_instanciated = T::new();

    // Testing existance of a newly instanciated structure
    {
        let instanciated = T::new_instanciated();
        assert!(instanciated.is_built());
        assert_eq!(instanciated.size(), Some(0_usize));
    }

    // Testing populating with an empty source
    {
        let mut tree = T::new();
        tree.ensure_exists(&Vec::new());
        assert!(tree.is_built());
        assert_eq!(tree.size(), Some(0_usize));
    }

    // Insertion
    {
        let mut tree = T::new_instanciated();
        assert_eq!(tree.size(), Some(0_usize));
        tree.insert(&[0_u32, 1_u32, 2_u32, 3_u32]);
        assert_eq!(tree.size(), Some(1_usize));
        tree.insert(&[0_u32, 1_u32, 2_u32, 3_u32]);
        assert_eq!(tree.size(), Some(1_usize), "Duplicates should not be stored");
        tree.insert(&[0_u32, 1_u32, 2_u32, 4_u32]);
        assert_eq!(tree.size(), Some(2_usize));
    }

    // Deletion
    {
        let mut tree = T::new_instanciated();
        tree.insert(&[0_u32, 1_u32, 2_u32, 3_u32]);
        tree.insert(&[0_u32, 1_u32, 2_u32, 4_u32]);
        assert_eq!(tree.size(), Some(2_usize));
        assert!(
            tree.delete(&[0_u32, 1_u32, 2_u32, 4_u32]).unwrap(),
            "Should return true if the quad was present"
        );
        assert_eq!(tree.size(), Some(1_usize));
        assert!(
            !tree.delete(&[0_u32, 1_u32, 2_u32, 4_u32]).unwrap(),
            "Should return true if the quad was not present"
        );
        assert_eq!(tree.size(), Some(1_usize));
    }

    // Has
    {
        let mut tree = T::new_instanciated();
        tree.insert(&[0_u32, 1_u32, 2_u32, 3_u32]);
        tree.insert(&[0_u32, 1_u32, 2_u32, 4_u32]);
        assert!(tree.has(&[0_u32, 1_u32, 2_u32, 3_u32]).unwrap());
        assert!(!tree.has(&[8_u32, 1_u32, 2_u32, 8_u32]).unwrap());
    }

    // Consistancy of new
    {
        let quad = [0_u32, 1_u32, 2_u32, 3_u32];

        let mut tree = T::new();
        if tree.is_built() {
            assert!(tree.size().is_some());
            assert!(tree.insert(&quad).is_some());
            assert!(tree.has(&quad).is_some());
            assert!(tree.delete(&quad).is_some());
            assert!(tree.index_conformance(true, &[None, None, None, None]).is_some());
        } else {
            assert!(tree.size().is_none());
            assert!(tree.insert(&quad).is_none());
            assert!(tree.has(&quad).is_none());
            assert!(tree.delete(&quad).is_none());
            assert!(tree.index_conformance(false, &[None, None, None, None]).is_none());
        }
    }

    // Iteration
    {
        let mut initial_data = BTreeSet::new();
        initial_data.insert([10_u32, 20_u32, 30_u32, 40_u32]);
        initial_data.insert([10_u32, 21_u32, 30_u32, 40_u32]);
        initial_data.insert([10_u32, 20_u32, 31_u32, 40_u32]);
        initial_data.insert([10_u32, 20_u32, 30_u32, 41_u32]);
        initial_data.insert([11_u32, 20_u32, 30_u32, 40_u32]);
        initial_data.insert([11_u32, 21_u32, 30_u32, 40_u32]);
        initial_data.insert([11_u32, 20_u32, 31_u32, 40_u32]);
        initial_data.insert([11_u32, 20_u32, 30_u32, 41_u32]);

        let mut tree = T::new();
        let source: Vec<[u32; 4]> = initial_data.iter().copied().collect();
        tree.ensure_exists(&source);

        assert_eq!(tree.size(), Some(initial_data.len()));

        let mut extracted_data = BTreeSet::new();
        for quad in tree.get_quads([None, None, None, None]) {
            extracted_data.insert(quad);
        }

        assert_eq!(extracted_data, initial_data);
    }

    // Filter
    {
        let mut tree = T::new_instanciated();
        tree.insert(&[10_u32, 20_u32, 30_u32, 40_u32]);
        tree.insert(&[10_u32, 21_u32, 30_u32, 40_u32]);
        tree.insert(&[10_u32, 20_u32, 31_u32, 40_u32]);
        tree.insert(&[10_u32, 20_u32, 30_u32, 41_u32]);
        tree.insert(&[11_u32, 20_u32, 30_u32, 40_u32]);
        tree.insert(&[11_u32, 21_u32, 30_u32, 40_u32]);
        tree.insert(&[11_u32, 20_u32, 31_u32, 40_u32]);
        tree.insert(&[11_u32, 20_u32, 30_u32, 41_u32]);
        tree.insert(&[11_u32, 20_u32, 30_u32, 42_u32]);

        assert_eq!(tree.get_quads([None, None, None, None]).len(), 9);
        assert_eq!(tree.get_quads([Some(10_u32), None, None, None]).len(), 4);
        assert_eq!(tree.get_quads([Some(11_u32), None, None, None]).len(), 5);
        assert_eq!(tree.get_quads([Some(77_u32), None, None, None]).len(), 0);
        assert_eq!(tree.get_quads([None, Some(20_u32), None, None]).len(), 7);
        assert_eq!(tree.get_quads([None, Some(20_u32), None, Some(41_u32)]).len(), 2);
    }
}

#[test]
fn test_impl() {
    check_lazy_structure::<OnceTreeSet<u32, Subject, Predicate, Object, Graph>>();
    check_lazy_structure::<OnceTreeSet<u32, Object, Graph, Predicate, Subject>>();
}

fn check_forest<T>()
where
    T: Default + MaybeTree4<u32> + Forest4<u32>,
{
    // Insertion
    {
        let mut tree = T::default();
        assert_eq!(tree.size(), Some(0_usize));
        tree.insert(&[0_u32, 1_u32, 2_u32, 3_u32]);
        assert_eq!(tree.size(), Some(1_usize));
        tree.insert(&[0_u32, 1_u32, 2_u32, 3_u32]);
        assert_eq!(tree.size(), Some(1_usize), "Duplicates should not be stored");
        tree.insert(&[0_u32, 1_u32, 2_u32, 4_u32]);
        assert_eq!(tree.size(), Some(2_usize));
    }

    // Deletion
    {
        let mut tree = T::default();
        tree.insert(&[0_u32, 1_u32, 2_u32, 3_u32]);
        tree.insert(&[0_u32, 1_u32, 2_u32, 4_u32]);
        assert_eq!(tree.size(), Some(2_usize));
        assert!(
            tree.delete(&[0_u32, 1_u32, 2_u32, 4_u32]).unwrap(),
            "Should return true if the quad was present"
        );
        assert_eq!(tree.size(), Some(1_usize));
        assert!(
            !tree.delete(&[0_u32, 1_u32, 2_u32, 4_u32]).unwrap(),
            "Should return true if the quad was not present"
        );
        assert_eq!(tree.size(), Some(1_usize));
    }

    // Has
    {
        let mut tree = T::default();
        tree.insert(&[0_u32, 1_u32, 2_u32, 3_u32]);
        tree.insert(&[0_u32, 1_u32, 2_u32, 4_u32]);
        assert!(tree.has(&[0_u32, 1_u32, 2_u32, 3_u32]).unwrap());
        assert!(!tree.has(&[8_u32, 1_u32, 2_u32, 8_u32]).unwrap());
    }

    // Consistancy of new
    {
        let quad = [0_u32, 1_u32, 2_u32, 3_u32];

        let mut tree = T::default();
        if tree.is_built() {
            assert!(tree.size().is_some());
            assert!(tree.insert(&quad).is_some());
            assert!(tree.has(&quad).is_some());
            assert!(tree.delete(&quad).is_some());
            assert!(tree.index_conformance(true, &[None, None, None, None]).is_some());
        } else {
            assert!(tree.size().is_none());
            assert!(tree.insert(&quad).is_none());
            assert!(tree.has(&quad).is_none());
            assert!(tree.delete(&quad).is_none());
            assert!(tree.index_conformance(false, &[None, None, None, None]).is_none());
        }
    }

    // Filter
    {
        let mut tree = T::default();
        tree.insert(&[10_u32, 20_u32, 30_u32, 40_u32]);
        tree.insert(&[10_u32, 21_u32, 30_u32, 40_u32]);
        tree.insert(&[10_u32, 20_u32, 31_u32, 40_u32]);
        tree.insert(&[10_u32, 20_u32, 30_u32, 41_u32]);
        tree.insert(&[11_u32, 20_u32, 30_u32, 40_u32]);
        tree.insert(&[11_u32, 21_u32, 30_u32, 40_u32]);
        tree.insert(&[11_u32, 20_u32, 31_u32, 40_u32]);
        tree.insert(&[11_u32, 20_u32, 30_u32, 41_u32]);
        tree.insert(&[11_u32, 20_u32, 30_u32, 42_u32]);

        assert_eq!(tree.get_quads([None, None, None, None]).len(), 9);
        assert_eq!(tree.get_quads([Some(10_u32), None, None, None]).len(), 4);
        assert_eq!(tree.get_quads([Some(11_u32), None, None, None]).len(), 5);
        assert_eq!(tree.get_quads([Some(77_u32), None, None, None]).len(), 0);
        assert_eq!(tree.get_quads([None, Some(20_u32), None, None]).len(), 7);
        assert_eq!(tree.get_quads([None, Some(20_u32), None, Some(41_u32)]).len(), 2);

        assert!(tree.get_number_of_living_trees() >= 2);
    }
}

#[test]
fn mod_test_implem_() {
    check_forest::<CTForest<u32, OGPSAlways, SPOG, GPSO, POGS, GSPO, OSGP>>();
    check_forest::<IndexingForest4<u32>>();
}

#[test]
fn forest_instanciation() {
    let forest_new = IndexingForest4::<u32>::new();
    assert!(forest_new.get_number_of_living_trees() >= 1);

    let forest_full = IndexingForest4::<u32>::new_with_indexes(
        &[
            [O, G, P, S],
            [S, P, O, G],
            [G, P, S, O],
            [P, O, G, S],
            [G, S, P, O],
            [O, S, G, P],
        ],
        &[],
    );

    assert_eq!(forest_full.get_number_of_living_trees(), 6);
}

#[test]
fn once_tree_set_iterator_hands_out_the_matching_quads() {
    let mut tree = OgpsTree::new_instanciated();
    assert_eq!(tree.insert(&[1, 2, 5, 9]), Some(true));
    assert_eq!(tree.insert(&[1, 2, 5, 5]), Some(true));
    assert_eq!(tree.insert(&[3, 2, 7, 9]), Some(true));
    let mut it = OnceTreeSetIterator::new(&tree, [None, Some(2), Some(5), None]);
    let mut seen = Vec::new();
    while let Some(q) = it.next() {
        seen.push(q);
    }
    seen.sort();
    assert_eq!(seen, vec![[1, 2, 5, 5], [1, 2, 5, 9]]);
    assert_eq!(it.next(), None);
}

#[test]
fn ensure_has_index_for_builds_the_best_tree_once() {
    let mut forest = IndexingForest4::<u32>::new();
    assert!(forest.insert(&[1, 2, 3, 4]) == Some(true));
    assert_eq!(forest.get_number_of_living_trees(), 1);
    forest.ensure_has_index_for(&[Some(1), None, None, None]);
    assert_eq!(forest.get_number_of_living_trees(), 2);
    forest.ensure_has_index_for(&[Some(7), None, None, None]);
    assert_eq!(forest.get_number_of_living_trees(), 2);
    forest.ensure_has_index_for(&[None, None, None, None]);
    assert_eq!(forest.get_number_of_living_trees(), 2);
    assert_eq!(forest.get_quads_unamortized([Some(1), None, None, None]), vec![[1, 2, 3, 4]]);

    let mut ct = CTForest::<u32, OGPSAlways, SPOG, GPSO, POGS, GSPO, OSGP>::new();
    assert_eq!(ct.get_number_of_living_trees(), 1);
    ct.ensure_has_index_for(&[Some(1), None, None, None]);
    assert_eq!(ct.get_number_of_living_trees(), 2);
    ct.ensure_has_index_for(&[Some(1), Some(2), None, None]);
    assert_eq!(ct.get_number_of_living_trees(), 2);
    ct.ensure_has_index_for(&[None, None, None, None]);
    assert_eq!(ct.get_number_of_living_trees(), 3);
}

#[test]
fn get_quads_builds_the_best_tree() {
    let mut forest = IndexingForest4::<u32>::new();
    forest.insert(&[1, 2, 3, 4]);
    forest.insert(&[5, 2, 3, 4]);
    assert_eq!(forest.get_number_of_living_trees(), 1);
    assert_eq!(forest.get_quads([Some(1), None, None, None]), vec![[1, 2, 3, 4]]);
    assert_eq!(forest.get_number_of_living_trees(), 2);
    assert_eq!(forest.get_quads([Some(5), None, None, None]), vec![[5, 2, 3, 4]]);
    assert_eq!(forest.get_number_of_living_trees(), 2);

    let mut ct = CTForest::<u32, OGPSAlways, SPOG, GPSO, POGS, GSPO, OSGP>::new();
    ct.insert(&[1, 2, 3, 4]);
    assert_eq!(ct.get_quads([None, Some(2), None, None]), vec![[1, 2, 3, 4]]);
    assert_eq!(ct.get_number_of_living_trees(), 2);
}
