use identifier_forest::block_forest::IndexingForest4Id;
use identifier_forest::block_order::{Block, BlockOrder, IdentifierQuadFilter, TermRole};
use identifier_forest::treed_dataset::TreedDataset;
use std::collections::BTreeSet;

use TermRole::{Graph, Object, Predicate, Subject};

fn sorted(mut v: Vec<[u32; 4]>) -> Vec<[u32; 4]> {
    v.sort();
    v
}

fn drain(mut filter: IdentifierQuadFilter) -> Vec<[u32; 4]> {
    let mut r = Vec::new();
    while let Some(q) = filter.next() {
        r.push(q);
    }
    r
}

#[test]
fn term_role_positions_and_names() {
    assert_eq!(Subject.position(), 0);
    assert_eq!(Predicate.position(), 1);
    assert_eq!(Object.position(), 2);
    assert_eq!(Graph.position(), 3);
    assert_eq!(Graph.name(), "Graph");
}

#[test]
fn block_order_name_lists_the_roles() {
    let order = BlockOrder::new([Object, Graph, Predicate, Subject]);
    assert_eq!(order.name(), "Object Graph Predicate Subject");
    assert_eq!(order.get_term_roles(), &[Object, Graph, Predicate, Subject]);
}

#[test]
fn to_block_puts_the_quad_in_the_order_and_back() {
    let gspo = BlockOrder::new([Graph, Subject, Predicate, Object]);
    let block = gspo.to_block(&[1_u32, 2, 3, 4]);
    assert_eq!(block.values(), [4, 1, 2, 3]);
    assert_eq!(gspo.to_identifier_quad(&block), [1, 2, 3, 4]);
    assert_eq!(gspo.to_indices(&block), [1, 2, 3, 4]);

    let ogps = BlockOrder::new([Object, Graph, Predicate, Subject]);
    let block = ogps.to_block(&[10_u32, 20, 30, 40]);
    assert_eq!(block.values(), [30, 40, 20, 10]);
    assert_eq!(ogps.to_identifier_quad(&block), [10, 20, 30, 40]);

    let filter = ogps.to_filter_block(&[Some(10_u32), None, Some(30), None]);
    assert_eq!(filter.values(), [Some(30), None, None, Some(10)]);
}

#[test]
fn match_option_block_checks_the_set_values() {
    let block = Block::new([1_u32, 2, 3, 4]);
    assert!(block.match_option_block(&Block::new([None, None, None, None])));
    assert!(block.match_option_block(&Block::new([Some(1), None, Some(3), None])));
    assert!(!block.match_option_block(&Block::new([Some(1), None, Some(4), None])));
}

#[test]
fn index_conformance_counts_the_set_prefix() {
    let pogs = BlockOrder::new([Predicate, Object, Graph, Subject]);
    let some = Some(5_u32);
    let none = None;
    assert_eq!(pogs.index_conformance(&[&none, &some, &some, &none]), 2);
    assert_eq!(pogs.index_conformance(&[&some, &none, &some, &some]), 0);
    assert_eq!(pogs.index_conformance(&[&some, &some, &some, &some]), 4);
    assert_eq!(pogs.index_conformance(&[&none, &some, &some, &some]), 3);
}

#[test]
fn range_bounds_follow_the_order() {
    let gspo = BlockOrder::new([Graph, Subject, Predicate, Object]);
    let (range, filter) = gspo.range([Some(7_u32), None, Some(9), Some(3)]);
    assert_eq!(range.start().values(), [3, 7, 0, 0]);
    assert_eq!(range.end().values(), [3, 7, u32::MAX, u32::MAX]);
    assert_eq!(filter.values(), [Some(3), Some(7), None, Some(9)]);
}

#[test]
fn insert_delete_contains_in_a_tree() {
    let order = BlockOrder::new([Predicate, Subject, Object, Graph]);
    let mut tree = BTreeSet::new();
    assert!(!order.insert_into(&mut tree, &[1, 2, 3, 4]), "was not present");
    assert!(order.insert_into(&mut tree, &[1, 2, 3, 4]), "was already present");
    assert!(order.contains(&tree, &[1, 2, 3, 4]));
    assert!(!order.contains(&tree, &[4, 3, 2, 1]));
    assert!(!order.delete_from(&mut tree, &[4, 3, 2, 1]));
    assert!(order.delete_from(&mut tree, &[1, 2, 3, 4]));
    assert!(!order.contains(&tree, &[1, 2, 3, 4]));
}

#[test]
fn filter_returns_each_match_once() {
    let order = BlockOrder::new([Graph, Predicate, Subject, Object]);
    let mut tree = BTreeSet::new();
    for q in [[1, 2, 3, 4], [1, 2, 5, 4], [1, 3, 3, 4], [2, 2, 3, 4], [1, 2, 3, 5]] {
        order.insert_into(&mut tree, &q);
    }
    let found = sorted(drain(order.filter(&tree, [Some(1), Some(2), None, None])));
    assert_eq!(found, vec![[1, 2, 3, 4], [1, 2, 3, 5], [1, 2, 5, 4]]);
    let found = sorted(drain(order.filter(&tree, [None, None, Some(3), Some(4)])));
    assert_eq!(found, vec![[1, 2, 3, 4], [1, 3, 3, 4], [2, 2, 3, 4]]);
    assert_eq!(order.filter(&tree, [None, None, None, None]).into_vec().len(), 5);
    assert_eq!(order.filter(&tree, [Some(9), None, None, None]).into_vec().len(), 0);
}

#[test]
fn insert_all_into_copies_a_tree() {
    let spog = BlockOrder::new([Subject, Predicate, Object, Graph]);
    let ogps = BlockOrder::new([Object, Graph, Predicate, Subject]);
    let mut source = BTreeSet::new();
    spog.insert_into(&mut source, &[1, 2, 3, 4]);
    spog.insert_into(&mut source, &[5, 6, 7, 8]);
    let mut copy = BTreeSet::new();
    ogps.insert_all_into(&mut copy, spog.filter(&source, [None, None, None, None]));
    assert!(ogps.contains(&copy, &[1, 2, 3, 4]));
    assert!(ogps.contains(&copy, &[5, 6, 7, 8]));
    assert_eq!(copy.len(), 2);
}

#[test]
fn forest_insert_returns_whether_the_quad_is_new() {
    let mut forest = IndexingForest4Id::new();
    assert!(forest.insert([1, 2, 3, 4]));
    assert!(!forest.insert([1, 2, 3, 4]));
    assert!(forest.delete([1, 2, 3, 4]));
    assert!(!forest.delete([1, 2, 3, 4]));
}

#[test]
fn forest_answers_every_pattern_alike() {
    let quads = [[1, 2, 3, 4], [1, 2, 5, 4], [1, 3, 3, 4], [2, 2, 3, 4], [1, 2, 3, 5], [7, 7, 7, 7]];
    let mut built = IndexingForest4Id::new();
    let mut lazy = IndexingForest4Id::default();
    for q in quads {
        built.insert(q);
        lazy.insert(q);
    }
    let patterns = [
        [None, None, None, None],
        [Some(1), None, None, None],
        [None, Some(2), None, None],
        [None, None, Some(3), Some(4)],
        [Some(1), Some(2), None, Some(4)],
        [None, None, None, Some(5)],
        [Some(7), Some(7), Some(7), Some(7)],
        [Some(8), None, None, None],
    ];
    for p in patterns {
        let expected: Vec<[u32; 4]> = quads
            .iter()
            .copied()
            .filter(|q| (0..4).all(|i| p[i].map_or(true, |v| q[i] == v)))
            .collect();
        assert_eq!(sorted(built.filter(p).into_vec()), sorted(expected.clone()));
        assert_eq!(sorted(lazy.search_all_matching_quads(p, false).into_vec()), sorted(expected.clone()));
        assert_eq!(sorted(lazy.search_all_matching_quads(p, true).into_vec()), sorted(expected));
    }
}

#[test]
fn forest_built_trees_follow_insertions_and_deletions() {
    let mut forest = IndexingForest4Id::new();
    forest.insert([1, 2, 3, 4]);
    // Builds the POGS tree.
    assert_eq!(forest.filter([None, Some(2), Some(3), None]).into_vec(), vec![[1, 2, 3, 4]]);
    forest.insert([5, 2, 3, 6]);
    forest.delete([1, 2, 3, 4]);
    assert_eq!(forest.filter([None, Some(2), Some(3), None]).into_vec(), vec![[5, 2, 3, 6]]);
}

#[test]
fn new_with_indexes_and_new_anti() {
    let mut forest = IndexingForest4Id::new_with_indexes(
        &vec![[Subject, Predicate, Object, Graph], [Graph, Object, Predicate, Subject]],
        None,
    );
    forest.insert([1, 2, 3, 4]);
    assert_eq!(forest.filter([None, None, None, Some(4)]).into_vec(), vec![[1, 2, 3, 4]]);

    let mut anti = IndexingForest4Id::new_anti(true, false, false, true);
    anti.insert([1, 2, 3, 4]);
    anti.insert([1, 2, 4, 4]);
    assert_eq!(anti.search_all_matching_quads([None, Some(2), Some(3), None], false).into_vec(), vec![[1, 2, 3, 4]]);
}

#[test]
fn treed_dataset_delegates_to_its_forest() {
    let mut dataset = TreedDataset::default();
    assert!(dataset.insert_by_index([1, 2, 3, 4]));
    assert!(!dataset.insert_by_index([1, 2, 3, 4]));
    assert!(dataset.insert_by_index([1, 5, 3, 4]));
    assert_eq!(sorted(dataset.filter([Some(1), None, None, Some(4)]).into_vec()), vec![[1, 2, 3, 4], [1, 5, 3, 4]]);
    assert!(dataset.delete_by_index([1, 2, 3, 4]));
    assert!(!dataset.delete_by_index([1, 2, 3, 4]));
    assert_eq!(dataset.filter([None, None, None, None]).into_vec(), vec![[1, 5, 3, 4]]);

    let mut anti = TreedDataset::new_anti(false, true, true, true);
    anti.insert_by_index([9, 8, 7, 6]);
    assert_eq!(anti.filter([Some(9), None, None, None]).into_vec(), vec![[9, 8, 7, 6]]);
    let mut plain = TreedDataset::new();
    plain.insert_by_index([9, 8, 7, 6]);
    assert_eq!(plain.filter([None, None, Some(7), None]).into_vec(), vec![[9, 8, 7, 6]]);
}

#[test]
fn filter_hands_out_quads_in_block_order() {
    let order = BlockOrder::new([Graph, Predicate, Subject, Object]);
    let mut tree = BTreeSet::new();
    for q in [[1, 2, 3, 4], [1, 2, 5, 4], [1, 3, 3, 4], [2, 2, 3, 4], [1, 2, 3, 5]] {
        order.insert_into(&mut tree, &q);
    }
    assert_eq!(
        drain(order.filter(&tree, [None, None, None, None])),
        vec![[1, 2, 3, 4], [1, 2, 5, 4], [2, 2, 3, 4], [1, 3, 3, 4], [1, 2, 3, 5]]
    );
    assert_eq!(drain(order.filter(&tree, [None, Some(2), None, Some(4)])), vec![[1, 2, 3, 4], [1, 2, 5, 4], [2, 2, 3, 4]]);
}
