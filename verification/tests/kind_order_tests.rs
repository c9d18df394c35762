use identifier_forest::block_order::IdentifierQuadFilter;
use identifier_forest::kind_order::{Block, BlockOrder, TermFilter, TermKind};
use identifier_forest::sub_tree::{SubBTreeDataset, TreedDataset};

use TermKind::{Graph, Object, Predicate, Subject};

fn sorted(mut v: Vec<[u32; 4]>) -> Vec<[u32; 4]> {
    v.sort();
    v
}

fn drain(mut filter: IdentifierQuadFilter) -> Vec<[u32; 4]> {
    let mut r = Vec::new();
    while let Some(q) = filter.next() {
        r.push(q);
    }
    r
}

#[test]
fn spog_positions() {
    assert_eq!(Subject.get_spog_position(), 0);
    assert_eq!(Predicate.get_spog_position(), 1);
    assert_eq!(Object.get_spog_position(), 2);
    assert_eq!(Graph.get_spog_position(), 3);
    assert!(Subject == Subject);
    assert!(Subject != Graph);
}

#[test]
fn to_block_and_to_indices_are_inverse() {
    let ogps = BlockOrder::new([Object, Graph, Predicate, Subject]);
    // The block holds, at position k, the term of the k-th kind of the order.
    let block = ogps.to_block(&[10, 20, 30, 40]);
    assert!(block == Block::new([30, 40, 20, 10]));
    assert!(ogps.to_block(&[1, 2, 3, 4]) == Block::new([3, 4, 2, 1]));
    assert_eq!(ogps.to_indices(&block), [10, 20, 30, 40]);

    let gspo = BlockOrder::new([Graph, Subject, Predicate, Object]);
    let block = gspo.to_block(&[1, 2, 3, 4]);
    assert!(block == Block::new([4, 1, 2, 3]));
    assert_eq!(gspo.to_indices(&block), [1, 2, 3, 4]);
}

#[test]
fn index_conformance_and_range() {
    let pogs = BlockOrder::new([Predicate, Object, Graph, Subject]);
    let one = Some(1_u32);
    let none = None;
    assert_eq!(pogs.index_conformance(&[&none, &one, &one, &none]), 2);
    assert_eq!(pogs.index_conformance(&[&one, &none, &one, &one]), 0);

    let (range, s, p, o, g) = pogs.range([Some(5), Some(6), None, Some(8)]);
    assert!(*range.start() == Block::new([6, 0, 0, 0]));
    assert!(*range.end() == Block::new([6, u32::MAX, u32::MAX, u32::MAX]));
    assert_eq!((s, p, o, g), (Some(5), Some(6), None, Some(8)));
}

#[test]
fn term_filter() {
    let empty = TermFilter::empty();
    assert_eq!(empty.filtered_position, [None, None, None, None]);
    assert!(empty.filter(&[1, 2, 3, 4]));
    let filter = TermFilter { filtered_position: [Some(1), None, Some(3), None] };
    assert!(filter.filter(&[1, 2, 3, 4]));
    assert!(filter.filter(&[1, 7, 3, 7]));
    assert!(!filter.filter(&[1, 2, 4, 4]));
}

#[test]
fn sub_tree_lifecycle() {
    let mut lazy = SubBTreeDataset::new([Subject, Predicate, Object, Graph], false);
    assert!(!lazy.is_built());
    assert_eq!(lazy.insert(&[1, 2, 3, 4]), None);
    assert_eq!(lazy.contains(&[1, 2, 3, 4]), None);
    assert_eq!(lazy.delete(&[1, 2, 3, 4]), None);

    let mut tree = SubBTreeDataset::new([Subject, Predicate, Object, Graph], true);
    assert_eq!(tree.insert(&[1, 2, 3, 4]), Some(true));
    assert_eq!(tree.insert(&[1, 2, 3, 4]), Some(false));
    assert_eq!(tree.insert(&[1, 2, 5, 6]), Some(true));
    assert_eq!(tree.contains(&[1, 2, 3, 4]), Some(true));
    assert_eq!(tree.delete(&[1, 2, 5, 6]), Some(true));
    assert_eq!(tree.delete(&[1, 2, 5, 6]), Some(false));

    assert!(lazy.build_content(tree.range(None, None, None, None)).is_ok());
    assert!(lazy.is_built());
    assert_eq!(lazy.contains(&[1, 2, 3, 4]), Some(true));
    assert!(lazy.build_content(tree.range(None, None, None, None)).is_err());
}

#[test]
fn spog_order_finds_every_match() {
    let mut tree = SubBTreeDataset::new([Subject, Predicate, Object, Graph], true);
    for q in [[1, 2, 3, 4], [1, 2, 5, 4], [1, 3, 3, 4], [2, 2, 3, 4]] {
        tree.insert(&q);
    }
    assert_eq!(sorted(drain(tree.range(Some(1), Some(2), None, None))), vec![[1, 2, 3, 4], [1, 2, 5, 4]]);
    assert_eq!(sorted(drain(tree.range(None, None, Some(3), Some(4)))), vec![[1, 2, 3, 4], [1, 3, 3, 4], [2, 2, 3, 4]]);
}

#[test]
fn other_orders_find_every_match() {
    let mut tree = SubBTreeDataset::new([Object, Graph, Predicate, Subject], true);
    tree.insert(&[1, 2, 5, 9]);
    tree.insert(&[1, 2, 5, 5]);
    tree.insert(&[1, 2, 6, 9]);
    assert_eq!(sorted(drain(tree.range(None, None, Some(5), None))), vec![[1, 2, 5, 5], [1, 2, 5, 9]]);
    assert_eq!(drain(tree.range(None, None, Some(5), Some(9))), vec![[1, 2, 5, 9]]);
    assert_eq!(sorted(drain(tree.range(None, None, None, None))), vec![[1, 2, 5, 5], [1, 2, 5, 9], [1, 2, 6, 9]]);
}

#[test]
fn treed_dataset_of_two_trees() {
    let mut dataset = TreedDataset::new();
    assert!(dataset.insert_by_index([1, 2, 3, 4]));
    assert!(!dataset.insert_by_index([1, 2, 3, 4]));
    assert!(dataset.insert_by_index([1, 2, 3, 3]));
    assert!(dataset.insert_by_index([1, 2, 4, 4]));
    assert_eq!(
        sorted(drain(dataset.range(None, None, None, None))),
        vec![[1, 2, 3, 3], [1, 2, 3, 4], [1, 2, 4, 4]]
    );
    // A request on the graph name uses (and builds) the GPSO tree.
    assert_eq!(sorted(drain(dataset.range(None, None, None, Some(4)))), vec![[1, 2, 3, 4], [1, 2, 4, 4]]);
    assert!(dataset.delete_by_index([1, 2, 3, 4]));
    assert!(!dataset.delete_by_index([1, 2, 3, 4]));
    assert_eq!(sorted(drain(dataset.range(None, None, None, None))), vec![[1, 2, 3, 3], [1, 2, 4, 4]]);
    assert_eq!(drain(dataset.range(None, None, None, Some(4))), vec![[1, 2, 4, 4]]);
}
