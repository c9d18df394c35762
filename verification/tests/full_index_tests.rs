use identifier_forest::full_index::Data;

fn sorted(mut v: Vec<[u32; 4]>) -> Vec<[u32; 4]> {
    v.sort();
    v
}

#[test]
fn data_insert_remove_and_get() {
    let mut data = Data::new();
    assert!(data.insert([1, 2, 3, 4]));
    assert!(!data.insert([1, 2, 3, 4]));
    assert!(data.insert([1, 2, 5, 4]));
    assert!(data.insert([7, 2, 3, 9]));
    assert_eq!(sorted(data.get()), vec![[1, 2, 3, 4], [1, 2, 5, 4], [7, 2, 3, 9]]);

    assert!(data.remove([1, 2, 5, 4]));
    // The key (graph 4, predicate 2, subject 1) is still known: removing an
    // absent quad with that key answers false.
    assert!(!data.remove([1, 2, 5, 4]));
    assert_eq!(sorted(data.get()), vec![[1, 2, 3, 4], [7, 2, 3, 9]]);
}

#[test]
fn data_lookups_by_keys() {
    let mut data = Data::new();
    for q in [[1, 2, 3, 4], [1, 2, 5, 4], [7, 2, 3, 9], [7, 8, 3, 4]] {
        data.insert(q);
    }
    // Index keyed by graph name, predicate, object.
    assert_eq!(sorted(data.get_3(1, [4, 2, 3])), vec![[1, 2, 3, 4]]);
    // Index keyed by predicate, subject, object.
    assert_eq!(sorted(data.get_3(3, [2, 7, 3])), vec![[7, 2, 3, 9]]);
    // Index keyed by graph name and predicate.
    assert_eq!(sorted(data.get_2(0, [4, 2])), vec![[1, 2, 3, 4], [1, 2, 5, 4]]);
    // Index keyed by subject and object.
    assert_eq!(sorted(data.get_2(5, [7, 3])), vec![[7, 2, 3, 9], [7, 8, 3, 4]]);
    // Index keyed by object.
    assert_eq!(sorted(data.get_1(3, 3)), vec![[1, 2, 3, 4], [7, 2, 3, 9], [7, 8, 3, 4]]);
    assert_eq!(data.get_1(0, 42), Vec::<[u32; 4]>::new());

    // Built indexes follow insertions and removals.
    assert!(data.insert([9, 9, 3, 9]));
    assert_eq!(
        sorted(data.get_1(3, 3)),
        vec![[1, 2, 3, 4], [7, 2, 3, 9], [7, 8, 3, 4], [9, 9, 3, 9]]
    );
    assert!(data.remove([7, 2, 3, 9]));
    assert_eq!(sorted(data.get_2(5, [7, 3])), vec![[7, 8, 3, 4]]);
}

#[test]
fn data_knows_the_keys_of_inserted_quads() {
    let mut data = Data::new();
    assert!(!data.knows_key(&[1, 2, 3, 4]));
    assert!(data.insert([1, 2, 3, 4]));
    assert!(data.knows_key(&[1, 2, 3, 4]));
    // The first index is keyed by graph name, predicate and subject.
    assert!(data.knows_key(&[1, 2, 9, 4]));
    assert!(!data.knows_key(&[1, 3, 3, 4]));
    assert!(data.remove([1, 2, 3, 4]));
    assert!(data.knows_key(&[1, 2, 3, 4]));
    assert!(!data.remove([1, 2, 3, 4]));
}
