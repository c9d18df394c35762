use identifier_forest::lattice::{LatticeData, POS_GSO, POS_O, POS_PGS, POS_PSO, POS_SO};

fn sorted(mut v: Vec<[u32; 4]>) -> Vec<[u32; 4]> {
    v.sort();
    v
}

#[test]
fn lattice_data_answers_from_every_level() {
    let quads = vec![[1, 2, 3, 4], [1, 2, 5, 4], [7, 2, 3, 9], [1, 2, 3, 9]];
    let mut data = LatticeData::from_quads(&quads);
    assert_eq!(sorted(data.get_all()), sorted(quads.clone()));

    // The first index is keyed by predicate, graph name and subject.
    assert_eq!(sorted(data.get_iter_3(POS_PGS, [2, 4, 1])), vec![[1, 2, 3, 4], [1, 2, 5, 4]]);
    assert_eq!(data.get_iter_3(POS_PGS, [2, 4, 7]), Vec::<[u32; 4]>::new());

    assert_eq!(sorted(data.quads_with_spo(1, 2, 3)), vec![[1, 2, 3, 4], [1, 2, 3, 9]]);
    assert_eq!(data.quads_with_spo(7, 2, 5), Vec::<[u32; 4]>::new());

    // The GSO index is built from the first one.
    data.ensure_built(3, POS_GSO);
    assert_eq!(sorted(data.get_iter_3(POS_GSO, [9, 7, 3])), vec![[7, 2, 3, 9]]);

    // Lower levels are built from their parents.
    data.ensure_built(2, POS_SO);
    data.ensure_built(1, POS_O);
    data.ensure_built_1(POS_O);
    assert_eq!(sorted(data.get_all()), sorted(quads));
}
