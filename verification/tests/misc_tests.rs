use identifier_forest::animals::{get_a_new_pet, Animal, AnimalEnum, AnimalJS, Cat, Chat, Chien, Dog, Pet};
use identifier_forest::lattice::{get_parent_citizen, index_of, GET_PARENT_CITIZEN_INVALID_INDEX};
use identifier_forest::matchable::MatchableTerm;
use identifier_forest::order::{FixedOrder4, Graph, Object, Position, Predicate, Subject};
use identifier_forest::sortable::SortableDataset;

struct Twelve {}

impl Position for Twelve {
    const VALUE: usize = 12;
}

#[test]
fn animals_cry() {
    assert_eq!(Chat {}.cri(), "Maou");
    assert_eq!(Chien {}.cri(), "Ouaffe");
    assert_eq!(AnimalJS::new(4).cri(), "Maou");
    assert_eq!(AnimalJS::new(-2).cri(), "Maou");
    assert_eq!(AnimalJS::new(7).cri(), "Ouaffe");
    assert_eq!(AnimalJS::new(-3).cri(), "Ouaffe");
    let _ = AnimalEnum::Chat(Chat {});
}

#[test]
fn pets_speak() {
    assert_eq!(Cat::new().speak(), "Meow");
    assert_eq!(Cat::new().meow(), "- Ignores you -");
    assert_eq!(Dog::new().speak(), "Woof");
    assert_eq!(Dog::new().play(), "Awesome !");
}

#[test]
fn pets_by_name() {
    let (pet, log) = get_a_new_pet(String::from("Felix"));
    assert!(matches!(pet, Some(Pet::Cat(_))));
    assert_eq!(log, vec![String::from("Maou")]);
    let (pet, log) = get_a_new_pet(String::from("Milou"));
    assert!(matches!(pet, Some(Pet::Dog(_))));
    assert_eq!(log, vec![String::from("wouf")]);
    let (pet, log) = get_a_new_pet(String::from("Rex"));
    assert!(pet.is_none());
    assert_eq!(log, vec![String::from("???"), String::from("Rex")]);
}

#[test]
fn matchable_term_from_option() {
    assert!(matches!(MatchableTerm::from(Some(3)), MatchableTerm::ToTerm(3)));
    assert!(matches!(MatchableTerm::<u32>::from(None), MatchableTerm::AnyTerm));
}

#[test]
fn fixed_order_names() {
    assert_eq!(FixedOrder4::<Subject, Predicate, Object, Graph>::name(), "0 1 2 3");
    assert_eq!(FixedOrder4::<Graph, Object, Predicate, Subject>::name(), "3 2 1 0");
    assert_eq!(FixedOrder4::<Twelve, Object, Predicate, Subject>::name(), "12 2 1 0");
}

#[test]
fn lattice_citizens() {
    const I: usize = GET_PARENT_CITIZEN_INVALID_INDEX;
    assert_eq!(get_parent_citizen(3, 0), ([1, 3, 0], 0, 2));
    assert_eq!(get_parent_citizen(2, 5), ([0, 2, I], 2, 1));
    assert_eq!(get_parent_citizen(1, 3), ([2, I, I], 3, 1));
    assert_eq!(index_of(0, [1, 3, 0]), 2);
    assert_eq!(index_of(3, [1, 3, 3]), 1);
}

fn read_all(dataset: &SortableDataset, request: [Option<u32>; 4]) -> Vec<[u32; 4]> {
    let mut iter = dataset.quads_with_opt_spog(request);
    let mut r = Vec::new();
    while let Some(q) = iter.next() {
        r.push(q);
    }
    r
}

#[test]
fn sortable_dataset_reads_matches() {
    let mut dataset = SortableDataset::new();
    for q in [[3, 1, 1, 1], [1, 2, 3, 4], [1, 1, 9, 9], [2, 2, 2, 2], [1, 2, 0, 0]] {
        assert!(dataset.insert_by_index(q));
    }
    // Not sorted: every quad is read, in insertion order.
    assert!(!dataset.is_optimal(&[Some(1), None, None, None]));
    assert_eq!(read_all(&dataset, [Some(1), None, None, None]), vec![[1, 2, 3, 4], [1, 1, 9, 9], [1, 2, 0, 0]]);

    dataset.sort_for(&[true, true, false, false]);
    assert!(dataset.is_optimal(&[Some(1), Some(2), None, None]));
    assert!(!dataset.is_optimal(&[Some(1), None, None, None]));
    assert_eq!(read_all(&dataset, [Some(1), Some(2), None, None]), vec![[1, 2, 0, 0], [1, 2, 3, 4]]);
    assert_eq!(read_all(&dataset, [Some(2), Some(2), None, None]), vec![[2, 2, 2, 2]]);
    assert_eq!(read_all(&dataset, [Some(5), Some(5), None, None]), Vec::<[u32; 4]>::new());
    // Not the request the dataset was sorted for: every quad is read, in
    // sorted order.
    assert_eq!(read_all(&dataset, [Some(1), None, None, None]), vec![[1, 1, 9, 9], [1, 2, 0, 0], [1, 2, 3, 4]]);

    dataset.insert_by_index([0, 0, 0, 0]);
    assert!(!dataset.is_optimal(&[Some(1), Some(2), None, None]));
}

#[test]
fn sortable_dataset_sorted_for_a_non_prefix_request() {
    let mut dataset = SortableDataset::new();
    for q in [[0, 1, 0, 0], [1, 2, 0, 0], [2, 1, 0, 0]] {
        assert!(dataset.insert_by_index(q));
    }
    dataset.sort_for(&[false, true, false, false]);
    assert!(dataset.is_optimal(&[None, Some(1), None, None]));
    assert_eq!(read_all(&dataset, [None, Some(1), None, None]), vec![[0, 1, 0, 0], [2, 1, 0, 0]]);
    assert_eq!(read_all(&dataset, [None, Some(2), None, None]), vec![[1, 2, 0, 0]]);
    assert_eq!(read_all(&dataset, [None, Some(3), None, None]), Vec::<[u32; 4]>::new());

    dataset.sort_for(&[false, false, true, true]);
    assert_eq!(read_all(&dataset, [None, None, Some(0), Some(0)]), vec![[0, 1, 0, 0], [1, 2, 0, 0], [2, 1, 0, 0]]);
}
