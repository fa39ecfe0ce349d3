use cutlist_optimizer::engine::arrangement::Arrangement;

#[test]
fn test_generate_permutations_empty() {
    let empty: Vec<i32> = vec![];
    let permutations = Arrangement::generate_permutations(empty);
    assert_eq!(permutations.len(), 1);
    assert_eq!(permutations[0].len(), 0);
}

#[test]
fn test_generate_permutations_single() {
    let single = vec![42];
    let permutations = Arrangement::generate_permutations(single);
    assert_eq!(permutations.len(), 1);
    assert_eq!(permutations[0], vec![42]);
}

#[test]
fn test_generate_permutations_three_elements() {
    let items = vec!['A', 'B', 'C'];
    let permutations = Arrangement::generate_permutations(items);

    assert_eq!(permutations.len(), 6);

    let mut unique_perms = std::collections::HashSet::new();
    for perm in &permutations {
        unique_perms.insert(perm.clone());
    }
    assert_eq!(unique_perms.len(), 6);

    for perm in &permutations {
        assert_eq!(perm.len(), 3);
        assert!(perm.contains(&'A'));
        assert!(perm.contains(&'B'));
        assert!(perm.contains(&'C'));
    }
}

#[test]
fn test_generate_limited_permutations() {
    let items = vec![1, 2, 3, 4];
    let permutations = Arrangement::generate_limited_permutations(items, 10);

    assert!(permutations.len() <= 10);

    for perm in &permutations {
        assert_eq!(perm.len(), 4);
        let mut sorted_perm = perm.clone();
        sorted_perm.sort();
        assert_eq!(sorted_perm, vec![1, 2, 3, 4]);
    }
}

#[test]
fn test_generate_random_permutations() {
    let items = vec![1, 2, 3, 4, 5];
    let permutations = Arrangement::generate_random_permutations(items, 5);

    assert_eq!(permutations.len(), 5);

    for perm in &permutations {
        assert_eq!(perm.len(), 5);
        let mut sorted_perm = perm.clone();
        sorted_perm.sort();
        assert_eq!(sorted_perm, vec![1, 2, 3, 4, 5]);
    }
}

#[test]
fn test_generate_heuristic_permutations() {
    let items = vec![10, 5, 20, 15];
    let area_fn = |x: &i32| *x as u64;
    let permutations = Arrangement::generate_heuristic_permutations(items, area_fn, 3);

    assert!(permutations.len() <= 3);
    assert!(permutations.len() > 0);

    assert_eq!(permutations[0], vec![20, 15, 10, 5]);

    if permutations.len() > 1 {
        assert_eq!(permutations[1], vec![5, 10, 15, 20]);
    }
}

#[test]
fn test_factorial() {
    assert_eq!(Arrangement::factorial(0), Some(1));
    assert_eq!(Arrangement::factorial(1), Some(1));
    assert_eq!(Arrangement::factorial(3), Some(6));
    assert_eq!(Arrangement::factorial(4), Some(24));
    assert_eq!(Arrangement::factorial(5), Some(120));

    assert_eq!(Arrangement::factorial(25), None);
}

#[test]
fn test_is_full_generation_reasonable() {
    assert!(Arrangement::is_full_generation_reasonable(3, 10));
    assert!(Arrangement::is_full_generation_reasonable(4, 100));
    assert!(!Arrangement::is_full_generation_reasonable(10, 1000));
}

#[test]
fn test_estimate_permutation_count() {
    assert_eq!(Arrangement::estimate_permutation_count(3), Some(6));
    assert_eq!(Arrangement::estimate_permutation_count(4), Some(24));
    assert_eq!(Arrangement::estimate_permutation_count(5), Some(120));
    assert_eq!(Arrangement::estimate_permutation_count(25), None);
}

#[test]
fn permutations_are_listed_led_by_the_first_item() {
    let permutations = Arrangement::generate_permutations(vec![1, 2, 3]);
    assert_eq!(
        permutations,
        vec![vec![1, 2, 3], vec![1, 3, 2], vec![2, 1, 3], vec![2, 3, 1], vec![3, 1, 2], vec![3, 2, 1]]
    );
}

#[test]
fn limited_permutations_are_the_first_ones() {
    let limited = Arrangement::generate_limited_permutations(vec![1, 2, 3], 4);
    assert_eq!(limited, vec![vec![1, 2, 3], vec![1, 3, 2], vec![2, 1, 3], vec![2, 3, 1]]);
    let all = Arrangement::generate_limited_permutations(vec![1, 2, 3], 100);
    assert_eq!(all.len(), 6);
    assert!(Arrangement::generate_limited_permutations(Vec::<i32>::new(), 5).is_empty());
    assert!(Arrangement::generate_limited_permutations(vec![1, 2], 0).is_empty());
}

#[test]
fn every_ordering_of_four_items_is_listed_once() {
    let permutations = Arrangement::generate_permutations(vec![1, 2, 3, 4]);
    assert_eq!(permutations.len(), 24);
    let unique: std::collections::HashSet<Vec<i32>> = permutations.iter().cloned().collect();
    assert_eq!(unique.len(), 24);
}

#[test]
fn random_permutations_follow_the_seed() {
    let first = Arrangement::generate_random_permutations(vec![1, 2, 3, 4, 5], 3);
    let second = Arrangement::generate_random_permutations(vec![1, 2, 3, 4, 5], 3);
    assert_eq!(first, second);
    assert!(Arrangement::generate_random_permutations(Vec::<i32>::new(), 3).is_empty());
    assert_eq!(Arrangement::generate_random_permutations(vec![7], 2), vec![vec![7], vec![7]]);
}

#[test]
fn heuristic_orders_alternate_and_keep_ties_stable() {
    let items = vec![10, 5, 20, 15, 30];
    let orders = Arrangement::generate_heuristic_permutations(items.clone(), |x: &i32| *x as u64, 5);
    assert_eq!(orders.len(), 5);
    assert_eq!(orders[0], vec![30, 20, 15, 10, 5]);
    assert_eq!(orders[1], vec![5, 10, 15, 20, 30]);
    assert_eq!(orders[2], vec![30, 5, 20, 10, 15]);
    let shuffles = Arrangement::generate_random_permutations(items, 2);
    assert_eq!(orders[3..].to_vec(), shuffles);

    let ties = Arrangement::generate_heuristic_permutations(vec![(1, 'a'), (2, 'b'), (1, 'c')], |x: &(i32, char)| x.0 as u64, 2);
    assert_eq!(ties[0], vec![(2, 'b'), (1, 'a'), (1, 'c')]);
    assert_eq!(ties[1], vec![(1, 'a'), (1, 'c'), (2, 'b')]);
    assert_eq!(Arrangement::generate_heuristic_permutations(vec![1, 2], |x: &i32| *x as u64, 1).len(), 1);
    assert!(Arrangement::generate_heuristic_permutations(vec![1, 2], |x: &i32| *x as u64, 0).is_empty());
}
