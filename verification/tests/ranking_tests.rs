use aco_rust::best::BestDistance;
use aco_rust::ranking::{reinforced_paths, shortest_index};

#[test]
fn reinforced_paths_are_the_shortest_first() {
    let keys = vec![5, 3, 5, 1];
    assert_eq!(reinforced_paths(&keys, 2), vec![3, 1]);
    assert_eq!(reinforced_paths(&keys, 3), vec![3, 1, 0]);
}

#[test]
fn reinforced_paths_keep_ties_in_index_order() {
    let keys = vec![4, 2, 4, 2, 4];
    assert_eq!(reinforced_paths(&keys, 5), vec![1, 3, 0, 2, 4]);
    assert_eq!(reinforced_paths(&keys, 3), vec![1, 3, 0]);
}

#[test]
fn reinforced_paths_limit_edges() {
    let keys = vec![9, 8, 7];
    assert_eq!(reinforced_paths(&keys, 0), Vec::<usize>::new());
    assert_eq!(reinforced_paths(&keys, 100), vec![2, 1, 0]);
    assert_eq!(reinforced_paths(&keys, -1), vec![2, 1, 0]);
    assert_eq!(reinforced_paths(&Vec::new(), 4), Vec::<usize>::new());
}

#[test]
fn shortest_index_is_the_first_minimum() {
    assert_eq!(shortest_index(&vec![4, 2, 2, 7]), 1);
    assert_eq!(shortest_index(&vec![3]), 0);
    assert_eq!(shortest_index(&vec![9, 8, 7, 1]), 3);
}

#[test]
fn best_distance_keeps_the_minimum() {
    let mut best = BestDistance::new(100);
    assert_eq!(best.key(), 100);
    assert_eq!(best.offer_iteration(&vec![50, 20, 20]), Some(1));
    assert_eq!(best.key(), 20);
    assert_eq!(best.offer_iteration(&vec![30, 20]), None);
    assert_eq!(best.key(), 20);
    assert_eq!(best.offer_iteration(&vec![30, 19]), Some(1));
    assert_eq!(best.key(), 19);
}

#[test]
fn best_distance_needs_strict_improvement_on_the_initial_key() {
    let mut best = BestDistance::new(10);
    assert_eq!(best.offer_iteration(&vec![10, 10]), None);
    assert_eq!(best.key(), 10);
}

#[test]
fn running_best_is_the_minimum_over_iterations() {
    let iterations = vec![vec![7, 9], vec![8], vec![3, 5], vec![4]];
    let mut best = BestDistance::new(u64::MAX);
    for keys in &iterations {
        best.offer_iteration(keys);
    }
    let all_min = iterations.iter().flatten().copied().min().unwrap();
    assert_eq!(best.key(), all_min);
}

#[test]
fn unselected_tours_are_never_shorter_than_selected_ones() {
    let keys = vec![12, 7, 30, 7, 1, 19, 12];
    let selected = reinforced_paths(&keys, 4);
    assert_eq!(selected, vec![4, 1, 3, 0]);
    for t in 0..keys.len() {
        if !selected.contains(&t) {
            for &s in &selected {
                assert!(keys[s] < keys[t] || (keys[s] == keys[t] && s < t));
            }
        }
    }
}
