use aco_rust::tour::{gen_path, push_node_ids, TourBuilder, TourError, UnitPath};

fn edge(start: i64, end: i64) -> UnitPath {
    UnitPath { start, end }
}

fn first_unvisited(_prev: i64, visited: &Vec<bool>) -> i64 {
    visited.iter().position(|v| !*v).map(|p| p as i64).unwrap_or(-1)
}

#[test]
fn gen_path_follows_the_picks_and_closes_the_tour() {
    let path = gen_path(4, 0, first_unvisited).unwrap();
    assert_eq!(path, vec![edge(0, 1), edge(1, 2), edge(2, 3), edge(3, 0)]);
}

#[test]
fn gen_path_from_another_start() {
    let path = gen_path(3, 2, first_unvisited).unwrap();
    assert_eq!(path, vec![edge(2, 0), edge(0, 1), edge(1, 2)]);
}

#[test]
fn gen_path_on_one_node_is_a_loop() {
    let path = gen_path(1, 0, first_unvisited).unwrap();
    assert_eq!(path, vec![edge(0, 0)]);
}

#[test]
fn gen_path_passes_current_node_and_flags() {
    // Walks downwards from the start, wrapping around: 1 -> 0 -> 4 -> 3 -> 2 -> 1.
    let pick = |prev: i64, visited: &Vec<bool>| {
        assert_eq!(visited.len(), 5);
        assert!(visited[prev as usize]);
        (prev + 4) % 5
    };
    let path = gen_path(5, 1, pick).unwrap();
    assert_eq!(
        path,
        vec![edge(1, 0), edge(0, 4), edge(4, 3), edge(3, 2), edge(2, 1)]
    );
}

#[test]
fn gen_path_refuses_a_revisit() {
    let r = gen_path(3, 0, |prev: i64, _visited: &Vec<bool>| prev);
    assert_eq!(r, Err(TourError::AlreadyVisited));
}

#[test]
fn gen_path_refuses_a_node_out_of_range() {
    assert_eq!(gen_path(3, 0, |_p: i64, _v: &Vec<bool>| 3), Err(TourError::OutOfRange));
    assert_eq!(gen_path(3, 0, |_p: i64, _v: &Vec<bool>| -1), Err(TourError::OutOfRange));
}

#[test]
fn builder_steps_and_flags() {
    let mut b = TourBuilder::new(3, 1);
    assert_eq!(b.node_count(), 3);
    assert_eq!(b.current(), 1);
    assert_eq!(b.visited(), &vec![false, true, false]);
    assert!(!b.is_complete());
    assert_eq!(b.step(2), Ok(()));
    assert_eq!(b.current(), 2);
    assert_eq!(b.steps_taken(), 1);
    assert!(b.is_visited(2));
    assert!(!b.is_visited(0));
    assert_eq!(b.step(1), Err(TourError::AlreadyVisited));
    assert_eq!(b.step(7), Err(TourError::OutOfRange));
    assert_eq!(b.current(), 2);
    assert_eq!(b.step(0), Ok(()));
    assert!(b.is_complete());
    assert_eq!(b.finish(), Ok(vec![edge(1, 2), edge(2, 0), edge(0, 1)]));
}

#[test]
fn builder_refuses_to_close_early() {
    let mut b = TourBuilder::new(3, 0);
    assert_eq!(b.step(1), Ok(()));
    assert_eq!(b.finish(), Err(TourError::Incomplete));
}

#[test]
fn complete_builder_refuses_every_step() {
    let mut b = TourBuilder::new(2, 0);
    assert_eq!(b.step(1), Ok(()));
    assert_eq!(b.step(0), Err(TourError::AlreadyVisited));
    assert_eq!(b.step(1), Err(TourError::AlreadyVisited));
    assert_eq!(b.step(2), Err(TourError::OutOfRange));
}

#[test]
fn node_ids_are_appended_in_order() {
    let mut nodes = vec![7];
    push_node_ids(&mut nodes, 4);
    assert_eq!(nodes, vec![7, 0, 1, 2, 3]);
    push_node_ids(&mut nodes, 0);
    push_node_ids(&mut nodes, -3);
    assert_eq!(nodes, vec![7, 0, 1, 2, 3]);
}

#[test]
fn every_node_is_left_exactly_once() {
    let n = 7usize;
    let last_unvisited = |_prev: i64, visited: &Vec<bool>| {
        visited.iter().rposition(|v| !*v).map(|p| p as i64).unwrap_or(-1)
    };
    let path = gen_path(n, 3, last_unvisited).unwrap();
    assert_eq!(path.len(), n);
    assert_eq!(path[0].start, 3);
    assert_eq!(path[n - 1].end, 3);
    for k in 0..n - 1 {
        assert_eq!(path[k].end, path[k + 1].start);
    }
    let mut starts: Vec<i64> = path.iter().map(|e| e.start).collect();
    starts.sort();
    assert_eq!(starts, (0..n as i64).collect::<Vec<i64>>());
}
