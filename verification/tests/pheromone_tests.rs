use aco_rust::pheromone::PheromoneTable;

#[test]
fn fresh_table_reads_the_default_everywhere() {
    let table: PheromoneTable<u32> = PheromoneTable::new();
    assert_eq!(table.level(0, 1, 7), 7);
    assert_eq!(table.row(3, 4, 9), vec![9, 9, 9, 9]);
    let other: PheromoneTable<u32> = PheromoneTable::default();
    assert_eq!(other.level(-5, 2, 1), 1);
}

#[test]
fn reinforcing_raises_only_that_edge() {
    let mut table: PheromoneTable<u32> = PheromoneTable::new();
    assert_eq!(table.reinforce(1, 2, 10, |level| level + 5), 15);
    assert_eq!(table.level(1, 2, 10), 15);
    assert_eq!(table.level(2, 1, 10), 10);
    assert_eq!(table.level(1, 3, 10), 10);
    assert_eq!(table.reinforce(1, 2, 10, |level| level + 5), 20);
    assert_eq!(table.reinforce(1, 0, 10, |level| level * 3), 30);
    assert_eq!(table.row(1, 4, 10), vec![30, 10, 20, 10]);
    assert_eq!(table.row(0, 3, 10), vec![10, 10, 10]);
}

#[test]
fn floating_point_levels() {
    let mut table: PheromoneTable<f32> = PheromoneTable::new();
    let default = 0.25f32;
    table.reinforce(0, 1, default, |level| level + 1.0 / 4.0);
    assert_eq!(table.level(0, 1, default), 0.5);
    assert_eq!(table.row(0, 3, default), vec![0.25, 0.5, 0.25]);
}
