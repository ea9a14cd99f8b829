use std::collections::HashMap;

use loan_graph::{degree_points, largest_degree_and_count};

#[test]
fn points_come_by_ascending_degree() {
    let mut dist = HashMap::new();
    dist.insert(7usize, 1usize);
    dist.insert(2usize, 9usize);
    dist.insert(4usize, 3usize);
    dist.insert(1usize, 5usize);
    assert_eq!(degree_points(&dist), vec![(1, 5), (2, 9), (4, 3), (7, 1)]);
}

#[test]
fn empty_histogram_gives_no_points() {
    let dist: HashMap<usize, usize> = HashMap::new();
    assert!(degree_points(&dist).is_empty());
    assert_eq!(largest_degree_and_count(&Vec::new()), (0, 0));
}

#[test]
fn largest_degree_and_count_are_taken_separately() {
    let points = vec![(1, 5), (2, 9), (4, 3), (7, 1)];
    assert_eq!(largest_degree_and_count(&points), (7, 9));
    assert_eq!(largest_degree_and_count(&vec![(3, 2)]), (3, 2));
}
