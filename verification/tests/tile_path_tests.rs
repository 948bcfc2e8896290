use procedural_generation::coords::Point;
use procedural_generation::tile_paths::generate_paths;

fn full_chunk() -> Vec<Vec<bool>> {
    vec![vec![true; 32]; 32]
}

fn p(x: i32, y: i32) -> Point {
    Point::new_internal_grid(x, y)
}

#[test]
fn generate_paths_takes_the_diagonal_when_it_is_shortest() {
    let path = generate_paths(&vec![p(0, 0), p(3, 3)], &full_chunk());
    assert_eq!(path, vec![p(0, 0), p(1, 1), p(2, 2), p(3, 3)]);
}

#[test]
fn generate_paths_walks_straight_along_a_row() {
    let path = generate_paths(&vec![p(2, 5), p(6, 5)], &full_chunk());
    assert_eq!(path, vec![p(2, 5), p(3, 5), p(4, 5), p(5, 5), p(6, 5)]);
}

#[test]
fn generate_paths_needs_exactly_two_connection_points() {
    assert!(generate_paths(&vec![], &full_chunk()).is_empty());
    assert!(generate_paths(&vec![p(1, 1)], &full_chunk()).is_empty());
    assert!(generate_paths(&vec![p(1, 1), p(2, 2), p(3, 3)], &full_chunk()).is_empty());
}

#[test]
fn generate_paths_goes_around_missing_tiles() {
    let mut present = full_chunk();
    for y in 0..31 {
        present[5][y] = false;
    }
    let path = generate_paths(&vec![p(0, 0), p(10, 0)], &present);
    assert_eq!(path.first(), Some(&p(0, 0)));
    assert_eq!(path.last(), Some(&p(10, 0)));
    assert!(path.contains(&p(5, 31)));
    for pair in path.windows(2) {
        assert!((pair[0].x - pair[1].x).abs() <= 1 && (pair[0].y - pair[1].y).abs() <= 1);
    }
}

#[test]
fn generate_paths_is_empty_without_a_connection() {
    let mut present = full_chunk();
    for y in 0..32 {
        present[5][y] = false;
    }
    assert!(generate_paths(&vec![p(0, 0), p(10, 0)], &present).is_empty());
}

fn walk_cost(path: &[Point]) -> i32 {
    path.windows(2)
        .map(|pair| if pair[0].x != pair[1].x && pair[0].y != pair[1].y { 14 } else { 10 })
        .sum()
}

#[test]
fn generate_paths_around_a_wall_costs_no_more_than_the_shortest_detour() {
    let mut present = full_chunk();
    for y in 0..31 {
        present[5][y] = false;
    }
    let path = generate_paths(&vec![p(0, 0), p(10, 0)], &present);
    // Every walk has to cross the wall at (5, 31): 5 diagonal and 26 straight steps on each side.
    assert_eq!(walk_cost(&path), 660);
}
