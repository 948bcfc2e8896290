use procedural_generation::coords::{Direction, Point};
use procedural_generation::object::object_grid::ObjectGrid;
use procedural_generation::object::object_name::ObjectName;
use procedural_generation::object::path::{build_path_graph, run_algorithm};
use procedural_generation::object::path_names::{
    determine_path_object_name, determine_path_object_name_from_neighbours, direction_to_neighbour_chunk,
    is_edge_connection_point, update_if_edge_connection,
};
use procedural_generation::object::path_network::{calculate_paths, closest_index, connect_points, update_junctions};
use procedural_generation::object::pathfinding::{calculate_distance_cost, Node, PathGraph};
use procedural_generation::random::seeded_rng;

#[test]
fn node_new_sets_correct_ig() {
    let ig = Point::default();
    let node = Node::new(ig);
    assert_eq!(node.get_ig(), &ig);
}

#[test]
fn node_add_neighbour_only_adds_unique_neighbours() {
    let mut node = Node::new(Point::default());
    node.add_neighbour(1);
    node.add_neighbour(1);
    assert_eq!(node.get_neighbours().len(), 1);
}

#[test]
fn node_add_neighbours_adds_multiple_unique_neighbours() {
    let mut node = Node::new(Point::default());
    node.add_neighbours(vec![1, 2, 1]);
    assert_eq!(node.get_neighbours().len(), 2);
}

#[test]
fn set_connection_updates_connection() {
    let mut node = Node::new(Point::default());
    node.set_connection(1);
    assert_eq!(node.get_connection(), Some(1));
    node.set_connection(2);
    assert_eq!(node.get_connection(), Some(2));
}

#[test]
fn node_costs_add_up() {
    let mut node = Node::new(Point::new_internal_grid(3, 4));
    node.set_g(24);
    node.set_h(10);
    assert_eq!(node.get_g(), 24);
    assert_eq!(node.get_h(), 10);
    assert_eq!(node.get_f(), 34);
    assert_eq!(node.to_ig(), Point::new_internal_grid(3, 4));
}

#[test]
fn distance_cost_counts_diagonal_and_straight_steps() {
    let a = Point::new_internal_grid(0, 0);
    assert_eq!(calculate_distance_cost(&a, &Point::new_internal_grid(3, 0)), 30);
    assert_eq!(calculate_distance_cost(&a, &Point::new_internal_grid(2, 2)), 28);
    assert_eq!(calculate_distance_cost(&a, &Point::new_internal_grid(3, 1)), 34);
    assert_eq!(calculate_distance_cost(&Point::new_internal_grid(3, 1), &a), 34);
    assert_eq!(calculate_distance_cost(&a, &Point::new_internal_grid(31, 31)), 434);
    assert_eq!(calculate_distance_cost(&a, &a), 0);
}

fn walkable_grid() -> ObjectGrid {
    let mut grid = ObjectGrid::default(Point::new_chunk_grid(0, 0));
    for y in 0..32 {
        for x in 0..32 {
            grid.get_cell_mut(&Point::new_internal_grid(x, y)).unwrap().set_walkable(true);
        }
    }
    grid
}

fn line_graph(n: usize) -> PathGraph {
    let mut nodes = Vec::new();
    for i in 0..n {
        let mut node = Node::new(Point::new_internal_grid(i as i32, 0));
        if i > 0 {
            node.add_neighbour(i - 1);
        }
        if i + 1 < n {
            node.add_neighbour(i + 1);
        }
        nodes.push(node);
    }
    PathGraph { nodes }
}

#[test]
fn find_path_follows_a_line_back_from_the_target() {
    let mut graph = line_graph(5);
    assert_eq!(graph.find_path(0, 4), Some(vec![4, 3, 2, 1, 0]));
}

#[test]
fn find_path_of_the_start_to_itself_is_the_start() {
    let mut graph = line_graph(3);
    assert_eq!(graph.find_path(1, 1), Some(vec![1]));
}

#[test]
fn find_path_finds_nothing_between_unlinked_nodes() {
    let mut graph = line_graph(3);
    graph.nodes.push(Node::new(Point::new_internal_grid(10, 10)));
    assert_eq!(graph.find_path(0, 3), None);
}

#[test]
fn path_graph_links_walkable_horizontal_and_vertical_neighbours() {
    let mut grid = walkable_grid();
    grid.get_cell_mut(&Point::new_internal_grid(1, 0)).unwrap().set_walkable(false);
    let graph = build_path_graph(&grid);
    assert_eq!(graph.nodes.len(), 1024);
    assert_eq!(graph.nodes[33].ig, Point::new_internal_grid(1, 1));
    // Below, left, right, above; the cell above (1, 0) is not walkable.
    assert_eq!(graph.nodes[33].neighbours, vec![65, 32, 34]);
    assert_eq!(graph.nodes[0].neighbours, vec![32]);
}

#[test]
fn run_algorithm_returns_the_path_from_the_target_back_to_the_start() {
    let grid = walkable_grid();
    let start = Point::new_internal_grid(2, 5);
    let target = Point::new_internal_grid(5, 5);
    let path = run_algorithm(&grid, &start, &target);
    assert_eq!(
        path,
        vec![
            (Point::new_internal_grid(5, 5), Direction::Left),
            (Point::new_internal_grid(4, 5), Direction::Left),
            (Point::new_internal_grid(3, 5), Direction::Left),
            (Point::new_internal_grid(2, 5), Direction::Center),
        ]
    );
}

#[test]
fn run_algorithm_walks_around_blocked_cells() {
    let mut grid = walkable_grid();
    for y in 0..31 {
        grid.get_cell_mut(&Point::new_internal_grid(5, y)).unwrap().set_walkable(false);
    }
    let start = Point::new_internal_grid(4, 0);
    let target = Point::new_internal_grid(6, 0);
    let path = run_algorithm(&grid, &start, &target);
    assert_eq!(path[0].0, target);
    assert_eq!(path[path.len() - 1], (start, Direction::Center));
    assert!(path.iter().any(|(p, _)| *p == Point::new_internal_grid(5, 31)));
    for window in path.windows(2) {
        let (a, b) = (window[0].0, window[1].0);
        assert_eq!((a.x - b.x).abs() + (a.y - b.y).abs(), 1);
        assert_eq!(window[0].1, Direction::from_points(&a, &b));
    }
}

#[test]
fn run_algorithm_without_a_path_keeps_only_edge_points() {
    let mut grid = walkable_grid();
    for y in 0..32 {
        grid.get_cell_mut(&Point::new_internal_grid(5, y)).unwrap().set_walkable(false);
    }
    let start = Point::new_internal_grid(0, 4);
    let target = Point::new_internal_grid(8, 4);
    assert_eq!(run_algorithm(&grid, &start, &target), vec![(start, Direction::Center)]);
    let start = Point::new_internal_grid(2, 4);
    assert_eq!(run_algorithm(&grid, &start, &target), vec![]);
}

#[test]
fn edge_points_face_the_neighbouring_chunk() {
    assert!(is_edge_connection_point(&Point::new_internal_grid(0, 7)));
    assert!(!is_edge_connection_point(&Point::new_internal_grid(1, 7)));
    assert_eq!(direction_to_neighbour_chunk(&Point::new_internal_grid(0, 0)), Direction::Left);
    assert_eq!(direction_to_neighbour_chunk(&Point::new_internal_grid(31, 0)), Direction::Right);
    assert_eq!(direction_to_neighbour_chunk(&Point::new_internal_grid(5, 0)), Direction::Top);
    assert_eq!(direction_to_neighbour_chunk(&Point::new_internal_grid(5, 31)), Direction::Bottom);
    assert_eq!(direction_to_neighbour_chunk(&Point::new_internal_grid(5, 5)), Direction::Center);
    assert_eq!(update_if_edge_connection(&Point::new_internal_grid(0, 5), &Direction::Center), Direction::Left);
    assert_eq!(update_if_edge_connection(&Point::new_internal_grid(0, 5), &Direction::Top), Direction::Top);
}

#[test]
fn path_pieces_join_the_previous_and_next_cell() {
    let inner = Point::new_internal_grid(5, 5);
    assert_eq!(determine_path_object_name(&Direction::Top, &Direction::Right, &inner), ObjectName::PathTopRight);
    assert_eq!(determine_path_object_name(&Direction::Bottom, &Direction::Top, &inner), ObjectName::PathVertical);
    assert_eq!(determine_path_object_name(&Direction::Left, &Direction::Right, &inner), ObjectName::PathHorizontal);
    assert_eq!(determine_path_object_name(&Direction::Center, &Direction::Left, &inner), ObjectName::PathLeft);
    assert_eq!(determine_path_object_name(&Direction::Top, &Direction::Top, &inner), ObjectName::PathTop);
    assert_eq!(determine_path_object_name(&Direction::Center, &Direction::Center, &inner), ObjectName::PathUndefined);
    assert_eq!(
        determine_path_object_name(&Direction::TopLeft, &Direction::Right, &inner),
        ObjectName::PathUndefined
    );
    let edge = Point::new_internal_grid(0, 5);
    assert_eq!(determine_path_object_name(&Direction::Center, &Direction::Right, &edge), ObjectName::PathHorizontal);
}

#[test]
fn path_pieces_from_neighbour_directions() {
    let inner = Point::new_internal_grid(5, 5);
    assert_eq!(determine_path_object_name_from_neighbours(&vec![Direction::Top], &inner), ObjectName::PathTop);
    assert_eq!(
        determine_path_object_name_from_neighbours(
            &vec![Direction::Top, Direction::Right, Direction::Bottom],
            &inner
        ),
        ObjectName::PathRightVertical
    );
    assert_eq!(
        determine_path_object_name_from_neighbours(
            &vec![Direction::Left, Direction::Bottom, Direction::Right],
            &inner
        ),
        ObjectName::PathBottomHorizontal
    );
    assert_eq!(
        determine_path_object_name_from_neighbours(
            &vec![Direction::Top, Direction::Right, Direction::Bottom, Direction::Left],
            &inner
        ),
        ObjectName::PathCross
    );
    let edge = Point::new_internal_grid(0, 5);
    assert_eq!(
        determine_path_object_name_from_neighbours(&vec![Direction::Top, Direction::Bottom], &edge),
        ObjectName::PathLeftVertical
    );
    assert_eq!(
        determine_path_object_name_from_neighbours(&vec![Direction::Top, Direction::Left], &edge),
        ObjectName::PathUndefined
    );
}

#[test]
fn closest_index_picks_the_first_of_the_nearest_points() {
    let points = vec![
        Point::new_internal_grid(9, 9),
        Point::new_internal_grid(2, 3),
        Point::new_internal_grid(3, 2),
    ];
    assert_eq!(closest_index(&points, &Point::new_internal_grid(2, 2)), 1);
}

#[test]
fn calculate_paths_leaves_the_grid_alone_when_disabled_or_without_points() {
    let mut rng = seeded_rng(7);
    let grid = calculate_paths(false, &vec![Point::new_internal_grid(0, 5)], walkable_grid(), &mut rng).unwrap();
    assert!(!grid.get_cell(&Point::new_internal_grid(0, 5)).unwrap().is_collapsed());
    let grid = calculate_paths(true, &vec![], walkable_grid(), &mut rng).unwrap();
    assert!(!grid.get_cell(&Point::new_internal_grid(0, 5)).unwrap().is_collapsed());
}

#[test]
fn calculate_paths_turns_a_single_edge_point_into_a_dead_end() {
    let mut rng = seeded_rng(7);
    let grid = calculate_paths(true, &vec![Point::new_internal_grid(0, 5)], walkable_grid(), &mut rng).unwrap();
    let cell = grid.get_cell(&Point::new_internal_grid(0, 5)).unwrap();
    assert!(cell.is_collapsed());
    assert_eq!(cell.get_possible_states()[0].name, ObjectName::PathLeft);
    assert_eq!(cell.get_index(), ObjectName::PathLeft.get_index_for_path());
}

#[test]
fn calculate_paths_joins_two_edge_points() {
    let mut rng = seeded_rng(7);
    let points = vec![Point::new_internal_grid(0, 5), Point::new_internal_grid(31, 5)];
    let grid = calculate_paths(true, &points, walkable_grid(), &mut rng).unwrap();
    for x in 0..32 {
        let cell = grid.get_cell(&Point::new_internal_grid(x, 5)).unwrap();
        assert!(cell.is_collapsed(), "cell {x} is not collapsed");
        assert_eq!(cell.get_possible_states()[0].name, ObjectName::PathHorizontal);
    }
    assert!(!grid.get_cell(&Point::new_internal_grid(5, 6)).unwrap().is_collapsed());
}

#[test]
fn connect_points_ignores_unwalkable_connection_points() {
    let mut grid = walkable_grid();
    grid.get_cell_mut(&Point::new_internal_grid(0, 5)).unwrap().set_walkable(false);
    let mut rng = seeded_rng(7);
    let points = vec![Point::new_internal_grid(0, 5)];
    let grid = calculate_paths(true, &points, grid, &mut rng).unwrap();
    assert!(!grid.get_cell(&Point::new_internal_grid(0, 5)).unwrap().is_collapsed());
}

#[test]
fn connect_points_from_a_given_start() {
    let points = vec![Point::new_internal_grid(5, 0), Point::new_internal_grid(5, 31)];
    let grid = connect_points(walkable_grid(), &points, 1).unwrap();
    for y in 0..32 {
        let cell = grid.get_cell(&Point::new_internal_grid(5, y)).unwrap();
        assert_eq!(cell.get_possible_states()[0].name, ObjectName::PathVertical);
    }
}

#[test]
fn update_junctions_rejects_an_inner_cell_with_two_path_neighbours() {
    let mut grid = walkable_grid();
    for p in [Point::new_internal_grid(4, 5), Point::new_internal_grid(5, 4), Point::new_internal_grid(5, 5)] {
        grid.get_cell_mut(&p).unwrap().pre_collapse(ObjectName::PathTop);
    }
    let point = Point::new_internal_grid(5, 5);
    let path = vec![(point, Direction::Left), (point, Direction::Top)];
    let error = update_junctions(grid, &path).unwrap_err();
    assert_eq!(error.ig, point);
}

#[test]
fn update_junctions_renames_a_crossing() {
    let mut grid = walkable_grid();
    for p in [
        Point::new_internal_grid(4, 5),
        Point::new_internal_grid(6, 5),
        Point::new_internal_grid(5, 4),
        Point::new_internal_grid(5, 5),
    ] {
        grid.get_cell_mut(&p).unwrap().pre_collapse(ObjectName::PathHorizontal);
    }
    let point = Point::new_internal_grid(5, 5);
    let path = vec![(point, Direction::Left), (point, Direction::Top)];
    let grid = update_junctions(grid, &path).unwrap();
    let cell = grid.get_cell(&point).unwrap();
    assert_eq!(cell.get_possible_states()[0].name, ObjectName::PathTopHorizontal);
}

#[test]
fn calculate_paths_puts_every_reachable_connection_point_on_the_network() {
    let points = vec![Point::new_internal_grid(16, 0), Point::new_internal_grid(0, 16), Point::new_internal_grid(31, 20)];
    for seed in 0..5 {
        let grid = calculate_paths(true, &points, walkable_grid(), &mut seeded_rng(seed)).unwrap();
        for point in &points {
            let cell = grid.get_cell(point).unwrap();
            assert!(cell.is_collapsed());
            assert!(cell.get_possible_states()[0].name.is_path());
        }
    }
}

#[test]
fn distance_cost_accepts_points_anywhere() {
    let a = Point::new_internal_grid(-5, 0);
    assert_eq!(calculate_distance_cost(&a, &Point::new_internal_grid(100, 2)), 1058);
    assert_eq!(calculate_distance_cost(&Point::new_internal_grid(i32::MIN, 0), &Point::new_internal_grid(i32::MAX, 0)), 42949672950);
}

#[test]
fn find_path_takes_the_cheaper_of_two_routes() {
    // Nodes 0 -> 1 -> 2 along a straight line, and a detour 0 -> 3 -> 4 -> 2 through two far nodes.
    let mut nodes = vec![
        Node::new(Point::new_internal_grid(0, 0)),
        Node::new(Point::new_internal_grid(1, 0)),
        Node::new(Point::new_internal_grid(2, 0)),
        Node::new(Point::new_internal_grid(0, 5)),
        Node::new(Point::new_internal_grid(2, 5)),
    ];
    nodes[0].add_neighbours(vec![3, 1]);
    nodes[3].add_neighbour(4);
    nodes[4].add_neighbour(2);
    nodes[1].add_neighbour(2);
    let mut graph = PathGraph { nodes };
    assert_eq!(graph.find_path(0, 2), Some(vec![2, 1, 0]));
}

#[test]
fn run_algorithm_takes_a_shortest_walk_around_a_wall() {
    let mut grid = walkable_grid();
    for y in 0..6 {
        grid.get_cell_mut(&Point::new_internal_grid(5, y)).unwrap().set_walkable(false);
    }
    let start = Point::new_internal_grid(3, 2);
    let target = Point::new_internal_grid(7, 2);
    let path = run_algorithm(&grid, &start, &target);
    // Around the wall of cells (5, 0) to (5, 5): four steps down to row 6, four across and four back up.
    assert_eq!(path.len(), 13);
    assert_eq!(path[0].0, target);
    assert_eq!(path[12], (start, Direction::Center));
}
