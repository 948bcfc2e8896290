use crate::constants::CHUNK_SIZE;
use crate::coords::{is_before, Point};
use crate::object::cell::Cell;
use crate::object::object_grid::ObjectGrid;
use crate::object::terrain::TileType;
use crate::settlement::building_template::BuildingTemplate;
use crate::settlement::buildings::{
    beside_available, building_stands, covered_by, is_next_to, joins_beside, placements_stand, all_wf, changed_only, fits,
    is_building_cell, place_buildings, roads_ready, some_building_fits,
};
use crate::settlement::field_shapes::{FieldShape, FieldType};
use crate::settlement::fields::{
    entered_from, field_fits, on_one_terrain, union_of, is_entrance_index, is_field_cell, is_usable_shape, on_one_level, place_fields, placed_tiles,
    shape_layout_tiles, some_field_fits, tile_positions, tiles_free,
};
use crate::settlement::point_set::PointSet;
use crate::settlement::road::{connects_somewhere, is_collapsed_path_cell, road_branches};
use rand::rngs::StdRng;
use vstd::prelude::*;

verus! {

/// Whether a building or field may be placed on the cell at `p`: it lies within the grid, is not collapsed yet, and
/// is suitable for settlement structures.
pub open spec fn is_available(grid: ObjectGrid, p: Point) -> bool {
    p.spec_is_inside_grid() && !grid.cell_at(p).is_collapsed && grid.cell_at(p).spec_is_suitable_for_building_placement()
}

/// Only open, initialised cells of a fill tile within the chunk are available for settlement structures: a cell on
/// the edge or corner of a terrain area (any tile type other than [`TileType::Fill`]) never is.
pub proof fn lemma_available_cells_are_fill_tiles(grid: ObjectGrid, p: Point)
    ensures
        is_available(grid, p) ==> p.spec_is_inside_grid() && !grid.cell_at(p).is_collapsed
            && grid.cell_at(p).is_initialised && grid.cell_at(p).tile_type == TileType::Fill,
        p.spec_is_inside_grid() && !grid.cell_at(p).is_collapsed && grid.cell_at(p).is_initialised
            && grid.cell_at(p).tile_type == TileType::Fill ==> is_available(grid, p),
{
}

/// Returns the positions on which buildings and fields may be placed (see [`is_available`]).
pub fn compute_available_space_map(object_grid: &ObjectGrid) -> (available: PointSet)
    requires
        object_grid.wf(),
    ensures
        available.wf(),
        forall|p: Point| #[trigger] available@.contains(p) <==> is_available(*object_grid, p),
{
    let mut available = PointSet::new();
    let mut y: i32 = 0;
    while y < CHUNK_SIZE
        invariant
            object_grid.wf(),
            available.wf(),
            0 <= y <= CHUNK_SIZE,
            forall|p: Point| available@.contains(p) <==> (is_available(*object_grid, p) && p.y < y),
        decreases CHUNK_SIZE - y,
    {
        let mut x: i32 = 0;
        while x < CHUNK_SIZE
            invariant
                object_grid.wf(),
                available.wf(),
                0 <= y < CHUNK_SIZE,
                0 <= x <= CHUNK_SIZE,
                forall|p: Point|
                    available@.contains(p) <==> (is_available(*object_grid, p) && (p.y < y || (p.y == y && p.x < x))),
            decreases CHUNK_SIZE - x,
        {
            let ig = Point::new_internal_grid(x, y);
            let ghost before = available@;
            match object_grid.get_cell(&ig) {
                Some(cell) => {
                    if !cell.is_collapsed() && cell.is_suitable_for_building_placement() {
                        available.insert(&ig);
                    }
                },
                None => {},
            }
            proof {
                assert forall|p: Point|
                    available@.contains(p) <==> (is_available(*object_grid, p) && (p.y < y || (p.y == y && p.x < x
                        + 1))) by {
                    if p != ig {
                        assert(available@.contains(p) == before.contains(p));
                    }
                }
            }
            x = x + 1;
        }
        proof {
            assert forall|p: Point| available@.contains(p) <==> (is_available(*object_grid, p) && p.y < y + 1) by {
                if is_available(*object_grid, p) {
                    assert(p.x < CHUNK_SIZE);
                }
            }
        }
        y = y + 1;
    }
    available
}

/// Whether the cell at `p` lies within the grid and is collapsed with a path piece as its first state.
pub open spec fn is_path_point(grid: ObjectGrid, p: Point) -> bool {
    &&& p.spec_is_inside_grid()
    &&& grid.cell_at(p).is_collapsed
    &&& grid.cell_at(p).states().len() > 0
    &&& grid.cell_at(p).states()[0].0.spec_is_path()
}

/// Returns whether `points` holds `p`.
fn contains_point(points: &Vec<Point>, p: &Point) -> (result: bool)
    ensures
        result == points@.contains(*p),
{
    let mut i: usize = 0;
    while i < points.len()
        invariant
            i <= points@.len(),
            forall|j: int| 0 <= j < i ==> points@[j] != *p,
        decreases points@.len() - i,
    {
        if points[i] == *p {
            return true;
        }
        i = i + 1;
    }
    false
}

/// Returns, sorted by row and then column and without repetition, the points of `path_points` that lie on a
/// collapsed path piece.
fn cleaned_path_points(path_points: &Vec<Point>, object_grid: &ObjectGrid) -> (kept: Vec<Point>)
    requires
        object_grid.wf(),
    ensures
        forall|i: int, j: int| 0 <= i < j < kept@.len() ==> is_before(kept@[i], kept@[j]),
        forall|p: Point| #[trigger] kept@.contains(p) <==> (path_points@.contains(p) && is_path_point(*object_grid, p)),
{
    let mut kept: Vec<Point> = Vec::new();
    let mut y: i32 = 0;
    while y < CHUNK_SIZE
        invariant
            object_grid.wf(),
            0 <= y <= CHUNK_SIZE,
            forall|i: int, j: int| 0 <= i < j < kept@.len() ==> is_before(kept@[i], kept@[j]),
            forall|i: int| 0 <= i < kept@.len() ==> (#[trigger] kept@[i]).y < y,
            forall|p: Point|
                #[trigger] kept@.contains(p) <==> (path_points@.contains(p) && is_path_point(*object_grid, p) && p.y < y),
        decreases CHUNK_SIZE - y,
    {
        let mut x: i32 = 0;
        while x < CHUNK_SIZE
            invariant
                object_grid.wf(),
                0 <= y < CHUNK_SIZE,
                0 <= x <= CHUNK_SIZE,
                forall|i: int, j: int| 0 <= i < j < kept@.len() ==> is_before(kept@[i], kept@[j]),
                forall|i: int| 0 <= i < kept@.len() ==> is_before(#[trigger] kept@[i], Point { x, y }),
                forall|p: Point|
                    #[trigger] kept@.contains(p) <==> (path_points@.contains(p) && is_path_point(*object_grid, p) && (
                    p.y < y || (p.y == y && 0 <= p.x < x))),
            decreases CHUNK_SIZE - x,
        {
            let ig = Point::new_internal_grid(x, y);
            let ghost before = kept@;
            let mut keep = false;
            if contains_point(path_points, &ig) {
                match object_grid.get_cell(&ig) {
                    Some(cell) => {
                        proof {
                            assert(cell.states().len() == cell.possible_states@.len());
                            if cell.possible_states@.len() > 0 {
                                assert(cell.states()[0].0 == cell.possible_states@[0].name);
                            }
                        }
                        keep = cell.is_collapsed() && cell.possible_states.len() > 0
                            && cell.possible_states[0].name.is_path();
                    },
                    None => {},
                }
            }
            proof {
                assert(keep == (path_points@.contains(ig) && is_path_point(*object_grid, ig)));
            }
            if keep {
                kept.push(ig);
            }
            proof {
                assert forall|p: Point|
                    #[trigger] kept@.contains(p) <==> (path_points@.contains(p) && is_path_point(*object_grid, p) && (
                    p.y < y || (p.y == y && 0 <= p.x < x + 1))) by {
                    crate::object::cell::lemma_push_contains(before, ig, p);
                    assert(before.contains(p) <==> (path_points@.contains(p) && is_path_point(*object_grid, p) && (
                    p.y < y || (p.y == y && 0 <= p.x < x))));
                }
                assert forall|i: int| 0 <= i < kept@.len() implies is_before(
                    #[trigger] kept@[i],
                    Point { x: (x + 1) as i32, y },
                ) by {
                    if i < before.len() {
                        assert(kept@[i] == before[i]);
                        assert(is_before(before[i], Point { x, y }));
                    }
                }
            }
            x = x + 1;
        }
        proof {
            assert forall|p: Point|
                #[trigger] kept@.contains(p) <==> (path_points@.contains(p) && is_path_point(*object_grid, p) && p.y < y
                    + 1) by {
                if is_path_point(*object_grid, p) {
                    assert(0 <= p.x < CHUNK_SIZE);
                }
            }
            assert forall|i: int| 0 <= i < kept@.len() implies (#[trigger] kept@[i]).y < y + 1 by {
                assert(is_before(kept@[i], Point { x: CHUNK_SIZE, y }));
            }
        }
        y = y + 1;
    }
    proof {
        assert forall|p: Point|
            #[trigger] kept@.contains(p) <==> (path_points@.contains(p) && is_path_point(*object_grid, p)) by {
            if is_path_point(*object_grid, p) {
                assert(p.y < CHUNK_SIZE);
            }
        }
    }
    kept
}

/// Keeps, sorted by row and then column and without repetition, the path points that lie on a collapsed path
/// piece; the others may be ends of paths that could not be laid.
pub fn clean_up_path_points(path_points: &mut Vec<Point>, object_grid: &ObjectGrid)
    requires
        object_grid.wf(),
    ensures
        forall|i: int, j: int| 0 <= i < j < final(path_points)@.len() ==> is_before(final(path_points)@[i], final(path_points)@[j]),
        forall|p: Point|
            #[trigger] final(path_points)@.contains(p) <==> (old(path_points)@.contains(p) && is_path_point(*object_grid, p)),
{
    let kept = cleaned_path_points(path_points, object_grid);
    *path_points = kept;
    proof {
        assert forall|p: Point|
            #[trigger] path_points@.contains(p) <==> (old(path_points)@.contains(p) && is_path_point(*object_grid, p)) by {
            assert(kept@.contains(p) <==> (old(path_points)@.contains(p) && is_path_point(*object_grid, p)));
        }
    }
}

/// Appends the connection points of a chunk to the proposed path points; of several connection points only those
/// off the edge of the chunk are kept.
pub fn add_valid_connection_points(proposed_points: &mut Vec<Point>, connection_points: &Vec<Point>)
    ensures
        final(proposed_points)@ == old(proposed_points)@ + if connection_points@.len() > 1 {
            connection_points@.filter(|p: Point| !p.spec_is_touching_edge())
        } else {
            connection_points@
        },
{
    let ghost start = proposed_points@;
    if connection_points.len() > 1 {
        let ghost pred = |p: Point| !p.spec_is_touching_edge();
        let mut i: usize = 0;
        proof {
            reveal(Seq::filter);
            assert(connection_points@.subrange(0, 0).filter(pred) =~= Seq::<Point>::empty());
            assert(start + Seq::<Point>::empty() =~= start);
        }
        while i < connection_points.len()
            invariant
                i <= connection_points@.len(),
                pred == (|p: Point| !p.spec_is_touching_edge()),
                proposed_points@ == start + connection_points@.subrange(0, i as int).filter(pred),
            decreases connection_points@.len() - i,
        {
            let p = connection_points[i];
            if !p.is_touching_edge() {
                proposed_points.push(p);
            }
            proof {
                reveal(Seq::filter);
                let next = connection_points@.subrange(0, i + 1);
                assert(next.drop_last() =~= connection_points@.subrange(0, i as int));
                assert(next.last() == p);
                let f = connection_points@.subrange(0, i as int).filter(pred);
                assert((start + f).push(p) =~= start + f.push(p));
            }
            i = i + 1;
        }
        assert(connection_points@.subrange(0, connection_points@.len() as int) =~= connection_points@);
    } else {
        let mut i: usize = 0;
        while i < connection_points.len()
            invariant
                i <= connection_points@.len(),
                proposed_points@ == start + connection_points@.subrange(0, i as int),
            decreases connection_points@.len() - i,
        {
            proposed_points.push(connection_points[i]);
            i = i + 1;
            assert(proposed_points@ =~= start + connection_points@.subrange(0, i as int));
        }
        assert(connection_points@.subrange(0, connection_points@.len() as int) =~= connection_points@);
    }
}

/// The available positions of a grid (see [`is_available`]).
pub open spec fn available_space(grid: ObjectGrid) -> Set<Point> {
    Set::new(|p: Point| is_available(grid, p))
}

/// The connection points that a settlement is built along: all of them, or, of several, those off the edge.
pub open spec fn kept_connection_points(connection_points: Seq<Point>) -> Seq<Point> {
    if connection_points.len() > 1 {
        connection_points.filter(|p: Point| !p.spec_is_touching_edge())
    } else {
        connection_points
    }
}

/// Whether a settlement may be built along `p`: it is a kept connection point or a sampled path point, and it lies
/// on a collapsed path piece.
pub open spec fn is_settlement_point(grid: ObjectGrid, connection_points: Seq<Point>, sampled: Seq<Point>, p: Point) -> bool {
    &&& is_path_point(grid, p)
    &&& (sampled.contains(p) || kept_connection_points(connection_points).contains(p))
}

/// Whether every settlement point (see [`is_settlement_point`]) from which a structure could be entered, one next to
/// an available position (see [`beside_available`]), holds a single road piece that connects somewhere, so that a
/// structure placed along it can join it.
pub open spec fn settlement_points_joinable(grid: ObjectGrid, connection_points: Seq<Point>, sampled: Seq<Point>) -> bool {
    forall|p: Point|
        #[trigger] is_settlement_point(grid, connection_points, sampled, p) && beside_available(available_space(grid), p)
            ==> is_collapsed_path_cell(grid.cell_at(p)) && road_branches(grid.cell_at(p).states()[0].0).len() > 0
}

/// Whether some position of `field` lies next to a settlement point (see [`is_settlement_point`]), so that the field
/// is entered from the path.
pub open spec fn entered_from_settlement_point(
    grid: ObjectGrid,
    connection_points: Seq<Point>,
    sampled: Seq<Point>,
    field: Set<Point>,
) -> bool {
    exists|p: Point, d: Point|
        #![trigger is_settlement_point(grid, connection_points, sampled, p), field.contains(d)]
        is_settlement_point(grid, connection_points, sampled, p) && field.contains(d) && is_next_to(p, d)
}

/// Returns whether one of the four positions next to `p` is in `available` (see [`beside_available`]).
pub fn is_beside_available(available: &PointSet, p: &Point) -> (result: bool)
    requires
        available.wf(),
        p.spec_is_inside_grid(),
    ensures
        result == beside_available(available@, *p),
{
    let above = Point::new_internal_grid(p.x, p.y + 1);
    let below = Point::new_internal_grid(p.x, p.y - 1);
    let right = Point::new_internal_grid(p.x + 1, p.y);
    let left = Point::new_internal_grid(p.x - 1, p.y);
    let result = available.contains(&above) || available.contains(&below) || available.contains(&right)
        || available.contains(&left);
    proof {
        if result {
            assert(is_next_to(*p, above) && is_next_to(*p, below) && is_next_to(*p, right) && is_next_to(*p, left));
        } else {
            assert forall|d: Point| #[trigger] available@.contains(d) implies !is_next_to(*p, d) by {
                if is_next_to(*p, d) {
                    assert(d == above || d == below || d == right || d == left);
                }
            }
        }
    }
    result
}

/// Returns whether a structure placed along any settlement point can join the road piece there (see
/// [`settlement_points_joinable`]).
pub fn are_settlement_points_joinable(
    grid: &ObjectGrid,
    connection_points: &Vec<Point>,
    sampled_path_points: &Vec<Point>,
) -> (result: bool)
    requires
        grid.wf(),
    ensures
        result == settlement_points_joinable(*grid, connection_points@, sampled_path_points@),
{
    let mut points: Vec<Point> = Vec::new();
    add_valid_connection_points(&mut points, connection_points);
    let ghost kept = points@;
    let mut k: usize = 0;
    while k < sampled_path_points.len()
        invariant
            k <= sampled_path_points@.len(),
            points@ == kept + sampled_path_points@.subrange(0, k as int),
        decreases sampled_path_points@.len() - k,
    {
        points.push(sampled_path_points[k]);
        k = k + 1;
        proof {
            assert(points@ =~= kept + sampled_path_points@.subrange(0, k as int));
        }
    }
    proof {
        assert(sampled_path_points@.subrange(0, k as int) =~= sampled_path_points@);
        assert(kept =~= kept_connection_points(connection_points@));
        assert forall|p: Point| #[trigger] points@.contains(p) <==> (sampled_path_points@.contains(p)
            || kept_connection_points(connection_points@).contains(p)) by {
            if points@.contains(p) {
                let j = choose|j: int| 0 <= j < points@.len() && points@[j] == p;
                if j < kept.len() {
                    assert(kept[j] == p);
                } else {
                    assert(sampled_path_points@[j - kept.len()] == p);
                }
            }
            if sampled_path_points@.contains(p) {
                let j = choose|j: int| 0 <= j < sampled_path_points@.len() && sampled_path_points@[j] == p;
                assert(points@[kept.len() + j] == p);
            }
            if kept.contains(p) {
                let j = choose|j: int| 0 <= j < kept.len() && kept[j] == p;
                assert(points@[j] == p);
            }
        }
    }
    let available = compute_available_space_map(grid);
    proof {
        assert(available@ =~= available_space(*grid));
    }
    let mut i: usize = 0;
    while i < points.len()
        invariant
            grid.wf(),
            available.wf(),
            available@ == available_space(*grid),
            i <= points@.len(),
            forall|p: Point| #[trigger] points@.contains(p) <==> (sampled_path_points@.contains(p)
                || kept_connection_points(connection_points@).contains(p)),
            forall|j: int|
                0 <= j < i && is_path_point(*grid, #[trigger] points@[j]) && beside_available(available@, points@[j])
                    ==> is_collapsed_path_cell(grid.cell_at(points@[j])) && road_branches(
                    grid.cell_at(points@[j]).states()[0].0,
                ).len() > 0,
        decreases points@.len() - i,
    {
        let p = points[i];
        match grid.get_cell(&p) {
            Some(cell) => {
                proof {
                    assert(cell.states().len() == cell.possible_states@.len());
                    if cell.possible_states@.len() > 0 {
                        assert(cell.states()[0].0 == cell.possible_states@[0].name);
                    }
                }
                if cell.is_collapsed && cell.possible_states.len() > 0 && cell.possible_states[0].name.is_path()
                    && is_beside_available(&available, &p) {
                    if cell.possible_states.len() != 1 || !connects_somewhere(cell.possible_states[0].name) {
                        proof {
                            assert(points@[i as int] == p);
                            assert(points@.contains(p));
                            assert(is_path_point(*grid, p));
                            assert(is_settlement_point(*grid, connection_points@, sampled_path_points@, p));
                        }
                        return false;
                    }
                }
            },
            None => {},
        }
        i = i + 1;
    }
    proof {
        assert forall|p: Point| #[trigger] is_settlement_point(
            *grid,
            connection_points@,
            sampled_path_points@,
            p,
        ) && beside_available(available_space(*grid), p) implies is_collapsed_path_cell(grid.cell_at(p)) && road_branches(
            grid.cell_at(p).states()[0].0,
        ).len() > 0 by {
            assert(points@.contains(p));
            let j = choose|j: int| 0 <= j < points@.len() && points@[j] == p;
            assert(is_path_point(*grid, points@[j]));
        }
    }
    true
}

/// Whether some building template fits at some settlement point on the available positions, with `occupied` taken.
pub open spec fn settlement_building_fits(
    grid: ObjectGrid,
    connection_points: Seq<Point>,
    sampled: Seq<Point>,
    templates: Seq<BuildingTemplate>,
    occupied: Set<Point>,
) -> bool {
    exists|p: Point, i: int|
        is_settlement_point(grid, connection_points, sampled, p) && 0 <= i < templates.len() && #[trigger] fits(
            templates[i],
            p,
            available_space(grid),
            occupied,
        )
}

/// Whether some rotation of some field shape, entered through one of its candidate entrances beside a settlement
/// point, has tiles, all on available positions of one terrain, with a building still fitting at a settlement point
/// once it is placed (see [`crate::settlement::fields::field_fits`]).
pub open spec fn settlement_field_fits(
    grid: ObjectGrid,
    connection_points: Seq<Point>,
    sampled: Seq<Point>,
    templates: Seq<BuildingTemplate>,
    shapes: Seq<FieldShape>,
) -> bool {
    exists|s: int, k: nat, e: int, p: Point|
        is_entrance_index(shapes, s, k, e) && is_settlement_point(grid, connection_points, sampled, p) && {
            let proposed = #[trigger] placed_tiles(shape_layout_tiles(shapes, s, k, e), p, FieldType::Wheat);
            &&& proposed.len() > 0
            &&& tiles_free(proposed, available_space(grid), Set::empty())
            &&& on_one_level(grid, proposed)
            &&& settlement_building_fits(grid, connection_points, sampled, templates, tile_positions(proposed))
        }
}

/// Where `path_points` holds exactly the settlement points, a building or field that fits at a settlement point fits
/// at one of the path points.
proof fn lemma_settlement_fits(
    grid: ObjectGrid,
    connection_points: Seq<Point>,
    sampled: Seq<Point>,
    templates: Seq<BuildingTemplate>,
    shapes: Seq<FieldShape>,
    path_points: Seq<Point>,
    occupied: Set<Point>,
)
    requires
        forall|p: Point| #[trigger] path_points.contains(p) <==> is_settlement_point(grid, connection_points, sampled, p),
    ensures
        settlement_building_fits(grid, connection_points, sampled, templates, occupied) ==> some_building_fits(
            templates,
            path_points,
            available_space(grid),
            occupied,
        ),
        settlement_field_fits(grid, connection_points, sampled, templates, shapes) ==> some_field_fits(
            grid,
            shapes,
            path_points,
            available_space(grid),
            Set::empty(),
            templates,
        ),
{
    if settlement_building_fits(grid, connection_points, sampled, templates, occupied) {
        let (p, i) = choose|p: Point, i: int|
            is_settlement_point(grid, connection_points, sampled, p) && 0 <= i < templates.len() && #[trigger] fits(
                templates[i],
                p,
                available_space(grid),
                occupied,
            );
        assert(path_points.contains(p));
        let k = choose|k: int| 0 <= k < path_points.len() && path_points[k] == p;
        assert(fits(templates[i], path_points[k], available_space(grid), occupied));
    }
    if settlement_field_fits(grid, connection_points, sampled, templates, shapes) {
        let (s, k, e, p) = choose|s: int, k: nat, e: int, p: Point|
            is_entrance_index(shapes, s, k, e) && is_settlement_point(grid, connection_points, sampled, p) && {
                let proposed = #[trigger] placed_tiles(shape_layout_tiles(shapes, s, k, e), p, FieldType::Wheat);
                &&& proposed.len() > 0
                &&& tiles_free(proposed, available_space(grid), Set::empty())
                &&& on_one_level(grid, proposed)
                &&& settlement_building_fits(grid, connection_points, sampled, templates, tile_positions(proposed))
            };
        let proposed = placed_tiles(shape_layout_tiles(shapes, s, k, e), p, FieldType::Wheat);
        let tp = tile_positions(proposed);
        let (p2, i2) = choose|p2: Point, i2: int|
            is_settlement_point(grid, connection_points, sampled, p2) && 0 <= i2 < templates.len() && #[trigger] fits(
                templates[i2],
                p2,
                available_space(grid),
                tp,
            );
        assert(Set::<Point>::empty().union(tp) =~= tp);
        assert(path_points.contains(p2));
        let k2 = choose|k2: int| 0 <= k2 < path_points.len() && path_points[k2] == p2;
        assert(fits(templates[i2], path_points[k2], available_space(grid), Set::<Point>::empty().union(tp)));
        assert(some_building_fits(templates, path_points, available_space(grid), Set::<Point>::empty().union(tp)));
        assert(path_points.contains(p));
        let j = choose|j: int| 0 <= j < path_points.len() && path_points[j] == p;
        assert(field_fits(grid, proposed, path_points, available_space(grid), Set::empty(), templates));
        assert(field_fits(
            grid,
            placed_tiles(shape_layout_tiles(shapes, s, k, e), path_points[j], FieldType::Wheat),
            path_points,
            available_space(grid),
            Set::empty(),
            templates,
        ));
    }
}

/// Whether `q` is a tile of one of the buildings, each given by the index of its template and the point it is
/// entered from.
pub open spec fn building_covers(templates: Seq<BuildingTemplate>, buildings: Seq<(int, Point)>, q: Point) -> bool {
    exists|m: int|
        0 <= m < buildings.len() && templates[buildings[m].0].covers(
            templates[buildings[m].0].spec_origin_from_connection(buildings[m].1),
            q,
        )
}

/// Whether `buildings`, each given by the index of its template and the point it is entered from, are the buildings
/// a settlement placed in `before` to give `after`: each stands whole at a settlement point (see
/// [`building_stands`]), and every available cell that became a building cell, not a field cell, is a tile of one.
pub open spec fn buildings_placed_in(
    before: ObjectGrid,
    after: ObjectGrid,
    connection_points: Seq<Point>,
    sampled: Seq<Point>,
    templates: Seq<BuildingTemplate>,
    buildings: Seq<(int, Point)>,
) -> bool {
    &&& forall|m: int|
        0 <= m < buildings.len() ==> 0 <= (#[trigger] buildings[m]).0 < templates.len() && is_settlement_point(
            before,
            connection_points,
            sampled,
            buildings[m].1,
        ) && building_stands(after, templates[buildings[m].0], buildings[m].1)
    &&& forall|q: Point|
        q.spec_is_inside_grid() && is_available(before, q) && #[trigger] is_building_cell(after.cell_at(q), templates)
            && !is_field_cell(after.cell_at(q)) && !is_building_cell(before.cell_at(q), templates) ==> building_covers(
            templates,
            buildings,
            q,
        )
}

/// Places a settlement on the grid if path and settlement generation are enabled and the chunk is settled: along
/// the path points (the connection points as [`add_valid_connection_points`] keeps them, then the sampled points of
/// the generated path, cleaned up by [`clean_up_path_points`]) it places fields (see [`place_fields`]) and then
/// buildings (see [`place_buildings`]) on the available positions (see [`compute_available_space_map`]).
pub fn place_settlement_on_grid(
    object_grid: &mut ObjectGrid,
    generate_paths: bool,
    generate_settlements: bool,
    is_settled: bool,
    connection_points: &Vec<Point>,
    sampled_path_points: &Vec<Point>,
    building_templates: &Vec<BuildingTemplate>,
    field_shapes: &Vec<FieldShape>,
    rng: &mut StdRng,
)
    requires
        old(object_grid).wf(),
        all_wf(building_templates@),
        forall|s: int| 0 <= s < field_shapes@.len() ==> is_usable_shape((#[trigger] field_shapes@[s]).tiles@),
        generate_paths && generate_settlements && is_settled ==> settlement_points_joinable(
            *old(object_grid),
            connection_points@,
            sampled_path_points@,
        ),
    ensures
        !(generate_paths && generate_settlements && is_settled) ==> *final(object_grid) == *old(object_grid),
        final(object_grid).wf(),
        final(object_grid).cg == old(object_grid).cg,
        final(object_grid).path == old(object_grid).path,
        forall|q: Point|
            q.spec_is_inside_grid() ==> #[trigger] final(object_grid).cell_at(q) == old(object_grid).cell_at(q) || (
            is_available(*old(object_grid), q) && (is_field_cell(final(object_grid).cell_at(q)) || is_building_cell(
                final(object_grid).cell_at(q),
                building_templates@,
            ))) || (is_path_point(*old(object_grid), q) && is_collapsed_path_cell(final(object_grid).cell_at(q))
                && road_branches(final(object_grid).cell_at(q).states()[0].0).len() > 0),
        generate_paths && generate_settlements && is_settled && (exists|p: Point, i: int|
            is_settlement_point(*old(object_grid), connection_points@, sampled_path_points@, p) && 0 <= i
                < building_templates@.len() && #[trigger] fits(
                building_templates@[i],
                p,
                available_space(*old(object_grid)),
                Set::empty(),
            )) ==> exists|q: Point|
            is_available(*old(object_grid), q) && #[trigger] is_building_cell(
                final(object_grid).cell_at(q),
                building_templates@,
            ),
        generate_paths && generate_settlements && is_settled && settlement_building_fits(
            *old(object_grid),
            connection_points@,
            sampled_path_points@,
            building_templates@,
            Set::empty(),
        ) && settlement_field_fits(
            *old(object_grid),
            connection_points@,
            sampled_path_points@,
            building_templates@,
            field_shapes@,
        ) ==> exists|q: Point| is_available(*old(object_grid), q) && #[trigger] is_field_cell(final(object_grid).cell_at(q)),
        !(generate_paths && generate_settlements && is_settled) ==> *final(rng) == *old(rng),
        exists|fields: Seq<Set<Point>>|
            {
                &&& fields.len() <= 2
                &&& forall|i: int|
                    0 <= i < fields.len() ==> on_one_terrain(*old(object_grid), #[trigger] fields[i])
                        && entered_from_settlement_point(
                        *old(object_grid),
                        connection_points@,
                        sampled_path_points@,
                        fields[i],
                    )
                &&& forall|q: Point|
                    #[trigger] union_of(fields).contains(q) ==> is_available(*old(object_grid), q) && is_field_cell(
                        final(object_grid).cell_at(q),
                    )
                &&& forall|q: Point|
                    q.spec_is_inside_grid() && #[trigger] final(object_grid).cell_at(q) != old(object_grid).cell_at(q)
                        ==> union_of(fields).contains(q) || (is_available(*old(object_grid), q) && is_building_cell(
                        final(object_grid).cell_at(q),
                        building_templates@,
                    )) || is_path_point(*old(object_grid), q)
            },
        exists|buildings: Seq<(int, Point)>|
            #[trigger] buildings_placed_in(
                *old(object_grid),
                *final(object_grid),
                connection_points@,
                sampled_path_points@,
                building_templates@,
                buildings,
            ),
{
    proof {
        let no_buildings: Seq<(int, Point)> = Seq::empty();
        assert(buildings_placed_in(
            *old(object_grid),
            *old(object_grid),
            connection_points@,
            sampled_path_points@,
            building_templates@,
            no_buildings,
        ));
    }
    proof {
        let none: Seq<Set<Point>> = Seq::empty();
        assert(union_of(none) =~= Set::<Point>::empty());
    }
    if !generate_paths || !generate_settlements || !is_settled {
        return;
    }
    let ghost grid0 = *object_grid;
    let mut path_points: Vec<Point> = Vec::new();
    add_valid_connection_points(&mut path_points, connection_points);
    let mut k: usize = 0;
    let ghost kept = path_points@;
    while k < sampled_path_points.len()
        invariant
            k <= sampled_path_points@.len(),
            path_points@ == kept + sampled_path_points@.subrange(0, k as int),
        decreases sampled_path_points@.len() - k,
    {
        path_points.push(sampled_path_points[k]);
        k = k + 1;
        proof {
            assert(path_points@ =~= kept + sampled_path_points@.subrange(0, k as int));
        }
    }
    proof {
        assert(sampled_path_points@.subrange(0, k as int) =~= sampled_path_points@);
        assert(kept =~= kept_connection_points(connection_points@));
    }
    let ghost gathered = path_points@;
    clean_up_path_points(&mut path_points, object_grid);
    proof {
        assert forall|p: Point| #[trigger] path_points@.contains(p) <==> is_settlement_point(
            grid0,
            connection_points@,
            sampled_path_points@,
            p,
        ) by {
            if gathered.contains(p) {
                let j = choose|j: int| 0 <= j < gathered.len() && gathered[j] == p;
                if j < kept.len() {
                    assert(kept[j] == p);
                    assert(kept.contains(p));
                } else {
                    assert(sampled_path_points@[j - kept.len()] == p);
                    assert(sampled_path_points@.contains(p));
                }
            }
            if sampled_path_points@.contains(p) {
                let j = choose|j: int| 0 <= j < sampled_path_points@.len() && sampled_path_points@[j] == p;
                assert(gathered[kept.len() + j] == p);
            }
            if kept.contains(p) {
                let j = choose|j: int| 0 <= j < kept.len() && kept[j] == p;
                assert(gathered[j] == p);
            }
        }
    }
    let ghost premise = exists|p: Point, i: int|
        is_settlement_point(grid0, connection_points@, sampled_path_points@, p) && 0 <= i < building_templates@.len()
            && #[trigger] fits(building_templates@[i], p, available_space(grid0), Set::empty());
    let ghost mut witness_point = Point { x: 0, y: 0 };
    let ghost mut witness_template = 0int;
    proof {
        if premise {
            let (p, i) = choose|p: Point, i: int|
                is_settlement_point(grid0, connection_points@, sampled_path_points@, p) && 0 <= i
                    < building_templates@.len() && #[trigger] fits(
                    building_templates@[i],
                    p,
                    available_space(grid0),
                    Set::empty(),
                );
            witness_point = p;
            witness_template = i;
            if sampled_path_points@.contains(p) {
                let j = choose|j: int| 0 <= j < sampled_path_points@.len() && sampled_path_points@[j] == p;
                assert(gathered[kept.len() + j] == p);
            } else {
                let j = choose|j: int| 0 <= j < kept.len() && kept[j] == p;
                assert(gathered[j] == p);
            }
            assert(gathered.contains(p));
            assert(path_points@.contains(p));
        }
    }
    if path_points.len() == 0 {
        return;
    }
    let available_grid_space = compute_available_space_map(object_grid);
    let mut occupied_grid_space = PointSet::new();
    proof {
        assert(available_grid_space@ =~= available_space(grid0));
        assert forall|j: int| 0 <= j < path_points@.len() implies {
            let p = #[trigger] path_points@[j];
            &&& p.spec_is_inside_grid()
            &&& beside_available(available_grid_space@, p) ==> is_collapsed_path_cell(object_grid.cell_at(p))
                && road_branches(object_grid.cell_at(p).states()[0].0).len() > 0
        } by {
            assert(path_points@.contains(path_points@[j]));
            assert(is_path_point(*object_grid, path_points@[j]));
        }
        assert forall|j: int| 0 <= j < path_points@.len() implies !available_grid_space@.contains(
            #[trigger] path_points@[j],
        ) by {
            assert(path_points@.contains(path_points@[j]));
        }
    }
    let ghost occupied0 = occupied_grid_space@;
    let ghost field_premise = settlement_building_fits(
        grid0,
        connection_points@,
        sampled_path_points@,
        building_templates@,
        Set::empty(),
    ) && settlement_field_fits(grid0, connection_points@, sampled_path_points@, building_templates@, field_shapes@);
    proof {
        lemma_settlement_fits(
            grid0,
            connection_points@,
            sampled_path_points@,
            building_templates@,
            field_shapes@,
            path_points@,
            Set::empty(),
        );
        assert(available_grid_space@ =~= available_space(grid0));
        assert(occupied0 =~= Set::<Point>::empty());
    }
    let fields_placed = place_fields(
        object_grid,
        &path_points,
        &available_grid_space,
        building_templates,
        field_shapes,
        &mut occupied_grid_space,
        rng,
    );
    let ghost grid1 = *object_grid;
    let ghost occupied1 = occupied_grid_space@;
    let ghost mut field_point = Point { x: 0, y: 0 };
    proof {
        if field_premise {
            assert(fields_placed >= 1);
            field_point = choose|q: Point| #[trigger] occupied1.contains(q) && !occupied0.contains(q);
            assert(is_field_cell(grid1.cell_at(field_point)));
            assert(available_grid_space@.contains(field_point));
        }
    }
    proof {
        if premise {
            assert(available_grid_space@ =~= available_space(grid0));
            assert(occupied0 =~= Set::<Point>::empty());
            let j = choose|j: int| 0 <= j < path_points@.len() && path_points@[j] == witness_point;
            assert(fits(building_templates@[witness_template], path_points@[j], available_grid_space@, occupied0));
            assert(crate::settlement::buildings::some_building_fits(
                building_templates@,
                path_points@,
                available_grid_space@,
                occupied0,
            ));
        }
    }
    let buildings_placed = place_buildings(
        object_grid,
        &path_points,
        &available_grid_space,
        building_templates,
        &mut occupied_grid_space,
        rng,
    );
    proof {
        if field_premise {
            let q = field_point;
            assert(!occupied_grid_space@.difference(occupied1).contains(q));
            assert(!path_points@.contains(q));
            assert(object_grid.cell_at(q) == grid1.cell_at(q));
            assert(is_available(grid0, q));
            assert(is_field_cell(object_grid.cell_at(q)));
        }
        if premise {
            assert(buildings_placed > 0);
            let q = choose|q: Point| #[trigger] occupied_grid_space@.contains(q) && !occupied1.contains(q);
            assert(is_building_cell(object_grid.cell_at(q), building_templates@));
            assert(available_grid_space@.contains(q));
            assert(is_available(grid0, q));
        }
    }
    proof {
        assert forall|q: Point| q.spec_is_inside_grid() implies #[trigger] object_grid.cell_at(q) == grid0.cell_at(q) || (
            is_available(grid0, q) && (is_field_cell(object_grid.cell_at(q)) || is_building_cell(
                object_grid.cell_at(q),
                building_templates@,
            ))) || (is_path_point(grid0, q) && is_collapsed_path_cell(object_grid.cell_at(q)) && road_branches(
            object_grid.cell_at(q).states()[0].0,
        ).len() > 0) by {
            if path_points@.contains(q) {
                let j = choose|j: int| 0 <= j < path_points@.len() && path_points@[j] == q;
                assert(roads_ready(*object_grid, path_points@, available_grid_space@));
                if !beside_available(available_grid_space@, path_points@[j]) {
                    assert(grid1.cell_at(path_points@[j]) == grid0.cell_at(path_points@[j]));
                    assert(object_grid.cell_at(path_points@[j]) == grid1.cell_at(path_points@[j]));
                } else {
                    assert(is_collapsed_path_cell(object_grid.cell_at(path_points@[j])));
                }
            } else if !available_grid_space@.contains(q) {
                assert(!occupied_grid_space@.difference(occupied1).contains(q));
                assert(!occupied1.difference(occupied0).contains(q));
                assert(object_grid.cell_at(q) == grid1.cell_at(q));
            } else if occupied_grid_space@.contains(q) && !occupied1.contains(q) {
                assert(is_building_cell(object_grid.cell_at(q), building_templates@));
            } else if occupied1.contains(q) && !occupied0.contains(q) {
                assert(!occupied_grid_space@.difference(occupied1).contains(q));
                assert(object_grid.cell_at(q) == grid1.cell_at(q));
                assert(is_field_cell(grid1.cell_at(q)));
            } else {
                assert(!occupied_grid_space@.difference(occupied1).contains(q));
                assert(!occupied1.difference(occupied0).contains(q));
                assert(object_grid.cell_at(q) == grid1.cell_at(q));
            }
        }
        let fields = choose|fields: Seq<Set<Point>>|
            fields.len() == fields_placed && #[trigger] union_of(fields) == occupied1.difference(occupied0) && forall|i: int|
                0 <= i < fields.len() ==> on_one_terrain(grid0, #[trigger] fields[i]) && entered_from(
                    fields[i],
                    path_points@,
                );
        assert forall|i: int| 0 <= i < fields.len() implies entered_from_settlement_point(
            grid0,
            connection_points@,
            sampled_path_points@,
            #[trigger] fields[i],
        ) by {
            assert(entered_from(fields[i], path_points@));
            let (k, d) = choose|k: int, d: Point|
                #![trigger path_points@[k], fields[i].contains(d)]
                0 <= k < path_points@.len() && fields[i].contains(d) && is_next_to(path_points@[k], d);
            assert(path_points@.contains(path_points@[k]));
            assert(is_settlement_point(grid0, connection_points@, sampled_path_points@, path_points@[k]));
        }
        assert forall|q: Point| #[trigger] union_of(fields).contains(q) implies is_available(grid0, q) && is_field_cell(
            object_grid.cell_at(q),
        ) by {
            assert(occupied1.contains(q) && !occupied0.contains(q));
            assert(!occupied_grid_space@.difference(occupied1).contains(q));
            assert(available_grid_space@.contains(q));
            assert(!path_points@.contains(q));
            assert(object_grid.cell_at(q) == grid1.cell_at(q));
        }
        assert forall|q: Point|
            q.spec_is_inside_grid() && #[trigger] object_grid.cell_at(q) != grid0.cell_at(q) implies union_of(fields).contains(q)
                || (is_available(grid0, q) && is_building_cell(object_grid.cell_at(q), building_templates@))
                || is_path_point(grid0, q) by {
            if path_points@.contains(q) {
                assert(is_settlement_point(grid0, connection_points@, sampled_path_points@, q));
            } else if !available_grid_space@.contains(q) {
                assert(!occupied_grid_space@.difference(occupied1).contains(q));
                assert(!occupied1.difference(occupied0).contains(q));
                assert(object_grid.cell_at(q) == grid1.cell_at(q));
            } else if occupied_grid_space@.contains(q) && !occupied1.contains(q) {
                assert(is_building_cell(object_grid.cell_at(q), building_templates@));
            } else if occupied1.contains(q) && !occupied0.contains(q) {
                assert(union_of(fields).contains(q));
            } else {
                assert(!occupied_grid_space@.difference(occupied1).contains(q));
                assert(!occupied1.difference(occupied0).contains(q));
                assert(object_grid.cell_at(q) == grid1.cell_at(q));
            }
        }
        assert(fields.len() <= 2);
        let placements = choose|placements: Seq<(int, int)>|
            {
                &&& placements.len() == buildings_placed
                &&& placements_stand(*object_grid, building_templates@, path_points@, placements)
                &&& forall|q: Point|
                    (occupied_grid_space@.contains(q) && !occupied1.contains(q)) == #[trigger] covered_by(
                        building_templates@,
                        path_points@,
                        placements,
                        q,
                    )
            };
        let buildings = Seq::new(placements.len(), |m: int| (placements[m].0, path_points@[placements[m].1]));
        assert forall|m: int| 0 <= m < buildings.len() implies 0 <= (#[trigger] buildings[m]).0 < building_templates@.len()
            && is_settlement_point(grid0, connection_points@, sampled_path_points@, buildings[m].1) && building_stands(
            *object_grid,
            building_templates@[buildings[m].0],
            buildings[m].1,
        ) by {
            crate::settlement::buildings::lemma_placement_stands(
                *object_grid,
                building_templates@,
                path_points@,
                placements,
                m,
            );
            assert(path_points@.contains(path_points@[placements[m].1]));
        }
        assert forall|q: Point|
            q.spec_is_inside_grid() && is_available(grid0, q) && #[trigger] is_building_cell(
                object_grid.cell_at(q),
                building_templates@,
            ) && !is_field_cell(object_grid.cell_at(q)) && !is_building_cell(grid0.cell_at(q), building_templates@)
                implies building_covers(building_templates@, buildings, q) by {
            assert(object_grid.cell_at(q) != grid0.cell_at(q));
            assert(available_grid_space@.contains(q));
            assert(!path_points@.contains(q));
            if occupied_grid_space@.contains(q) && !occupied1.contains(q) {
                assert(covered_by(building_templates@, path_points@, placements, q));
                let m = choose|m: int|
                    0 <= m < placements.len() && building_templates@[placements[m].0].covers(
                        building_templates@[placements[m].0].spec_origin_from_connection(path_points@[placements[m].1]),
                        q,
                    );
                assert(buildings[m] == (placements[m].0, path_points@[placements[m].1]));
            } else if occupied1.contains(q) && !occupied0.contains(q) {
                assert(!occupied_grid_space@.difference(occupied1).contains(q));
                assert(object_grid.cell_at(q) == grid1.cell_at(q));
                assert(is_field_cell(grid1.cell_at(q)));
            } else {
                assert(!occupied_grid_space@.difference(occupied1).contains(q));
                assert(!occupied1.difference(occupied0).contains(q));
                assert(object_grid.cell_at(q) == grid1.cell_at(q));
            }
        }
        assert(buildings_placed_in(
            grid0,
            *object_grid,
            connection_points@,
            sampled_path_points@,
            building_templates@,
            buildings,
        ));
    }
}


/// Whether the points are in strictly increasing order by row and then column.
pub open spec fn strictly_ordered(points: Seq<Point>) -> bool {
    forall|i: int, j: int| 0 <= i < j < points.len() ==> is_before(points[i], points[j])
}

/// Two lists in strictly increasing order by row and then column that hold the same points are equal.
proof fn lemma_ordered_lists_with_same_points(a: Seq<Point>, b: Seq<Point>)
    requires
        strictly_ordered(a),
        strictly_ordered(b),
        forall|p: Point| a.contains(p) <==> b.contains(p),
    ensures
        a == b,
    decreases a.len(),
{
    if a.len() == 0 {
        if b.len() > 0 {
            assert(b.contains(b[0]));
        }
        assert(a =~= b);
    } else {
        assert(a.contains(a[0]));
        assert(b.contains(a[0]));
        assert(b.len() > 0);
        assert(b.contains(b[0]));
        assert(a.contains(b[0]));
        if a[0] != b[0] {
            let i = choose|i: int| 0 <= i < a.len() && a[i] == b[0];
            let j = choose|j: int| 0 <= j < b.len() && b[j] == a[0];
            assert(i > 0 && j > 0);
            assert(is_before(a[0], a[i]));
            assert(is_before(b[0], b[j]));
        }
        let ra = a.drop_first();
        let rb = b.drop_first();
        assert forall|p: Point| ra.contains(p) <==> rb.contains(p) by {
            if ra.contains(p) {
                let i = choose|i: int| 0 <= i < ra.len() && ra[i] == p;
                assert(a[i + 1] == p);
                assert(is_before(a[0], a[i + 1]));
                assert(a.contains(p));
                let j = choose|j: int| 0 <= j < b.len() && b[j] == p;
                if j == 0 {
                    assert(p == a[0]);
                }
                assert(rb[j - 1] == p);
            }
            if rb.contains(p) {
                let j = choose|j: int| 0 <= j < rb.len() && rb[j] == p;
                assert(b[j + 1] == p);
                assert(is_before(b[0], b[j + 1]));
                assert(b.contains(p));
                let i = choose|i: int| 0 <= i < a.len() && a[i] == p;
                if i == 0 {
                    assert(p == b[0]);
                }
                assert(ra[i - 1] == p);
            }
        }
        lemma_ordered_lists_with_same_points(ra, rb);
        assert(a =~= seq![a[0]] + ra);
        assert(b =~= seq![b[0]] + rb);
    }
}

/// Cleaning up path points does not depend on the order or repetition of the points: two lists that hold the same
/// points are cleaned up to the same list on the same grid.
pub proof fn lemma_clean_up_ignores_point_order(
    grid: ObjectGrid,
    first: Seq<Point>,
    second: Seq<Point>,
    first_cleaned: Seq<Point>,
    second_cleaned: Seq<Point>,
)
    requires
        forall|p: Point| first.contains(p) <==> second.contains(p),
        strictly_ordered(first_cleaned),
        strictly_ordered(second_cleaned),
        forall|p: Point| first_cleaned.contains(p) <==> (first.contains(p) && is_path_point(grid, p)),
        forall|p: Point| second_cleaned.contains(p) <==> (second.contains(p) && is_path_point(grid, p)),
    ensures
        first_cleaned == second_cleaned,
{
    assert forall|p: Point| first_cleaned.contains(p) <==> second_cleaned.contains(p) by {
        assert(first_cleaned.contains(p) <==> (first.contains(p) && is_path_point(grid, p)));
        assert(second_cleaned.contains(p) <==> (second.contains(p) && is_path_point(grid, p)));
    }
    lemma_ordered_lists_with_same_points(first_cleaned, second_cleaned);
}

} // verus!
