use crate::coords::{Direction, Point};
use crate::object::object_grid::ObjectGrid;
use crate::object::object_name::ObjectName;
use crate::random::{random_index, seeded_rng};
use crate::settlement::building_template::{is_near, BuildingTemplate};
use crate::settlement::point_set::PointSet;
use crate::settlement::road::{is_collapsed_path_cell, road_branches, update_path_in_front_of_entrance};
use rand::rngs::StdRng;
use vstd::prelude::*;

verus! {

/// Whether no tile of the building from `template` entered at `path_ig` lies on a position of `occupied`.
pub open spec fn is_free(template: BuildingTemplate, path_ig: Point, occupied: Set<Point>) -> bool {
    let origin = template.spec_origin_from_connection(path_ig);
    forall|p: Point| #[trigger] template.covers(origin, p) ==> !occupied.contains(p)
}

/// Whether the building from `template` entered at `path_ig` can be placed on available positions without
/// overlapping any occupied one.
pub open spec fn fits(template: BuildingTemplate, path_ig: Point, available: Set<Point>, occupied: Set<Point>) -> bool {
    template.spec_is_placeable_at_path(path_ig, available) && is_free(template, path_ig, occupied)
}

/// Whether at least one of the templates fits at one of the path points with the given positions taken.
pub open spec fn some_building_fits(
    templates: Seq<BuildingTemplate>,
    path_points: Seq<Point>,
    available: Set<Point>,
    occupied: Set<Point>,
) -> bool {
    exists|k: int, i: int|
        0 <= k < path_points.len() && 0 <= i < templates.len() && fits(
            #[trigger] templates[i],
            #[trigger] path_points[k],
            available,
            occupied,
        )
}

/// Whether every template is well formed.
pub open spec fn all_wf(templates: Seq<BuildingTemplate>) -> bool {
    forall|i: int| 0 <= i < templates.len() ==> (#[trigger] templates[i]).wf()
}

/// Returns whether every template satisfies its invariant (see [`all_wf`]).
pub fn all_templates_valid(templates: &Vec<BuildingTemplate>) -> (valid: bool)
    ensures
        valid == all_wf(templates@),
{
    let mut i: usize = 0;
    while i < templates.len()
        invariant
            i <= templates@.len(),
            forall|j: int| 0 <= j < i ==> (#[trigger] templates@[j]).wf(),
        decreases templates@.len() - i,
    {
        if !templates[i].is_valid() {
            return false;
        }
        i = i + 1;
    }
    true
}

/// Returns whether the building from `template`, placeable at `path_ig`, leaves every occupied position free.
fn is_unoccupied(template: &BuildingTemplate, path_ig: Point, occupied: &PointSet) -> (result: bool)
    requires
        template.wf(),
        occupied.wf(),
        is_near(path_ig),
        template.spec_is_placeable_at_path(path_ig, Set::new(|p: Point| p.spec_is_inside_grid())),
    ensures
        result == is_free(*template, path_ig, occupied@),
{
    let origin = template.calculate_origin_ig_from_connection_point(path_ig);
    proof {
        assert(origin.x + template.width <= 32 && origin.y + template.height <= 32);
    }
    let mut y: i32 = 0;
    while y < template.height
        invariant
            template.wf(),
            occupied.wf(),
            origin == template.spec_origin_from_connection(path_ig),
            0 <= origin.x && origin.x + template.width <= 32,
            0 <= origin.y && origin.y + template.height <= 32,
            0 <= y <= template.height,
            forall|p: Point| #[trigger] template.covers(origin, p) && p.y < origin.y + y ==> !occupied@.contains(p),
        decreases template.height - y,
    {
        let mut x: i32 = 0;
        while x < template.width
            invariant
                template.wf(),
                occupied.wf(),
                origin == template.spec_origin_from_connection(path_ig),
                0 <= origin.x && origin.x + template.width <= 32,
                0 <= origin.y && origin.y + template.height <= 32,
                0 <= y < template.height,
                0 <= x <= template.width,
                forall|p: Point|
                    #[trigger] template.covers(origin, p) && p.y < origin.y + y ==> !occupied@.contains(p),
                forall|p: Point|
                    #[trigger] template.covers(origin, p) && p.y == origin.y + y && p.x < origin.x + x
                        ==> !occupied@.contains(p),
            decreases template.width - x,
        {
            let ig = Point::new_internal_grid(origin.x + x, origin.y + y);
            if occupied.contains(&ig) {
                proof {
                    assert(template.covers(origin, ig));
                }
                return false;
            }
            x = x + 1;
        }
        y = y + 1;
    }
    true
}

/// Selects, at random, one of the building templates that fit at the path point `path_connection_ig` (see
/// [`fits`]); `None` if none fits.
pub fn select_fitting_building<'a>(
    building_templates: &'a Vec<BuildingTemplate>,
    path_connection_ig: Point,
    available_space: &PointSet,
    occupied_space: &PointSet,
    rng: &mut StdRng,
) -> (selected: Option<&'a BuildingTemplate>)
    requires
        all_wf(building_templates@),
        available_space.wf(),
        occupied_space.wf(),
        is_near(path_connection_ig),
    ensures
        selected.is_none() <==> forall|i: int|
            0 <= i < building_templates@.len() ==> !fits(
                #[trigger] building_templates@[i],
                path_connection_ig,
                available_space@,
                occupied_space@,
            ),
        selected matches Some(t) ==> exists|i: int|
            0 <= i < building_templates@.len() && *t == building_templates@[i] && fits(
                #[trigger] building_templates@[i],
                path_connection_ig,
                available_space@,
                occupied_space@,
            ),
{
    let mut fitting: Vec<usize> = Vec::new();
    let mut i: usize = 0;
    while i < building_templates.len()
        invariant
            all_wf(building_templates@),
            available_space.wf(),
            occupied_space.wf(),
            is_near(path_connection_ig),
            i <= building_templates@.len(),
            forall|k: int|
                0 <= k < fitting@.len() ==> (#[trigger] fitting@[k]) < building_templates@.len() && fits(
                    building_templates@[fitting@[k] as int],
                    path_connection_ig,
                    available_space@,
                    occupied_space@,
                ),
            forall|j: int|
                0 <= j < i && fits(
                    #[trigger] building_templates@[j],
                    path_connection_ig,
                    available_space@,
                    occupied_space@,
                ) ==> fitting@.contains(j as usize),
        decreases building_templates@.len() - i,
    {
        let template = &building_templates[i];
        proof {
            assert(template.wf());
        }
        if template.is_placeable_at_path(path_connection_ig, available_space) {
            proof {
                assert forall|p: Point| available_space@.contains(p) implies Set::new(
                    |q: Point| q.spec_is_inside_grid(),
                ).contains(p) by {
                }
                let origin = template.spec_origin_from_connection(path_connection_ig);
                assert forall|p: Point| #[trigger] template.covers(origin, p) implies Set::new(
                    |q: Point| q.spec_is_inside_grid(),
                ).contains(p) by {
                    assert(available_space@.contains(p));
                }
            }
            if is_unoccupied(template, path_connection_ig, occupied_space) {
                let ghost before = fitting@;
                fitting.push(i);
                proof {
                    assert(fitting@[fitting@.len() - 1] == i);
                    assert forall|j: int| 0 <= j < i && fits(
                        #[trigger] building_templates@[j],
                        path_connection_ig,
                        available_space@,
                        occupied_space@,
                    ) implies fitting@.contains(j as usize) by {
                        crate::object::cell::lemma_push_contains(before, i, j as usize);
                    }
                }
            }
        }
        i = i + 1;
    }
    if fitting.len() == 0 {
        proof {
            assert forall|j: int| 0 <= j < building_templates@.len() implies !fits(
                #[trigger] building_templates@[j],
                path_connection_ig,
                available_space@,
                occupied_space@,
            ) by {
                if fits(building_templates@[j], path_connection_ig, available_space@, occupied_space@) {
                    assert(fitting@.contains(j as usize));
                }
            }
        }
        return None;
    }
    let index = random_index(rng, fitting.len());
    let chosen = fitting[index];
    proof {
        assert(fits(building_templates@[chosen as int], path_connection_ig, available_space@, occupied_space@));
    }
    Some(&building_templates[chosen])
}

/// Adds the positions covered by the building with its top-left corner at `origin` to `space`.
fn reserve_building(template: &BuildingTemplate, origin: Point, space: &mut PointSet)
    requires
        template.wf(),
        old(space).wf(),
        0 <= origin.x && origin.x + template.width <= 32,
        0 <= origin.y && origin.y + template.height <= 32,
    ensures
        final(space).wf(),
        final(space)@ == old(space)@.union(Set::new(|p: Point| template.covers(origin, p))),
{
    let ghost before = space@;
    let mut y: i32 = 0;
    while y < template.height
        invariant
            template.wf(),
            space.wf(),
            0 <= origin.x && origin.x + template.width <= 32,
            0 <= origin.y && origin.y + template.height <= 32,
            0 <= y <= template.height,
            space@ == before.union(Set::new(|p: Point| template.covers(origin, p) && p.y < origin.y + y)),
        decreases template.height - y,
    {
        let mut x: i32 = 0;
        while x < template.width
            invariant
                template.wf(),
                space.wf(),
                0 <= origin.x && origin.x + template.width <= 32,
                0 <= origin.y && origin.y + template.height <= 32,
                0 <= y < template.height,
                0 <= x <= template.width,
                space@ == before.union(
                    Set::new(
                        |p: Point|
                            template.covers(origin, p) && (p.y < origin.y + y || (p.y == origin.y + y && p.x
                                < origin.x + x)),
                    ),
                ),
            decreases template.width - x,
        {
            let ig = Point::new_internal_grid(origin.x + x, origin.y + y);
            space.insert(&ig);
            x = x + 1;
            proof {
                assert(space@ =~= before.union(
                    Set::new(
                        |p: Point|
                            template.covers(origin, p) && (p.y < origin.y + y || (p.y == origin.y + y && p.x
                                < origin.x + x)),
                    ),
                ));
            }
        }
        y = y + 1;
        proof {
            assert(space@ =~= before.union(
                Set::new(|p: Point| template.covers(origin, p) && p.y < origin.y + y),
            ));
        }
    }
    proof {
        assert(space@ =~= before.union(Set::new(|p: Point| template.covers(origin, p))));
    }
}

/// Estimates how many buildings fit, one after another without overlapping, at the path points, with the
/// positions of `reserved_grid_space` taken; the buildings are chosen as [`select_fitting_building`] does, drawing
/// from a generator seeded with `0`.
pub fn estimated_building_capacity(
    path_points: &Vec<Point>,
    available_grid_space: &PointSet,
    reserved_grid_space: PointSet,
    building_templates: &Vec<BuildingTemplate>,
) -> (count: usize)
    requires
        all_wf(building_templates@),
        available_grid_space.wf(),
        reserved_grid_space.wf(),
        forall|k: int| 0 <= k < path_points@.len() ==> (#[trigger] path_points@[k]).spec_is_inside_grid(),
    ensures
        count <= path_points@.len(),
        count == 0 <==> forall|k: int, i: int|
            0 <= k < path_points@.len() && 0 <= i < building_templates@.len() ==> !fits(
                #[trigger] building_templates@[i],
                #[trigger] path_points@[k],
                available_grid_space@,
                reserved_grid_space@,
            ),
{
    let mut reserved = reserved_grid_space;
    let ghost initial = reserved@;
    let mut rng = seeded_rng(0);
    let mut count: usize = 0;
    let mut k: usize = 0;
    while k < path_points.len()
        invariant
            all_wf(building_templates@),
            available_grid_space.wf(),
            reserved.wf(),
            forall|j: int| 0 <= j < path_points@.len() ==> (#[trigger] path_points@[j]).spec_is_inside_grid(),
            k <= path_points@.len(),
            count <= k,
            initial.subset_of(reserved@),
            count == 0 ==> reserved@ == initial,
            (forall|j: int, i: int|
                0 <= j < path_points@.len() && 0 <= i < building_templates@.len() ==> !fits(
                    #[trigger] building_templates@[i],
                    #[trigger] path_points@[j],
                    available_grid_space@,
                    initial,
                )) ==> count == 0,
            count == 0 ==> forall|j: int, i: int|
                0 <= j < k && 0 <= i < building_templates@.len() ==> !fits(
                    #[trigger] building_templates@[i],
                    #[trigger] path_points@[j],
                    available_grid_space@,
                    initial,
                ),
        decreases path_points@.len() - k,
    {
        let point = path_points[k];
        let ghost before = reserved@;
        match select_fitting_building(building_templates, point, available_grid_space, &reserved, &mut rng) {
            Some(template) => {
                let origin = template.calculate_origin_ig_from_connection_point(point);
                proof {
                    let i = choose|i: int|
                        0 <= i < building_templates@.len() && *template == building_templates@[i] && fits(
                            #[trigger] building_templates@[i],
                            point,
                            available_grid_space@,
                            before,
                        );
                    if count == 0 {
                        assert(before == initial);
                        assert(fits(building_templates@[i], path_points@[k as int], available_grid_space@, initial));
                    }
                }
                reserve_building(template, origin, &mut reserved);
                count = count + 1;
            },
            None => {},
        }
        k = k + 1;
    }
    count
}

/// Places a building from `building_template` with its top-left corner at `building_origin_ig`, each tile one of
/// its variants chosen at random, and marks its positions occupied. Returns `false` if a tile lies outside the
/// grid, the tiles before it placed already.
pub fn place_building(
    building_template: &BuildingTemplate,
    rng: &mut StdRng,
    building_origin_ig: Point,
    object_grid: &mut ObjectGrid,
    occupied_space: &mut PointSet,
) -> (placed: bool)
    requires
        building_template.wf(),
        old(object_grid).wf(),
        old(occupied_space).wf(),
        -0x1000_0000 <= building_origin_ig.x <= 0x1000_0000,
        -0x1000_0000 <= building_origin_ig.y <= 0x1000_0000,
    ensures
        final(object_grid).wf(),
        final(occupied_space).wf(),
        final(object_grid).cg == old(object_grid).cg,
        final(object_grid).path == old(object_grid).path,
        old(occupied_space)@.subset_of(final(occupied_space)@),
        placed <==> (0 <= building_origin_ig.x && building_origin_ig.x + building_template.width <= 32 && 0
            <= building_origin_ig.y && building_origin_ig.y + building_template.height <= 32),
        placed ==> final(occupied_space)@ == old(occupied_space)@.union(
            Set::new(|p: Point| building_template.covers(building_origin_ig, p)),
        ),
        forall|q: Point|
            q.spec_is_inside_grid() && !building_template.covers(building_origin_ig, q) ==> #[trigger] final(object_grid).cell_at(q) == old(object_grid).cell_at(q),
        forall|q: Point|
            q.spec_is_inside_grid() && building_template.covers(building_origin_ig, q) && placed ==> {
                let cell = #[trigger] final(object_grid).cell_at(q);
                &&& cell.is_collapsed
                &&& cell.states().len() == 1
                &&& building_template.tile_variants@[q.y - building_origin_ig.y]@[q.x
                    - building_origin_ig.x]@.contains(cell.states()[0].0)
                &&& cell.ig == old(object_grid).cell_at(q).ig
                &&& cell.terrain == old(object_grid).cell_at(q).terrain
            },
{
    let tiles = building_template.generate_tiles(rng);
    let ghost grid0 = *object_grid;
    let ghost space0 = occupied_space@;
    let mut y: i32 = 0;
    while y < building_template.height
        invariant
            building_template.wf(),
            object_grid.wf(),
            occupied_space.wf(),
            grid0.wf(),
            grid0 == *old(object_grid),
            space0 == old(occupied_space)@,
            object_grid.cg == grid0.cg,
            object_grid.path == grid0.path,
            -0x1000_0000 <= building_origin_ig.x <= 0x1000_0000,
            -0x1000_0000 <= building_origin_ig.y <= 0x1000_0000,
            tiles@.len() == building_template.height,
            forall|j: int| 0 <= j < building_template.height ==> (#[trigger] tiles@[j])@.len() == building_template.width,
            forall|j: int, x: int|
                0 <= j < building_template.height && 0 <= x < building_template.width
                    ==> building_template.tile_variants@[j]@[x]@.contains(#[trigger] tiles@[j]@[x]),
            0 <= y <= building_template.height,
            space0.subset_of(occupied_space@),
            forall|q: Point|
                q.spec_is_inside_grid() && !(building_template.covers(building_origin_ig, q) && q.y
                    < building_origin_ig.y + y) ==> #[trigger] object_grid.cell_at(q) == grid0.cell_at(q),
            forall|q: Point|
                q.spec_is_inside_grid() && building_template.covers(building_origin_ig, q) && q.y
                    < building_origin_ig.y + y ==> {
                    let cell = #[trigger] object_grid.cell_at(q);
                    &&& cell.is_collapsed
                    &&& cell.states().len() == 1
                    &&& cell.states()[0].0 == tiles@[q.y - building_origin_ig.y]@[q.x - building_origin_ig.x]
                    &&& cell.ig == grid0.cell_at(q).ig
                    &&& cell.terrain == grid0.cell_at(q).terrain
                },
            occupied_space@ == space0.union(
                Set::new(|p: Point| building_template.covers(building_origin_ig, p) && p.y < building_origin_ig.y + y),
            ),
            y > 0 ==> (0 <= building_origin_ig.x && building_origin_ig.x + building_template.width <= 32 && 0
                <= building_origin_ig.y && building_origin_ig.y + y <= 32),
        decreases building_template.height - y,
    {
        let mut x: i32 = 0;
        while x < building_template.width
            invariant
                building_template.wf(),
                object_grid.wf(),
                occupied_space.wf(),
                grid0.wf(),
                grid0 == *old(object_grid),
                space0 == old(occupied_space)@,
                object_grid.cg == grid0.cg,
                object_grid.path == grid0.path,
                -0x1000_0000 <= building_origin_ig.x <= 0x1000_0000,
                -0x1000_0000 <= building_origin_ig.y <= 0x1000_0000,
                tiles@.len() == building_template.height,
                forall|j: int|
                    0 <= j < building_template.height ==> (#[trigger] tiles@[j])@.len() == building_template.width,
                0 <= y < building_template.height,
                0 <= x <= building_template.width,
                space0.subset_of(occupied_space@),
                forall|q: Point|
                    q.spec_is_inside_grid() && !(building_template.covers(building_origin_ig, q) && (q.y
                        < building_origin_ig.y + y || (q.y == building_origin_ig.y + y && q.x < building_origin_ig.x
                        + x))) ==> #[trigger] object_grid.cell_at(q) == grid0.cell_at(q),
                forall|q: Point|
                    q.spec_is_inside_grid() && building_template.covers(building_origin_ig, q) && (q.y
                        < building_origin_ig.y + y || (q.y == building_origin_ig.y + y && q.x < building_origin_ig.x
                        + x)) ==> {
                        let cell = #[trigger] object_grid.cell_at(q);
                        &&& cell.is_collapsed
                        &&& cell.states().len() == 1
                        &&& cell.states()[0].0 == tiles@[q.y - building_origin_ig.y]@[q.x - building_origin_ig.x]
                        &&& cell.ig == grid0.cell_at(q).ig
                        &&& cell.terrain == grid0.cell_at(q).terrain
                    },
                occupied_space@ == space0.union(
                    Set::new(
                        |p: Point|
                            building_template.covers(building_origin_ig, p) && (p.y < building_origin_ig.y + y || (p.y
                                == building_origin_ig.y + y && p.x < building_origin_ig.x + x)),
                    ),
                ),
                y > 0 ==> (0 <= building_origin_ig.x && building_origin_ig.x + building_template.width <= 32 && 0
                    <= building_origin_ig.y && building_origin_ig.y + y <= 32),
                x > 0 ==> (0 <= building_origin_ig.x && building_origin_ig.x + x <= 32 && 0 <= building_origin_ig.y + y
                    < 32),
            decreases building_template.width - x,
        {
            let ig = Point::new_internal_grid(building_origin_ig.x + x, building_origin_ig.y + y);
            let name = tiles[y as usize][x as usize];
            let ghost before = *object_grid;
            let ghost space_before = occupied_space@;
            match object_grid.get_cell_mut(&ig) {
                Some(cell) => {
                    cell.mark_as_collapsed(name);
                },
                None => {
                    return false;
                },
            }
            proof {
                crate::object::object_grid::lemma_grid_after_cell_update(before, *object_grid, ig);
            }
            occupied_space.insert(&ig);
            x = x + 1;
            proof {
                assert(occupied_space@ =~= space0.union(
                    Set::new(
                        |p: Point|
                            building_template.covers(building_origin_ig, p) && (p.y < building_origin_ig.y + y || (p.y
                                == building_origin_ig.y + y && p.x < building_origin_ig.x + x)),
                    ),
                ));
            }
        }
        y = y + 1;
        proof {
            assert(occupied_space@ =~= space0.union(
                Set::new(|p: Point| building_template.covers(building_origin_ig, p) && p.y < building_origin_ig.y + y),
            ));
        }
    }
    proof {
        assert(occupied_space@ =~= space0.union(
            Set::new(|p: Point| building_template.covers(building_origin_ig, p)),
        ));
    }
    true
}

/// Whether `d` is one of the four positions next to `p`.
pub open spec fn is_next_to(p: Point, d: Point) -> bool {
    ||| d.x == p.x && (d.y == p.y + 1 || d.y == p.y - 1)
    ||| d.y == p.y && (d.x == p.x + 1 || d.x == p.x - 1)
}

/// Whether one of the four positions next to `p` is available, so that a structure could be entered from `p`.
pub open spec fn beside_available(available: Set<Point>, p: Point) -> bool {
    exists|d: Point| #[trigger] available.contains(d) && is_next_to(p, d)
}

/// Whether each path point lies within the grid and, where a structure could be entered from it (see
/// [`beside_available`]), on a road piece that connects somewhere.
pub open spec fn roads_ready(grid: ObjectGrid, path_points: Seq<Point>, available: Set<Point>) -> bool {
    forall|k: int|
        0 <= k < path_points.len() ==> {
            let p = #[trigger] path_points[k];
            &&& p.spec_is_inside_grid()
            &&& beside_available(available, p) ==> is_collapsed_path_cell(grid.cell_at(p)) && road_branches(
                grid.cell_at(p).states()[0].0,
            ).len() > 0
        }
}

/// Whether the path points from which no structure could be entered (see [`beside_available`]) hold in `after` what
/// they held in `before`.
pub open spec fn joins_beside(before: ObjectGrid, after: ObjectGrid, path_points: Seq<Point>, available: Set<Point>) -> bool {
    forall|k: int|
        0 <= k < path_points.len() && !beside_available(available, #[trigger] path_points[k]) ==> after.cell_at(
            path_points[k],
        ) == before.cell_at(path_points[k])
}

/// Whether `after` differs from `before` only on the positions of `changed` and on the path points.
pub open spec fn changed_only(before: ObjectGrid, after: ObjectGrid, changed: Set<Point>, path_points: Seq<Point>) -> bool {
    &&& after.wf()
    &&& after.cg == before.cg
    &&& after.path == before.path
    &&& forall|q: Point|
        q.spec_is_inside_grid() && !changed.contains(q) && !path_points.contains(q) ==> #[trigger] after.cell_at(q)
            == before.cell_at(q)
}

/// Joining a road piece towards the door of a building, from a path point beside an available position, keeps it a
/// road piece that connects somewhere, and changes no other cell.
pub proof fn lemma_join_keeps_roads_ready(
    before: ObjectGrid,
    after: ObjectGrid,
    path_points: Seq<Point>,
    available: Set<Point>,
    p: Point,
    entrance: Point,
)
    requires
        roads_ready(before, path_points, available),
        beside_available(available, p),
        p.spec_is_inside_grid(),
        is_collapsed_path_cell(before.cell_at(p)) ==> crate::settlement::road::is_supported_road_connection(
            before.cell_at(p).states()[0].0,
            p,
            entrance,
        ),
        ({
            let b = before.cell_at(p);
            let a = after.cell_at(p);
            &&& a.is_collapsed
            &&& a.states().len() == 1
            &&& a.states()[0].0 == if is_collapsed_path_cell(b) {
                crate::settlement::road::spec_road_joining(b.states()[0].0, p, entrance)
            } else {
                ObjectName::PathUndefined
            }
        }),
        forall|q: Point| q.spec_is_inside_grid() && q != p ==> #[trigger] after.cell_at(q) == before.cell_at(q),
        path_points.contains(p),
    ensures
        roads_ready(after, path_points, available),
        joins_beside(before, after, path_points, available),
{
    let k0 = choose|k: int| 0 <= k < path_points.len() && path_points[k] == p;
    assert(is_collapsed_path_cell(before.cell_at(path_points[k0])));
    crate::settlement::road::lemma_road_joining_adds_only_the_requested_branch(before.cell_at(p).states()[0].0, p, entrance);
    let joined = crate::settlement::road::spec_road_joining(before.cell_at(p).states()[0].0, p, entrance);
    assert(road_branches(joined).contains(Direction::spec_from_points(p, entrance)));
    assert(joined.spec_is_path());
    assert forall|k: int| 0 <= k < path_points.len() implies {
        let q = #[trigger] path_points[k];
        &&& q.spec_is_inside_grid()
        &&& beside_available(available, q) ==> is_collapsed_path_cell(after.cell_at(q)) && road_branches(
            after.cell_at(q).states()[0].0,
        ).len() > 0
    } by {
        let q = path_points[k];
        if q != p {
            assert(after.cell_at(q) == before.cell_at(q));
        }
    }
    assert forall|k: int|
        0 <= k < path_points.len() && !beside_available(available, #[trigger] path_points[k]) implies after.cell_at(
            path_points[k],
        ) == before.cell_at(path_points[k]) by {
        assert(path_points[k] != p);
    }
}

/// Whether a cell holds a tile of a building: it is collapsed to a single object that is a variant of some tile of
/// one of the templates.
pub open spec fn is_building_cell(cell: crate::object::cell::Cell, templates: Seq<BuildingTemplate>) -> bool {
    &&& cell.is_collapsed
    &&& cell.states().len() == 1
    &&& exists|i: int, y: int, x: int|
        0 <= i < templates.len() && 0 <= y < templates[i].height && 0 <= x < templates[i].width
            && (#[trigger] templates[i].tile_variants@[y]@[x])@.contains(cell.states()[0].0)
}

/// Whether the building from `template` entered from the path at `path_ig` stands in `grid`: each of its tiles lies
/// within the grid, collapsed to one of the variants for its place, and the road piece at `path_ig` connects
/// towards its door.
pub open spec fn building_stands(grid: ObjectGrid, template: BuildingTemplate, path_ig: Point) -> bool {
    let origin = template.spec_origin_from_connection(path_ig);
    &&& forall|q: Point|
        #[trigger] template.covers(origin, q) ==> q.spec_is_inside_grid() && {
            let cell = grid.cell_at(q);
            &&& cell.is_collapsed
            &&& cell.states().len() == 1
            &&& template.tile_variants@[q.y - origin.y]@[q.x - origin.x]@.contains(cell.states()[0].0)
        }
    &&& road_branches(grid.cell_at(path_ig).states()[0].0).contains(
        Direction::spec_from_points(path_ig, template.spec_absolute_door_ig(path_ig)),
    )
}

/// Whether `q` is a tile of one of the buildings `placed`, each given by the index of its template and the index of
/// the path point it is entered from.
pub open spec fn covered_by(
    templates: Seq<BuildingTemplate>,
    path_points: Seq<Point>,
    placed: Seq<(int, int)>,
    q: Point,
) -> bool {
    exists|m: int|
        0 <= m < placed.len() && templates[placed[m].0].covers(
            templates[placed[m].0].spec_origin_from_connection(path_points[placed[m].1]),
            q,
        )
}

/// Whether every building of `placements`, given by the index of its template and the index of the path point it
/// is entered from, stands in `grid` (see [`building_stands`]).
pub open spec fn placements_stand(
    grid: ObjectGrid,
    templates: Seq<BuildingTemplate>,
    path_points: Seq<Point>,
    placements: Seq<(int, int)>,
) -> bool {
    forall|m: int|
        0 <= m < placements.len() ==> 0 <= (#[trigger] placements[m]).0 < templates.len() && 0 <= placements[m].1
            < path_points.len() && building_stands(grid, templates[placements[m].0], path_points[placements[m].1])
}

/// One building of standing placements stands.
pub proof fn lemma_placement_stands(
    grid: ObjectGrid,
    templates: Seq<BuildingTemplate>,
    path_points: Seq<Point>,
    placements: Seq<(int, int)>,
    m: int,
)
    requires
        placements_stand(grid, templates, path_points, placements),
        0 <= m < placements.len(),
    ensures
        0 <= placements[m].0 < templates.len(),
        0 <= placements[m].1 < path_points.len(),
        building_stands(grid, templates[placements[m].0], path_points[placements[m].1]),
{
}

/// Places a building at each path point where one fits (see [`select_fitting_building`]), the template chosen at
/// random among those that fit, and joins the road piece at the path point towards its door. Returns the number of
/// buildings placed.
#[verifier::rlimit(60)]
pub fn place_buildings(
    object_grid: &mut ObjectGrid,
    path_points: &Vec<Point>,
    available_grid_space: &PointSet,
    building_templates: &Vec<BuildingTemplate>,
    occupied_grid_space: &mut PointSet,
    rng: &mut StdRng,
) -> (buildings_placed: usize)
    requires
        old(object_grid).wf(),
        all_wf(building_templates@),
        available_grid_space.wf(),
        old(occupied_grid_space).wf(),
        roads_ready(*old(object_grid), path_points@, available_grid_space@),
        forall|k: int| 0 <= k < path_points@.len() ==> !available_grid_space@.contains(#[trigger] path_points@[k]),
    ensures
        buildings_placed <= path_points@.len(),
        final(occupied_grid_space).wf(),
        old(occupied_grid_space)@.subset_of(final(occupied_grid_space)@),
        final(occupied_grid_space)@.subset_of(old(occupied_grid_space)@.union(available_grid_space@)),
        roads_ready(*final(object_grid), path_points@, available_grid_space@),
        joins_beside(*old(object_grid), *final(object_grid), path_points@, available_grid_space@),
        changed_only(
            *old(object_grid),
            *final(object_grid),
            final(occupied_grid_space)@.difference(old(occupied_grid_space)@),
            path_points@,
        ),
        forall|q: Point|
            #[trigger] final(occupied_grid_space)@.contains(q) && !old(occupied_grid_space)@.contains(q)
                ==> is_building_cell(final(object_grid).cell_at(q), building_templates@),
        buildings_placed == 0 ==> *final(object_grid) == *old(object_grid) && final(occupied_grid_space)@ == old(
            occupied_grid_space,
        )@,
        buildings_placed == 0 <==> !some_building_fits(
            building_templates@,
            path_points@,
            available_grid_space@,
            old(occupied_grid_space)@,
        ),
        buildings_placed > 0 ==> exists|q: Point|
            #[trigger] final(occupied_grid_space)@.contains(q) && !old(occupied_grid_space)@.contains(q),
        exists|placements: Seq<(int, int)>|
            {
                &&& placements.len() == buildings_placed
                &&& placements_stand(*final(object_grid), building_templates@, path_points@, placements)
                &&& forall|q: Point|
                    (final(occupied_grid_space)@.contains(q) && !old(occupied_grid_space)@.contains(q)) == #[trigger] covered_by(
                        building_templates@,
                        path_points@,
                        placements,
                        q,
                    )
            },
{
    let ghost grid0 = *object_grid;
    let ghost space0 = occupied_grid_space@;
    let mut buildings_placed: usize = 0;
    let ghost mut placements: Seq<(int, int)> = Seq::empty();
    let mut k: usize = 0;
    while k < path_points.len()
        invariant
            grid0.wf(),
            object_grid.wf(),
            all_wf(building_templates@),
            available_grid_space.wf(),
            occupied_grid_space.wf(),
            forall|j: int| 0 <= j < path_points@.len() ==> !available_grid_space@.contains(#[trigger] path_points@[j]),
            k <= path_points@.len(),
            buildings_placed <= k,
            space0.subset_of(occupied_grid_space@),
            occupied_grid_space@.subset_of(space0.union(available_grid_space@)),
            roads_ready(*object_grid, path_points@, available_grid_space@),
            joins_beside(grid0, *object_grid, path_points@, available_grid_space@),
            changed_only(grid0, *object_grid, occupied_grid_space@.difference(space0), path_points@),
            forall|q: Point|
                #[trigger] occupied_grid_space@.contains(q) && !space0.contains(q) ==> is_building_cell(
                    object_grid.cell_at(q),
                    building_templates@,
                ),
            buildings_placed == 0 ==> *object_grid == grid0 && occupied_grid_space@ == space0,
            buildings_placed == 0 ==> forall|j: int, i: int|
                0 <= j < k && 0 <= i < building_templates@.len() ==> !fits(
                    #[trigger] building_templates@[i],
                    #[trigger] path_points@[j],
                    available_grid_space@,
                    space0,
                ),
            buildings_placed > 0 ==> some_building_fits(building_templates@, path_points@, available_grid_space@, space0),
            buildings_placed > 0 ==> exists|q: Point| #[trigger] occupied_grid_space@.contains(q) && !space0.contains(q),
            placements.len() == buildings_placed,
            placements_stand(*object_grid, building_templates@, path_points@, placements),
            forall|q: Point|
                (occupied_grid_space@.contains(q) && !space0.contains(q)) == #[trigger] covered_by(
                    building_templates@,
                    path_points@,
                    placements,
                    q,
                ),
        decreases path_points@.len() - k,
    {
        let path_ig = path_points[k];
        proof {
            assert(path_points@[k as int].spec_is_inside_grid());
        }
        match select_fitting_building(building_templates, path_ig, available_grid_space, occupied_grid_space, rng) {
            Some(template) => {
                let ghost i = choose|i: int|
                    0 <= i < building_templates@.len() && *template == building_templates@[i] && fits(
                        #[trigger] building_templates@[i],
                        path_ig,
                        available_grid_space@,
                        occupied_grid_space@,
                    );
                proof {
                    assert(template.wf());
                }
                let absolute_door_ig = template.calculate_absolute_door_ig(path_ig);
                let building_origin_ig = template.calculate_origin_ig_from_absolute_door(absolute_door_ig);
                let ghost grid_before = *object_grid;
                let ghost space_before = occupied_grid_space@;
                let placed = place_building(template, rng, building_origin_ig, object_grid, occupied_grid_space);
                proof {
                    let origin = building_origin_ig;
                    assert(origin == template.spec_origin_from_connection(path_ig));
                    assert forall|p: Point| #[trigger] template.covers(origin, p) implies available_grid_space@.contains(p)
                        && !space_before.contains(p) by {
                    }
                    assert forall|j: int| 0 <= j < path_points@.len() implies !template.covers(
                        origin,
                        #[trigger] path_points@[j],
                    ) by {
                        assert(!available_grid_space@.contains(path_points@[j]));
                    }
                    assert(occupied_grid_space@.subset_of(space0.union(available_grid_space@)));
                    assert forall|j: int| 0 <= j < path_points@.len() implies #[trigger] object_grid.cell_at(
                        path_points@[j],
                    ) == grid_before.cell_at(path_points@[j]) by {
                        assert(!template.covers(origin, path_points@[j]));
                        assert(path_points@[j].spec_is_inside_grid());
                    }
                    assert(roads_ready(*object_grid, path_points@, available_grid_space@));
                    assert forall|j: int|
                        0 <= j < path_points@.len() && !beside_available(
                            available_grid_space@,
                            #[trigger] path_points@[j],
                        ) implies object_grid.cell_at(path_points@[j]) == grid0.cell_at(path_points@[j]) by {
                        assert(object_grid.cell_at(path_points@[j]) == grid_before.cell_at(path_points@[j]));
                    }
                    assert forall|q: Point|
                        q.spec_is_inside_grid() && !occupied_grid_space@.difference(space0).contains(q)
                            && !path_points@.contains(q) implies #[trigger] object_grid.cell_at(q) == grid0.cell_at(q) by {
                        if template.covers(origin, q) {
                            assert(occupied_grid_space@.contains(q));
                            assert(!space_before.contains(q));
                        }
                        assert(object_grid.cell_at(q) == grid_before.cell_at(q));
                        assert(!space_before.difference(space0).contains(q));
                    }
                    assert(placed);
                    assert(template.covers(origin, origin));
                    assert(occupied_grid_space@.contains(origin) && !space0.contains(origin));
                    if buildings_placed == 0 {
                        assert(space_before == space0);
                        assert(fits(building_templates@[i], path_points@[k as int], available_grid_space@, space0));
                    }
                    assert forall|q: Point| #[trigger] occupied_grid_space@.contains(q) && !space0.contains(q)
                        implies is_building_cell(object_grid.cell_at(q), building_templates@) by {
                        if template.covers(origin, q) {
                            assert(available_grid_space@.contains(q));
                            let y = q.y - origin.y;
                            let x = q.x - origin.x;
                            assert(building_templates@[i].tile_variants@[y]@[x]@.contains(
                                object_grid.cell_at(q).states()[0].0,
                            ));
                        } else {
                            assert(space_before.contains(q));
                            assert(available_grid_space@.contains(q));
                            assert(object_grid.cell_at(q) == grid_before.cell_at(q));
                        }
                    }
                }
                if placed {
                    buildings_placed = buildings_placed + 1;
                    let ghost grid_mid = *object_grid;
                    proof {
                        crate::coords::lemma_from_points_of_offset(
                            path_ig,
                            absolute_door_ig,
                            template.connection_direction.spec_opposite(),
                        );
                        assert(path_points@[k as int] == path_ig);
                        assert(template.spec_is_placeable_at_path(path_ig, available_grid_space@));
                        assert(template.covers(building_origin_ig, absolute_door_ig));
                        assert(available_grid_space@.contains(absolute_door_ig));
                        assert(is_next_to(path_ig, absolute_door_ig));
                        assert(beside_available(available_grid_space@, path_ig));
                        assert(is_collapsed_path_cell(object_grid.cell_at(path_ig)));
                    }
                    update_path_in_front_of_entrance(&path_ig, &absolute_door_ig, object_grid);
                    proof {
                        assert(path_points@.contains(path_ig)) by {
                            assert(path_points@[k as int] == path_ig);
                        }
                        lemma_join_keeps_roads_ready(
                            grid_mid,
                            *object_grid,
                            path_points@,
                            available_grid_space@,
                            path_ig,
                            absolute_door_ig,
                        );
                        assert forall|j: int|
                            0 <= j < path_points@.len() && !beside_available(
                                available_grid_space@,
                                #[trigger] path_points@[j],
                            ) implies object_grid.cell_at(path_points@[j]) == grid0.cell_at(path_points@[j]) by {
                            assert(object_grid.cell_at(path_points@[j]) == grid_mid.cell_at(path_points@[j]));
                        }
                        assert forall|q: Point|
                            q.spec_is_inside_grid() && !occupied_grid_space@.difference(space0).contains(q)
                                && !path_points@.contains(q) implies #[trigger] object_grid.cell_at(q) == grid0.cell_at(
                            q,
                        ) by {
                            assert(q != path_ig);
                            assert(object_grid.cell_at(q) == grid_mid.cell_at(q));
                        }
                        assert forall|q: Point| #[trigger] occupied_grid_space@.contains(q) && !space0.contains(q)
                            implies is_building_cell(object_grid.cell_at(q), building_templates@) by {
                            assert(available_grid_space@.contains(q));
                            assert(q != path_ig);
                            assert(object_grid.cell_at(q) == grid_mid.cell_at(q));
                        }
                        let origin = building_origin_ig;
                        let door = absolute_door_ig;
                        assert(door == template.spec_absolute_door_ig(path_ig));
                        let before_name = grid_mid.cell_at(path_ig).states()[0].0;
                        crate::settlement::road::lemma_road_joining_adds_only_the_requested_branch(
                            before_name,
                            path_ig,
                            door,
                        );
                        assert(road_branches(object_grid.cell_at(path_ig).states()[0].0) == road_branches(
                            before_name,
                        ).insert(Direction::spec_from_points(path_ig, door)));
                        assert(placements_stand(grid_before, building_templates@, path_points@, placements));
                        assert(placements_stand(*object_grid, building_templates@, path_points@, placements)) by {
                            assert forall|m: int| 0 <= m < placements.len() implies 0 <= (#[trigger] placements[m]).0 < building_templates@.len()
                                && 0 <= placements[m].1 < path_points@.len() && building_stands(
                                *object_grid,
                                building_templates@[placements[m].0],
                                path_points@[placements[m].1],
                            ) by {
                                lemma_placement_stands(grid_before, building_templates@, path_points@, placements, m);
                                let t = building_templates@[placements[m].0];
                                let pm = path_points@[placements[m].1];
                                let om = t.spec_origin_from_connection(pm);
                                assert forall|q: Point| #[trigger] t.covers(om, q) implies q.spec_is_inside_grid() && {
                                    let cell = object_grid.cell_at(q);
                                    &&& cell.is_collapsed
                                    &&& cell.states().len() == 1
                                    &&& t.tile_variants@[q.y - om.y]@[q.x - om.x]@.contains(cell.states()[0].0)
                                } by {
                                    assert(covered_by(building_templates@, path_points@, placements, q));
                                    assert(space_before.contains(q) && !space0.contains(q));
                                    assert(!template.covers(origin, q));
                                    assert(grid_mid.cell_at(q) == grid_before.cell_at(q));
                                    assert(available_grid_space@.contains(q));
                                    assert(q != path_ig);
                                    assert(object_grid.cell_at(q) == grid_mid.cell_at(q));
                                }
                                assert(pm.spec_is_inside_grid());
                                assert(!template.covers(origin, pm)) by {
                                    assert(!available_grid_space@.contains(path_points@[placements[m].1]));
                                }
                                assert(grid_mid.cell_at(pm) == grid_before.cell_at(pm));
                                if pm != path_ig {
                                    assert(object_grid.cell_at(pm) == grid_mid.cell_at(pm));
                                }
                            }
                        }
                        assert(building_stands(*object_grid, building_templates@[i], path_points@[k as int])) by {
                            assert forall|q: Point| #[trigger] template.covers(origin, q) implies q.spec_is_inside_grid()
                                && {
                                let cell = object_grid.cell_at(q);
                                &&& cell.is_collapsed
                                &&& cell.states().len() == 1
                                &&& template.tile_variants@[q.y - origin.y]@[q.x - origin.x]@.contains(
                                    cell.states()[0].0,
                                )
                            } by {
                                assert(available_grid_space@.contains(q));
                                assert(q != path_ig);
                                assert(object_grid.cell_at(q) == grid_mid.cell_at(q));
                            }
                        }
                        let newp = (i, k as int);
                        let next = placements.push(newp);
                        assert forall|q: Point|
                            (occupied_grid_space@.contains(q) && !space0.contains(q)) == #[trigger] covered_by(
                                building_templates@,
                                path_points@,
                                next,
                                q,
                            ) by {
                            if occupied_grid_space@.contains(q) && !space0.contains(q) {
                                if template.covers(origin, q) {
                                    assert(next[placements.len() as int] == newp);
                                } else {
                                    assert(space_before.contains(q));
                                    assert(covered_by(building_templates@, path_points@, placements, q));
                                    let m = choose|m: int|
                                        0 <= m < placements.len() && building_templates@[placements[m].0].covers(
                                            building_templates@[placements[m].0].spec_origin_from_connection(
                                                path_points@[placements[m].1],
                                            ),
                                            q,
                                        );
                                    assert(next[m] == placements[m]);
                                }
                            }
                            if covered_by(building_templates@, path_points@, next, q) {
                                let m = choose|m: int|
                                    0 <= m < next.len() && building_templates@[next[m].0].covers(
                                        building_templates@[next[m].0].spec_origin_from_connection(
                                            path_points@[next[m].1],
                                        ),
                                        q,
                                    );
                                if m < placements.len() {
                                    assert(next[m] == placements[m]);
                                    assert(covered_by(building_templates@, path_points@, placements, q));
                                } else {
                                    assert(next[m] == newp);
                                    assert(template.covers(origin, q));
                                }
                            }
                        }
                        assert forall|m: int| 0 <= m < next.len() implies 0 <= (#[trigger] next[m]).0 < building_templates@.len()
                            && 0 <= next[m].1 < path_points@.len() && building_stands(
                            *object_grid,
                            building_templates@[next[m].0],
                            path_points@[next[m].1],
                        ) by {
                            if m < placements.len() {
                                assert(next[m] == placements[m]);
                                lemma_placement_stands(*object_grid, building_templates@, path_points@, placements, m);
                            } else {
                                assert(m == placements.len());
                                assert(next[m] == newp);
                                assert(0 <= i < building_templates@.len());
                                assert(0 <= k < path_points@.len());
                                assert(path_points@[k as int] == path_ig);
                                assert(building_templates@[i] == *template);
                            }
                        }
                        assert(placements_stand(*object_grid, building_templates@, path_points@, next));
                        placements = next;
                    }
                }
            },
            None => {},
        }
        k = k + 1;
    }
    buildings_placed
}

} // verus!
