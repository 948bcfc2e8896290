use crate::coords::{Direction, Point};
use crate::object::object_grid::ObjectGrid;
use crate::object::object_name::ObjectName;
use crate::random::{coin_flip, random_index, shuffle};
use crate::settlement::building_template::BuildingTemplate;
use crate::settlement::buildings::{
    all_wf, beside_available, changed_only, estimated_building_capacity, fits, is_next_to, joins_beside, roads_ready,
    some_building_fits,
};
use crate::settlement::field_shapes::{
    absolute_tiles, can_classify, entrances, is_classifiable_except, is_near_layout, is_small, is_small_shape, layout_from_entrance,
    layout_tile, lemma_entrances_are_open_on_one_side, lemma_rotated_tiles, rotated, rotations, spec_entrances,
    spec_outside, FieldLayout, FieldShape, FieldType,
};
use crate::settlement::point_set::PointSet;
use crate::settlement::road::{is_collapsed_path_cell, road_branches, update_path_in_front_of_entrance};
use rand::rngs::StdRng;
use vstd::prelude::*;

verus! {

/// Returns the field types a settlement may have for its estimated building capacity: none without room for a
/// building, one of the two at random for room for one or two buildings, and both otherwise.
pub fn permitted_field_types(rng: &mut StdRng, capacity: usize) -> (types: Vec<FieldType>)
    ensures
        capacity == 0 ==> types@.len() == 0,
        1 <= capacity <= 2 ==> types@.len() == 1,
        capacity > 2 ==> types@ == seq![FieldType::Wheat, FieldType::Pasture],
{
    let mut types: Vec<FieldType> = Vec::new();
    if capacity == 0 {
        return types;
    }
    if capacity <= 2 {
        if coin_flip(rng) {
            types.push(FieldType::Wheat);
        } else {
            types.push(FieldType::Pasture);
        }
        return types;
    }
    types.push(FieldType::Wheat);
    types.push(FieldType::Pasture);
    types
}

/// Whether a field shape can be laid out in every rotation: its tiles are small and, where the rotated shape has a
/// candidate entrance, every other tile has a tile shape.
#[verifier::opaque]
pub open spec fn is_usable_shape(shape: Seq<(i32, i32)>) -> bool {
    &&& is_small_shape(shape)
    &&& forall|k: nat, e: int|
        k < 4 && 0 <= e < spec_entrances(rotated(shape, k), rotated(shape, k)).len() ==> is_classifiable_except(
            rotated(shape, k),
            (#[trigger] spec_entrances(rotated(shape, k), rotated(shape, k))[e]).0,
        )
}

/// Returns whether every tile of a small shape other than `entrance` has a tile shape (see
/// [`is_classifiable_except`]).
fn classifiable_except(shape: &Vec<(i32, i32)>, entrance: (i32, i32)) -> (result: bool)
    requires
        is_small_shape(shape@),
    ensures
        result == is_classifiable_except(shape@, entrance),
{
    let mut t: usize = 0;
    while t < shape.len()
        invariant
            is_small_shape(shape@),
            t <= shape@.len(),
            forall|j: int|
                0 <= j < t && #[trigger] shape@[j] != entrance ==> crate::settlement::field_shapes::is_classifiable(
                    shape@,
                    shape@[j].0 as int,
                    shape@[j].1 as int,
                ),
        decreases shape@.len() - t,
    {
        let (x, y) = shape[t];
        proof {
            assert(is_small(shape@[t as int].0 as int) && is_small(shape@[t as int].1 as int));
        }
        if (x != entrance.0 || y != entrance.1) && !can_classify(shape, x, y) {
            proof {
                assert(shape@[t as int] != entrance);
            }
            return false;
        }
        t = t + 1;
    }
    true
}

/// Whether every tile of `shape` but `entrance` has a tile shape, kept opaque so that the quantifier inside it is
/// only unfolded where needed.
#[verifier::opaque]
spec fn entrance_ok(shape: Seq<(i32, i32)>, entrance: (i32, i32)) -> bool {
    is_classifiable_except(shape, entrance)
}

/// Returns whether every tile of a small shape other than each of the candidate entrances has a tile shape.
fn all_entrances_classifiable(shape: &Vec<(i32, i32)>, candidates: &Vec<((i32, i32), Direction)>) -> (ok: bool)
    requires
        is_small_shape(shape@),
    ensures
        ok == forall|e: int| 0 <= e < candidates@.len() ==> is_classifiable_except(shape@, (#[trigger] candidates@[e]).0),
{
    let mut e: usize = 0;
    while e < candidates.len()
        invariant
            is_small_shape(shape@),
            e <= candidates@.len(),
            forall|f: int| 0 <= f < e ==> entrance_ok(shape@, (#[trigger] candidates@[f]).0),
        decreases candidates@.len() - e,
    {
        let ok = classifiable_except(shape, candidates[e].0);
        if !ok {
            proof {
                assert(!is_classifiable_except(shape@, candidates@[e as int].0));
            }
            return false;
        }
        proof {
            assert(entrance_ok(shape@, candidates@[e as int].0)) by {
                reveal(entrance_ok);
            }
        }
        e = e + 1;
    }
    proof {
        assert forall|f: int| 0 <= f < candidates@.len() implies is_classifiable_except(
            shape@,
            (#[trigger] candidates@[f]).0,
        ) by {
            assert(entrance_ok(shape@, candidates@[f].0));
            reveal(entrance_ok);
        }
    }
    true
}

/// Returns whether a field shape can be laid out in every rotation (see [`is_usable_shape`]).
pub fn is_usable(shape: &FieldShape) -> (usable: bool)
    ensures
        usable == is_usable_shape(shape.tiles@),
{
    let tiles = &shape.tiles;
    let mut i: usize = 0;
    while i < tiles.len()
        invariant
            *tiles == shape.tiles,
            i <= tiles@.len(),
            forall|j: int| 0 <= j < i ==> is_small((#[trigger] tiles@[j]).0 as int) && is_small(tiles@[j].1 as int),
        decreases tiles@.len() - i,
    {
        let (x, y) = tiles[i];
        if x < -0x1000 || x > 0x1000 || y < -0x1000 || y > 0x1000 {
            proof {
                assert(!is_small_shape(tiles@)) by {
                    assert(!(is_small(tiles@[i as int].0 as int) && is_small(tiles@[i as int].1 as int)));
                }
                assert(!is_usable_shape(tiles@)) by {
                    reveal(is_usable_shape);
                }
            }
            return false;
        }
        i = i + 1;
    }
    let turns = rotations(tiles);
    let mut k: usize = 0;
    while k < 4
        invariant
            *tiles == shape.tiles,
            is_small_shape(tiles@),
            turns@.len() == 4,
            forall|m: int| 0 <= m < 4 ==> (#[trigger] turns@[m])@ == rotated(tiles@, m as nat),
            k <= 4,
            forall|m: nat, e: int|
                m < k && 0 <= e < spec_entrances(rotated(tiles@, m), rotated(tiles@, m)).len()
                    ==> is_classifiable_except(
                    rotated(tiles@, m),
                    (#[trigger] spec_entrances(rotated(tiles@, m), rotated(tiles@, m))[e]).0,
                ),
        decreases 4 - k,
    {
        let turn = &turns[k];
        proof {
            lemma_rotated_tiles(tiles@, k as nat);
        }
        let candidates = entrances(turn);
        if !all_entrances_classifiable(turn, &candidates) {
            proof {
                let e = choose|e: int|
                    0 <= e < candidates@.len() && !is_classifiable_except(turn@, (#[trigger] candidates@[e]).0);
                assert(turn@ == rotated(tiles@, k as nat));
                lemma_not_usable(tiles@, k as nat, e);
            }
            return false;
        }
        proof {
            assert(turn@ == rotated(tiles@, k as nat));
            assert forall|m: nat, f: int|
                m < k + 1 && 0 <= f < spec_entrances(rotated(tiles@, m), rotated(tiles@, m)).len()
                    implies is_classifiable_except(
                    rotated(tiles@, m),
                    (#[trigger] spec_entrances(rotated(tiles@, m), rotated(tiles@, m))[f]).0,
                ) by {
                if m == k {
                    assert(candidates@[f] == spec_entrances(rotated(tiles@, m), rotated(tiles@, m))[f]);
                }
            }
        }
        k = k + 1;
    }
    assert(is_usable_shape(tiles@)) by {
        reveal(is_usable_shape);
    }
    true
}

/// A shape with a rotation and candidate entrance that leaves a tile without a tile shape is not usable.
proof fn lemma_not_usable(tiles: Seq<(i32, i32)>, k: nat, e: int)
    requires
        k < 4,
        0 <= e < spec_entrances(rotated(tiles, k), rotated(tiles, k)).len(),
        !is_classifiable_except(rotated(tiles, k), spec_entrances(rotated(tiles, k), rotated(tiles, k))[e].0),
    ensures
        !is_usable_shape(tiles),
{
    reveal(is_usable_shape);
}

/// Whether a layout's entrance is the tile next to the origin on one of its four sides.
pub open spec fn is_beside_origin(p: Point) -> bool {
    ||| p.x == 0 && (p.y == 1 || p.y == -1)
    ||| p.y == 0 && (p.x == 1 || p.x == -1)
}

/// Whether `layout` is a rotation of one of the shapes, entered through one of its candidate entrances.
pub open spec fn is_layout_of(layout_tiles: Seq<(Point, crate::settlement::field_shapes::TileShape)>, entrance: Point, shapes: Seq<FieldShape>) -> bool {
    exists|s: int, k: nat, e: int|
        #![trigger shapes[s], rotated(shapes[s].tiles@, k), spec_entrances(rotated(shapes[s].tiles@, k), rotated(shapes[s].tiles@, k))[e]]
        0 <= s < shapes.len() && k < 4 && {
            let r = rotated(shapes[s].tiles@, k);
            let c = spec_entrances(r, r);
            &&& 0 <= e < c.len()
            &&& layout_tiles == r.map_values(|t: (i32, i32)| layout_tile(r, c[e].0, c[e].1, t))
            &&& entrance == (Point { x: -c[e].1.dx() as i32, y: -c[e].1.dy() as i32 })
        }
}

/// Whether a layout is a rotation of one of the shapes entered through a candidate entrance, with its entrance
/// beside the origin and its tiles near it.
#[verifier::opaque]
pub open spec fn layout_ok(layout: FieldLayout, shapes: Seq<FieldShape>) -> bool {
    is_layout_of(layout.tiles@, layout.entrance, shapes) && is_beside_origin(layout.entrance) && is_near_layout(
        layout.tiles@,
    )
}

/// The directions in which a tile is open are cardinal.
proof fn lemma_outside_is_cardinal(shape: Seq<(i32, i32)>, x: int, y: int)
    ensures
        forall|i: int| 0 <= i < spec_outside(shape, x, y).len() ==> (#[trigger] spec_outside(shape, x, y)[i]).is_cardinal(),
{
}

/// Whether `layout` is the layout of the rotated shape `r` entered through the candidate entrance `c`.
#[verifier::opaque]
pub open spec fn is_layout_through(layout: FieldLayout, r: Seq<(i32, i32)>, c: ((i32, i32), Direction)) -> bool {
    &&& layout.tiles@ == r.map_values(|t: (i32, i32)| layout_tile(r, c.0, c.1, t))
    &&& layout.entrance == (Point { x: -c.1.dx() as i32, y: -c.1.dy() as i32 })
}

/// Whether `e` indexes a candidate entrance of rotation `k` of shape `s`.
pub open spec fn is_entrance_index(shapes: Seq<FieldShape>, s: int, k: nat, e: int) -> bool {
    &&& 0 <= s < shapes.len()
    &&& k < 4
    &&& 0 <= e < spec_entrances(rotated(shapes[s].tiles@, k), rotated(shapes[s].tiles@, k)).len()
}

/// Whether one of the layouts is that of rotation `k` of shape `s` entered through its candidate entrance `e`.
pub open spec fn covers(layouts: Seq<FieldLayout>, shapes: Seq<FieldShape>, s: int, k: nat, e: int) -> bool {
    exists|i: int|
        0 <= i < layouts.len() && is_layout_through(
            #[trigger] layouts[i],
            rotated(shapes[s].tiles@, k),
            spec_entrances(rotated(shapes[s].tiles@, k), rotated(shapes[s].tiles@, k))[e],
        )
}

/// Layouts that are covered stay covered when more layouts follow them.
proof fn lemma_covers_extends(
    layouts: Seq<FieldLayout>,
    longer: Seq<FieldLayout>,
    shapes: Seq<FieldShape>,
    s: int,
    k: nat,
    e: int,
)
    requires
        covers(layouts, shapes, s, k, e),
        layouts.len() <= longer.len(),
        longer.subrange(0, layouts.len() as int) == layouts,
    ensures
        covers(longer, shapes, s, k, e),
{
    let r = rotated(shapes[s].tiles@, k);
    let c = spec_entrances(r, r)[e];
    let i = choose|i: int| 0 <= i < layouts.len() && is_layout_through(#[trigger] layouts[i], r, c);
    assert(longer.subrange(0, layouts.len() as int)[i] == longer[i]);
    assert(is_layout_through(longer[i], r, c));
}

/// Appends the layouts of the rotated shape `r` entered through each of its candidate entrances, in random order.
fn push_layouts(
    rng: &mut StdRng,
    r: &Vec<(i32, i32)>,
    layouts: &mut Vec<FieldLayout>,
    Ghost(shapes): Ghost<Seq<FieldShape>>,
    Ghost(s): Ghost<int>,
    Ghost(k): Ghost<nat>,
)
    requires
        0 <= s < shapes.len(),
        k < 4,
        r@ == rotated(shapes[s].tiles@, k),
        is_usable_shape(shapes[s].tiles@),
        forall|i: int|
            0 <= i < old(layouts)@.len() ==> layout_ok(#[trigger] old(layouts)@[i], shapes),
    ensures
        final(layouts)@.len() >= old(layouts)@.len(),
        final(layouts)@.subrange(0, old(layouts)@.len() as int) == old(layouts)@,
        forall|i: int|
            0 <= i < final(layouts)@.len() ==> layout_ok(#[trigger] final(layouts)@[i], shapes),
        forall|e: int| is_entrance_index(shapes, s, k, e) ==> #[trigger] covers(final(layouts)@, shapes, s, k, e),
{
    proof {
        lemma_small_rotation(shapes, s, k);
    }
    let mut candidates = entrances(r);
    let ghost all = candidates@;
    shuffle(rng, &mut candidates);
    proof {
        crate::random::lemma_permutation_contains(candidates@, all);
        crate::random::lemma_permutation_contains(all, candidates@);
    }
    let ghost start = layouts@;
    let ghost mut added: Seq<FieldLayout> = Seq::empty();
    let mut j: usize = 0;
    proof {
        assert(layouts@ =~= start + added);
    }
    while j < candidates.len()
        invariant
            0 <= s < shapes.len(),
            k < 4,
            r@ == rotated(shapes[s].tiles@, k),
            is_usable_shape(shapes[s].tiles@),
            all == spec_entrances(r@, r@),
            forall|c: ((i32, i32), Direction)| candidates@.contains(c) ==> all.contains(c),
            forall|i: int| 0 <= i < layouts@.len() ==> layout_ok(#[trigger] layouts@[i], shapes),
            start == old(layouts)@,
            layouts@ == start + added,
            added.len() == j,
            forall|i: int| 0 <= i < added.len() ==> is_layout_through(#[trigger] added[i], r@, candidates@[i]),
            j <= candidates@.len(),
        decreases candidates@.len() - j,
    {
        let (entrance, outside) = candidates[j];
        proof {
            assert(candidates@.contains(candidates@[j as int]));
            lemma_small_rotation(shapes, s, k);
        }
        let ghost e = lemma_candidate(shapes, s, k, (entrance, outside));
        let layout = layout_from_entrance(r, entrance, outside);
        proof {
            lemma_layout_is_ok(shapes, s, k, e, layout);
        }
        let ghost before = layouts@;
        proof {
            assert(is_layout_through(layout, r@, candidates@[j as int])) by {
                reveal(is_layout_through);
            }
        }
        layouts.push(layout);
        proof {
            assert forall|i: int| 0 <= i < layouts@.len() implies layout_ok(#[trigger] layouts@[i], shapes) by {
                if i < before.len() {
                    assert(layouts@[i] == before[i]);
                }
            }
            added = added.push(layout);
            assert(layouts@ =~= start + added);
        }
        j = j + 1;
    }
    proof {
        assert forall|e: int| is_entrance_index(shapes, s, k, e) implies #[trigger] covers(layouts@, shapes, s, k, e) by {
            assert(all.contains(all[e]));
            assert(candidates@.contains(all[e]));
            let m = choose|m: int| 0 <= m < candidates@.len() && candidates@[m] == all[e];
            assert(is_layout_through(added[m], r@, candidates@[m]));
            assert(layouts@[start.len() + m] == added[m]);
        }
        assert(layouts@.subrange(0, start.len() as int) =~= start);
    }
}

/// A rotation of a usable shape is small.
proof fn lemma_small_rotation(shapes: Seq<FieldShape>, s: int, k: nat)
    requires
        0 <= s < shapes.len(),
        is_usable_shape(shapes[s].tiles@),
    ensures
        is_small_shape(rotated(shapes[s].tiles@, k)),
{
    reveal(is_usable_shape);
    lemma_rotated_tiles(shapes[s].tiles@, k);
}

/// A candidate entrance of a rotation of a usable shape is one of its listed entrances, a small tile open on a
/// cardinal side, and every other tile of the rotation has a tile shape.
proof fn lemma_candidate(shapes: Seq<FieldShape>, s: int, k: nat, c: ((i32, i32), Direction)) -> (e: int)
    requires
        0 <= s < shapes.len(),
        k < 4,
        is_usable_shape(shapes[s].tiles@),
        spec_entrances(rotated(shapes[s].tiles@, k), rotated(shapes[s].tiles@, k)).contains(c),
    ensures
        ({
            let rr = rotated(shapes[s].tiles@, k);
            &&& 0 <= e < spec_entrances(rr, rr).len()
            &&& spec_entrances(rr, rr)[e] == c
            &&& is_small(c.0.0 as int)
            &&& is_small(c.0.1 as int)
            &&& c.1.is_cardinal()
            &&& is_classifiable_except(rr, c.0)
        }),
{
    reveal(is_usable_shape);
    let rr = rotated(shapes[s].tiles@, k);
    lemma_rotated_tiles(shapes[s].tiles@, k);
    lemma_entrances_are_open_on_one_side(rr, rr);
    let e = choose|e: int| 0 <= e < spec_entrances(rr, rr).len() && spec_entrances(rr, rr)[e] == c;
    assert(rr.contains(c.0) && spec_outside(rr, c.0.0 as int, c.0.1 as int) == seq![c.1]);
    let m = choose|m: int| 0 <= m < rr.len() && rr[m] == c.0;
    assert(is_small(rr[m].0 as int) && is_small(rr[m].1 as int));
    lemma_outside_is_cardinal(rr, c.0.0 as int, c.0.1 as int);
    assert(spec_outside(rr, c.0.0 as int, c.0.1 as int)[0] == c.1);
    e
}

/// The layout of a rotation of a shape through a listed entrance is a valid layout of the shapes.
proof fn lemma_layout_is_ok(shapes: Seq<FieldShape>, s: int, k: nat, e: int, layout: FieldLayout)
    requires
        0 <= s < shapes.len(),
        k < 4,
        is_usable_shape(shapes[s].tiles@),
        ({
            let rr = rotated(shapes[s].tiles@, k);
            let c = spec_entrances(rr, rr)[e];
            &&& 0 <= e < spec_entrances(rr, rr).len()
            &&& is_small(c.0.0 as int)
            &&& is_small(c.0.1 as int)
            &&& c.1.is_cardinal()
            &&& layout.tiles@ == rr.map_values(|t: (i32, i32)| layout_tile(rr, c.0, c.1, t))
            &&& layout.entrance == (Point { x: -c.1.dx() as i32, y: -c.1.dy() as i32 })
        }),
    ensures
        layout_ok(layout, shapes),
{
    reveal(layout_ok);
    lemma_small_rotation(shapes, s, k);
    let rr = rotated(shapes[s].tiles@, k);
    assert(is_layout_of(layout.tiles@, layout.entrance, shapes));
    assert forall|i: int| 0 <= i < layout.tiles@.len() implies -0x4000 <= (#[trigger] layout.tiles@[i]).0.x <= 0x4000
        && -0x4000 <= layout.tiles@[i].0.y <= 0x4000 by {
        assert(is_small(rr[i].0 as int) && is_small(rr[i].1 as int));
    }
}

/// Whether one of the preferred or of the fallback layouts is that of rotation `k` of shape `s` entered through its
/// candidate entrance `e`.
pub open spec fn covers_either(
    preferred: Seq<FieldLayout>,
    fallback: Seq<FieldLayout>,
    shapes: Seq<FieldShape>,
    s: int,
    k: nat,
    e: int,
) -> bool {
    covers(preferred, shapes, s, k, e) || covers(fallback, shapes, s, k, e)
}

/// Whether rotation `k` is among the first `r` rotations tried when rotation `first` is tried first.
pub open spec fn is_rotation_tried(first: int, r: int, k: int) -> bool {
    (k + 4 - first) % 4 < r
}

/// Every layout of the shapes holds its entrance, beside the origin, as a fill tile: the boundary tile next to the
/// road is left open.
pub proof fn lemma_layout_entrance_is_fill(layout: FieldLayout, shapes: Seq<FieldShape>)
    requires
        layout_ok(layout, shapes),
    ensures
        layout.tiles@.contains((layout.entrance, crate::settlement::field_shapes::TileShape::Fill)),
        is_beside_origin(layout.entrance),
{
    reveal(layout_ok);
    let (s, k, e) = choose|s: int, k: nat, e: int|
        #![trigger shapes[s], rotated(shapes[s].tiles@, k), spec_entrances(rotated(shapes[s].tiles@, k), rotated(shapes[s].tiles@, k))[e]]
        0 <= s < shapes.len() && k < 4 && {
            let r = rotated(shapes[s].tiles@, k);
            let c = spec_entrances(r, r);
            &&& 0 <= e < c.len()
            &&& layout.tiles@ == r.map_values(|t: (i32, i32)| layout_tile(r, c[e].0, c[e].1, t))
            &&& layout.entrance == (Point { x: -c[e].1.dx() as i32, y: -c[e].1.dy() as i32 })
        };
    let r = rotated(shapes[s].tiles@, k);
    let c = spec_entrances(r, r);
    crate::settlement::field_shapes::lemma_entrances_are_open_on_one_side(r, r);
    assert(r.contains(c[e].0));
    let j = choose|j: int| 0 <= j < r.len() && r[j] == c[e].0;
    assert(layout.tiles@[j] == layout_tile(r, c[e].0, c[e].1, r[j]));
    assert(layout.tiles@[j] == (layout.entrance, crate::settlement::field_shapes::TileShape::Fill));
}

/// Returns every layout of the field shapes in random order of preference: the shapes are shuffled; for each, one
/// rotation is picked at random and its layouts, one per candidate entrance in random order, come first; the
/// layouts of the other three rotations follow after those of all shapes.
pub fn layouts(rng: &mut StdRng, field_shapes: &Vec<FieldShape>) -> (result: Vec<FieldLayout>)
    requires
        forall|s: int| 0 <= s < field_shapes@.len() ==> is_usable_shape((#[trigger] field_shapes@[s]).tiles@),
    ensures
        forall|i: int|
            0 <= i < result@.len() ==> layout_ok(#[trigger] result@[i], field_shapes@),
        forall|i: int|
            0 <= i < result@.len() ==> (#[trigger] result@[i]).tiles@.contains(
                (result@[i].entrance, crate::settlement::field_shapes::TileShape::Fill),
            ) && is_beside_origin(result@[i].entrance),
        forall|s: int, k: nat, e: int|
            is_entrance_index(field_shapes@, s, k, e) ==> #[trigger] covers(result@, field_shapes@, s, k, e),
{
    let mut order: Vec<usize> = Vec::new();
    let mut i: usize = 0;
    while i < field_shapes.len()
        invariant
            i <= field_shapes@.len(),
            order@.len() == i,
            forall|j: int| 0 <= j < i ==> #[trigger] order@[j] == j,
        decreases field_shapes@.len() - i,
    {
        order.push(i);
        i = i + 1;
    }
    let ghost all = order@;
    shuffle(rng, &mut order);
    proof {
        crate::random::lemma_permutation_contains(order@, all);
        crate::random::lemma_permutation_contains(all, order@);
    }
    let ghost order_int = order@.map_values(|c: usize| c as int);
    let mut preferred: Vec<FieldLayout> = Vec::new();
    let mut fallback: Vec<FieldLayout> = Vec::new();
    let mut n: usize = 0;
    while n < order.len()
        invariant
            order_int == order@.map_values(|c: usize| c as int),
            forall|s: int| 0 <= s < field_shapes@.len() ==> is_usable_shape((#[trigger] field_shapes@[s]).tiles@),
            all.len() == field_shapes@.len(),
            forall|j: int| 0 <= j < all.len() ==> #[trigger] all[j] == j,
            forall|c: usize| order@.contains(c) ==> all.contains(c),
            forall|c: usize| all.contains(c) ==> order@.contains(c),
            n <= order@.len(),
            forall|i: int|
                0 <= i < preferred@.len() ==> layout_ok(#[trigger] preferred@[i], field_shapes@),
            forall|i: int|
                0 <= i < fallback@.len() ==> layout_ok(#[trigger] fallback@[i], field_shapes@),
            forall|s: int, k: nat, e: int|
                is_entrance_index(field_shapes@, s, k, e) && order_int.subrange(0, n as int).contains(s)
                    ==> #[trigger] covers_either(preferred@, fallback@, field_shapes@, s, k, e),
        decreases order@.len() - n,
    {
        let index = order[n];
        proof {
            assert(order@.contains(order@[n as int]));
            assert(all.contains(index));
            let j = choose|j: int| 0 <= j < all.len() && all[j] == index;
            assert(all[j] == j);
        }
        let shape = &field_shapes[index];
        proof {
            assert(is_usable_shape(field_shapes@[index as int].tiles@));
            lemma_small_rotation(field_shapes@, index as int, 0);
        }
        let turns = rotations(&shape.tiles);
        let preferred_rotation = random_index(rng, 4);
        let mut r: usize = 0;
        while r < 4
            invariant
                forall|s: int| 0 <= s < field_shapes@.len() ==> is_usable_shape((#[trigger] field_shapes@[s]).tiles@),
                index < field_shapes@.len(),
                *shape == field_shapes@[index as int],
                turns@.len() == 4,
                forall|k: int| 0 <= k < 4 ==> (#[trigger] turns@[k])@ == rotated(shape.tiles@, k as nat),
                preferred_rotation < 4,
                r <= 4,
                n < order@.len(),
                order_int == order@.map_values(|c: usize| c as int),
                index == order@[n as int],
                forall|i: int|
                    0 <= i < preferred@.len() ==> layout_ok(#[trigger] preferred@[i], field_shapes@),
                forall|i: int|
                    0 <= i < fallback@.len() ==> layout_ok(#[trigger] fallback@[i], field_shapes@),
                forall|s: int, k: nat, e: int|
                    is_entrance_index(field_shapes@, s, k, e) && order_int.subrange(0, n as int).contains(s)
                        ==> #[trigger] covers_either(preferred@, fallback@, field_shapes@, s, k, e),
                forall|k: nat, e: int|
                    is_entrance_index(field_shapes@, index as int, k, e) && is_rotation_tried(
                        preferred_rotation as int,
                        r as int,
                        k as int,
                    ) ==> #[trigger] covers_either(preferred@, fallback@, field_shapes@, index as int, k, e),
            decreases 4 - r,
        {
            let k = (preferred_rotation + r) % 4;
            let ghost old_preferred = preferred@;
            let ghost old_fallback = fallback@;
            if r == 0 {
                push_layouts(rng, &turns[k], &mut preferred, Ghost(field_shapes@), Ghost(index as int), Ghost(k as nat));
            } else {
                push_layouts(rng, &turns[k], &mut fallback, Ghost(field_shapes@), Ghost(index as int), Ghost(k as nat));
            }
            proof {
                if r == 0 {
                    assert(fallback@.subrange(0, old_fallback.len() as int) =~= old_fallback);
                } else {
                    assert(preferred@.subrange(0, old_preferred.len() as int) =~= old_preferred);
                }
                assert forall|s: int, k2: nat, e: int|
                    covers_either(old_preferred, old_fallback, field_shapes@, s, k2, e) implies #[trigger] covers_either(
                    preferred@,
                    fallback@,
                    field_shapes@,
                    s,
                    k2,
                    e,
                ) by {
                    if covers(old_preferred, field_shapes@, s, k2, e) {
                        lemma_covers_extends(old_preferred, preferred@, field_shapes@, s, k2, e);
                    } else {
                        lemma_covers_extends(old_fallback, fallback@, field_shapes@, s, k2, e);
                    }
                }
                assert forall|s: int, k2: nat, e: int|
                    is_entrance_index(field_shapes@, s, k2, e) && order_int.subrange(0, n as int).contains(s)
                        implies #[trigger] covers_either(preferred@, fallback@, field_shapes@, s, k2, e) by {
                    assert(covers_either(old_preferred, old_fallback, field_shapes@, s, k2, e));
                }
                assert forall|k2: nat, e: int|
                    is_entrance_index(field_shapes@, index as int, k2, e) && is_rotation_tried(
                        preferred_rotation as int,
                        r + 1,
                        k2 as int,
                    ) implies #[trigger] covers_either(preferred@, fallback@, field_shapes@, index as int, k2, e) by {
                    if k2 == k {
                        if r == 0 {
                            assert(covers(preferred@, field_shapes@, index as int, k2, e));
                        } else {
                            assert(covers(fallback@, field_shapes@, index as int, k2, e));
                        }
                    } else {
                        assert(is_rotation_tried(preferred_rotation as int, r as int, k2 as int));
                        assert(covers_either(old_preferred, old_fallback, field_shapes@, index as int, k2, e));
                    }
                }
            }
            r = r + 1;
        }
        proof {
            assert forall|s: int, k: nat, e: int|
                is_entrance_index(field_shapes@, s, k, e) && order_int.subrange(0, n + 1).contains(s)
                    implies #[trigger] covers_either(preferred@, fallback@, field_shapes@, s, k, e) by {
                crate::object::cell::lemma_prefix_contains(order_int, n as int, s);
                if s == index as int {
                    assert(is_rotation_tried(preferred_rotation as int, 4, k as int));
                    assert(covers_either(preferred@, fallback@, field_shapes@, index as int, k, e));
                }
            }
        }
        n = n + 1;
    }
    proof {
        assert(order_int.subrange(0, n as int) =~= order_int);
        assert forall|s: int, k: nat, e: int|
            is_entrance_index(field_shapes@, s, k, e) implies #[trigger] covers_either(
            preferred@,
            fallback@,
            field_shapes@,
            s,
            k,
            e,
        ) by {
            let x = all[s];
            assert(x == s);
            assert(all.contains(x));
            assert(order@.contains(x));
            let m = choose|m: int| 0 <= m < order@.len() && order@[m] == x;
            assert(order_int[m] == s);
            assert(order_int.contains(s));
        }
    }
    let mut j: usize = 0;
    let ghost start = preferred@;
    while j < fallback.len()
        invariant
            j <= fallback@.len(),
            forall|i: int|
                0 <= i < preferred@.len() ==> layout_ok(#[trigger] preferred@[i], field_shapes@),
            forall|i: int|
                0 <= i < fallback@.len() ==> layout_ok(#[trigger] fallback@[i], field_shapes@),
            preferred@.len() == start.len() + j,
            preferred@.subrange(0, start.len() as int) == start,
            forall|i: int|
                start.len() <= i < preferred@.len() ==> (#[trigger] preferred@[i]).tiles@ == fallback@[i
                    - start.len()].tiles@ && preferred@[i].entrance == fallback@[i - start.len()].entrance,
        decreases fallback@.len() - j,
    {
        let layout = FieldLayout { tiles: copy_layout_tiles(&fallback[j].tiles), entrance: fallback[j].entrance };
        let ghost before = preferred@;
        proof {
            assert(layout_ok(fallback@[j as int], field_shapes@));
            reveal(layout_ok);
        }
        preferred.push(layout);
        proof {
            assert forall|i: int| 0 <= i < preferred@.len() implies layout_ok(#[trigger] preferred@[i], field_shapes@) by {
                if i < before.len() {
                    assert(preferred@[i] == before[i]);
                }
            }
            assert(preferred@.subrange(0, start.len() as int) =~= before.subrange(0, start.len() as int));
            assert forall|i: int| start.len() <= i < preferred@.len() implies (#[trigger] preferred@[i]).tiles@
                == fallback@[i - start.len()].tiles@ && preferred@[i].entrance == fallback@[i - start.len()].entrance by {
                if i < before.len() {
                    assert(preferred@[i] == before[i]);
                }
            }
        }
        j = j + 1;
    }
    proof {
        assert forall|s: int, k: nat, e: int|
            is_entrance_index(field_shapes@, s, k, e) implies #[trigger] covers(preferred@, field_shapes@, s, k, e) by {
            assert(covers_either(start, fallback@, field_shapes@, s, k, e));
            if covers(start, field_shapes@, s, k, e) {
                lemma_covers_extends(start, preferred@, field_shapes@, s, k, e);
            } else {
                let rr = rotated(field_shapes@[s].tiles@, k);
                let c = spec_entrances(rr, rr)[e];
                let i = choose|i: int| 0 <= i < fallback@.len() && is_layout_through(#[trigger] fallback@[i], rr, c);
                assert(is_layout_through(preferred@[start.len() + i], rr, c)) by {
                    reveal(is_layout_through);
                }
            }
        }
        assert forall|i: int| 0 <= i < preferred@.len() implies (#[trigger] preferred@[i]).tiles@.contains(
            (preferred@[i].entrance, crate::settlement::field_shapes::TileShape::Fill),
        ) && is_beside_origin(preferred@[i].entrance) by {
            lemma_layout_entrance_is_fill(preferred@[i], field_shapes@);
        }
    }
    preferred
}

/// Returns a copy of the tiles of a layout.
fn copy_layout_tiles(tiles: &Vec<(Point, crate::settlement::field_shapes::TileShape)>) -> (copy: Vec<(Point, crate::settlement::field_shapes::TileShape)>)
    ensures
        copy@ == tiles@,
{
    let mut copy: Vec<(Point, crate::settlement::field_shapes::TileShape)> = Vec::new();
    let mut i: usize = 0;
    while i < tiles.len()
        invariant
            i <= tiles@.len(),
            copy@ == tiles@.subrange(0, i as int),
        decreases tiles@.len() - i,
    {
        copy.push(tiles[i]);
        i = i + 1;
        assert(copy@ =~= tiles@.subrange(0, i as int));
    }
    assert(tiles@.subrange(0, tiles@.len() as int) =~= tiles@);
    copy
}

/// Whether every proposed field tile lies on an available position that is not occupied.
pub open spec fn tiles_free(proposed: Seq<(Point, ObjectName)>, available: Set<Point>, occupied: Set<Point>) -> bool {
    forall|k: int|
        0 <= k < proposed.len() ==> available.contains((#[trigger] proposed[k]).0) && !occupied.contains(proposed[k].0)
}

/// Whether every proposed field tile lies on the terrain of the first one.
pub open spec fn on_one_level(grid: ObjectGrid, proposed: Seq<(Point, ObjectName)>) -> bool {
    forall|k: int|
        0 <= k < proposed.len() ==> grid.cell_at((#[trigger] proposed[k]).0).terrain == grid.cell_at(proposed[0].0).terrain
}

/// The positions of the proposed field tiles.
pub open spec fn tile_positions(proposed: Seq<(Point, ObjectName)>) -> Set<Point> {
    Set::new(|p: Point| exists|k: int| 0 <= k < proposed.len() && (#[trigger] proposed[k]).0 == p)
}

/// Whether a proposed field can be placed: it has tiles, all of them on available, unoccupied positions of one
/// terrain, and with it in place at least one building still fits at a path point.
pub open spec fn field_fits(
    grid: ObjectGrid,
    proposed: Seq<(Point, ObjectName)>,
    path_points: Seq<Point>,
    available: Set<Point>,
    occupied: Set<Point>,
    templates: Seq<BuildingTemplate>,
) -> bool {
    &&& proposed.len() > 0
    &&& tiles_free(proposed, available, occupied)
    &&& on_one_level(grid, proposed)
    &&& some_building_fits(templates, path_points, available, occupied.union(tile_positions(proposed)))
}

/// Returns whether a proposed field can be placed: it has tiles, all of them on available, unoccupied positions of
/// one terrain, and with it in place at least one building still fits at a path point (see
/// [`estimated_building_capacity`]).
pub fn can_place_field(
    grid: &ObjectGrid,
    proposed_field_tiles: &Vec<(Point, ObjectName)>,
    path_points: &Vec<Point>,
    available_grid_space: &PointSet,
    occupied_grid_space: &PointSet,
    building_templates: &Vec<BuildingTemplate>,
) -> (result: bool)
    requires
        grid.wf(),
        all_wf(building_templates@),
        available_grid_space.wf(),
        occupied_grid_space.wf(),
        forall|k: int| 0 <= k < path_points@.len() ==> (#[trigger] path_points@[k]).spec_is_inside_grid(),
    ensures
        result == field_fits(
            *grid,
            proposed_field_tiles@,
            path_points@,
            available_grid_space@,
            occupied_grid_space@,
            building_templates@,
        ),
{
    let mut k: usize = 0;
    while k < proposed_field_tiles.len()
        invariant
            available_grid_space.wf(),
            occupied_grid_space.wf(),
            k <= proposed_field_tiles@.len(),
            tiles_free(proposed_field_tiles@.subrange(0, k as int), available_grid_space@, occupied_grid_space@),
        decreases proposed_field_tiles@.len() - k,
    {
        let p = proposed_field_tiles[k].0;
        if !available_grid_space.contains(&p) || occupied_grid_space.contains(&p) {
            return false;
        }
        k = k + 1;
        proof {
            assert forall|j: int| 0 <= j < k implies available_grid_space@.contains(
                (#[trigger] proposed_field_tiles@.subrange(0, k as int)[j]).0,
            ) && !occupied_grid_space@.contains(proposed_field_tiles@.subrange(0, k as int)[j].0) by {
                if j < k - 1 {
                    assert(proposed_field_tiles@.subrange(0, k as int)[j] == proposed_field_tiles@.subrange(0, k - 1)[j]);
                }
            }
        }
    }
    proof {
        assert(proposed_field_tiles@.subrange(0, proposed_field_tiles@.len() as int) =~= proposed_field_tiles@);
    }
    if proposed_field_tiles.len() == 0 {
        return false;
    }
    let first = proposed_field_tiles[0].0;
    proof {
        assert(available_grid_space@.contains(proposed_field_tiles@[0].0));
    }
    let terrain = match grid.get_cell(&first) {
        Some(cell) => cell.terrain(),
        None => {
            return false;
        },
    };
    let mut k: usize = 0;
    while k < proposed_field_tiles.len()
        invariant
            grid.wf(),
            available_grid_space.wf(),
            proposed_field_tiles@.len() > 0,
            terrain == grid.cell_at(proposed_field_tiles@[0].0).terrain,
            tiles_free(proposed_field_tiles@, available_grid_space@, occupied_grid_space@),
            k <= proposed_field_tiles@.len(),
            forall|j: int|
                0 <= j < k ==> grid.cell_at((#[trigger] proposed_field_tiles@[j]).0).terrain == terrain,
        decreases proposed_field_tiles@.len() - k,
    {
        let p = proposed_field_tiles[k].0;
        proof {
            assert(available_grid_space@.contains(proposed_field_tiles@[k as int].0));
        }
        match grid.get_cell(&p) {
            Some(cell) => {
                if cell.terrain() != terrain {
                    return false;
                }
            },
            None => {
                return false;
            },
        }
        k = k + 1;
    }
    let mut reserved = occupied_grid_space.copy();
    let mut k: usize = 0;
    while k < proposed_field_tiles.len()
        invariant
            available_grid_space.wf(),
            reserved.wf(),
            tiles_free(proposed_field_tiles@, available_grid_space@, occupied_grid_space@),
            k <= proposed_field_tiles@.len(),
            reserved@ == occupied_grid_space@.union(tile_positions(proposed_field_tiles@.subrange(0, k as int))),
        decreases proposed_field_tiles@.len() - k,
    {
        let p = proposed_field_tiles[k].0;
        proof {
            assert(available_grid_space@.contains(proposed_field_tiles@[k as int].0));
        }
        reserved.insert(&p);
        k = k + 1;
        proof {
            let prefix = proposed_field_tiles@.subrange(0, k as int);
            let before = proposed_field_tiles@.subrange(0, k - 1);
            assert forall|q: Point| tile_positions(prefix).contains(q) <==> tile_positions(before).insert(p).contains(q) by {
                if tile_positions(prefix).contains(q) {
                    let j = choose|j: int| 0 <= j < prefix.len() && (#[trigger] prefix[j]).0 == q;
                    if j < k - 1 {
                        assert(before[j] == prefix[j]);
                    }
                }
                if tile_positions(before).contains(q) {
                    let j = choose|j: int| 0 <= j < before.len() && (#[trigger] before[j]).0 == q;
                    assert(prefix[j] == before[j]);
                }
                if q == p {
                    assert(prefix[k - 1].0 == p);
                }
            }
            assert(tile_positions(prefix) =~= tile_positions(before).insert(p));
            assert(reserved@ =~= occupied_grid_space@.union(tile_positions(prefix)));
        }
    }
    proof {
        assert(proposed_field_tiles@.subrange(0, proposed_field_tiles@.len() as int) =~= proposed_field_tiles@);
    }
    let capacity = estimated_building_capacity(path_points, available_grid_space, reserved, building_templates);
    capacity > 0
}

/// Whether a cell holds a tile of a field: it is collapsed to a single wheat field or pasture object.
pub open spec fn is_field_cell(cell: crate::object::cell::Cell) -> bool {
    &&& cell.is_collapsed
    &&& cell.states().len() == 1
    &&& cell.states()[0].0.spec_is_field()
}

/// Collapses the cell of each field tile to its object and marks its position occupied.
fn mark_field(
    grid: &mut ObjectGrid,
    field: &Vec<(Point, ObjectName)>,
    available_grid_space: &PointSet,
    occupied_grid_space: &mut PointSet,
    Ghost(path_points): Ghost<Seq<Point>>,
)
    requires
        old(grid).wf(),
        available_grid_space.wf(),
        old(occupied_grid_space).wf(),
        tiles_free(field@, available_grid_space@, old(occupied_grid_space)@),
        roads_ready(*old(grid), path_points, available_grid_space@),
        forall|k: int| 0 <= k < path_points.len() ==> !available_grid_space@.contains(#[trigger] path_points[k]),
        forall|k: int| 0 <= k < field@.len() ==> (#[trigger] field@[k]).1.spec_is_field(),
    ensures
        final(occupied_grid_space).wf(),
        final(occupied_grid_space)@ == old(occupied_grid_space)@.union(tile_positions(field@)),
        roads_ready(*final(grid), path_points, available_grid_space@),
        joins_beside(*old(grid), *final(grid), path_points, available_grid_space@),
        changed_only(*old(grid), *final(grid), tile_positions(field@), path_points),
        forall|q: Point| #[trigger] tile_positions(field@).contains(q) ==> is_field_cell(final(grid).cell_at(q)),
{
    let ghost grid0 = *grid;
    let ghost space0 = occupied_grid_space@;
    let mut k: usize = 0;
    while k < field.len()
        invariant
            grid0.wf(),
            grid.wf(),
            available_grid_space.wf(),
            occupied_grid_space.wf(),
            tiles_free(field@, available_grid_space@, space0),
            forall|j: int| 0 <= j < path_points.len() ==> !available_grid_space@.contains(#[trigger] path_points[j]),
            roads_ready(grid0, path_points, available_grid_space@),
            k <= field@.len(),
            occupied_grid_space@ == space0.union(tile_positions(field@.subrange(0, k as int))),
            grid.cg == grid0.cg,
            grid.path == grid0.path,
            forall|q: Point|
                q.spec_is_inside_grid() && !tile_positions(field@.subrange(0, k as int)).contains(q)
                    ==> #[trigger] grid.cell_at(q) == grid0.cell_at(q),
            forall|j: int| 0 <= j < field@.len() ==> (#[trigger] field@[j]).1.spec_is_field(),
            forall|q: Point|
                #[trigger] tile_positions(field@.subrange(0, k as int)).contains(q) ==> is_field_cell(grid.cell_at(q)),
        decreases field@.len() - k,
    {
        let (p, name) = field[k];
        proof {
            assert(available_grid_space@.contains(field@[k as int].0));
        }
        let ghost before = *grid;
        match grid.get_cell_mut(&p) {
            Some(cell) => {
                cell.mark_as_collapsed(name);
            },
            None => {},
        }
        proof {
            crate::object::object_grid::lemma_grid_after_cell_update(before, *grid, p);
        }
        occupied_grid_space.insert(&p);
        k = k + 1;
        proof {
            let prefix = field@.subrange(0, k as int);
            let shorter = field@.subrange(0, k - 1);
            assert forall|q: Point| tile_positions(prefix).contains(q) <==> tile_positions(shorter).insert(p).contains(q) by {
                if tile_positions(prefix).contains(q) {
                    let j = choose|j: int| 0 <= j < prefix.len() && (#[trigger] prefix[j]).0 == q;
                    if j < k - 1 {
                        assert(shorter[j] == prefix[j]);
                    }
                }
                if tile_positions(shorter).contains(q) {
                    let j = choose|j: int| 0 <= j < shorter.len() && (#[trigger] shorter[j]).0 == q;
                    assert(prefix[j] == shorter[j]);
                }
                if q == p {
                    assert(prefix[k - 1].0 == p);
                }
            }
            assert(tile_positions(prefix) =~= tile_positions(shorter).insert(p));
            assert(occupied_grid_space@ =~= space0.union(tile_positions(prefix)));
            assert(is_field_cell(grid.cell_at(p)));
            assert forall|q: Point| #[trigger] tile_positions(prefix).contains(q) implies is_field_cell(grid.cell_at(q)) by {
                if q != p {
                    assert(tile_positions(shorter).contains(q));
                    assert(q.spec_is_inside_grid());
                }
            }
        }
    }
    proof {
        assert(field@.subrange(0, field@.len() as int) =~= field@);
        assert forall|j: int| 0 <= j < path_points.len() implies !tile_positions(field@).contains(
            #[trigger] path_points[j],
        ) by {
            if tile_positions(field@).contains(path_points[j]) {
                let m = choose|m: int| 0 <= m < field@.len() && (#[trigger] field@[m]).0 == path_points[j];
                assert(available_grid_space@.contains(field@[m].0));
            }
        }
        assert forall|j: int| 0 <= j < path_points.len() implies #[trigger] grid.cell_at(path_points[j])
            == grid0.cell_at(path_points[j]) by {
            assert(!tile_positions(field@).contains(path_points[j]));
            assert(path_points[j].spec_is_inside_grid());
        }
    }
}

/// A neighbour of a point on one of its four sides lies in a cardinal direction of it.
proof fn lemma_beside_is_cardinal(p: Point, offset: Point)
    requires
        p.spec_is_inside_grid(),
        is_beside_origin(offset),
    ensures
        Direction::spec_from_points(p, Point { x: (p.x + offset.x) as i32, y: (p.y + offset.y) as i32 }).is_cardinal(),
{
}

/// The tiles of the layout of rotation `k` of shape `s` entered through its candidate entrance `e`.
pub open spec fn shape_layout_tiles(shapes: Seq<FieldShape>, s: int, k: nat, e: int) -> Seq<
    (Point, crate::settlement::field_shapes::TileShape),
> {
    let r = rotated(shapes[s].tiles@, k);
    let c = spec_entrances(r, r)[e];
    r.map_values(|t: (i32, i32)| layout_tile(r, c.0, c.1, t))
}

/// The tiles of a field of `field_type` laid out by `layout_tiles` beside the path point `p`.
pub open spec fn placed_tiles(
    layout_tiles: Seq<(Point, crate::settlement::field_shapes::TileShape)>,
    p: Point,
    field_type: FieldType,
) -> Seq<(Point, ObjectName)> {
    layout_tiles.map_values(
        |t: (Point, crate::settlement::field_shapes::TileShape)|
            (Point { x: (p.x + t.0.x) as i32, y: (p.y + t.0.y) as i32 }, field_type.spec_object_name(t.1)),
    )
}

/// The positions covered by a sequence of fields.
pub open spec fn union_of(fields: Seq<Set<Point>>) -> Set<Point>
    decreases fields.len(),
{
    if fields.len() == 0 {
        Set::empty()
    } else {
        union_of(fields.drop_last()).union(fields.last())
    }
}

/// Whether some position of `field` lies next to one of `points`, so that the field is entered from it.
pub open spec fn entered_from(field: Set<Point>, points: Seq<Point>) -> bool {
    exists|k: int, d: Point|
        #![trigger points[k], field.contains(d)]
        0 <= k < points.len() && field.contains(d) && is_next_to(points[k], d)
}

/// Whether all positions of a field lie on one terrain of `grid`.
pub open spec fn on_one_terrain(grid: ObjectGrid, field: Set<Point>) -> bool {
    forall|a: Point, b: Point|
        #![trigger field.contains(a), field.contains(b)]
        field.contains(a) && field.contains(b) ==> grid.cell_at(a).terrain == grid.cell_at(b).terrain
}

/// Whether some rotation of some shape, entered through one of its candidate entrances beside one of the path
/// points, can be placed as a field (see [`field_fits`]).
pub open spec fn some_field_fits(
    grid: ObjectGrid,
    shapes: Seq<FieldShape>,
    path_points: Seq<Point>,
    available: Set<Point>,
    occupied: Set<Point>,
    templates: Seq<BuildingTemplate>,
) -> bool {
    exists|s: int, k: nat, e: int, j: int|
        is_entrance_index(shapes, s, k, e) && 0 <= j < path_points.len() && #[trigger] field_fits(
            grid,
            placed_tiles(shape_layout_tiles(shapes, s, k, e), path_points[j], FieldType::Wheat),
            path_points,
            available,
            occupied,
            templates,
        )
}

/// Whether a field fits depends only on the positions of its tiles, not on its field type.
proof fn lemma_field_fits_ignores_type(
    grid: ObjectGrid,
    layout_tiles: Seq<(Point, crate::settlement::field_shapes::TileShape)>,
    p: Point,
    a: FieldType,
    b: FieldType,
    path_points: Seq<Point>,
    available: Set<Point>,
    occupied: Set<Point>,
    templates: Seq<BuildingTemplate>,
)
    ensures
        field_fits(grid, placed_tiles(layout_tiles, p, a), path_points, available, occupied, templates) == field_fits(
            grid,
            placed_tiles(layout_tiles, p, b),
            path_points,
            available,
            occupied,
            templates,
        ),
{
    let x = placed_tiles(layout_tiles, p, a);
    let y = placed_tiles(layout_tiles, p, b);
    assert forall|k: int| 0 <= k < x.len() implies (#[trigger] x[k]).0 == y[k].0 by {}
    assert forall|q: Point| tile_positions(x).contains(q) <==> tile_positions(y).contains(q) by {
        if tile_positions(x).contains(q) {
            let k = choose|k: int| 0 <= k < x.len() && (#[trigger] x[k]).0 == q;
            assert(y[k].0 == q);
        }
        if tile_positions(y).contains(q) {
            let k = choose|k: int| 0 <= k < y.len() && (#[trigger] y[k]).0 == q;
            assert(x[k].0 == q);
        }
    }
    assert(tile_positions(x) =~= tile_positions(y));
    assert(x.len() == y.len());
    if tiles_free(x, available, occupied) {
        assert forall|k: int| 0 <= k < y.len() implies available.contains((#[trigger] y[k]).0) && !occupied.contains(
            y[k].0,
        ) by {
            assert(x[k].0 == y[k].0);
        }
    }
    if tiles_free(y, available, occupied) {
        assert forall|k: int| 0 <= k < x.len() implies available.contains((#[trigger] x[k]).0) && !occupied.contains(
            x[k].0,
        ) by {
            assert(x[k].0 == y[k].0);
        }
    }
    if x.len() > 0 {
        assert(x[0].0 == y[0].0);
        if on_one_level(grid, x) {
            assert forall|k: int| 0 <= k < y.len() implies grid.cell_at((#[trigger] y[k]).0).terrain == grid.cell_at(
                y[0].0,
            ).terrain by {
                assert(x[k].0 == y[k].0);
            }
        }
        if on_one_level(grid, y) {
            assert forall|k: int| 0 <= k < x.len() implies grid.cell_at((#[trigger] x[k]).0).terrain == grid.cell_at(
                x[0].0,
            ).terrain by {
                assert(x[k].0 == y[k].0);
            }
        }
    }
}

/// Places fenced fields beside the path points: for each permitted field type (see [`permitted_field_types`], with
/// the estimated building capacity), the first layout (see [`layouts`]) that can be placed at one of the path
/// points, taken in random order (see [`can_place_field`]), is laid out, and the road piece at that path point is
/// joined towards the field's entrance. Returns the number of fields placed.
pub fn place_fields(
    grid: &mut ObjectGrid,
    path_points: &Vec<Point>,
    available_grid_space: &PointSet,
    building_templates: &Vec<BuildingTemplate>,
    field_shapes: &Vec<FieldShape>,
    occupied_grid_space: &mut PointSet,
    rng: &mut StdRng,
) -> (fields_placed: usize)
    requires
        old(grid).wf(),
        all_wf(building_templates@),
        available_grid_space.wf(),
        old(occupied_grid_space).wf(),
        forall|s: int| 0 <= s < field_shapes@.len() ==> is_usable_shape((#[trigger] field_shapes@[s]).tiles@),
        roads_ready(*old(grid), path_points@, available_grid_space@),
        forall|k: int| 0 <= k < path_points@.len() ==> !available_grid_space@.contains(#[trigger] path_points@[k]),
    ensures
        fields_placed <= 2,
        final(occupied_grid_space).wf(),
        old(occupied_grid_space)@.subset_of(final(occupied_grid_space)@),
        final(occupied_grid_space)@.subset_of(old(occupied_grid_space)@.union(available_grid_space@)),
        roads_ready(*final(grid), path_points@, available_grid_space@),
        joins_beside(*old(grid), *final(grid), path_points@, available_grid_space@),
        changed_only(
            *old(grid),
            *final(grid),
            final(occupied_grid_space)@.difference(old(occupied_grid_space)@),
            path_points@,
        ),
        forall|q: Point|
            #[trigger] final(occupied_grid_space)@.contains(q) && !old(occupied_grid_space)@.contains(q) ==> is_field_cell(
                final(grid).cell_at(q),
            ),
        fields_placed == 0 ==> *final(grid) == *old(grid) && final(occupied_grid_space)@ == old(occupied_grid_space)@,
        fields_placed >= 1 ==> exists|q: Point|
            #[trigger] final(occupied_grid_space)@.contains(q) && !old(occupied_grid_space)@.contains(q),
        exists|fields: Seq<Set<Point>>|
            fields.len() == fields_placed && #[trigger] union_of(fields) == final(occupied_grid_space)@.difference(
                old(occupied_grid_space)@,
            ) && forall|i: int| 0 <= i < fields.len() ==> on_one_terrain(*old(grid), #[trigger] fields[i]) && entered_from(
                fields[i],
                path_points@,
            ),
        (forall|k: int, i: int|
            0 <= k < path_points@.len() && 0 <= i < building_templates@.len() ==> !fits(
                #[trigger] building_templates@[i],
                #[trigger] path_points@[k],
                available_grid_space@,
                old(occupied_grid_space)@,
            )) ==> fields_placed == 0,
        some_building_fits(building_templates@, path_points@, available_grid_space@, old(occupied_grid_space)@)
            ==> some_building_fits(building_templates@, path_points@, available_grid_space@, final(occupied_grid_space)@),
        some_building_fits(building_templates@, path_points@, available_grid_space@, old(occupied_grid_space)@)
            && some_field_fits(
            *old(grid),
            field_shapes@,
            path_points@,
            available_grid_space@,
            old(occupied_grid_space)@,
            building_templates@,
        ) ==> fields_placed >= 1,
{
    let ghost grid0 = *grid;
    let ghost space0 = occupied_grid_space@;
    proof {
        assert forall|k: int| 0 <= k < path_points@.len() implies (#[trigger] path_points@[k]).spec_is_inside_grid() by {
        }
    }
    let capacity = estimated_building_capacity(
        path_points,
        available_grid_space,
        occupied_grid_space.copy(),
        building_templates,
    );
    let mut candidates = crate::object::path_network::copy_points(path_points);
    shuffle(rng, &mut candidates);
    proof {
        crate::random::lemma_permutation_contains(candidates@, path_points@);
        crate::random::lemma_permutation_contains(path_points@, candidates@);
    }
    let ghost premise = some_building_fits(building_templates@, path_points@, available_grid_space@, space0)
        && some_field_fits(grid0, field_shapes@, path_points@, available_grid_space@, space0, building_templates@);
    let mut fields_placed: usize = 0;
    let ghost mut fields: Seq<Set<Point>> = Seq::empty();
    proof {
        assert(occupied_grid_space@.difference(space0) =~= Set::<Point>::empty());
    }
    let field_types = permitted_field_types(rng, capacity);
    let mut t: usize = 0;
    while t < field_types.len()
        invariant
            grid0.wf(),
            grid.wf(),
            all_wf(building_templates@),
            available_grid_space.wf(),
            occupied_grid_space.wf(),
            forall|s: int| 0 <= s < field_shapes@.len() ==> is_usable_shape((#[trigger] field_shapes@[s]).tiles@),
            forall|k: int| 0 <= k < path_points@.len() ==> !available_grid_space@.contains(#[trigger] path_points@[k]),
            forall|k: int| 0 <= k < path_points@.len() ==> (#[trigger] path_points@[k]).spec_is_inside_grid(),
            forall|c: Point| candidates@.contains(c) ==> path_points@.contains(c),
            field_types@.len() <= 2,
            t <= field_types@.len(),
            fields_placed <= t,
            space0.subset_of(occupied_grid_space@),
            occupied_grid_space@.subset_of(space0.union(available_grid_space@)),
            roads_ready(*grid, path_points@, available_grid_space@),
            joins_beside(grid0, *grid, path_points@, available_grid_space@),
            changed_only(grid0, *grid, occupied_grid_space@.difference(space0), path_points@),
            forall|q: Point| #[trigger] occupied_grid_space@.contains(q) && !space0.contains(q) ==> is_field_cell(grid.cell_at(q)),
            fields_placed == 0 ==> *grid == grid0 && occupied_grid_space@ == space0,
            fields_placed >= 1 ==> exists|q: Point| #[trigger] occupied_grid_space@.contains(q) && !space0.contains(q),
            fields.len() == fields_placed,
            union_of(fields) == occupied_grid_space@.difference(space0),
            forall|i: int|
                0 <= i < fields.len() ==> on_one_terrain(grid0, #[trigger] fields[i]) && entered_from(fields[i], path_points@),
            some_building_fits(building_templates@, path_points@, available_grid_space@, space0) ==> some_building_fits(
                building_templates@,
                path_points@,
                available_grid_space@,
                occupied_grid_space@,
            ),
            forall|cc: Point| path_points@.contains(cc) ==> candidates@.contains(cc),
            premise == (some_building_fits(building_templates@, path_points@, available_grid_space@, space0)
                && some_field_fits(grid0, field_shapes@, path_points@, available_grid_space@, space0, building_templates@)),
            t > 0 && premise ==> fields_placed >= 1,
            field_types@.len() == 0 ==> !some_building_fits(building_templates@, path_points@, available_grid_space@, space0),
        decreases field_types@.len() - t,
    {
        let field_type = field_types[t];
        let candidate_layouts = layouts(rng, field_shapes);
        let mut placed = false;
        let mut l: usize = 0;
        while l < candidate_layouts.len() && !placed
            invariant
                grid0.wf(),
                grid.wf(),
                all_wf(building_templates@),
                available_grid_space.wf(),
                occupied_grid_space.wf(),
                forall|k: int| 0 <= k < path_points@.len() ==> !available_grid_space@.contains(#[trigger] path_points@[k]),
                forall|k: int| 0 <= k < path_points@.len() ==> (#[trigger] path_points@[k]).spec_is_inside_grid(),
                forall|c: Point| candidates@.contains(c) ==> path_points@.contains(c),
                forall|i: int| 0 <= i < candidate_layouts@.len() ==> layout_ok(#[trigger] candidate_layouts@[i], field_shapes@),
                l <= candidate_layouts@.len(),
                t < field_types@.len() <= 2,
                fields_placed <= t + if placed { 1int } else { 0int },
                space0.subset_of(occupied_grid_space@),
                occupied_grid_space@.subset_of(space0.union(available_grid_space@)),
                roads_ready(*grid, path_points@, available_grid_space@),
                joins_beside(grid0, *grid, path_points@, available_grid_space@),
                changed_only(grid0, *grid, occupied_grid_space@.difference(space0), path_points@),
                forall|q: Point| #[trigger] occupied_grid_space@.contains(q) && !space0.contains(q) ==> is_field_cell(grid.cell_at(q)),
                fields_placed == 0 ==> *grid == grid0 && occupied_grid_space@ == space0,
                fields_placed >= 1 ==> exists|q: Point| #[trigger] occupied_grid_space@.contains(q) && !space0.contains(q),
                fields.len() == fields_placed,
                union_of(fields) == occupied_grid_space@.difference(space0),
                forall|i: int|
                0 <= i < fields.len() ==> on_one_terrain(grid0, #[trigger] fields[i]) && entered_from(fields[i], path_points@),
                some_building_fits(building_templates@, path_points@, available_grid_space@, space0) ==> some_building_fits(
                    building_templates@,
                    path_points@,
                    available_grid_space@,
                    occupied_grid_space@,
                ),
                forall|cc: Point| path_points@.contains(cc) ==> candidates@.contains(cc),
                premise == (some_building_fits(building_templates@, path_points@, available_grid_space@, space0)
                    && some_field_fits(grid0, field_shapes@, path_points@, available_grid_space@, space0, building_templates@)),
                t == 0 && premise ==> field_types@.len() >= 1,
                t > 0 && premise ==> fields_placed >= 1,
                t < field_types@.len(),
                placed ==> fields_placed >= 1,
                fields_placed == 0 && !placed ==> forall|l2: int, c2: int| 0 <= l2 < l && 0 <= c2 < candidates@.len() ==> !#[trigger] field_fits(
                        grid0,
                        placed_tiles(candidate_layouts@[l2].tiles@, candidates@[c2], field_type),
                        path_points@,
                        available_grid_space@,
                        space0,
                        building_templates@,
                    ),
                forall|s: int, k: nat, e: int| is_entrance_index(field_shapes@, s, k, e) ==> #[trigger] covers(candidate_layouts@, field_shapes@, s, k, e),
            decreases candidate_layouts@.len() - l,
        {
            let layout = &candidate_layouts[l];
            proof {
                assert(layout_ok(candidate_layouts@[l as int], field_shapes@));
                reveal(layout_ok);
            }
            let mut c: usize = 0;
            while c < candidates.len() && !placed
                invariant
                    grid0.wf(),
                    grid.wf(),
                    all_wf(building_templates@),
                    available_grid_space.wf(),
                    occupied_grid_space.wf(),
                    forall|k: int| 0 <= k < path_points@.len() ==> !available_grid_space@.contains(#[trigger] path_points@[k]),
                    forall|k: int| 0 <= k < path_points@.len() ==> (#[trigger] path_points@[k]).spec_is_inside_grid(),
                    forall|cc: Point| candidates@.contains(cc) ==> path_points@.contains(cc),
                    is_beside_origin(layout.entrance),
                    layout_ok(*layout, field_shapes@),
                    is_near_layout(layout.tiles@),
                    c <= candidates@.len(),
                    t < field_types@.len() <= 2,
                    fields_placed <= t + if placed { 1int } else { 0int },
                    space0.subset_of(occupied_grid_space@),
                    occupied_grid_space@.subset_of(space0.union(available_grid_space@)),
                    roads_ready(*grid, path_points@, available_grid_space@),
                    joins_beside(grid0, *grid, path_points@, available_grid_space@),
                    changed_only(grid0, *grid, occupied_grid_space@.difference(space0), path_points@),
                    forall|q: Point| #[trigger] occupied_grid_space@.contains(q) && !space0.contains(q) ==> is_field_cell(grid.cell_at(q)),
                    fields_placed == 0 ==> *grid == grid0 && occupied_grid_space@ == space0,
                    fields_placed >= 1 ==> exists|q: Point| #[trigger] occupied_grid_space@.contains(q) && !space0.contains(q),
                    fields.len() == fields_placed,
                    union_of(fields) == occupied_grid_space@.difference(space0),
                    forall|i: int|
                0 <= i < fields.len() ==> on_one_terrain(grid0, #[trigger] fields[i]) && entered_from(fields[i], path_points@),
                    some_building_fits(building_templates@, path_points@, available_grid_space@, space0) ==> some_building_fits(
                    building_templates@,
                    path_points@,
                    available_grid_space@,
                    occupied_grid_space@,
                    ),
                    forall|cc: Point| path_points@.contains(cc) ==> candidates@.contains(cc),
                    premise == (some_building_fits(building_templates@, path_points@, available_grid_space@, space0)
                    && some_field_fits(grid0, field_shapes@, path_points@, available_grid_space@, space0, building_templates@)),
                    t == 0 && premise ==> field_types@.len() >= 1,
                    t > 0 && premise ==> fields_placed >= 1,
                    t < field_types@.len(),
                    placed ==> fields_placed >= 1,
                    fields_placed == 0 && !placed ==> forall|l2: int, c2: int| 0 <= l2 < l && 0 <= c2 < candidates@.len() ==> !#[trigger] field_fits(
                            grid0,
                            placed_tiles(candidate_layouts@[l2].tiles@, candidates@[c2], field_type),
                            path_points@,
                            available_grid_space@,
                            space0,
                            building_templates@,
                        ),
                    forall|s: int, k: nat, e: int| is_entrance_index(field_shapes@, s, k, e) ==> #[trigger] covers(candidate_layouts@, field_shapes@, s, k, e),
                    *layout == candidate_layouts@[l as int],
                    l < candidate_layouts@.len(),
                    fields_placed == 0 && !placed ==> forall|c2: int| 0 <= c2 < c ==> !#[trigger] field_fits(
                            grid0,
                            placed_tiles(candidate_layouts@[l as int].tiles@, candidates@[c2], field_type),
                            path_points@,
                            available_grid_space@,
                            space0,
                            building_templates@,
                        ),
                decreases candidates@.len() - c,
            {
                let connection_ig = candidates[c];
                proof {
                    assert(candidates@.contains(candidates@[c as int]));
                    let m = choose|m: int| 0 <= m < path_points@.len() && path_points@[m] == connection_ig;
                    assert(path_points@[m].spec_is_inside_grid());
                }
                let candidate_field = absolute_tiles(layout, connection_ig, field_type);
                proof {
                    assert(candidate_field@ =~= placed_tiles(layout.tiles@, connection_ig, field_type));
                }
                let fits_here = can_place_field(
                    grid,
                    &candidate_field,
                    path_points,
                    available_grid_space,
                    occupied_grid_space,
                    building_templates,
                );
                if fits_here {
                    let ghost grid_before = *grid;
                    let ghost space_before = occupied_grid_space@;
                    mark_field(grid, &candidate_field, available_grid_space, occupied_grid_space, Ghost(path_points@));
                    let entrance = Point::new_internal_grid(
                        connection_ig.x + layout.entrance.x,
                        connection_ig.y + layout.entrance.y,
                    );
                    let ghost grid_mid = *grid;
                    proof {
                        lemma_beside_is_cardinal(connection_ig, layout.entrance);
                        let m = choose|m: int| 0 <= m < path_points@.len() && path_points@[m] == connection_ig;
                        assert(roads_ready(*grid, path_points@, available_grid_space@));
                        lemma_layout_entrance_is_fill(*layout, field_shapes@);
                        let fill = (layout.entrance, crate::settlement::field_shapes::TileShape::Fill);
                        let j = choose|j: int| 0 <= j < layout.tiles@.len() && layout.tiles@[j] == fill;
                        assert(candidate_field@[j].0 == entrance);
                        assert(available_grid_space@.contains(entrance));
                        assert(is_next_to(connection_ig, entrance));
                        assert(beside_available(available_grid_space@, connection_ig));
                        assert(is_collapsed_path_cell(grid.cell_at(path_points@[m])));
                        assert(path_points@.contains(connection_ig));
                        assert forall|q: Point| tile_positions(candidate_field@).contains(q) implies available_grid_space@.contains(q)
                            && !space_before.contains(q) by {
                            let j = choose|j: int| 0 <= j < candidate_field@.len() && (#[trigger] candidate_field@[j]).0 == q;
                        }
                    }
                    update_path_in_front_of_entrance(&connection_ig, &entrance, grid);
                    proof {
                        crate::settlement::buildings::lemma_join_keeps_roads_ready(
                            grid_mid,
                            *grid,
                            path_points@,
                            available_grid_space@,
                            connection_ig,
                            entrance,
                        );
                        assert forall|j: int|
                            0 <= j < path_points@.len() && !beside_available(
                                available_grid_space@,
                                #[trigger] path_points@[j],
                            ) implies grid.cell_at(path_points@[j]) == grid0.cell_at(path_points@[j]) by {
                            assert(grid.cell_at(path_points@[j]) == grid_mid.cell_at(path_points@[j]));
                            assert(grid_mid.cell_at(path_points@[j]) == grid_before.cell_at(path_points@[j]));
                        }
                        assert forall|q: Point|
                            q.spec_is_inside_grid() && !occupied_grid_space@.difference(space0).contains(q)
                                && !path_points@.contains(q) implies #[trigger] grid.cell_at(q) == grid0.cell_at(q) by {
                            assert(q != connection_ig);
                            assert(grid.cell_at(q) == grid_mid.cell_at(q));
                            if tile_positions(candidate_field@).contains(q) {
                                assert(occupied_grid_space@.contains(q));
                                assert(!space_before.contains(q));
                            }
                            assert(grid_mid.cell_at(q) == grid_before.cell_at(q));
                            assert(!space_before.difference(space0).contains(q));
                        }
                        assert(occupied_grid_space@.subset_of(space0.union(available_grid_space@)));
                        assert forall|q: Point| #[trigger] occupied_grid_space@.contains(q) && !space0.contains(q)
                            implies is_field_cell(grid.cell_at(q)) by {
                            assert(available_grid_space@.contains(q));
                            assert(q != connection_ig);
                            assert(grid.cell_at(q) == grid_mid.cell_at(q));
                            if !tile_positions(candidate_field@).contains(q) {
                                assert(space_before.contains(q));
                                assert(grid_mid.cell_at(q) == grid_before.cell_at(q));
                            }
                        }
                    }
                    proof {
                        assert(occupied_grid_space@ == space_before.union(tile_positions(candidate_field@)));
                        let q0 = candidate_field@[0].0;
                        assert(tile_positions(candidate_field@).contains(q0));
                        assert(occupied_grid_space@.contains(q0) && !space0.contains(q0));
                        let tp = tile_positions(candidate_field@);
                        let fields_before = fields;
                        assert(fields_before.push(tp).drop_last() =~= fields_before);
                        assert(union_of(fields_before.push(tp)) =~= occupied_grid_space@.difference(space0));
                        assert forall|a: Point| tp.contains(a) implies #[trigger] grid_before.cell_at(a) == grid0.cell_at(a) by {
                            let k = choose|k: int| 0 <= k < candidate_field@.len() && (#[trigger] candidate_field@[k]).0 == a;
                            assert(available_grid_space@.contains(a));
                            assert(!space_before.contains(a));
                            assert(!space_before.difference(space0).contains(a));
                            if path_points@.contains(a) {
                                let m = choose|m: int| 0 <= m < path_points@.len() && path_points@[m] == a;
                                assert(!available_grid_space@.contains(path_points@[m]));
                            }
                        }
                        assert(on_one_terrain(grid0, tp)) by {
                            assert forall|a: Point, b: Point| tp.contains(a) && tp.contains(b) implies grid0.cell_at(a).terrain
                                == grid0.cell_at(b).terrain by {
                                let ka = choose|k: int| 0 <= k < candidate_field@.len() && (#[trigger] candidate_field@[k]).0 == a;
                                let kb = choose|k: int| 0 <= k < candidate_field@.len() && (#[trigger] candidate_field@[k]).0 == b;
                                assert(grid_before.cell_at(candidate_field@[ka].0).terrain == grid_before.cell_at(
                                    candidate_field@[0].0,
                                ).terrain);
                                assert(grid_before.cell_at(candidate_field@[kb].0).terrain == grid_before.cell_at(
                                    candidate_field@[0].0,
                                ).terrain);
                            }
                        }
                        assert(entered_from(tp, path_points@)) by {
                            lemma_layout_entrance_is_fill(*layout, field_shapes@);
                            let fill = (layout.entrance, crate::settlement::field_shapes::TileShape::Fill);
                            let j = choose|j: int| 0 <= j < layout.tiles@.len() && layout.tiles@[j] == fill;
                            assert(candidate_field@[j].0 == entrance);
                            assert(tp.contains(entrance));
                            let m = choose|m: int| 0 <= m < path_points@.len() && path_points@[m] == connection_ig;
                            assert(is_next_to(path_points@[m], entrance));
                        }
                        fields = fields_before.push(tp);
                        assert forall|i: int| 0 <= i < fields.len() implies on_one_terrain(grid0, #[trigger] fields[i])
                            && entered_from(fields[i], path_points@) by {
                            if i < fields_before.len() {
                                assert(fields[i] == fields_before[i]);
                            }
                        }
                    }
                    fields_placed = fields_placed + 1;
                    placed = true;
                }
                c = c + 1;
            }
            l = l + 1;
        }
        proof {
            if t == 0 && premise && !placed && fields_placed == 0 {
                let (s, k, e, j) = choose|s: int, k: nat, e: int, j: int|
                    is_entrance_index(field_shapes@, s, k, e) && 0 <= j < path_points@.len() && #[trigger] field_fits(
                        grid0,
                        placed_tiles(shape_layout_tiles(field_shapes@, s, k, e), path_points@[j], FieldType::Wheat),
                        path_points@,
                        available_grid_space@,
                        space0,
                        building_templates@,
                    );
                assert(covers(candidate_layouts@, field_shapes@, s, k, e));
                let r = rotated(field_shapes@[s].tiles@, k);
                let entrance = spec_entrances(r, r)[e];
                let l2 = choose|i: int|
                    0 <= i < candidate_layouts@.len() && is_layout_through(#[trigger] candidate_layouts@[i], r, entrance);
                reveal(is_layout_through);
                assert(candidate_layouts@[l2].tiles@ == shape_layout_tiles(field_shapes@, s, k, e));
                assert(path_points@.contains(path_points@[j]));
                assert(candidates@.contains(path_points@[j]));
                let c2 = choose|c2: int| 0 <= c2 < candidates@.len() && candidates@[c2] == path_points@[j];
                lemma_field_fits_ignores_type(
                    grid0,
                    candidate_layouts@[l2].tiles@,
                    path_points@[j],
                    FieldType::Wheat,
                    field_type,
                    path_points@,
                    available_grid_space@,
                    space0,
                    building_templates@,
                );
                assert(!field_fits(
                    grid0,
                    placed_tiles(candidate_layouts@[l2].tiles@, candidates@[c2], field_type),
                    path_points@,
                    available_grid_space@,
                    space0,
                    building_templates@,
                ));
                assert(false);
            }
        }
        t = t + 1;
    }
    fields_placed
}

} // verus!
