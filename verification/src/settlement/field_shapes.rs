use crate::coords::{Direction, Point};
use crate::object::object_name::ObjectName;
use vstd::prelude::*;

verus! {

/// The kinds of fenced field a settlement may have.
#[derive(Clone, Copy, Debug, PartialEq, Eq, Hash, Structural)]
pub enum FieldType {
    Wheat,
    Pasture,
}

/// The shape of one tile of a fenced field: a fill tile, a fence along one side, a fence around an outer corner, or a
/// fence piece in an inner corner.
#[derive(Clone, Copy, Debug, PartialEq, Eq, Hash, Structural)]
pub enum TileShape {
    Fill,
    EdgeTop,
    EdgeRight,
    EdgeBottom,
    EdgeLeft,
    OuterCornerTopLeft,
    OuterCornerTopRight,
    OuterCornerBottomRight,
    OuterCornerBottomLeft,
    InnerCornerTopLeft,
    InnerCornerTopRight,
    InnerCornerBottomRight,
    InnerCornerBottomLeft,
}

/// The shape of fence that a field object draws, read off the object itself: its fill, the side its fence runs
/// along, or the outer or inner corner its fence turns around; none for an object that is no field tile.
pub open spec fn shape_drawn_by(name: ObjectName) -> Option<TileShape> {
    match name {
        ObjectName::WheatFieldFill | ObjectName::PastureFill => Some(TileShape::Fill),
        ObjectName::WheatFieldSideTop | ObjectName::PastureSideTop => Some(TileShape::EdgeTop),
        ObjectName::WheatFieldSideRight | ObjectName::PastureSideRight => Some(TileShape::EdgeRight),
        ObjectName::WheatFieldSideBottom | ObjectName::PastureSideBottom => Some(TileShape::EdgeBottom),
        ObjectName::WheatFieldSideLeft | ObjectName::PastureSideLeft => Some(TileShape::EdgeLeft),
        ObjectName::WheatFieldOuterCornerTopLeft | ObjectName::PastureOuterCornerTopLeft => Some(TileShape::OuterCornerTopLeft),
        ObjectName::WheatFieldOuterCornerTopRight | ObjectName::PastureOuterCornerTopRight => Some(TileShape::OuterCornerTopRight),
        ObjectName::WheatFieldOuterCornerBottomRight | ObjectName::PastureOuterCornerBottomRight => Some(TileShape::OuterCornerBottomRight),
        ObjectName::WheatFieldOuterCornerBottomLeft | ObjectName::PastureOuterCornerBottomLeft => Some(TileShape::OuterCornerBottomLeft),
        ObjectName::WheatFieldInnerCornerTopLeft | ObjectName::PastureInnerCornerTopLeft => Some(TileShape::InnerCornerTopLeft),
        ObjectName::WheatFieldInnerCornerTopRight | ObjectName::PastureInnerCornerTopRight => Some(TileShape::InnerCornerTopRight),
        ObjectName::WheatFieldInnerCornerBottomRight | ObjectName::PastureInnerCornerBottomRight => Some(TileShape::InnerCornerBottomRight),
        ObjectName::WheatFieldInnerCornerBottomLeft | ObjectName::PastureInnerCornerBottomLeft => Some(TileShape::InnerCornerBottomLeft),
        _ => None,
    }
}

impl FieldType {
    /// Each tile of a field is drawn with the object of its field type whose fence has the tile's own shape: the
    /// bottom-right outer corner of a wheat field is a wheat field object drawing a bottom-right outer corner.
    pub proof fn lemma_object_draws_the_tile_shape(self, tile_shape: TileShape)
        ensures
            shape_drawn_by(self.spec_object_name(tile_shape)) == Some(tile_shape),
            self == FieldType::Wheat ==> self.spec_object_name(tile_shape).spec_is_wheat_field(),
            self == FieldType::Pasture ==> self.spec_object_name(tile_shape).spec_is_pasture(),
    {
    }

    /// The object drawn for a tile of this field type with the given shape.
    pub open spec fn spec_object_name(self, tile_shape: TileShape) -> ObjectName {
        match self {
            FieldType::Wheat => match tile_shape {
                TileShape::Fill => ObjectName::WheatFieldFill,
                TileShape::EdgeTop => ObjectName::WheatFieldSideTop,
                TileShape::EdgeRight => ObjectName::WheatFieldSideRight,
                TileShape::EdgeBottom => ObjectName::WheatFieldSideBottom,
                TileShape::EdgeLeft => ObjectName::WheatFieldSideLeft,
                TileShape::OuterCornerTopLeft => ObjectName::WheatFieldOuterCornerTopLeft,
                TileShape::OuterCornerTopRight => ObjectName::WheatFieldOuterCornerTopRight,
                TileShape::OuterCornerBottomRight => ObjectName::WheatFieldOuterCornerBottomRight,
                TileShape::OuterCornerBottomLeft => ObjectName::WheatFieldOuterCornerBottomLeft,
                TileShape::InnerCornerTopLeft => ObjectName::WheatFieldInnerCornerTopLeft,
                TileShape::InnerCornerTopRight => ObjectName::WheatFieldInnerCornerTopRight,
                TileShape::InnerCornerBottomRight => ObjectName::WheatFieldInnerCornerBottomRight,
                TileShape::InnerCornerBottomLeft => ObjectName::WheatFieldInnerCornerBottomLeft,
            },
            FieldType::Pasture => match tile_shape {
                TileShape::Fill => ObjectName::PastureFill,
                TileShape::EdgeTop => ObjectName::PastureSideTop,
                TileShape::EdgeRight => ObjectName::PastureSideRight,
                TileShape::EdgeBottom => ObjectName::PastureSideBottom,
                TileShape::EdgeLeft => ObjectName::PastureSideLeft,
                TileShape::OuterCornerTopLeft => ObjectName::PastureOuterCornerTopLeft,
                TileShape::OuterCornerTopRight => ObjectName::PastureOuterCornerTopRight,
                TileShape::OuterCornerBottomRight => ObjectName::PastureOuterCornerBottomRight,
                TileShape::OuterCornerBottomLeft => ObjectName::PastureOuterCornerBottomLeft,
                TileShape::InnerCornerTopLeft => ObjectName::PastureInnerCornerTopLeft,
                TileShape::InnerCornerTopRight => ObjectName::PastureInnerCornerTopRight,
                TileShape::InnerCornerBottomRight => ObjectName::PastureInnerCornerBottomRight,
                TileShape::InnerCornerBottomLeft => ObjectName::PastureInnerCornerBottomLeft,
            },
        }
    }

    /// Returns the object drawn for a tile of this field type with the given shape.
    pub fn object_name(self, tile_shape: TileShape) -> (name: ObjectName)
        ensures
            name == self.spec_object_name(tile_shape),
            shape_drawn_by(name) == Some(tile_shape),
            self == FieldType::Wheat ==> name.spec_is_wheat_field(),
            self == FieldType::Pasture ==> name.spec_is_pasture(),
    {
        match self {
            FieldType::Wheat => match tile_shape {
                TileShape::Fill => ObjectName::WheatFieldFill,
                TileShape::EdgeTop => ObjectName::WheatFieldSideTop,
                TileShape::EdgeRight => ObjectName::WheatFieldSideRight,
                TileShape::EdgeBottom => ObjectName::WheatFieldSideBottom,
                TileShape::EdgeLeft => ObjectName::WheatFieldSideLeft,
                TileShape::OuterCornerTopLeft => ObjectName::WheatFieldOuterCornerTopLeft,
                TileShape::OuterCornerTopRight => ObjectName::WheatFieldOuterCornerTopRight,
                TileShape::OuterCornerBottomRight => ObjectName::WheatFieldOuterCornerBottomRight,
                TileShape::OuterCornerBottomLeft => ObjectName::WheatFieldOuterCornerBottomLeft,
                TileShape::InnerCornerTopLeft => ObjectName::WheatFieldInnerCornerTopLeft,
                TileShape::InnerCornerTopRight => ObjectName::WheatFieldInnerCornerTopRight,
                TileShape::InnerCornerBottomRight => ObjectName::WheatFieldInnerCornerBottomRight,
                TileShape::InnerCornerBottomLeft => ObjectName::WheatFieldInnerCornerBottomLeft,
            },
            FieldType::Pasture => match tile_shape {
                TileShape::Fill => ObjectName::PastureFill,
                TileShape::EdgeTop => ObjectName::PastureSideTop,
                TileShape::EdgeRight => ObjectName::PastureSideRight,
                TileShape::EdgeBottom => ObjectName::PastureSideBottom,
                TileShape::EdgeLeft => ObjectName::PastureSideLeft,
                TileShape::OuterCornerTopLeft => ObjectName::PastureOuterCornerTopLeft,
                TileShape::OuterCornerTopRight => ObjectName::PastureOuterCornerTopRight,
                TileShape::OuterCornerBottomRight => ObjectName::PastureOuterCornerBottomRight,
                TileShape::OuterCornerBottomLeft => ObjectName::PastureOuterCornerBottomLeft,
                TileShape::InnerCornerTopLeft => ObjectName::PastureInnerCornerTopLeft,
                TileShape::InnerCornerTopRight => ObjectName::PastureInnerCornerTopRight,
                TileShape::InnerCornerBottomRight => ObjectName::PastureInnerCornerBottomRight,
                TileShape::InnerCornerBottomLeft => ObjectName::PastureInnerCornerBottomLeft,
            },
        }
    }
}

/// The largest coordinate of a tile of a field shape.
pub const SHAPE_LIMIT: i32 = 0x1000;

/// Whether a coordinate is small enough for a field shape.
pub open spec fn is_small(v: int) -> bool {
    -SHAPE_LIMIT <= v <= SHAPE_LIMIT
}

/// Whether every tile of a field shape has small coordinates.
pub open spec fn is_small_shape(shape: Seq<(i32, i32)>) -> bool {
    forall|i: int| 0 <= i < shape.len() ==> is_small((#[trigger] shape[i]).0 as int) && is_small(shape[i].1 as int)
}

/// Whether the field shape holds the tile at `(x, y)`.
pub open spec fn has_tile(shape: Seq<(i32, i32)>, x: int, y: int) -> bool {
    shape.contains((x as i32, y as i32))
}

/// Whether the neighbour of the tile at `(x, y)` in direction `d` is not part of the shape.
pub open spec fn is_missing(shape: Seq<(i32, i32)>, x: int, y: int, d: Direction) -> bool {
    !has_tile(shape, x + d.dx(), y + d.dy())
}

/// `s` with `d` appended if `c` holds.
pub open spec fn push_if<T>(s: Seq<T>, c: bool, d: T) -> Seq<T> {
    if c {
        s.push(d)
    } else {
        s
    }
}

/// The cardinal directions in which the tile at `(x, y)` has no neighbour in the shape, in the order top, right,
/// bottom, left.
pub open spec fn spec_outside(shape: Seq<(i32, i32)>, x: int, y: int) -> Seq<Direction> {
    let s1 = push_if(Seq::empty(), is_missing(shape, x, y, Direction::Top), Direction::Top);
    let s2 = push_if(s1, is_missing(shape, x, y, Direction::Right), Direction::Right);
    let s3 = push_if(s2, is_missing(shape, x, y, Direction::Bottom), Direction::Bottom);
    push_if(s3, is_missing(shape, x, y, Direction::Left), Direction::Left)
}

/// The inner corners needed at `(x, y)`: one for each missing diagonal neighbour, in the order top left, top right,
/// bottom right, bottom left.
pub open spec fn spec_missing_diagonals(shape: Seq<(i32, i32)>, x: int, y: int) -> Seq<TileShape> {
    let s1 = push_if(Seq::empty(), is_missing(shape, x, y, Direction::TopLeft), TileShape::InnerCornerTopLeft);
    let s2 = push_if(s1, is_missing(shape, x, y, Direction::TopRight), TileShape::InnerCornerTopRight);
    let s3 = push_if(s2, is_missing(shape, x, y, Direction::BottomRight), TileShape::InnerCornerBottomRight);
    push_if(s3, is_missing(shape, x, y, Direction::BottomLeft), TileShape::InnerCornerBottomLeft)
}

/// The shape of a tile surrounded on all four sides: a fill tile, or the inner corner of its one missing diagonal.
pub open spec fn spec_fill_or_inner_corner(shape: Seq<(i32, i32)>, x: int, y: int) -> TileShape {
    let m = spec_missing_diagonals(shape, x, y);
    if m.len() == 0 {
        TileShape::Fill
    } else {
        m[0]
    }
}

/// The tile shape at `(x, y)` required by its neighbours in the field shape.
#[verifier::opaque]
pub open spec fn spec_classify_tile(shape: Seq<(i32, i32)>, x: int, y: int) -> TileShape {
    let o = spec_outside(shape, x, y);
    if o.len() == 0 {
        spec_fill_or_inner_corner(shape, x, y)
    } else if o == seq![Direction::Top] {
        TileShape::EdgeTop
    } else if o == seq![Direction::Right] {
        TileShape::EdgeRight
    } else if o == seq![Direction::Bottom] {
        TileShape::EdgeBottom
    } else if o == seq![Direction::Left] {
        TileShape::EdgeLeft
    } else if o == seq![Direction::Top, Direction::Right] {
        TileShape::OuterCornerTopRight
    } else if o == seq![Direction::Top, Direction::Left] {
        TileShape::OuterCornerTopLeft
    } else if o == seq![Direction::Right, Direction::Bottom] {
        TileShape::OuterCornerBottomRight
    } else {
        TileShape::OuterCornerBottomLeft
    }
}

/// Whether the tile at `(x, y)` has a shape: it is not part of a one-tile-wide section of the field (open on two
/// opposite sides, or on three or four sides), and, surrounded on all sides, misses at most one diagonal neighbour.
pub open spec fn is_classifiable(shape: Seq<(i32, i32)>, x: int, y: int) -> bool {
    let o = spec_outside(shape, x, y);
    ||| o.len() == 0 && spec_missing_diagonals(shape, x, y).len() <= 1
    ||| o.len() == 1
    ||| o == seq![Direction::Top, Direction::Right]
    ||| o == seq![Direction::Top, Direction::Left]
    ||| o == seq![Direction::Right, Direction::Bottom]
    ||| o == seq![Direction::Bottom, Direction::Left]
}

/// Returns whether `shape` holds the tile `(x, y)`.
pub fn contains_tile(shape: &Vec<(i32, i32)>, x: i32, y: i32) -> (result: bool)
    ensures
        result == shape@.contains((x, y)),
{
    let mut i: usize = 0;
    while i < shape.len()
        invariant
            i <= shape@.len(),
            forall|j: int| 0 <= j < i ==> shape@[j] != (x, y),
        decreases shape@.len() - i,
    {
        if shape[i].0 == x && shape[i].1 == y {
            return true;
        }
        i = i + 1;
    }
    false
}

/// Returns whether the neighbour of `(x, y)` in direction `d` is not part of the shape.
pub fn missing(shape: &Vec<(i32, i32)>, x: i32, y: i32, d: Direction) -> (result: bool)
    requires
        is_small(x as int),
        is_small(y as int),
    ensures
        result == is_missing(shape@, x as int, y as int, d),
{
    let offset = d.to_point();
    !contains_tile(shape, x + offset.x, y + offset.y)
}

/// Returns the cardinal directions in which the tile at `(x, y)` has no neighbour in the shape, in the order top,
/// right, bottom, left.
pub fn outside(shape: &Vec<(i32, i32)>, x: i32, y: i32) -> (directions: Vec<Direction>)
    requires
        is_small(x as int),
        is_small(y as int),
    ensures
        directions@ == spec_outside(shape@, x as int, y as int),
{
    let mut directions: Vec<Direction> = Vec::new();
    if missing(shape, x, y, Direction::Top) {
        directions.push(Direction::Top);
    }
    if missing(shape, x, y, Direction::Right) {
        directions.push(Direction::Right);
    }
    if missing(shape, x, y, Direction::Bottom) {
        directions.push(Direction::Bottom);
    }
    if missing(shape, x, y, Direction::Left) {
        directions.push(Direction::Left);
    }
    directions
}

/// Returns whether the tile at `(x, y)` has a tile shape (see [`is_classifiable`]).
pub fn can_classify(shape: &Vec<(i32, i32)>, x: i32, y: i32) -> (result: bool)
    requires
        is_small(x as int),
        is_small(y as int),
    ensures
        result == is_classifiable(shape@, x as int, y as int),
{
    let o = outside(shape, x, y);
    if o.len() == 0 {
        let a = missing(shape, x, y, Direction::TopLeft);
        let b = missing(shape, x, y, Direction::TopRight);
        let c = missing(shape, x, y, Direction::BottomRight);
        let d = missing(shape, x, y, Direction::BottomLeft);
        let count: u8 = (if a { 1u8 } else { 0u8 }) + (if b { 1u8 } else { 0u8 }) + (if c { 1u8 } else { 0u8 }) + (
        if d {
            1u8
        } else {
            0u8
        });
        proof {
            assert(spec_missing_diagonals(shape@, x as int, y as int).len() == count);
        }
        count <= 1
    } else if o.len() == 1 {
        true
    } else if o.len() == 2 {
        proof {
            assert(o@ =~= seq![o@[0], o@[1]]);
        }
        match (o[0], o[1]) {
            (Direction::Top, Direction::Right) => true,
            (Direction::Top, Direction::Left) => true,
            (Direction::Right, Direction::Bottom) => true,
            (Direction::Bottom, Direction::Left) => true,
            _ => {
                proof {
                    assert(o@ != seq![Direction::Top, Direction::Right]) by {
                        if o@ == seq![Direction::Top, Direction::Right] {
                            assert(o@[0] == Direction::Top && o@[1] == Direction::Right);
                        }
                    }
                    assert(o@ != seq![Direction::Top, Direction::Left]) by {
                        if o@ == seq![Direction::Top, Direction::Left] {
                            assert(o@[0] == Direction::Top && o@[1] == Direction::Left);
                        }
                    }
                    assert(o@ != seq![Direction::Right, Direction::Bottom]) by {
                        if o@ == seq![Direction::Right, Direction::Bottom] {
                            assert(o@[0] == Direction::Right && o@[1] == Direction::Bottom);
                        }
                    }
                    assert(o@ != seq![Direction::Bottom, Direction::Left]) by {
                        if o@ == seq![Direction::Bottom, Direction::Left] {
                            assert(o@[0] == Direction::Bottom && o@[1] == Direction::Left);
                        }
                    }
                }
                false
            },
        }
    } else {
        false
    }
}

/// Returns the shape of a tile surrounded on all four sides: a fill tile, or the inner corner of its one missing
/// diagonal neighbour.
pub fn classify_fill_or_inner_corner(shape: &Vec<(i32, i32)>, x: i32, y: i32) -> (tile_shape: TileShape)
    requires
        is_small(x as int),
        is_small(y as int),
        spec_missing_diagonals(shape@, x as int, y as int).len() <= 1,
    ensures
        tile_shape == spec_fill_or_inner_corner(shape@, x as int, y as int),
{
    if missing(shape, x, y, Direction::TopLeft) {
        TileShape::InnerCornerTopLeft
    } else if missing(shape, x, y, Direction::TopRight) {
        TileShape::InnerCornerTopRight
    } else if missing(shape, x, y, Direction::BottomRight) {
        TileShape::InnerCornerBottomRight
    } else if missing(shape, x, y, Direction::BottomLeft) {
        TileShape::InnerCornerBottomLeft
    } else {
        TileShape::Fill
    }
}

/// Returns the tile shape at `(x, y)` required by its neighbours in the field shape, which determines the fence
/// edges and corners drawn there.
pub fn classify_tile(shape: &Vec<(i32, i32)>, x: i32, y: i32) -> (tile_shape: TileShape)
    requires
        is_small(x as int),
        is_small(y as int),
        is_classifiable(shape@, x as int, y as int),
    ensures
        tile_shape == spec_classify_tile(shape@, x as int, y as int),
{
    proof {
        reveal(spec_classify_tile);
    }
    let o = outside(shape, x, y);
    if o.len() == 0 {
        classify_fill_or_inner_corner(shape, x, y)
    } else if o.len() == 1 {
        proof {
            assert(o@ =~= seq![o@[0]]);
        }
        match o[0] {
            Direction::Top => TileShape::EdgeTop,
            Direction::Right => TileShape::EdgeRight,
            Direction::Bottom => TileShape::EdgeBottom,
            _ => TileShape::EdgeLeft,
        }
    } else {
        proof {
            assert(o@ =~= seq![o@[0], o@[1]]);
        }
        match (o[0], o[1]) {
            (Direction::Top, Direction::Right) => TileShape::OuterCornerTopRight,
            (Direction::Top, Direction::Left) => TileShape::OuterCornerTopLeft,
            (Direction::Right, Direction::Bottom) => TileShape::OuterCornerBottomRight,
            _ => TileShape::OuterCornerBottomLeft,
        }
    }
}

/// A tile turned a quarter: `(x, y)` becomes `(-y, x)`.
pub open spec fn rotate_tile(t: (i32, i32)) -> (i32, i32) {
    ((-t.1) as i32, t.0)
}

/// A field shape turned `k` quarters.
pub open spec fn rotated(shape: Seq<(i32, i32)>, k: nat) -> Seq<(i32, i32)>
    decreases k,
{
    if k == 0 {
        shape
    } else {
        rotated(shape, (k - 1) as nat).map_values(|t: (i32, i32)| rotate_tile(t))
    }
}

/// A tile turned `k` quarters.
pub open spec fn rotate_tile_times(t: (i32, i32), k: nat) -> (i32, i32)
    decreases k,
{
    if k == 0 {
        t
    } else {
        rotate_tile(rotate_tile_times(t, (k - 1) as nat))
    }
}

/// Turning a shape turns each of its tiles, and small shapes stay small.
pub proof fn lemma_rotated_tiles(shape: Seq<(i32, i32)>, k: nat)
    requires
        is_small_shape(shape),
    ensures
        rotated(shape, k).len() == shape.len(),
        forall|i: int| 0 <= i < shape.len() ==> #[trigger] rotated(shape, k)[i] == rotate_tile_times(shape[i], k),
        is_small_shape(rotated(shape, k)),
    decreases k,
{
    if k > 0 {
        lemma_rotated_tiles(shape, (k - 1) as nat);
    }
}

/// Turning a shape four quarters gives the shape back.
pub proof fn lemma_four_rotations_are_identity(shape: Seq<(i32, i32)>)
    requires
        is_small_shape(shape),
    ensures
        rotated(shape, 4) == shape,
{
    lemma_rotated_tiles(shape, 4);
    assert forall|i: int| 0 <= i < shape.len() implies rotated(shape, 4)[i] == shape[i] by {
        let t = shape[i];
        assert(is_small(t.0 as int) && is_small(t.1 as int));
        reveal_with_fuel(rotate_tile_times, 5);
        assert(rotate_tile_times(t, 1) == ((-t.1) as i32, t.0));
        assert(rotate_tile_times(t, 2) == ((-t.0) as i32, (-t.1) as i32));
        assert(rotate_tile_times(t, 3) == (t.1, (-t.0) as i32));
        assert(rotate_tile_times(t, 4) == t);
    }
    assert(rotated(shape, 4) =~= shape);
}

/// A field shape: the tiles of a field, relative to any one of them, such as a rectangle or an L.
#[derive(Debug)]
pub struct FieldShape {
    pub tiles: Vec<(i32, i32)>,
}

impl FieldShape {
    pub fn new(tiles: Vec<(i32, i32)>) -> (shape: FieldShape)
        ensures
            shape.tiles@ == tiles@,
    {
        FieldShape { tiles }
    }

    pub fn tiles(&self) -> (tiles: &Vec<(i32, i32)>)
        ensures
            tiles@ == self.tiles@,
    {
        &self.tiles
    }
}

/// Returns a copy of the tiles of a shape.
pub fn copy_tiles(tiles: &Vec<(i32, i32)>) -> (copy: Vec<(i32, i32)>)
    ensures
        copy@ == tiles@,
{
    let mut copy: Vec<(i32, i32)> = Vec::new();
    let mut i: usize = 0;
    while i < tiles.len()
        invariant
            i <= tiles@.len(),
            copy@ == tiles@.subrange(0, i as int),
        decreases tiles@.len() - i,
    {
        copy.push(tiles[i]);
        i = i + 1;
        assert(copy@ =~= tiles@.subrange(0, i as int));
    }
    assert(tiles@.subrange(0, tiles@.len() as int) =~= tiles@);
    copy
}

/// Returns the shape turned a quarter.
fn rotate_once(shape: &Vec<(i32, i32)>) -> (turned: Vec<(i32, i32)>)
    requires
        is_small_shape(shape@),
    ensures
        turned@ == shape@.map_values(|t: (i32, i32)| rotate_tile(t)),
{
    let mut turned: Vec<(i32, i32)> = Vec::new();
    let mut i: usize = 0;
    while i < shape.len()
        invariant
            is_small_shape(shape@),
            i <= shape@.len(),
            turned@ == shape@.subrange(0, i as int).map_values(|t: (i32, i32)| rotate_tile(t)),
        decreases shape@.len() - i,
    {
        let (x, y) = shape[i];
        proof {
            assert(is_small(shape@[i as int].1 as int));
        }
        turned.push((-y, x));
        i = i + 1;
        assert(turned@ =~= shape@.subrange(0, i as int).map_values(|t: (i32, i32)| rotate_tile(t)));
    }
    assert(shape@.subrange(0, shape@.len() as int) =~= shape@);
    turned
}

/// Returns the four rotations of a field shape: the shape itself, then turned one, two and three quarters. Trying
/// each rotation keeps a valid placement from being missed.
pub fn rotations(shape: &Vec<(i32, i32)>) -> (turns: Vec<Vec<(i32, i32)>>)
    requires
        is_small_shape(shape@),
    ensures
        turns@.len() == 4,
        forall|k: int| 0 <= k < 4 ==> (#[trigger] turns@[k])@ == rotated(shape@, k as nat),
{
    let mut turns: Vec<Vec<(i32, i32)>> = Vec::new();
    let mut current = copy_tiles(shape);
    let mut k: usize = 0;
    while k < 4
        invariant
            is_small_shape(shape@),
            k <= 4,
            turns@.len() == k,
            current@ == rotated(shape@, k as nat),
            forall|j: int| 0 <= j < k ==> (#[trigger] turns@[j])@ == rotated(shape@, j as nat),
        decreases 4 - k,
    {
        proof {
            lemma_rotated_tiles(shape@, k as nat);
        }
        turns.push(copy_tiles(&current));
        current = rotate_once(&current);
        k = k + 1;
    }
    turns
}

/// The candidate entrances of the tiles `tiles` of `shape`: each tile open on exactly one side, with that side, in
/// order.
pub open spec fn spec_entrances(shape: Seq<(i32, i32)>, tiles: Seq<(i32, i32)>) -> Seq<((i32, i32), Direction)>
    decreases tiles.len(),
{
    if tiles.len() == 0 {
        Seq::empty()
    } else {
        let rest = spec_entrances(shape, tiles.drop_last());
        let t = tiles.last();
        let o = spec_outside(shape, t.0 as int, t.1 as int);
        if o.len() == 1 {
            rest.push((t, o[0]))
        } else {
            rest
        }
    }
}

/// Every candidate entrance is a tile of the shape open on exactly the given side.
pub proof fn lemma_entrances_are_open_on_one_side(shape: Seq<(i32, i32)>, tiles: Seq<(i32, i32)>)
    ensures
        forall|j: int|
            0 <= j < spec_entrances(shape, tiles).len() ==> {
                let e = #[trigger] spec_entrances(shape, tiles)[j];
                &&& tiles.contains(e.0)
                &&& spec_outside(shape, e.0.0 as int, e.0.1 as int) == seq![e.1]
            },
    decreases tiles.len(),
{
    if tiles.len() > 0 {
        lemma_entrances_are_open_on_one_side(shape, tiles.drop_last());
        let rest = spec_entrances(shape, tiles.drop_last());
        assert forall|j: int| 0 <= j < spec_entrances(shape, tiles).len() implies {
            let e = #[trigger] spec_entrances(shape, tiles)[j];
            &&& tiles.contains(e.0)
            &&& spec_outside(shape, e.0.0 as int, e.0.1 as int) == seq![e.1]
        } by {
            let e = spec_entrances(shape, tiles)[j];
            if j < rest.len() {
                assert(e == rest[j]);
                let k = choose|k: int| 0 <= k < tiles.drop_last().len() && tiles.drop_last()[k] == e.0;
                assert(tiles[k] == e.0);
            } else {
                let t = tiles.last();
                assert(tiles[tiles.len() - 1] == t);
                let o = spec_outside(shape, t.0 as int, t.1 as int);
                assert(o =~= seq![o[0]]);
            }
        }
    }
}

/// Returns the tiles of the shape that are open on exactly one side, each with that side: the candidate entrances,
/// since such a tile can face a path without leaving two openings in the fence.
pub fn entrances(shape: &Vec<(i32, i32)>) -> (candidates: Vec<((i32, i32), Direction)>)
    requires
        is_small_shape(shape@),
    ensures
        candidates@ == spec_entrances(shape@, shape@),
{
    let mut candidates: Vec<((i32, i32), Direction)> = Vec::new();
    let mut i: usize = 0;
    while i < shape.len()
        invariant
            is_small_shape(shape@),
            i <= shape@.len(),
            candidates@ == spec_entrances(shape@, shape@.subrange(0, i as int)),
        decreases shape@.len() - i,
    {
        let (x, y) = shape[i];
        proof {
            assert(shape@.subrange(0, i + 1).drop_last() =~= shape@.subrange(0, i as int));
            assert(is_small(shape@[i as int].0 as int));
        }
        let o = outside(shape, x, y);
        if o.len() == 1 {
            candidates.push(((x, y), o[0]));
        }
        i = i + 1;
    }
    assert(shape@.subrange(0, shape@.len() as int) =~= shape@);
    candidates
}

/// A field shape placed relative to a path connection point, with the shape of each tile, and the offset of the
/// tile through which the field is entered.
#[derive(Debug)]
pub struct FieldLayout {
    pub tiles: Vec<(Point, TileShape)>,
    pub entrance: Point,
}

/// The tile of a layout made from `t`: shifted so that the tile just outside the entrance, on its open side, is
/// the origin; the entrance tile itself is a fill tile, which leaves an opening in the fence.
pub open spec fn layout_tile(shape: Seq<(i32, i32)>, entrance: (i32, i32), outside: Direction, t: (i32, i32)) -> (
    Point,
    TileShape,
) {
    (
        Point {
            x: (t.0 - entrance.0 - outside.dx()) as i32,
            y: (t.1 - entrance.1 - outside.dy()) as i32,
        },
        if t == entrance {
            TileShape::Fill
        } else {
            spec_classify_tile(shape, t.0 as int, t.1 as int)
        },
    )
}

/// Whether every tile of a shape, but the entrance, has a tile shape.
pub open spec fn is_classifiable_except(shape: Seq<(i32, i32)>, entrance: (i32, i32)) -> bool {
    forall|i: int|
        0 <= i < shape.len() && #[trigger] shape[i] != entrance ==> is_classifiable(
            shape,
            shape[i].0 as int,
            shape[i].1 as int,
        )
}

/// Returns the layout of a field shape entered through the tile `entrance`, open on side `outside`, placed so that
/// the path tile in front of the entrance is the origin.
pub fn layout_from_entrance(shape: &Vec<(i32, i32)>, entrance: (i32, i32), outside: Direction) -> (layout: FieldLayout)
    requires
        is_small_shape(shape@),
        is_small(entrance.0 as int),
        is_small(entrance.1 as int),
        outside.is_cardinal(),
        is_classifiable_except(shape@, entrance),
    ensures
        layout.tiles@ == shape@.map_values(|t: (i32, i32)| layout_tile(shape@, entrance, outside, t)),
        layout.entrance == (Point { x: -outside.dx() as i32, y: -outside.dy() as i32 }),
{
    let offset = outside.to_point();
    let mut tiles: Vec<(Point, TileShape)> = Vec::new();
    let mut i: usize = 0;
    while i < shape.len()
        invariant
            is_small_shape(shape@),
            is_small(entrance.0 as int),
            is_small(entrance.1 as int),
            outside.is_cardinal(),
            offset.x == outside.dx(),
            offset.y == outside.dy(),
            is_classifiable_except(shape@, entrance),
            i <= shape@.len(),
            tiles@.len() == i,
            forall|j: int| 0 <= j < i ==> #[trigger] tiles@[j] == layout_tile(shape@, entrance, outside, shape@[j]),
        decreases shape@.len() - i,
    {
        let (x, y) = shape[i];
        proof {
            assert(is_small(shape@[i as int].0 as int) && is_small(shape@[i as int].1 as int));
        }
        let tile_shape = if x == entrance.0 && y == entrance.1 {
            TileShape::Fill
        } else {
            proof {
                assert(shape@[i as int] != entrance);
            }
            classify_tile(shape, x, y)
        };
        tiles.push((Point::new_internal_grid(x - entrance.0 - offset.x, y - entrance.1 - offset.y), tile_shape));
        i = i + 1;
    }
    assert(tiles@ =~= shape@.map_values(|t: (i32, i32)| layout_tile(shape@, entrance, outside, t)));
    FieldLayout { tiles, entrance: Point::new_internal_grid(-offset.x, -offset.y) }
}

/// Whether every tile of a layout lies near its origin.
pub open spec fn is_near_layout(tiles: Seq<(Point, TileShape)>) -> bool {
    forall|i: int|
        0 <= i < tiles.len() ==> -0x4000 <= (#[trigger] tiles[i]).0.x <= 0x4000 && -0x4000 <= tiles[i].0.y <= 0x4000
}

/// Returns the tiles of a layout placed at the path point `path_point`, each with the object of its shape for the
/// field type.
pub fn absolute_tiles(layout: &FieldLayout, path_point: Point, field_type: FieldType) -> (tiles: Vec<(Point, ObjectName)>)
    requires
        path_point.spec_is_inside_grid(),
        is_near_layout(layout.tiles@),
    ensures
        tiles@.len() == layout.tiles@.len(),
        forall|i: int|
            0 <= i < layout.tiles@.len() ==> #[trigger] tiles@[i] == (
                Point {
                    x: (path_point.x + layout.tiles@[i].0.x) as i32,
                    y: (path_point.y + layout.tiles@[i].0.y) as i32,
                },
                field_type.spec_object_name(layout.tiles@[i].1),
            ),
{
    let mut tiles: Vec<(Point, ObjectName)> = Vec::new();
    let mut i: usize = 0;
    while i < layout.tiles.len()
        invariant
            path_point.spec_is_inside_grid(),
            is_near_layout(layout.tiles@),
            i <= layout.tiles@.len(),
            tiles@.len() == i,
            forall|j: int|
                0 <= j < i ==> #[trigger] tiles@[j] == (
                    Point {
                        x: (path_point.x + layout.tiles@[j].0.x) as i32,
                        y: (path_point.y + layout.tiles@[j].0.y) as i32,
                    },
                    field_type.spec_object_name(layout.tiles@[j].1),
                ),
        decreases layout.tiles@.len() - i,
    {
        let (offset, tile_shape) = layout.tiles[i];
        proof {
            assert(-0x4000 <= layout.tiles@[i as int].0.x <= 0x4000);
        }
        tiles.push(
            (
                Point::new_internal_grid(path_point.x + offset.x, path_point.y + offset.y),
                field_type.object_name(tile_shape),
            ),
        );
        i = i + 1;
    }
    tiles
}

} // verus!
