//! Post-processing of the terrain layers of a chunk: single tiles that would be drawn on top of anything but a fill
//! tile are removed, and the flat plane then shows the highest tile left at their positions.

use crate::coords::Point;
use crate::object::terrain::{Climate, TerrainType, TileType};
use vstd::prelude::*;

verus! {

/// The number of terrain layers of a chunk, one per terrain type from water up to the highest land.
pub const TERRAIN_LAYER_COUNT: usize = 5;

/// A tile of a terrain layer: its terrain and its shape relative to its neighbours.
#[derive(Clone, Copy, Debug, PartialEq, Eq, Structural)]
pub struct LayerTile {
    pub terrain: TerrainType,
    pub tile_type: TileType,
}

impl LayerTile {
    pub fn update_to(&mut self, tile_type: TileType, terrain: TerrainType)
        ensures
            *final(self) == (LayerTile { terrain, tile_type }),
    {
        self.tile_type = tile_type;
        self.terrain = terrain;
    }
}

/// A layer of tiles of a chunk; the tile at internal grid position `(x, y)`, if any, is in row `y`, column `x`.
pub struct Plane {
    pub data: Vec<Vec<Option<LayerTile>>>,
}

impl Plane {
    /// Whether every position of the plane can be named by a point.
    pub open spec fn wf(self) -> bool {
        &&& self.data@.len() <= i32::MAX
        &&& forall|y: int| 0 <= y < self.data@.len() ==> (#[trigger] self.data@[y])@.len() <= i32::MAX
    }

    /// The tile at `p`, if `p` lies on the plane and holds one.
    pub open spec fn tile_at(self, p: Point) -> Option<LayerTile> {
        if 0 <= p.y < self.data@.len() && 0 <= p.x < self.data@[p.y as int]@.len() {
            self.data@[p.y as int]@[p.x as int]
        } else {
            None
        }
    }

    /// The tiles of the plane by position.
    pub open spec fn tiles(self) -> Map<Point, LayerTile> {
        Map::new(|p: Point| self.tile_at(p) is Some, |p: Point| self.tile_at(p)->0)
    }

    pub fn get_tile(&self, ig: &Point) -> (tile: Option<LayerTile>)
        ensures
            tile == self.tile_at(*ig),
    {
        if ig.y < 0 || ig.x < 0 {
            return None;
        }
        let y = ig.y as usize;
        let x = ig.x as usize;
        if y >= self.data.len() {
            return None;
        }
        let row = &self.data[y];
        if x >= row.len() {
            return None;
        }
        row[x]
    }

    /// Removes the tile at `ig`, if there is one.
    pub fn clear_tile(&mut self, ig: &Point)
        ensures
            final(self).data@.len() == old(self).data@.len(),
            forall|y: int| 0 <= y < old(self).data@.len() ==> (#[trigger] final(self).data@[y])@.len() == old(self).data@[y]@.len(),
            forall|p: Point| #[trigger] final(self).tile_at(p) == if p == *ig { None } else { old(self).tile_at(p) },
    {
        if ig.y < 0 || ig.x < 0 {
            return;
        }
        let y = ig.y as usize;
        let x = ig.x as usize;
        if y >= self.data.len() || x >= self.data[y].len() {
            return;
        }
        let row = &mut self.data[y];
        row.set(x, None);
    }

    /// Changes the tile at `ig`, if there is one, to the given tile type and terrain.
    pub fn update_tile_to(&mut self, ig: &Point, tile_type: TileType, terrain: TerrainType)
        ensures
            final(self).data@.len() == old(self).data@.len(),
            forall|y: int| 0 <= y < old(self).data@.len() ==> (#[trigger] final(self).data@[y])@.len() == old(self).data@[y]@.len(),
            forall|p: Point| #[trigger]
                final(self).tile_at(p) == if p == *ig && old(self).tile_at(p) is Some {
                    Some(LayerTile { terrain, tile_type })
                } else {
                    old(self).tile_at(p)
                },
    {
        if ig.y < 0 || ig.x < 0 {
            return;
        }
        let y = ig.y as usize;
        let x = ig.x as usize;
        if y >= self.data.len() || x >= self.data[y].len() {
            return;
        }
        let row = &mut self.data[y];
        match row[x] {
            Some(tile) => {
                let mut updated = tile;
                updated.update_to(tile_type, terrain);
                row.set(x, Some(updated));
            },
            None => {},
        }
    }
}

/// The highest of the first `n` layers that holds a tile at `p`, by its tile.
pub open spec fn highest_tile(layers: Seq<Map<Point, LayerTile>>, p: Point, n: int) -> Option<LayerTile>
    decreases n,
{
    if n <= 0 {
        None
    } else if layers[n - 1].contains_key(p) {
        Some(layers[n - 1][p])
    } else {
        highest_tile(layers, p, n - 1)
    }
}

/// The terrain layers of a chunk, from water upwards, and the flat plane, which holds the tile that is drawn at
/// each position.
pub struct LayeredPlane {
    pub planes: Vec<Plane>,
    pub flat: Plane,
}

impl LayeredPlane {
    pub open spec fn wf(self) -> bool {
        &&& self.planes@.len() == TERRAIN_LAYER_COUNT
        &&& forall|k: int| 0 <= k < self.planes@.len() ==> (#[trigger] self.planes@[k]).wf()
    }

    /// The tiles of each terrain layer by position.
    pub open spec fn layer_tiles(self) -> Seq<Map<Point, LayerTile>> {
        self.planes@.map_values(|plane: Plane| plane.tiles())
    }

    /// The tile of the highest terrain layer that holds one at `ig`.
    pub fn get_tile_from_highest_layer(&self, ig: &Point) -> (tile: Option<LayerTile>)
        ensures
            tile == highest_tile(self.layer_tiles(), *ig, self.planes@.len() as int),
    {
        let mut k: usize = self.planes.len();
        while k > 0
            invariant
                k <= self.planes@.len(),
                highest_tile(self.layer_tiles(), *ig, self.planes@.len() as int) == highest_tile(
                    self.layer_tiles(),
                    *ig,
                    k as int,
                ),
            decreases k,
        {
            k = k - 1;
            let tile = self.planes[k].get_tile(ig);
            assert(self.layer_tiles()[k as int] == self.planes@[k as int].tiles());
            if tile.is_some() {
                return tile;
            }
        }
        None
    }
}

/// A chunk whose terrain has been generated: its position on the chunk grid, its climate, and its terrain layers.
pub struct Chunk {
    pub cg: Point,
    pub climate: Climate,
    pub layered_plane: LayeredPlane,
}

/// Whether the tile at `p` on `layer` is a single tile that does not stand on a fill tile of the layer below.
pub open spec fn is_cleared(layers: Seq<Map<Point, LayerTile>>, layer: int, p: Point) -> bool {
    &&& layers[layer].contains_key(p)
    &&& layers[layer][p].tile_type == TileType::Single
    &&& layers[layer - 1][p].tile_type != TileType::Fill
}

/// Whether every single tile on `layer` has a tile on the layer below.
pub open spec fn singles_have_tile_below(layers: Seq<Map<Point, LayerTile>>, layer: int) -> bool {
    forall|p: Point|
        #[trigger] layers[layer].contains_key(p) && layers[layer][p].tile_type == TileType::Single ==> layers[layer
            - 1].contains_key(p)
}

/// The layers after the cleared single tiles of `layer` are removed.
pub open spec fn cleared_layers(layers: Seq<Map<Point, LayerTile>>, layer: int) -> Seq<Map<Point, LayerTile>> {
    layers.update(
        layer,
        Map::new(|p: Point| layers[layer].contains_key(p) && !is_cleared(layers, layer, p), |p: Point| layers[layer][p]),
    )
}

/// The flat plane after the cleared single tiles of `layer` are removed: at their positions it shows the highest
/// tile left.
pub open spec fn cleared_flat(layers: Seq<Map<Point, LayerTile>>, flat: Map<Point, LayerTile>, layer: int) -> Map<
    Point,
    LayerTile,
> {
    Map::new(
        |p: Point| flat.contains_key(p),
        |p: Point|
            if is_cleared(layers, layer, p) {
                highest_tile(cleared_layers(layers, layer), p, layers.len() as int)->0
            } else {
                flat[p]
            },
    )
}

/// The layers and flat plane after the layers from `layer` down to the first layer above water are processed in
/// turn, each one only where it lies between `from` and `to`.
pub open spec fn post_processed(
    layers: Seq<Map<Point, LayerTile>>,
    flat: Map<Point, LayerTile>,
    from: int,
    to: int,
    layer: int,
) -> (Seq<Map<Point, LayerTile>>, Map<Point, LayerTile>)
    decreases layer,
{
    if layer < 1 {
        (layers, flat)
    } else if layer < from || layer > to {
        post_processed(layers, flat, from, to, layer - 1)
    } else {
        post_processed(cleared_layers(layers, layer), cleared_flat(layers, flat, layer), from, to, layer - 1)
    }
}

/// Whether every processed layer has a tile below each of its single tiles.
pub open spec fn processable(layers: Seq<Map<Point, LayerTile>>, from: int, to: int) -> bool {
    forall|layer: int| 1 <= layer < layers.len() && from <= layer <= to ==> #[trigger] singles_have_tile_below(layers, layer)
}

/// Whether `after` holds the layers of `before` with at most some single tiles removed: every tile that is not a
/// single tile is kept as it was, and no tile is added or changed.
pub open spec fn only_singles_removed(before: Seq<Map<Point, LayerTile>>, after: Seq<Map<Point, LayerTile>>) -> bool {
    &&& after.len() == before.len()
    &&& forall|k: int, p: Point|
        0 <= k < before.len() && #[trigger] before[k].contains_key(p) && before[k][p].tile_type != TileType::Single
            ==> after[k].contains_key(p) && after[k][p] == before[k][p]
    &&& forall|k: int, p: Point|
        0 <= k < before.len() && #[trigger] after[k].contains_key(p) ==> before[k].contains_key(p) && after[k][p]
            == before[k][p]
}

/// Clearing one layer removes only single tiles: each tile that is not of type [`TileType::Single`] stays as it was,
/// on that layer and on every other one.
pub proof fn lemma_clearing_removes_only_single_tiles(layers: Seq<Map<Point, LayerTile>>, layer: int)
    requires
        0 <= layer < layers.len(),
    ensures
        only_singles_removed(layers, cleared_layers(layers, layer)),
{
    let cleared = cleared_layers(layers, layer);
    assert forall|k: int, p: Point|
        0 <= k < layers.len() && #[trigger] layers[k].contains_key(p) && layers[k][p].tile_type != TileType::Single
            implies cleared[k].contains_key(p) && cleared[k][p] == layers[k][p] by {
        if k == layer {
            assert(!is_cleared(layers, layer, p));
        }
    }
}

/// Post-processing removes only single tiles: on every layer, each tile that is not of type
/// [`TileType::Single`] is the same afterwards as before, and every tile left was there before.
pub proof fn lemma_post_processing_removes_only_single_tiles(
    layers: Seq<Map<Point, LayerTile>>,
    flat: Map<Point, LayerTile>,
    from: int,
    to: int,
    layer: int,
)
    requires
        layer < layers.len(),
    ensures
        only_singles_removed(layers, post_processed(layers, flat, from, to, layer).0),
    decreases layer,
{
    if layer < 1 {
    } else if layer < from || layer > to {
        lemma_post_processing_removes_only_single_tiles(layers, flat, from, to, layer - 1);
    } else {
        let cleared = cleared_layers(layers, layer);
        lemma_clearing_removes_only_single_tiles(layers, layer);
        lemma_post_processing_removes_only_single_tiles(cleared, cleared_flat(layers, flat, layer), from, to, layer - 1);
        let result = post_processed(layers, flat, from, to, layer).0;
        assert(result == post_processed(cleared, cleared_flat(layers, flat, layer), from, to, layer - 1).0);
        assert forall|k: int, p: Point|
            0 <= k < layers.len() && #[trigger] layers[k].contains_key(p) && layers[k][p].tile_type != TileType::Single
                implies result[k].contains_key(p) && result[k][p] == layers[k][p] by {
            assert(cleared[k].contains_key(p));
        }
        assert forall|k: int, p: Point|
            0 <= k < layers.len() && #[trigger] result[k].contains_key(p) implies layers[k].contains_key(p)
                && result[k][p] == layers[k][p] by {
            assert(cleared[k].contains_key(p));
        }
    }
}

/// Whether the tile at `p` on layer `k` is a single tile standing on a tile of the layer below that is not a fill
/// tile.
pub open spec fn unsupported_single(layers: Seq<Map<Point, LayerTile>>, k: int, p: Point) -> bool {
    &&& 1 <= k
    &&& layers[k][p].tile_type == TileType::Single
    &&& layers[k - 1].contains_key(p)
    &&& layers[k - 1][p].tile_type != TileType::Fill
}

/// Post-processing the layers from `layer` down removes exactly the single tiles, on the layers it processes, that
/// stand on a tile that is not a fill tile: every other tile, a single tile on a fill tile among them, stays.
pub proof fn lemma_post_processing_removes_exactly_unsupported_singles(
    layers: Seq<Map<Point, LayerTile>>,
    flat: Map<Point, LayerTile>,
    from: int,
    to: int,
    layer: int,
)
    requires
        layer < layers.len(),
        forall|k: int| 1 <= k <= layer && from <= k <= to ==> #[trigger] singles_have_tile_below(layers, k),
    ensures
        forall|k: int, p: Point|
            0 <= k < layers.len() && #[trigger] layers[k].contains_key(p) ==> (post_processed(
                layers,
                flat,
                from,
                to,
                layer,
            ).0[k].contains_key(p) <==> !(k <= layer && from <= k <= to && unsupported_single(layers, k, p))),
    decreases layer,
{
    lemma_post_processing_removes_only_single_tiles(layers, flat, from, to, layer);
    if layer < 1 {
    } else if layer < from || layer > to {
        lemma_post_processing_removes_exactly_unsupported_singles(layers, flat, from, to, layer - 1);
    } else {
        let cleared = cleared_layers(layers, layer);
        let cleared_f = cleared_flat(layers, flat, layer);
        assert forall|k: int| 1 <= k <= layer - 1 && from <= k <= to implies #[trigger] singles_have_tile_below(
            cleared,
            k,
        ) by {
            assert(singles_have_tile_below(layers, k));
            assert(cleared[k] == layers[k]);
            assert(cleared[k - 1] == layers[k - 1]);
        }
        lemma_post_processing_removes_exactly_unsupported_singles(cleared, cleared_f, from, to, layer - 1);
        lemma_post_processing_removes_only_single_tiles(cleared, cleared_f, from, to, layer - 1);
        let result = post_processed(layers, flat, from, to, layer).0;
        assert(result == post_processed(cleared, cleared_f, from, to, layer - 1).0);
        assert(singles_have_tile_below(layers, layer));
        assert forall|k: int, p: Point| 0 <= k < layers.len() && #[trigger] layers[k].contains_key(p) implies (
        result[k].contains_key(p) <==> !(k <= layer && from <= k <= to && unsupported_single(layers, k, p))) by {
            if k == layer {
                assert(cleared[k].contains_key(p) == !is_cleared(layers, layer, p));
                if cleared[k].contains_key(p) {
                    assert(result[k].contains_key(p));
                } else {
                    assert(!result[k].contains_key(p));
                }
            } else if k < layer {
                assert(cleared[k] == layers[k]);
                if k >= 1 {
                    assert(cleared[k - 1] == layers[k - 1]);
                }
                assert(cleared[k].contains_key(p));
            } else {
                assert(cleared[k] == layers[k]);
                assert(cleared[k].contains_key(p));
            }
        }
    }
}

/// A layer that holds a tile at `p` below `n` makes the highest tile at `p` exist.
proof fn lemma_highest_tile_exists(layers: Seq<Map<Point, LayerTile>>, p: Point, n: int, k: int)
    requires
        0 <= k < n,
        layers[k].contains_key(p),
    ensures
        highest_tile(layers, p, n) is Some,
    decreases n,
{
    if !layers[n - 1].contains_key(p) {
        lemma_highest_tile_exists(layers, p, n - 1, k);
    }
}

/// Removes the single tiles of `layer` that do not stand on a fill tile, and shows the highest tile left at their
/// positions on the flat plane.
fn clear_single_tiles_from_chunk_with_no_fill_below(layer: usize, chunk: &mut Chunk)
    requires
        old(chunk).layered_plane.wf(),
        1 <= layer < TERRAIN_LAYER_COUNT,
        singles_have_tile_below(old(chunk).layered_plane.layer_tiles(), layer as int),
    ensures
        final(chunk).cg == old(chunk).cg,
        final(chunk).climate == old(chunk).climate,
        final(chunk).layered_plane.wf(),
        final(chunk).layered_plane.layer_tiles() =~~= cleared_layers(old(chunk).layered_plane.layer_tiles(), layer as int),
        final(chunk).layered_plane.flat.tiles() =~= cleared_flat(
            old(chunk).layered_plane.layer_tiles(),
            old(chunk).layered_plane.flat.tiles(),
            layer as int,
        ),
        only_singles_removed(old(chunk).layered_plane.layer_tiles(), final(chunk).layered_plane.layer_tiles()),
{
    proof {
        lemma_clearing_removes_only_single_tiles(chunk.layered_plane.layer_tiles(), layer as int);
    }
    let ghost layers = chunk.layered_plane.layer_tiles();
    let ghost flat = chunk.layered_plane.flat.tiles();
    let ghost start = *chunk;
    let mut tiles_to_clear: Vec<Point> = Vec::new();
    let this_plane = &chunk.layered_plane.planes[layer];
    let plane_below = &chunk.layered_plane.planes[layer - 1];
    assert(layers[layer as int] == this_plane.tiles());
    assert(layers[layer - 1] == plane_below.tiles());
    let mut y: usize = 0;
    while y < this_plane.data.len()
        invariant
            this_plane.wf(),
            layers[layer as int] == this_plane.tiles(),
            layers[layer - 1] == plane_below.tiles(),
            1 <= layer < layers.len(),
            singles_have_tile_below(layers, layer as int),
            y <= this_plane.data@.len(),
            forall|p: Point|
                #[trigger] tiles_to_clear@.contains(p) <==> (is_cleared(layers, layer as int, p) && p.y < y),
        decreases this_plane.data@.len() - y,
    {
        let row = &this_plane.data[y];
        let mut x: usize = 0;
        while x < row.len()
            invariant
                this_plane.wf(),
                layers[layer as int] == this_plane.tiles(),
                layers[layer - 1] == plane_below.tiles(),
                1 <= layer < layers.len(),
                singles_have_tile_below(layers, layer as int),
                y < this_plane.data@.len(),
                *row == this_plane.data@[y as int],
                x <= row@.len(),
                forall|p: Point|
                    #[trigger] tiles_to_clear@.contains(p) <==> (is_cleared(layers, layer as int, p) && (p.y < y || (
                    p.y == y && p.x < x))),
            decreases row@.len() - x,
        {
            let ig = Point::new_internal_grid(x as i32, y as i32);
            let ghost before = tiles_to_clear@;
            assert(this_plane.tile_at(ig) == row@[x as int]);
            let mut clear = false;
            match row[x] {
                Some(tile) => {
                    if tile.tile_type == TileType::Single {
                        assert(layers[layer as int].contains_key(ig));
                        match plane_below.get_tile(&ig) {
                            Some(below) => {
                                clear = below.tile_type != TileType::Fill;
                            },
                            None => {},
                        }
                    }
                },
                None => {},
            }
            if clear {
                tiles_to_clear.push(ig);
            }
            proof {
                assert(clear == is_cleared(layers, layer as int, ig));
                assert forall|p: Point|
                    #[trigger] tiles_to_clear@.contains(p) <==> (is_cleared(layers, layer as int, p) && (p.y < y || (
                    p.y == y && p.x < x + 1))) by {
                    if clear {
                        crate::object::cell::lemma_push_contains(before, ig, p);
                    }
                }
            }
            x = x + 1;
        }
        proof {
            assert forall|p: Point|
                #[trigger] tiles_to_clear@.contains(p) <==> (is_cleared(layers, layer as int, p) && p.y < y + 1) by {
                if is_cleared(layers, layer as int, p) && p.y == y {
                    assert(this_plane.tile_at(p) is Some);
                }
            }
        }
        y = y + 1;
    }
    proof {
        assert forall|p: Point| #[trigger] tiles_to_clear@.contains(p) <==> is_cleared(layers, layer as int, p) by {
            if is_cleared(layers, layer as int, p) {
                assert(this_plane.tile_at(p) is Some);
            }
        }
    }

    // Remove the tiles from their layer.
    let mut i: usize = 0;
    while i < tiles_to_clear.len()
        invariant
            chunk.cg == start.cg,
            chunk.climate == start.climate,
            chunk.layered_plane.flat == start.layered_plane.flat,
            chunk.layered_plane.planes@.len() == TERRAIN_LAYER_COUNT,
            1 <= layer < TERRAIN_LAYER_COUNT,
            forall|k: int| 0 <= k < TERRAIN_LAYER_COUNT && k != layer ==> #[trigger] chunk.layered_plane.planes@[k] == start.layered_plane.planes@[k],
            start.layered_plane.wf(),
            chunk.layered_plane.planes@[layer as int].data@.len() == start.layered_plane.planes@[layer as int].data@.len(),
            forall|y: int| 0 <= y < start.layered_plane.planes@[layer as int].data@.len() ==> (#[trigger] chunk.layered_plane.planes@[layer as int].data@[y])@.len() == start.layered_plane.planes@[layer as int].data@[y]@.len(),
            forall|p: Point| #[trigger] chunk.layered_plane.planes@[layer as int].tile_at(p) == if tiles_to_clear@.subrange(0, i as int).contains(p) {
                None
            } else {
                start.layered_plane.planes@[layer as int].tile_at(p)
            },
            i <= tiles_to_clear@.len(),
        decreases tiles_to_clear@.len() - i,
    {
        let p = tiles_to_clear[i];
        let plane = &mut chunk.layered_plane.planes[layer];
        plane.clear_tile(&p);
        proof {
            assert forall|q: Point| #[trigger] tiles_to_clear@.subrange(0, i + 1).contains(q) <==> (tiles_to_clear@.subrange(0, i as int).contains(q) || q == p) by {
                crate::object::cell::lemma_prefix_contains(tiles_to_clear@, i as int, q);
            }
        }
        i = i + 1;
    }
    let ghost cleared = chunk.layered_plane.layer_tiles();
    proof {
        assert(tiles_to_clear@.subrange(0, i as int) =~= tiles_to_clear@);
        assert forall|k: int| 0 <= k < TERRAIN_LAYER_COUNT implies #[trigger] cleared[k] =~= cleared_layers(layers, layer as int)[k] by {
            if k == layer {
                assert forall|p: Point| cleared[k].contains_key(p) == cleared_layers(layers, layer as int)[k].contains_key(p) by {
                    assert(cleared[k].contains_key(p) <==> chunk.layered_plane.planes@[k].tile_at(p) is Some);
                    assert(layers[k].contains_key(p) <==> start.layered_plane.planes@[k].tile_at(p) is Some);
                }
            } else {
                assert(cleared[k] == layers[k]);
            }
        }
        assert(cleared.len() == cleared_layers(layers, layer as int).len());
    }

    // Show the highest tile left at each position whose tile was removed.
    let mut i: usize = 0;
    while i < tiles_to_clear.len()
        invariant
            chunk.cg == start.cg,
            chunk.climate == start.climate,
            chunk.layered_plane.wf(),
            chunk.layered_plane.layer_tiles() == cleared,
            chunk.layered_plane.planes@.len() == TERRAIN_LAYER_COUNT,
            1 <= layer < TERRAIN_LAYER_COUNT,
            cleared.len() == layers.len(),
            cleared =~~= cleared_layers(layers, layer as int),
            forall|p: Point| #[trigger] tiles_to_clear@.contains(p) <==> is_cleared(layers, layer as int, p),
            singles_have_tile_below(layers, layer as int),
            forall|p: Point| #[trigger] chunk.layered_plane.flat.tiles().contains_key(p) == flat.contains_key(p),
            forall|p: Point| #[trigger] flat.contains_key(p) ==> chunk.layered_plane.flat.tiles()[p] == if tiles_to_clear@.subrange(0, i as int).contains(p) {
                highest_tile(cleared, p, cleared.len() as int)->0
            } else {
                flat[p]
            },
            i <= tiles_to_clear@.len(),
        decreases tiles_to_clear@.len() - i,
    {
        let p = tiles_to_clear[i];
        let highest = chunk.layered_plane.get_tile_from_highest_layer(&p);
        proof {
            assert(tiles_to_clear@.contains(p));
            assert(cleared[layer - 1] == layers[layer - 1]);
            lemma_highest_tile_exists(cleared, p, cleared.len() as int, layer - 1);
        }
        let ghost previous = chunk.layered_plane.flat;
        match highest {
            Some(tile) => {
                chunk.layered_plane.flat.update_tile_to(&p, tile.tile_type, tile.terrain);
                assert(LayerTile { terrain: tile.terrain, tile_type: tile.tile_type } == tile);
            },
            None => {},
        }
        proof {
            let current = chunk.layered_plane.flat;
            assert forall|q: Point| #[trigger] current.tiles().contains_key(q) == flat.contains_key(q) by {
                assert(current.tiles().contains_key(q) == (current.tile_at(q) is Some));
                assert(previous.tiles().contains_key(q) == (previous.tile_at(q) is Some));
            }
            assert forall|q: Point| #[trigger] flat.contains_key(q) implies current.tiles()[q] == if tiles_to_clear@.subrange(0, i + 1).contains(q) {
                highest_tile(cleared, q, cleared.len() as int)->0
            } else {
                flat[q]
            } by {
                crate::object::cell::lemma_prefix_contains(tiles_to_clear@, i as int, q);
                assert(previous.tiles().contains_key(q));
                assert(previous.tile_at(q) is Some);
                assert(current.tiles()[q] == current.tile_at(q)->0);
                assert(previous.tiles()[q] == previous.tile_at(q)->0);
            }
        }
        i = i + 1;
    }
    proof {
        assert(tiles_to_clear@.subrange(0, i as int) =~= tiles_to_clear@);
        assert(cleared_layers(layers, layer as int) =~~= cleared);
    }
}

/// Removes, layer by layer from the top down to the first layer above water, the single tiles that do not stand on a
/// fill tile, for the layers from `spawn_from_layer` to `spawn_up_to_layer`. With the tile set in use such a tile
/// would be drawn on top of a tile that does not hold it, such as a single grass tile on a single sand island in the
/// water.
pub fn process(chunk: Chunk, spawn_from_layer: usize, spawn_up_to_layer: usize) -> (processed: Chunk)
    requires
        chunk.layered_plane.wf(),
        processable(chunk.layered_plane.layer_tiles(), spawn_from_layer as int, spawn_up_to_layer as int),
    ensures
        processed.cg == chunk.cg,
        processed.climate == chunk.climate,
        processed.layered_plane.wf(),
        (processed.layered_plane.layer_tiles(), processed.layered_plane.flat.tiles()) == post_processed(
            chunk.layered_plane.layer_tiles(),
            chunk.layered_plane.flat.tiles(),
            spawn_from_layer as int,
            spawn_up_to_layer as int,
            TERRAIN_LAYER_COUNT - 1,
        ),
        only_singles_removed(chunk.layered_plane.layer_tiles(), processed.layered_plane.layer_tiles()),
        forall|k: int, p: Point|
            0 <= k < TERRAIN_LAYER_COUNT && #[trigger] chunk.layered_plane.layer_tiles()[k].contains_key(p) ==> (
            processed.layered_plane.layer_tiles()[k].contains_key(p) <==> !(spawn_from_layer <= k <= spawn_up_to_layer
                && unsupported_single(chunk.layered_plane.layer_tiles(), k, p))),
{
    proof {
        assert(chunk.layered_plane.layer_tiles().len() == TERRAIN_LAYER_COUNT);
        lemma_post_processing_removes_exactly_unsupported_singles(
            chunk.layered_plane.layer_tiles(),
            chunk.layered_plane.flat.tiles(),
            spawn_from_layer as int,
            spawn_up_to_layer as int,
            TERRAIN_LAYER_COUNT - 1,
        );
        lemma_post_processing_removes_only_single_tiles(
            chunk.layered_plane.layer_tiles(),
            chunk.layered_plane.flat.tiles(),
            spawn_from_layer as int,
            spawn_up_to_layer as int,
            TERRAIN_LAYER_COUNT - 1,
        );
    }
    let ghost layers = chunk.layered_plane.layer_tiles();
    let ghost flat = chunk.layered_plane.flat.tiles();
    let ghost from = spawn_from_layer as int;
    let ghost to = spawn_up_to_layer as int;
    let ghost cg = chunk.cg;
    let ghost climate = chunk.climate;
    let mut chunk = chunk;
    let mut layer: usize = TERRAIN_LAYER_COUNT - 1;
    while layer >= 1
        invariant
            chunk.cg == cg,
            chunk.climate == climate,
            from == spawn_from_layer as int,
            to == spawn_up_to_layer as int,
            chunk.layered_plane.wf(),
            layer < TERRAIN_LAYER_COUNT,
            post_processed(chunk.layered_plane.layer_tiles(), chunk.layered_plane.flat.tiles(), from, to, layer as int)
                == post_processed(layers, flat, from, to, TERRAIN_LAYER_COUNT - 1),
            forall|k: int| 0 <= k <= layer ==> #[trigger] chunk.layered_plane.layer_tiles()[k] == layers[k],
            processable(layers, from, to),
            layers.len() == TERRAIN_LAYER_COUNT,
        decreases layer,
    {
        let ghost current = chunk.layered_plane.layer_tiles();
        let ghost current_flat = chunk.layered_plane.flat.tiles();
        if layer >= spawn_from_layer && layer <= spawn_up_to_layer {
            proof {
                assert(singles_have_tile_below(layers, layer as int));
                assert(current[layer as int] == layers[layer as int]);
                assert(current[layer - 1] == layers[layer - 1]);
                assert(singles_have_tile_below(current, layer as int));
            }
            clear_single_tiles_from_chunk_with_no_fill_below(layer, &mut chunk);
            proof {
                assert(chunk.layered_plane.layer_tiles() =~~= cleared_layers(current, layer as int));
                assert(chunk.layered_plane.flat.tiles() =~= cleared_flat(current, current_flat, layer as int));
            }
        }
        layer = layer - 1;
    }
    chunk
}

} // verus!
