//! Biome metadata of chunks: whether a chunk is rocky, its highest terrain layer and its climate, looked up for a
//! chunk together with the eight chunks around it.

use crate::coords::{Direction, Point};
use crate::object::terrain::Climate;
use std::collections::HashMap;
use vstd::prelude::*;

verus! {

broadcast use vstd::std_specs::hash::group_hash_axioms;

/// The biome of a chunk: whether it is rocky, the highest terrain layer it may have, and its climate.
#[derive(Clone, Copy, Debug, PartialEq, Eq, Structural)]
pub struct BiomeMetadata {
    pub cg: Point,
    pub is_rocky: bool,
    pub max_layer: i32,
    pub climate: Climate,
}

impl BiomeMetadata {
    pub fn new(cg: Point, is_rocky: bool, max_layer: i32, climate: Climate) -> (bm: BiomeMetadata)
        ensures
            bm == (BiomeMetadata { cg, is_rocky, max_layer, climate }),
    {
        BiomeMetadata { cg, is_rocky, max_layer, climate }
    }
}

/// The biomes of a chunk and of the eight chunks around it.
#[derive(Clone, Copy, Debug, PartialEq, Eq, Structural)]
pub struct BiomeMetadataSet {
    pub this: BiomeMetadata,
    pub top: BiomeMetadata,
    pub top_right: BiomeMetadata,
    pub right: BiomeMetadata,
    pub bottom_right: BiomeMetadata,
    pub bottom: BiomeMetadata,
    pub bottom_left: BiomeMetadata,
    pub left: BiomeMetadata,
    pub top_left: BiomeMetadata,
}

/// Whether the chunk in direction `n` lies towards `direction`: it is the chunk in that direction or, for a diagonal
/// direction, one of the two cardinal neighbours that share its horizontal or its vertical offset.
pub open spec fn is_towards(direction: Direction, n: Direction) -> bool {
    n == direction || (n.is_cardinal() && ((n.dx() != 0 && n.dx() == direction.dx()) || (n.dy() != 0 && n.dy()
        == direction.dy())))
}

impl BiomeMetadataSet {
    /// The biome of the chunk in `direction`, the chunk itself for [`Direction::Center`].
    pub open spec fn biome_in(self, direction: Direction) -> BiomeMetadata {
        match direction {
            Direction::Center => self.this,
            Direction::Top => self.top,
            Direction::TopRight => self.top_right,
            Direction::Right => self.right,
            Direction::BottomRight => self.bottom_right,
            Direction::Bottom => self.bottom,
            Direction::BottomLeft => self.bottom_left,
            Direction::Left => self.left,
            Direction::TopLeft => self.top_left,
        }
    }

    /// Returns the biome of the chunk in a cardinal direction, or of the chunk itself for [`Direction::Center`].
    pub fn get(&self, direction: &Direction) -> (bm: &BiomeMetadata)
        requires
            direction.is_cardinal() || *direction == Direction::Center,
        ensures
            *bm == self.biome_in(*direction),
    {
        match direction {
            Direction::Top => &self.top,
            Direction::Right => &self.right,
            Direction::Bottom => &self.bottom,
            Direction::Left => &self.left,
            _ => &self.this,
        }
    }

    /// Whether the chunk shares its climate with the chunks towards `direction`: for a diagonal direction, the chunk
    /// in that direction and the two cardinal neighbours beside it; otherwise the one chunk in that direction.
    pub open spec fn spec_is_same_climate(self, direction: Direction) -> bool {
        let c = self.this.climate;
        match direction {
            Direction::TopRight => self.top.climate == c && self.right.climate == c && self.top_right.climate == c,
            Direction::BottomRight => self.right.climate == c && self.bottom.climate == c && self.bottom_right.climate
                == c,
            Direction::BottomLeft => self.bottom.climate == c && self.left.climate == c && self.bottom_left.climate
                == c,
            Direction::TopLeft => self.left.climate == c && self.top.climate == c && self.top_left.climate == c,
            _ => self.biome_in(direction).climate == c,
        }
    }

    /// Whether the climate of every chunk towards `direction` (see [`is_towards`]) is that of this chunk.
    pub open spec fn climate_alike_towards(self, direction: Direction) -> bool {
        forall|n: Direction| #[trigger] is_towards(direction, n) ==> self.biome_in(n).climate == self.this.climate
    }

    /// The chunk shares its climate with the chunks towards `direction` exactly when each of them, the chunk in that
    /// direction and, for a diagonal, the two neighbours beside it, has this chunk's climate; in particular a chunk
    /// in any direction with another climate makes the answer false.
    pub proof fn lemma_same_climate_is_climate_towards(self, direction: Direction)
        ensures
            self.spec_is_same_climate(direction) == self.climate_alike_towards(direction),
            self.biome_in(direction).climate != self.this.climate ==> !self.spec_is_same_climate(direction),
    {
        assert(is_towards(direction, direction));
        if !self.spec_is_same_climate(direction) {
            let n = match direction {
                Direction::TopRight => if self.top.climate != self.this.climate {
                    Direction::Top
                } else if self.right.climate != self.this.climate {
                    Direction::Right
                } else {
                    Direction::TopRight
                },
                Direction::BottomRight => if self.right.climate != self.this.climate {
                    Direction::Right
                } else if self.bottom.climate != self.this.climate {
                    Direction::Bottom
                } else {
                    Direction::BottomRight
                },
                Direction::BottomLeft => if self.bottom.climate != self.this.climate {
                    Direction::Bottom
                } else if self.left.climate != self.this.climate {
                    Direction::Left
                } else {
                    Direction::BottomLeft
                },
                Direction::TopLeft => if self.left.climate != self.this.climate {
                    Direction::Left
                } else if self.top.climate != self.this.climate {
                    Direction::Top
                } else {
                    Direction::TopLeft
                },
                _ => direction,
            };
            assert(is_towards(direction, n));
        } else {
            assert forall|n: Direction| #[trigger] is_towards(direction, n) implies self.biome_in(n).climate
                == self.this.climate by {
            }
        }
    }

    /// Returns whether the chunk shares its climate with the chunks towards `direction` (see
    /// [`BiomeMetadataSet::spec_is_same_climate`]).
    pub fn is_same_climate(&self, direction: &Direction) -> (result: bool)
        ensures
            result == self.spec_is_same_climate(*direction),
            result == self.climate_alike_towards(*direction),
            self.biome_in(*direction).climate != self.this.climate ==> !result,
    {
        proof {
            self.lemma_same_climate_is_climate_towards(*direction);
        }
        let c = self.this.climate;
        match direction {
            Direction::TopRight => self.top.climate == c && self.right.climate == c && self.top_right.climate == c,
            Direction::BottomRight => self.right.climate == c && self.bottom.climate == c && self.bottom_right.climate
                == c,
            Direction::BottomLeft => self.bottom.climate == c && self.left.climate == c && self.bottom_left.climate
                == c,
            Direction::TopLeft => self.left.climate == c && self.top.climate == c && self.top_left.climate == c,
            _ => c == self.get(direction).climate,
        }
    }
}

/// The key under which the metadata of the chunk at `cg` is kept: both coordinates, shifted to be non-negative, as
/// the upper and lower half of the key.
pub open spec fn spec_chunk_key(cg: Point) -> u64 {
    ((cg.x + 0x8000_0000) * 0x1_0000_0000 + (cg.y + 0x8000_0000)) as u64
}

/// Returns the key under which the metadata of the chunk at `cg` is kept.
pub fn chunk_key(cg: Point) -> (key: u64)
    ensures
        key == spec_chunk_key(cg),
{
    let x = (cg.x as i64 + 0x8000_0000) as u64;
    let y = (cg.y as i64 + 0x8000_0000) as u64;
    proof {
        assert(x * 0x1_0000_0000 + y <= u64::MAX) by (nonlinear_arith)
            requires
                x <= 0xffff_ffff,
                y <= 0xffff_ffff,
        ;
    }
    x * 0x1_0000_0000 + y
}

/// Different chunks have different keys.
pub proof fn lemma_chunk_key_injective(a: Point, b: Point)
    requires
        spec_chunk_key(a) == spec_chunk_key(b),
    ensures
        a == b,
{
    let xa = a.x + 0x8000_0000;
    let ya = a.y + 0x8000_0000;
    let xb = b.x + 0x8000_0000;
    let yb = b.y + 0x8000_0000;
    assert(xa * 0x1_0000_0000 + ya == xb * 0x1_0000_0000 + yb) by (nonlinear_arith)
        requires
            0 <= xa <= 0xffff_ffff,
            0 <= ya <= 0xffff_ffff,
            0 <= xb <= 0xffff_ffff,
            0 <= yb <= 0xffff_ffff,
            ((xa * 0x1_0000_0000 + ya) as u64) == ((xb * 0x1_0000_0000 + yb) as u64),
    ;
    assert(xa == xb && ya == yb) by (nonlinear_arith)
        requires
            0 <= ya <= 0xffff_ffff,
            0 <= yb <= 0xffff_ffff,
            xa * 0x1_0000_0000 + ya == xb * 0x1_0000_0000 + yb,
    ;
}

/// The position of the chunk next to `cg` in `direction`.
pub open spec fn neighbour_chunk(cg: Point, direction: Direction) -> Point {
    Point { x: (cg.x + direction.dx()) as i32, y: (cg.y + direction.dy()) as i32 }
}

/// Data used during world generation that spans several chunks, kept per chunk.
#[derive(Debug)]
pub struct Metadata {
    pub current_chunk_cg: Point,
    pub index: Vec<Point>,
    pub biome: HashMap<u64, BiomeMetadata>,
}

impl Metadata {
    /// Metadata for no chunk.
    pub fn new(current_chunk_cg: Point) -> (metadata: Metadata)
        ensures
            metadata.current_chunk_cg == current_chunk_cg,
            metadata.index@.len() == 0,
            metadata.biome@ == Map::<u64, BiomeMetadata>::empty(),
    {
        Metadata { current_chunk_cg, index: Vec::new(), biome: HashMap::new() }
    }

    /// Whether the biome of the chunk at `cg` is known.
    pub open spec fn has_biome(self, cg: Point) -> bool {
        self.biome@.contains_key(spec_chunk_key(cg))
    }

    /// The biome kept for the chunk at `cg`.
    pub open spec fn biome_of(self, cg: Point) -> BiomeMetadata {
        self.biome@[spec_chunk_key(cg)]
    }

    /// Keeps the biome of the chunk it describes, replacing any kept before.
    pub fn insert_biome(&mut self, bm: BiomeMetadata)
        ensures
            final(self).current_chunk_cg == old(self).current_chunk_cg,
            final(self).index@ == old(self).index@,
            forall|cg: Point|
                #[trigger] final(self).has_biome(cg) == (old(self).has_biome(cg) || cg == bm.cg),
            final(self).biome_of(bm.cg) == bm,
            forall|cg: Point| cg != bm.cg ==> #[trigger] final(self).biome_of(cg) == old(self).biome_of(cg),
    {
        let key = chunk_key(bm.cg);
        self.biome.insert(key, bm);
        proof {
            assert forall|cg: Point| #[trigger] self.has_biome(cg) == (old(self).has_biome(cg) || cg == bm.cg) by {
                if spec_chunk_key(cg) == key {
                    lemma_chunk_key_injective(cg, bm.cg);
                }
            }
            assert forall|cg: Point| cg != bm.cg implies #[trigger] self.biome_of(cg) == old(self).biome_of(cg) by {
                if spec_chunk_key(cg) == key {
                    lemma_chunk_key_injective(cg, bm.cg);
                }
            }
        }
    }

    /// Returns the biome kept for the chunk at `cg`.
    fn biome_at(&self, cg: Point) -> (bm: BiomeMetadata)
        requires
            self.has_biome(cg),
        ensures
            bm == self.biome_of(cg),
    {
        let key = chunk_key(cg);
        match self.biome.get(&key) {
            Some(bm) => *bm,
            None => BiomeMetadata::new(cg, false, 0, Climate::Moderate),
        }
    }

    /// Returns the biomes of the chunk at `cg` and of the eight chunks around it, all of which must be known.
    pub fn get_biome_metadata_for(&self, cg: &Point) -> (set: BiomeMetadataSet)
        requires
            i32::MIN < cg.x < i32::MAX,
            i32::MIN < cg.y < i32::MAX,
            forall|d: Direction| #[trigger] self.has_biome(neighbour_chunk(*cg, d)),
        ensures
            forall|d: Direction| #[trigger] set.biome_in(d) == self.biome_of(neighbour_chunk(*cg, d)),
    {
        proof {
            assert(self.has_biome(neighbour_chunk(*cg, Direction::Center)));
            assert(self.has_biome(neighbour_chunk(*cg, Direction::Top)));
            assert(self.has_biome(neighbour_chunk(*cg, Direction::TopRight)));
            assert(self.has_biome(neighbour_chunk(*cg, Direction::Right)));
            assert(self.has_biome(neighbour_chunk(*cg, Direction::BottomRight)));
            assert(self.has_biome(neighbour_chunk(*cg, Direction::Bottom)));
            assert(self.has_biome(neighbour_chunk(*cg, Direction::BottomLeft)));
            assert(self.has_biome(neighbour_chunk(*cg, Direction::Left)));
            assert(self.has_biome(neighbour_chunk(*cg, Direction::TopLeft)));
        }
        let set = BiomeMetadataSet {
            this: self.biome_at(Point::new_chunk_grid(cg.x, cg.y)),
            top: self.biome_at(Point::new_chunk_grid(cg.x, cg.y - 1)),
            top_right: self.biome_at(Point::new_chunk_grid(cg.x + 1, cg.y - 1)),
            right: self.biome_at(Point::new_chunk_grid(cg.x + 1, cg.y)),
            bottom_right: self.biome_at(Point::new_chunk_grid(cg.x + 1, cg.y + 1)),
            bottom: self.biome_at(Point::new_chunk_grid(cg.x, cg.y + 1)),
            bottom_left: self.biome_at(Point::new_chunk_grid(cg.x - 1, cg.y + 1)),
            left: self.biome_at(Point::new_chunk_grid(cg.x - 1, cg.y)),
            top_left: self.biome_at(Point::new_chunk_grid(cg.x - 1, cg.y - 1)),
        };
        proof {
            assert forall|d: Direction| #[trigger] set.biome_in(d) == self.biome_of(neighbour_chunk(*cg, d)) by {
                match d {
                    Direction::Center => assert(neighbour_chunk(*cg, d) == Point { x: cg.x, y: cg.y }),
                    _ => {},
                }
            }
        }
        set
    }
}

} // verus!
