//! Indexes of the components of the chunks that currently exist, kept up to date as components are added and
//! removed: chunk components by the world position of the chunk, metadata components by its chunk grid position.

use crate::biome::{chunk_key, lemma_chunk_key_injective, spec_chunk_key};
use crate::coords::Point;
use std::collections::HashMap;
use vstd::prelude::*;

verus! {

broadcast use vstd::std_specs::hash::group_hash_axioms;

/// The chunk component of each chunk that exists, by the world position of the chunk.
#[derive(Debug)]
pub struct ChunkComponentIndex<C> {
    pub map: HashMap<u64, C>,
}

impl<C> ChunkComponentIndex<C> {
    /// The component kept for the chunk at world position `w`, if any.
    pub open spec fn component_at(self, w: Point) -> Option<C> {
        if self.map@.contains_key(spec_chunk_key(w)) {
            Some(self.map@[spec_chunk_key(w)])
        } else {
            None
        }
    }

    /// An empty index.
    pub fn new() -> (index: ChunkComponentIndex<C>)
        ensures
            forall|w: Point| #[trigger] index.component_at(w) is None,
            index.map@.len() == 0,
    {
        ChunkComponentIndex { map: HashMap::new() }
    }

    /// Returns the component kept for the chunk at world position `w`, if any.
    pub fn get(&self, w: &Point) -> (component: Option<&C>)
        ensures
            match component {
                Some(c) => self.component_at(*w) == Some(*c),
                None => self.component_at(*w) is None,
            },
    {
        let key = chunk_key(*w);
        self.map.get(&key)
    }

    /// Returns the number of chunks with a component.
    pub fn size(&self) -> (size: usize)
        ensures
            size == self.map@.len(),
    {
        self.map.len()
    }

    /// Keeps the component of a chunk that was added at world position `w`, replacing any kept before.
    pub fn insert(&mut self, w: Point, component: C)
        ensures
            final(self).component_at(w) == Some(component),
            forall|other: Point| other != w ==> #[trigger] final(self).component_at(other) == old(self).component_at(other),
    {
        let key = chunk_key(w);
        self.map.insert(key, component);
        proof {
            assert forall|other: Point| other != w implies #[trigger] self.component_at(other) == old(self).component_at(
                other,
            ) by {
                if spec_chunk_key(other) == key {
                    lemma_chunk_key_injective(other, w);
                }
            }
        }
    }

    /// Forgets the component of the chunk at world position `w`, which was removed.
    pub fn remove(&mut self, w: &Point)
        ensures
            final(self).component_at(*w) is None,
            forall|other: Point| other != *w ==> #[trigger] final(self).component_at(other) == old(self).component_at(other),
    {
        let key = chunk_key(*w);
        self.map.remove(&key);
        proof {
            assert forall|other: Point| other != *w implies #[trigger] self.component_at(other) == old(self).component_at(
                other,
            ) by {
                if spec_chunk_key(other) == key {
                    lemma_chunk_key_injective(other, *w);
                }
            }
        }
    }
}

/// The metadata component of each chunk that exists, by the chunk grid position of the chunk.
#[derive(Debug)]
pub struct MetadataComponentIndex<C> {
    pub map: HashMap<u64, C>,
}

impl<C> MetadataComponentIndex<C> {
    /// The component kept for the chunk at `cg`, if any.
    pub open spec fn component_at(self, cg: Point) -> Option<C> {
        if self.map@.contains_key(spec_chunk_key(cg)) {
            Some(self.map@[spec_chunk_key(cg)])
        } else {
            None
        }
    }

    /// An empty index.
    pub fn new() -> (index: MetadataComponentIndex<C>)
        ensures
            forall|cg: Point| #[trigger] index.component_at(cg) is None,
    {
        MetadataComponentIndex { map: HashMap::new() }
    }

    /// Returns the component kept for the chunk at `cg`, if any.
    pub fn get(&self, cg: Point) -> (component: Option<&C>)
        ensures
            match component {
                Some(c) => self.component_at(cg) == Some(*c),
                None => self.component_at(cg) is None,
            },
    {
        let key = chunk_key(cg);
        self.map.get(&key)
    }

    /// Keeps the component of a chunk that was added at `cg`, replacing any kept before.
    pub fn insert(&mut self, cg: Point, component: C)
        ensures
            final(self).component_at(cg) == Some(component),
            forall|other: Point| other != cg ==> #[trigger] final(self).component_at(other) == old(self).component_at(
                other,
            ),
    {
        let key = chunk_key(cg);
        self.map.insert(key, component);
        proof {
            assert forall|other: Point| other != cg implies #[trigger] self.component_at(other) == old(self).component_at(
                other,
            ) by {
                if spec_chunk_key(other) == key {
                    lemma_chunk_key_injective(other, cg);
                }
            }
        }
    }

    /// Forgets the component of the chunk at `cg`, which was removed.
    pub fn remove(&mut self, cg: &Point)
        ensures
            final(self).component_at(*cg) is None,
            forall|other: Point| other != *cg ==> #[trigger] final(self).component_at(other) == old(self).component_at(
                other,
            ),
    {
        let key = chunk_key(*cg);
        self.map.remove(&key);
        proof {
            assert forall|other: Point| other != *cg implies #[trigger] self.component_at(other) == old(self).component_at(
                other,
            ) by {
                if spec_chunk_key(other) == key {
                    lemma_chunk_key_injective(other, *cg);
                }
            }
        }
    }
}

} // verus!
