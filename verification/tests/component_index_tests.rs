use procedural_generation::component_index::{ChunkComponentIndex, MetadataComponentIndex};
use procedural_generation::coords::Point;

#[test]
fn chunk_component_index_gives_back_what_was_added() {
    let mut index: ChunkComponentIndex<u32> = ChunkComponentIndex::new();
    let a = Point::new(0, 1024);
    let b = Point::new(-1024, 0);
    index.insert(a, 7);
    index.insert(b, 9);
    assert_eq!(index.get(&a), Some(&7));
    assert_eq!(index.size(), 2);
    index.insert(a, 8);
    assert_eq!(index.get(&a), Some(&8));
    index.remove(&a);
    assert_eq!(index.get(&a), None);
    assert_eq!(index.get(&b), Some(&9));
    assert_eq!(index.size(), 1);
}

#[test]
fn metadata_component_index_gives_back_what_was_added() {
    let mut index: MetadataComponentIndex<&str> = MetadataComponentIndex::new();
    let cg = Point::new_chunk_grid(3, -2);
    assert_eq!(index.get(cg), None);
    index.insert(cg, "settled");
    assert_eq!(index.get(cg), Some(&"settled"));
    assert_eq!(index.get(Point::new_chunk_grid(-2, 3)), None);
    index.remove(&cg);
    assert_eq!(index.get(cg), None);
}
