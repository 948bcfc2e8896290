# procedural_generation

Generation of the objects of a chunked, tile-based 2D world from a seed, written in Verus: each public function
states what it does in `requires` / `ensures`, and Verus proves it.

Among what is proved: A* path finding, on object grids and across tiles, returns a path of lowest cost (14 per
diagonal, 10 per straight step); each laid path cell is named from the directions in which its path enters and leaves
it; the wave function collapse completes a grid on which nothing is left to chance within one iteration per open cell;
validation leaves every collapsed cell consistent with its open neighbours; settlements place whole buildings at
points of the path, with the road joined to each door, and fields whenever they fit, each field on one terrain and next to a point of the path; every
field layout is entered through a fill tile next to the path. What the random number generator draws is not stated: the same
seed is meant to give the same world, but that rests on `rand` and is not proved here.

## Layout

- `src/` — the verified library:
  - `coords`, `constants`, `seed`, `random` — points and directions, chunk seeds, and the trusted calls into `rand`.
  - `object/` — object grids and their cells, terrain states and rule sets, the wave function collapse
    (`wfc`, `entropy_index`, `validation`), A* path finding (`pathfinding`, `path`) and path networks with their
    path pieces (`path_network`, `path_names`).
  - `tile` — tiles and the current chunk, with their coordinates.
  - `settlement/` — building templates, fenced field shapes and layouts, and the placement of a settlement along a
    road (`settlement_generation`).
  - `post_processor` — removal of single terrain tiles that do not stand on a fill tile.
  - `tile_paths`, `biome`, `component_index`, `messages`, `states` — paths across tiles, biome metadata, indexes of
    chunk components, and the messages and states of the generation.
- `tests/` — tests of the library, run against the compiled crate.
- `app/` — a command line program around the library: it reads settings (RON), draws terrain and biomes from Perlin
  noise, and runs the object generation of one chunk.
