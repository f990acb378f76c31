# hexgridrect

Rectangular grids tiled with hexagons, with data attached to hexagons, edges
and corners, written in Verus: the library in `src/` states its behaviour in
`requires`/`ensures` contracts over mathematical models and proves it.

- `src/pos.rs`, `delta.rs`, `edge.rs`, `corner.rs`: positions `(u, v)` with an
  even coordinate sum, differences and their rotations, and the six edges and
  corners of a hexagon.
- `src/edge_pos.rs`, `corner_pos.rs`: edges and corners of the grid, with their
  several names and the unique normalized name of each.
- `src/region.rs`, `grid_size.rs`: rectangles of positions, their iterators over
  positions, edges and corners, and grid sizes.
- `src/grid.rs`: the grid itself, storing each hexagon, edge and corner once.
- `src/ring.rs`, `perimeter.rs`, `connected.rs`, `group.rs`, `id.rs`,
  `container.rs`: rings around a hexagon, boundary walks and the contiguous
  groups they go around, groups of hexagons, edges or corners, and the traits
  shared by these types.
- `tests/`: tests of the library on concrete values.
- `app/`: what stays outside the verified library: Cartesian geometry in
  floating point, text forms, `std::error::Error` for size errors, and
  `Iterator` adaptors.
