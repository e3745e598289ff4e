# vdb_filter

Verified smoothing filters over sparse voxel grids.

A grid is a tree of root nodes, internal nodes and leaves; each leaf holds an
8 x 8 x 8 block of voxels, a mask of the active ones and a value for each.
The filters are:

- `Filter::mean`: a separable box filter of size `2 * width + 1`, applied along
  x, then z, then y, for a number of iterations;
- `Filter::gaussian`: four mean iterations per requested iteration;
- `Filter::median`: each active voxel takes the median of the active voxels in
  the cube of half-width `width` around it;
- `Filter::offset`: adds a constant to every active voxel.

Layout:

- `src/` is the verified library (Verus). `grid.rs` models the grid,
  `sample.rs` looks voxels up, `neighbourhood.rs` describes which samples a
  filter reads, `median.rs` sorts a neighbourhood and picks its median,
  `filter.rs` holds the filters and their contracts, and `laws.rs` and
  `locality.rs` what holds of them on every grid.
- `app/` holds the floating-point value types (`f32` and `half::f16`): how
  they add, average and compare is outside what the library can verify.
- `tests/` runs the filters on concrete grids.
