//! Mean (box), Gaussian, median and offset filters over a grid.
use vstd::prelude::*;
use crate::coord::Coord;
use crate::filterable::Filterable;
use crate::locality::lemma_pass_writes_fit;
use crate::median::{median_sample, median_value};
use crate::grid::{
    copy_vec, Grid, InternalNode, LeafNode, LeafView, RootNode, Tree, LEAF_DIM, LEAF_SIZE,
};
use crate::neighbourhood::{
    axis_samples, cube_samples, offset_count, plane_samples, push_sample, row_samples, shifted,
};
use crate::sample::{
    grid_sample, leaf_sample, lemma_first_sample_at, lemma_first_sample_none, leaf_probe, node_probe, root_probe,
};

verus! {

/// The grid as the filters see it: root nodes, internal nodes, leaves.
pub type GridView<V> = Seq<Seq<Seq<LeafView<V>>>>;

/// Which filter one pass over the grid applies.
#[derive(Clone, Copy)]
pub enum PassKind {
    /// The box filter along one axis (0 = x, 1 = y, 2 = z).
    Mean { axis: usize },
    /// The median filter over a cube.
    Median,
}

/// The coordinate of the voxel at buffer index `i` of a leaf.
pub open spec fn voxel_position<V>(leaf: LeafView<V>, i: int) -> (int, int, int) {
    (leaf.origin.x + i % 8, leaf.origin.y + (i / 8) % 8, leaf.origin.z + i / 64)
}

/// Whether every active voxel of the leaf lies at least `margin` inside
/// the range of `i32` on every axis.
pub open spec fn leaf_fits<V>(leaf: LeafView<V>, margin: int) -> bool {
    forall|i: int|
        0 <= i < LEAF_SIZE && i < leaf.mask.len() && #[trigger] leaf.mask[i] ==> {
            let p = voxel_position(leaf, i);
            &&& i32::MIN + margin <= p.0 <= i32::MAX - margin
            &&& i32::MIN + margin <= p.1 <= i32::MAX - margin
            &&& i32::MIN + margin <= p.2 <= i32::MAX - margin
        }
}

/// Whether every leaf of the grid fits with `margin` to spare.
pub open spec fn grid_fits<V>(g: GridView<V>, margin: int) -> bool {
    forall|i: int, j: int, k: int|
        0 <= i < g.len() && 0 <= j < g[i].len() && 0 <= k < g[i][j].len() ==> leaf_fits(
            #[trigger] g[i][j][k],
            margin,
        )
}

/// How far beyond a voxel a filter of the given width reads.
pub open spec fn margin(width: int) -> int {
    if width >= 0 {
        width
    } else {
        0
    }
}

/// The samples that a pass gathers around the voxel at `(x, y, z)`.
pub open spec fn neighbourhood<V>(
    g: GridView<V>,
    x: int,
    y: int,
    z: int,
    width: int,
    kind: PassKind,
) -> Seq<V> {
    match kind {
        PassKind::Mean { axis } => axis_samples(
            g,
            x,
            y,
            z,
            axis as int,
            width,
            offset_count(width) as nat,
        ),
        PassKind::Median => cube_samples(g, x, y, z, width, offset_count(width) as nat),
    }
}

/// The value that a pass gives the voxel at buffer index `i` of `leaf`:
/// an inactive voxel, or one with no samples around it, keeps its value;
/// any other gets the mean (or median) of its samples.
pub open spec fn filtered_value<V: Filterable>(
    g: GridView<V>,
    leaf: LeafView<V>,
    i: int,
    width: int,
    kind: PassKind,
) -> V {
    let p = voxel_position(leaf, i);
    let s = neighbourhood(g, p.0, p.1, p.2, width, kind);
    if i < leaf.mask.len() && leaf.mask[i] && s.len() > 0 {
        match kind {
            PassKind::Mean { .. } => V::spec_mean_value(s, 2 * width + 1),
            PassKind::Median => median_sample(s),
        }
    } else {
        leaf.buffer[i]
    }
}

/// A leaf after one pass: same origin and mask, filtered values.
pub open spec fn filter_leaf<V: Filterable>(
    g: GridView<V>,
    leaf: LeafView<V>,
    width: int,
    kind: PassKind,
) -> LeafView<V> {
    LeafView {
        origin: leaf.origin,
        mask: leaf.mask,
        buffer: Seq::new(leaf.buffer.len(), |i: int| filtered_value(g, leaf, i, width, kind)),
    }
}

/// The leaves of an internal node after one pass.
pub open spec fn filter_node<V: Filterable>(
    g: GridView<V>,
    n: Seq<LeafView<V>>,
    width: int,
    kind: PassKind,
) -> Seq<LeafView<V>> {
    n.map_values(|l: LeafView<V>| filter_leaf(g, l, width, kind))
}

/// The internal nodes of a root node after one pass.
pub open spec fn filter_root<V: Filterable>(
    g: GridView<V>,
    r: Seq<Seq<LeafView<V>>>,
    width: int,
    kind: PassKind,
) -> Seq<Seq<LeafView<V>>> {
    r.map_values(|n: Seq<LeafView<V>>| filter_node(g, n, width, kind))
}

/// The grid after one pass; every sample is read from the grid before the pass.
pub open spec fn filter_pass<V: Filterable>(g: GridView<V>, width: int, kind: PassKind) -> GridView<
    V,
> {
    g.map_values(|r: Seq<Seq<LeafView<V>>>| filter_root(g, r, width, kind))
}

/// The grid after `n` iterations of the separable mean filter, each
/// iteration filtering along x, then z, then y.
pub open spec fn mean_iterations<V: Filterable>(g: GridView<V>, width: int, n: nat) -> GridView<V>
    decreases n,
{
    if n == 0 {
        g
    } else {
        let p = mean_iterations(g, width, (n - 1) as nat);
        filter_pass(
            filter_pass(filter_pass(p, width, PassKind::Mean { axis: 0 }), width, PassKind::Mean { axis: 2 }),
            width,
            PassKind::Mean { axis: 1 },
        )
    }
}

/// The grid after `n` iterations of the median filter.
pub open spec fn median_iterations<V: Filterable>(g: GridView<V>, width: int, n: nat) -> GridView<V>
    decreases n,
{
    if n == 0 {
        g
    } else {
        filter_pass(median_iterations(g, width, (n - 1) as nat), width, PassKind::Median)
    }
}

/// A leaf after adding `offset` to every active voxel.
pub open spec fn offset_leaf<V: Filterable>(leaf: LeafView<V>, offset: V) -> LeafView<V> {
    LeafView {
        origin: leaf.origin,
        mask: leaf.mask,
        buffer: Seq::new(
            leaf.buffer.len(),
            |i: int|
                if i < leaf.mask.len() && leaf.mask[i] {
                    leaf.buffer[i].spec_add_value(offset)
                } else {
                    leaf.buffer[i]
                },
        ),
    }
}

/// The grid after adding `offset` to every active voxel.
pub open spec fn offset_grid<V: Filterable>(g: GridView<V>, offset: V) -> GridView<V> {
    g.map_values(
        |r: Seq<Seq<LeafView<V>>>|
            r.map_values(
                |n: Seq<LeafView<V>>| n.map_values(|l: LeafView<V>| offset_leaf(l, offset)),
            ),
    )
}

/// Whether some voxel of the leaf is active.
pub open spec fn leaf_has_active<V>(l: LeafView<V>) -> bool {
    exists|q: int| 0 <= q < LEAF_SIZE && q < l.mask.len() && #[trigger] l.mask[q]
}

/// Whether some voxel of the grid is active.
pub open spec fn grid_has_active<V>(g: GridView<V>) -> bool {
    exists|i: int, j: int, k: int|
        0 <= i < g.len() && 0 <= j < g[i].len() && 0 <= k < g[i][j].len() && leaf_has_active(
            #[trigger] g[i][j][k],
        )
}

/// Whether a grid has an active voxel depends on its layout alone.
pub proof fn lemma_layout_active<V>(a: GridView<V>, b: GridView<V>)
    requires
        same_layout(a, b),
    ensures
        grid_has_active(a) == grid_has_active(b),
{
    if grid_has_active(a) {
        let (i, j, k) = choose|i: int, j: int, k: int|
            0 <= i < a.len() && 0 <= j < a[i].len() && 0 <= k < a[i][j].len() && leaf_has_active(
                #[trigger] a[i][j][k],
            );
        assert(a[i][j][k].mask == b[i][j][k].mask);
        assert(leaf_has_active(b[i][j][k]));
    }
    if grid_has_active(b) {
        let (i, j, k) = choose|i: int, j: int, k: int|
            0 <= i < b.len() && 0 <= j < b[i].len() && 0 <= k < b[i][j].len() && leaf_has_active(
                #[trigger] b[i][j][k],
            );
        assert(a[i].len() == b[i].len());
        assert(a[i][j].len() == b[i][j].len());
        assert(a[i][j][k].mask == b[i][j][k].mask);
        assert(leaf_has_active(a[i][j][k]));
    }
}

/// What a pass of the given kind asks of its width: the box filter computes
/// `2 * width + 1` and reads along one of three axes; the median filter
/// negates `width` for every active voxel.
pub open spec fn pass_allowed<V>(g: GridView<V>, width: int, kind: PassKind) -> bool {
    match kind {
        PassKind::Mean { axis } => axis < 3 && -0x4000_0000 <= width < 0x4000_0000,
        PassKind::Median => width > i32::MIN || !grid_has_active(g),
    }
}

/// Whether every active voxel of the leaf that a pass would write (one with
/// samples around it) has a place in the leaf's buffer.
pub open spec fn leaf_writes_fit<V: Filterable>(
    g: GridView<V>,
    leaf: LeafView<V>,
    width: int,
    kind: PassKind,
) -> bool {
    forall|i: int|
        0 <= i < LEAF_SIZE && i < leaf.mask.len() && #[trigger] leaf.mask[i] && neighbourhood(
            g,
            voxel_position(leaf, i).0,
            voxel_position(leaf, i).1,
            voxel_position(leaf, i).2,
            width,
            kind,
        ).len() > 0 ==> i < leaf.buffer.len()
}

/// Whether every leaf of the grid has a place for what a pass writes.
pub open spec fn grid_writes_fit<V: Filterable>(g: GridView<V>, width: int, kind: PassKind) -> bool {
    forall|i: int, j: int, k: int|
        0 <= i < g.len() && 0 <= j < g[i].len() && 0 <= k < g[i][j].len() ==> leaf_writes_fit(
            g,
            #[trigger] g[i][j][k],
            width,
            kind,
        )
}

/// Whether every pass of the mean filter has a place for what it writes:
/// along x, y and z.
pub open spec fn mean_writes_fit<V: Filterable>(g: GridView<V>, width: int) -> bool {
    &&& grid_writes_fit(g, width, PassKind::Mean { axis: 0 })
    &&& grid_writes_fit(g, width, PassKind::Mean { axis: 1 })
    &&& grid_writes_fit(g, width, PassKind::Mean { axis: 2 })
}

/// A pass keeps room for the writes of every mean pass.
proof fn lemma_mean_pass_writes_fit<V: Filterable>(g: GridView<V>, width: int, kind: PassKind)
    requires
        mean_writes_fit(g, width),
    ensures
        mean_writes_fit(filter_pass(g, width, kind), width),
{
    lemma_pass_writes_fit(g, width, kind, PassKind::Mean { axis: 0 });
    lemma_pass_writes_fit(g, width, kind, PassKind::Mean { axis: 1 });
    lemma_pass_writes_fit(g, width, kind, PassKind::Mean { axis: 2 });
}

/// Two grids with the same tree shape whose leaves have the same origins
/// and masks: they differ at most in the values of their voxels.
pub open spec fn same_layout<V>(a: GridView<V>, b: GridView<V>) -> bool {
    &&& a.len() == b.len()
    &&& forall|i: int| 0 <= i < a.len() ==> (#[trigger] a[i]).len() == b[i].len()
    &&& forall|i: int, j: int|
        0 <= i < a.len() && 0 <= j < a[i].len() ==> (#[trigger] a[i][j]).len() == b[i][j].len()
    &&& forall|i: int, j: int, k: int|
        0 <= i < a.len() && 0 <= j < a[i].len() && 0 <= k < a[i][j].len() ==> {
            &&& (#[trigger] a[i][j][k]).origin == b[i][j][k].origin
            &&& a[i][j][k].mask == b[i][j][k].mask
        }
}

/// A pass keeps the layout of the grid.
pub proof fn lemma_pass_layout<V: Filterable>(g: GridView<V>, width: int, kind: PassKind)
    ensures
        same_layout(g, filter_pass(g, width, kind)),
{
    let p = filter_pass(g, width, kind);
    assert forall|i: int| 0 <= i < g.len() implies (#[trigger] g[i]).len() == p[i].len() by {
        assert(p[i] == filter_root(g, g[i], width, kind));
    }
    assert forall|i: int, j: int| 0 <= i < g.len() && 0 <= j < g[i].len() implies (
    #[trigger] g[i][j]).len() == p[i][j].len() by {
        assert(p[i] == filter_root(g, g[i], width, kind));
        assert(p[i][j] == filter_node(g, g[i][j], width, kind));
    }
    assert forall|i: int, j: int, k: int|
        0 <= i < g.len() && 0 <= j < g[i].len() && 0 <= k < g[i][j].len() implies {
            &&& (#[trigger] g[i][j][k]).origin == p[i][j][k].origin
            &&& g[i][j][k].mask == p[i][j][k].mask
        } by {
        assert(p[i] == filter_root(g, g[i], width, kind));
        assert(p[i][j] == filter_node(g, g[i][j], width, kind));
        assert(p[i][j][k] == filter_leaf(g, g[i][j][k], width, kind));
    }
}

/// Whether a grid fits within `i32` depends on its layout alone.
pub proof fn lemma_layout_fits<V>(a: GridView<V>, b: GridView<V>, margin: int)
    requires
        same_layout(a, b),
        grid_fits(a, margin),
    ensures
        grid_fits(b, margin),
{
    assert forall|i: int, j: int, k: int|
        0 <= i < b.len() && 0 <= j < b[i].len() && 0 <= k < b[i][j].len() implies leaf_fits(
        #[trigger] b[i][j][k],
        margin,
    ) by {
        assert(a[i].len() == b[i].len());
        assert(a[i][j].len() == b[i][j].len());
        assert(leaf_fits(a[i][j][k], margin));
        assert(a[i][j][k].origin == b[i][j][k].origin);
        assert(a[i][j][k].mask == b[i][j][k].mask);
    }
}

/// A pass over a grid that fits gives a grid that fits.
proof fn lemma_pass_fits<V: Filterable>(g: GridView<V>, width: int, kind: PassKind, margin: int)
    requires
        grid_fits(g, margin),
    ensures
        grid_fits(filter_pass(g, width, kind), margin),
{
    lemma_pass_layout(g, width, kind);
    lemma_layout_fits(g, filter_pass(g, width, kind), margin);
}

/// Every iteration of the mean filter keeps a grid that fits.
proof fn lemma_mean_iterations_fit<V: Filterable>(g: GridView<V>, width: int, n: nat, margin: int)
    requires
        grid_fits(g, margin),
    ensures
        grid_fits(mean_iterations(g, width, n), margin),
    decreases n,
{
    if n > 0 {
        lemma_mean_iterations_fit(g, width, (n - 1) as nat, margin);
        let p = mean_iterations(g, width, (n - 1) as nat);
        lemma_pass_fits(p, width, PassKind::Mean { axis: 0 }, margin);
        let p0 = filter_pass(p, width, PassKind::Mean { axis: 0 });
        lemma_pass_fits(p0, width, PassKind::Mean { axis: 2 }, margin);
        let p2 = filter_pass(p0, width, PassKind::Mean { axis: 2 });
        lemma_pass_fits(p2, width, PassKind::Mean { axis: 1 }, margin);
    }
}

/// Every iteration of the median filter keeps a grid that fits.
proof fn lemma_median_iterations_fit<V: Filterable>(g: GridView<V>, width: int, n: nat, margin: int)
    requires
        grid_fits(g, margin),
    ensures
        grid_fits(median_iterations(g, width, n), margin),
    decreases n,
{
    if n > 0 {
        lemma_median_iterations_fit(g, width, (n - 1) as nat, margin);
        lemma_pass_fits(median_iterations(g, width, (n - 1) as nat), width, PassKind::Median, margin);
    }
}

/// Buffer index `z * 64 + y * 8 + x` names the voxel at local `(x, y, z)`.
pub proof fn lemma_local_index(x: int, y: int, z: int)
    requires
        0 <= x < 8,
        0 <= y < 8,
        0 <= z < 8,
    ensures
        0 <= z * 64 + y * 8 + x < 512,
        (z * 64 + y * 8 + x) % 8 == x,
        ((z * 64 + y * 8 + x) / 8) % 8 == y,
        (z * 64 + y * 8 + x) / 64 == z,
{
}

/// Filter configuration.
pub struct FilterConfig {
    /// Width of the filter (filter size is 2*width+1)
    pub width: i32,
    /// Number of iterations to apply
    pub iterations: usize,
}

impl Default for FilterConfig {
    fn default() -> (r: Self)
        ensures
            r.width == 1,
            r.iterations == 1,
    {
        FilterConfig { width: 1, iterations: 1 }
    }
}

/// Filter operations on a grid.
pub struct Filter<'a, V> {
    grid: &'a Grid<V>,
}

impl<'a, V: Filterable> Filter<'a, V> {
    /// The grid that the filter reads.
    pub closed spec fn source(&self) -> Seq<Seq<Seq<LeafView<V>>>> {
        self.grid@
    }

    /// Create a new filter for the given grid.
    pub fn new(grid: &'a Grid<V>) -> (r: Self)
        ensures
            r.source() == grid@,
    {
        Filter { grid }
    }

    /// Apply a mean (box) filter to the grid
    ///
    /// The mean filter performs separable filtering along each axis.
    /// Filter width is 2*width+1 voxels.
    pub fn mean(&self, config: FilterConfig) -> (r: Grid<V>)
        requires
            config.iterations > 0 ==> -0x4000_0000 <= config.width < 0x4000_0000,
            config.iterations > 0 ==> grid_fits(self.source(), margin(config.width as int)),
            config.iterations > 0 ==> mean_writes_fit(self.source(), config.width as int),
        ensures
            r@ == mean_iterations(self.source(), config.width as int, config.iterations as nat),
    {
        let ghost src = self.source();
        let width = config.width;
        let mut result = self.grid.clone();
        let mut done: usize = 0;
        while done < config.iterations
            invariant
                src == self.source(),
                width == config.width,
                config.iterations > 0 ==> -0x4000_0000 <= width < 0x4000_0000,
                config.iterations > 0 ==> grid_fits(src, margin(width as int)),
                config.iterations > 0 ==> mean_writes_fit(result@, width as int),
                done <= config.iterations,
                result@ == mean_iterations(src, width as int, done as nat),
            decreases config.iterations - done,
        {
            proof {
                lemma_mean_iterations_fit(src, width as int, done as nat, margin(width as int));
                lemma_pass_fits(result@, width as int, PassKind::Mean { axis: 0 }, margin(width as int));
                lemma_pass_fits(
                    filter_pass(result@, width as int, PassKind::Mean { axis: 0 }),
                    width as int,
                    PassKind::Mean { axis: 2 },
                    margin(width as int),
                );
                lemma_mean_pass_writes_fit(result@, width as int, PassKind::Mean { axis: 0 });
                lemma_mean_pass_writes_fit(
                    filter_pass(result@, width as int, PassKind::Mean { axis: 0 }),
                    width as int,
                    PassKind::Mean { axis: 2 },
                );
                lemma_mean_pass_writes_fit(
                    filter_pass(
                        filter_pass(result@, width as int, PassKind::Mean { axis: 0 }),
                        width as int,
                        PassKind::Mean { axis: 2 },
                    ),
                    width as int,
                    PassKind::Mean { axis: 1 },
                );
            }
            // Apply separable mean filter: X, then Z, then Y
            result = self.mean_pass_x(&result, width);
            result = self.mean_pass_z(&result, width);
            result = self.mean_pass_y(&result, width);
            done += 1;
        }
        result
    }

    /// Apply Gaussian filter approximation
    ///
    /// Approximates a Gaussian by running 4 iterations of mean filtering,
    /// achieving better than 95% accuracy.
    pub fn gaussian(&self, config: FilterConfig) -> (r: Grid<V>)
        requires
            config.iterations <= usize::MAX / 4,
            config.iterations > 0 ==> -0x4000_0000 <= config.width < 0x4000_0000,
            config.iterations > 0 ==> grid_fits(self.source(), margin(config.width as int)),
            config.iterations > 0 ==> mean_writes_fit(self.source(), config.width as int),
        ensures
            r@ == mean_iterations(self.source(), config.width as int, 4 * config.iterations as nat),
    {
        let gaussian_config = FilterConfig {
            width: config.width,
            iterations: config.iterations * 4,  // 4 mean iterations per Gaussian iteration
        };
        self.mean(gaussian_config)
    }

    /// Apply median filter
    ///
    /// Non-separable filter that replaces each voxel with the median
    /// of its neighborhood.
    pub fn median(&self, config: FilterConfig) -> (r: Grid<V>)
        requires
            config.iterations > 0 && grid_has_active(self.source()) ==> config.width > i32::MIN,
            config.iterations > 0 ==> grid_fits(self.source(), margin(config.width as int)),
            config.iterations > 0 ==> grid_writes_fit(
                self.source(),
                config.width as int,
                PassKind::Median,
            ),
        ensures
            r@ == median_iterations(self.source(), config.width as int, config.iterations as nat),
    {
        let ghost src = self.source();
        let width = config.width;
        let mut result = self.grid.clone();
        let mut done: usize = 0;
        while done < config.iterations
            invariant
                src == self.source(),
                width == config.width,
                config.iterations > 0 && grid_has_active(src) ==> width > i32::MIN,
                grid_has_active(result@) == grid_has_active(src),
                config.iterations > 0 ==> grid_fits(src, margin(width as int)),
                config.iterations > 0 ==> grid_writes_fit(result@, width as int, PassKind::Median),
                done <= config.iterations,
                result@ == median_iterations(src, width as int, done as nat),
            decreases config.iterations - done,
        {
            proof {
                lemma_median_iterations_fit(src, width as int, done as nat, margin(width as int));
                lemma_pass_layout(result@, width as int, PassKind::Median);
                lemma_layout_active(result@, filter_pass(result@, width as int, PassKind::Median));
                if config.iterations > 0 {
                    lemma_pass_writes_fit(result@, width as int, PassKind::Median, PassKind::Median);
                }
            }
            result = self.median_pass(&result, width);
            done += 1;
        }
        result
    }

    /// Add a constant offset to all active voxels
    pub fn offset(&self, offset: V) -> (r: Grid<V>)
        ensures
            r@ == offset_grid(self.source(), offset),
    {
        let grid = self.grid;
        let ghost g = grid@;
        let roots = &grid.tree.root_nodes;
        let mut new_roots: Vec<RootNode<V>> = Vec::new();
        let mut i: usize = 0;
        while i < roots.len()
            invariant
                g == grid@,
                g == self.source(),
                roots@ == grid.tree.root_nodes@,
                i <= roots@.len(),
                new_roots@.len() == i,
                forall|m: int|
                    0 <= m < i ==> (#[trigger] new_roots@[m])@ == offset_grid(g, offset)[m],
            decreases roots@.len() - i,
        {
            let nodes = &roots[i].nodes;
            let ghost r = g[i as int];
            assert(r == roots@[i as int]@);
            let mut new_nodes: Vec<InternalNode<V>> = Vec::new();
            let mut j: usize = 0;
            while j < nodes.len()
                invariant
                    g == grid@,
                    roots@ == grid.tree.root_nodes@,
                    i < roots@.len(),
                    r == g[i as int],
                    r == roots@[i as int]@,
                    nodes@ == roots@[i as int].nodes@,
                    j <= nodes@.len(),
                    new_nodes@.len() == j,
                    forall|m: int|
                        0 <= m < j ==> (#[trigger] new_nodes@[m])@ == offset_grid(g, offset)[i as int][m],
                decreases nodes@.len() - j,
            {
                let leaves = &nodes[j].nodes;
                let ghost n = r[j as int];
                assert(n == nodes@[j as int]@);
                let mut new_leaves: Vec<LeafNode<V>> = Vec::new();
                let mut k: usize = 0;
                while k < leaves.len()
                    invariant
                        g == grid@,
                        roots@ == grid.tree.root_nodes@,
                        i < roots@.len(),
                        r == g[i as int],
                        nodes@ == roots@[i as int].nodes@,
                        j < nodes@.len(),
                        n == r[j as int],
                        n == nodes@[j as int]@,
                        leaves@ == nodes@[j as int].nodes@,
                        k <= leaves@.len(),
                        new_leaves@.len() == k,
                        forall|m: int|
                            0 <= m < k ==> (#[trigger] new_leaves@[m])@ == offset_leaf(n[m], offset),
                    decreases leaves@.len() - k,
                {
                    let leaf = &leaves[k];
                    assert(leaf@ == n[k as int]);
                    let mask = leaf.value_mask();
                    let mut buffer = copy_vec(leaf.buffer());
                    let mut idx: usize = 0;
                    while idx < mask.len()
                        invariant
                            mask@ == leaf@.mask,
                            mask@.len() == LEAF_SIZE,
                            leaf@.buffer.len() <= LEAF_SIZE,
                            idx <= mask@.len(),
                            buffer@.len() == leaf@.buffer.len(),
                            forall|q: int|
                                0 <= q < leaf@.buffer.len() ==> #[trigger] buffer@[q] == if q < idx {
                                    offset_leaf(leaf@, offset).buffer[q]
                                } else {
                                    leaf@.buffer[q]
                                },
                        decreases mask@.len() - idx,
                    {
                        if mask[idx] && idx < buffer.len() {
                            let shifted_value = buffer[idx].add_value(offset);
                            buffer.set(idx, shifted_value);
                        }
                        idx += 1;
                    }
                    assert(buffer@ =~= offset_leaf(leaf@, offset).buffer);
                    new_leaves.push(leaf.with_buffer(buffer));
                    proof {
                        assert(new_leaves@[k as int]@ =~= offset_leaf(n[k as int], offset));
                    }
                    k += 1;
                }
                let new_node = InternalNode { nodes: new_leaves };
                assert(new_node@ =~= offset_grid(g, offset)[i as int][j as int]);
                new_nodes.push(new_node);
                j += 1;
            }
            let new_root = RootNode { nodes: new_nodes };
            assert(new_root@ =~= offset_grid(g, offset)[i as int]);
            new_roots.push(new_root);
            i += 1;
        }
        let result = Grid { tree: Tree { root_nodes: new_roots } };
        assert(result@ =~= offset_grid(g, offset));
        result
    }

    // Private helper methods

    fn mean_pass_x(&self, grid: &Grid<V>, width: i32) -> (r: Grid<V>)
        requires
            -0x4000_0000 <= width < 0x4000_0000,
            grid_fits(grid@, margin(width as int)),
            grid_writes_fit(grid@, width as int, PassKind::Mean { axis: 0 }),
        ensures
            r@ == filter_pass(grid@, width as int, PassKind::Mean { axis: 0 }),
    {
        self.apply_separable_filter(grid, width, 0)
    }

    fn mean_pass_y(&self, grid: &Grid<V>, width: i32) -> (r: Grid<V>)
        requires
            -0x4000_0000 <= width < 0x4000_0000,
            grid_fits(grid@, margin(width as int)),
            grid_writes_fit(grid@, width as int, PassKind::Mean { axis: 1 }),
        ensures
            r@ == filter_pass(grid@, width as int, PassKind::Mean { axis: 1 }),
    {
        self.apply_separable_filter(grid, width, 1)
    }

    fn mean_pass_z(&self, grid: &Grid<V>, width: i32) -> (r: Grid<V>)
        requires
            -0x4000_0000 <= width < 0x4000_0000,
            grid_fits(grid@, margin(width as int)),
            grid_writes_fit(grid@, width as int, PassKind::Mean { axis: 2 }),
        ensures
            r@ == filter_pass(grid@, width as int, PassKind::Mean { axis: 2 }),
    {
        self.apply_separable_filter(grid, width, 2)
    }

    /// One box-filter pass along `axis` over every leaf of `grid`.
    fn apply_separable_filter(&self, grid: &Grid<V>, width: i32, axis: usize) -> (r: Grid<V>)
        requires
            axis < 3,
            -0x4000_0000 <= width < 0x4000_0000,
            grid_fits(grid@, margin(width as int)),
            grid_writes_fit(grid@, width as int, PassKind::Mean { axis }),
        ensures
            r@ == filter_pass(grid@, width as int, PassKind::Mean { axis }),
    {
        self.filter_grid(grid, width, PassKind::Mean { axis })
    }

    /// One median pass over every leaf of `grid`.
    fn median_pass(&self, grid: &Grid<V>, width: i32) -> (r: Grid<V>)
        requires
            width > i32::MIN || !grid_has_active(grid@),
            grid_fits(grid@, margin(width as int)),
            grid_writes_fit(grid@, width as int, PassKind::Median),
        ensures
            r@ == filter_pass(grid@, width as int, PassKind::Median),
    {
        self.filter_grid(grid, width, PassKind::Median)
    }

    /// One pass of the given kind over every leaf of `grid`, every sample
    /// read from `grid` itself.
    fn filter_grid(&self, grid: &Grid<V>, width: i32, kind: PassKind) -> (r: Grid<V>)
        requires
            pass_allowed(grid@, width as int, kind),
            grid_fits(grid@, margin(width as int)),
            grid_writes_fit(grid@, width as int, kind),
        ensures
            r@ == filter_pass(grid@, width as int, kind),
    {
        let kernel_size: i32 = match kind {
            PassKind::Mean { .. } => 2 * width + 1,
            PassKind::Median => 0,
        };
        let ghost g = grid@;
        let roots = &grid.tree.root_nodes;
        let mut new_roots: Vec<RootNode<V>> = Vec::new();
        let mut i: usize = 0;
        while i < roots.len()
            invariant
                g == grid@,
                roots@ == grid.tree.root_nodes@,
                pass_allowed(g, width as int, kind),
                kind is Mean ==> kernel_size == 2 * width + 1,
                grid_fits(g, margin(width as int)),
                grid_writes_fit(g, width as int, kind),
                i <= roots@.len(),
                new_roots@.len() == i,
                forall|m: int|
                    0 <= m < i ==> (#[trigger] new_roots@[m])@ == filter_root(g, g[m], width as int, kind),
            decreases roots@.len() - i,
        {
            let nodes = &roots[i].nodes;
            let ghost r = g[i as int];
            assert(r == roots@[i as int]@);
            let mut new_nodes: Vec<InternalNode<V>> = Vec::new();
            let mut j: usize = 0;
            while j < nodes.len()
                invariant
                    g == grid@,
                    roots@ == grid.tree.root_nodes@,
                    pass_allowed(g, width as int, kind),
                    kind is Mean ==> kernel_size == 2 * width + 1,
                    grid_fits(g, margin(width as int)),
                    grid_writes_fit(g, width as int, kind),
                    i < roots@.len(),
                    r == g[i as int],
                    r == roots@[i as int]@,
                    nodes@ == roots@[i as int].nodes@,
                    j <= nodes@.len(),
                    new_nodes@.len() == j,
                    forall|m: int|
                        0 <= m < j ==> (#[trigger] new_nodes@[m])@ == filter_node(g, r[m], width as int, kind),
                decreases nodes@.len() - j,
            {
                let leaves = &nodes[j].nodes;
                let ghost n = r[j as int];
                assert(n == nodes@[j as int]@);
                let mut new_leaves: Vec<LeafNode<V>> = Vec::new();
                let mut k: usize = 0;
                while k < leaves.len()
                    invariant
                        g == grid@,
                        roots@ == grid.tree.root_nodes@,
                        pass_allowed(g, width as int, kind),
                        kind is Mean ==> kernel_size == 2 * width + 1,
                        grid_fits(g, margin(width as int)),
                        grid_writes_fit(g, width as int, kind),
                        i < roots@.len(),
                        r == g[i as int],
                        nodes@ == roots@[i as int].nodes@,
                        j < nodes@.len(),
                        n == r[j as int],
                        n == nodes@[j as int]@,
                        leaves@ == nodes@[j as int].nodes@,
                        k <= leaves@.len(),
                        new_leaves@.len() == k,
                        forall|m: int|
                            0 <= m < k ==> (#[trigger] new_leaves@[m])@ == filter_leaf(g, n[m], width as int, kind),
                    decreases leaves@.len() - k,
                {
                    let leaf = &leaves[k];
                    assert(leaf@ == n[k as int]);
                    assert(leaf_fits(g[i as int][j as int][k as int], margin(width as int)));
                    assert(leaf_writes_fit(g, g[i as int][j as int][k as int], width as int, kind));
                    let filtered_buffer = match kind {
                        PassKind::Mean { axis } => self.filter_leaf_node_axis(
                            grid,
                            leaf,
                            width,
                            axis,
                            kernel_size,
                        ),
                        PassKind::Median => {
                            assert(leaf_has_active(g[i as int][j as int][k as int]) ==> grid_has_active(g));
                            self.filter_leaf_node_median(grid, leaf, width)
                        },
                    };
                    new_leaves.push(leaf.with_buffer(filtered_buffer));
                    proof {
                        assert(new_leaves@[k as int]@ =~= filter_leaf(g, n[k as int], width as int, kind));
                    }
                    k += 1;
                }
                let new_node = InternalNode { nodes: new_leaves };
                assert(new_node@ =~= filter_node(g, n, width as int, kind));
                new_nodes.push(new_node);
                j += 1;
            }
            let new_root = RootNode { nodes: new_nodes };
            assert(new_root@ =~= filter_root(g, r, width as int, kind));
            new_roots.push(new_root);
            i += 1;
        }
        let result = Grid { tree: Tree { root_nodes: new_roots } };
        assert(result@ =~= filter_pass(g, width as int, kind));
        result
    }

    /// The values found along `axis` at offsets `-width ..= width` from
    /// `world`, in increasing order of offset.
    fn gather_axis(&self, grid: &Grid<V>, world: Coord, width: i32, axis: usize) -> (r: Vec<V>)
        requires
            axis < 3,
            width > i32::MIN,
            i32::MIN + margin(width as int) <= world.x <= i32::MAX - margin(width as int),
            i32::MIN + margin(width as int) <= world.y <= i32::MAX - margin(width as int),
            i32::MIN + margin(width as int) <= world.z <= i32::MAX - margin(width as int),
        ensures
            r@ == axis_samples(
                grid@,
                world.x as int,
                world.y as int,
                world.z as int,
                axis as int,
                width as int,
                offset_count(width as int) as nat,
            ),
    {
        let mut samples: Vec<V> = Vec::new();
        let mut offset: i64 = -(width as i64);
        while offset <= width as i64
            invariant
                axis < 3,
                width > i32::MIN,
                i32::MIN + margin(width as int) <= world.x <= i32::MAX - margin(width as int),
                i32::MIN + margin(width as int) <= world.y <= i32::MAX - margin(width as int),
                i32::MIN + margin(width as int) <= world.z <= i32::MAX - margin(width as int),
                offset >= -width,
                width >= 0 ==> offset <= width + 1,
                width < 0 ==> offset == -width,
                samples@ == axis_samples(
                    grid@,
                    world.x as int,
                    world.y as int,
                    world.z as int,
                    axis as int,
                    width as int,
                    (offset + width) as nat,
                ),
            decreases width + 1 - offset,
        {
            let d = offset as i32;
            let sample_coord = if axis == 0 {
                Coord::new(world.x + d, world.y, world.z)
            } else if axis == 1 {
                Coord::new(world.x, world.y + d, world.z)
            } else {
                Coord::new(world.x, world.y, world.z + d)
            };
            let ghost n = (offset + width + 1) as nat;
            let ghost p = shifted(world.x as int, world.y as int, world.z as int, axis as int, -width + n - 1);
            assert(p == (sample_coord.x as int, sample_coord.y as int, sample_coord.z as int));
            if let Some(value) = self.sample_voxel(grid, sample_coord) {
                samples.push(value);
            }
            offset += 1;
        }
        assert(offset + width == offset_count(width as int));
        samples
    }

    /// The values found in the cube of half-width `width` around `world`:
    /// plane by plane along z, row by row along y, then along x.
    fn gather_cube(&self, grid: &Grid<V>, world: Coord, width: i32) -> (r: Vec<V>)
        requires
            width > i32::MIN,
            i32::MIN + margin(width as int) <= world.x <= i32::MAX - margin(width as int),
            i32::MIN + margin(width as int) <= world.y <= i32::MAX - margin(width as int),
            i32::MIN + margin(width as int) <= world.z <= i32::MAX - margin(width as int),
        ensures
            r@ == cube_samples(
                grid@,
                world.x as int,
                world.y as int,
                world.z as int,
                width as int,
                offset_count(width as int) as nat,
            ),
    {
        let ghost g = grid@;
        let ghost (x, y, z) = (world.x as int, world.y as int, world.z as int);
        let ghost w = width as int;
        let ghost full = offset_count(w) as nat;
        let mut samples: Vec<V> = Vec::new();
        let mut dz: i64 = -(width as i64);
        while dz <= width as i64
            invariant
                g == grid@,
                x == world.x,
                y == world.y,
                z == world.z,
                w == width,
                full == offset_count(w),
                width > i32::MIN,
                i32::MIN + margin(w) <= x <= i32::MAX - margin(w),
                i32::MIN + margin(w) <= y <= i32::MAX - margin(w),
                i32::MIN + margin(w) <= z <= i32::MAX - margin(w),
                dz >= -w,
                w >= 0 ==> dz <= w + 1,
                w < 0 ==> dz == -w,
                samples@ == cube_samples(g, x, y, z, w, (dz + w) as nat),
            decreases w + 1 - dz,
        {
            let ghost before_plane = samples@;
            let mut dy: i64 = -(width as i64);
            while dy <= width as i64
                invariant
                    g == grid@,
                    x == world.x,
                    y == world.y,
                    z == world.z,
                    w == width,
                    full == offset_count(w),
                    width > i32::MIN,
                    i32::MIN + margin(w) <= x <= i32::MAX - margin(w),
                    i32::MIN + margin(w) <= y <= i32::MAX - margin(w),
                    i32::MIN + margin(w) <= z <= i32::MAX - margin(w),
                    -w <= dz <= w,
                    before_plane == cube_samples(g, x, y, z, w, (dz + w) as nat),
                    dy >= -w,
                    dy <= w + 1,
                    samples@ == before_plane + plane_samples(g, x, y, z, w, dz as int, (dy + w) as nat),
                decreases w + 1 - dy,
            {
                let ghost before_row = samples@;
                let mut dx: i64 = -(width as i64);
                while dx <= width as i64
                    invariant
                        g == grid@,
                        x == world.x,
                        y == world.y,
                        z == world.z,
                        w == width,
                        full == offset_count(w),
                        width > i32::MIN,
                        i32::MIN + margin(w) <= x <= i32::MAX - margin(w),
                        i32::MIN + margin(w) <= y <= i32::MAX - margin(w),
                        i32::MIN + margin(w) <= z <= i32::MAX - margin(w),
                        -w <= dz <= w,
                        -w <= dy <= w,
                        before_row == before_plane + plane_samples(g, x, y, z, w, dz as int, (dy + w) as nat),
                        dx >= -w,
                        dx <= w + 1,
                        samples@ == before_row + row_samples(g, x, y, z, w, dy as int, dz as int, (dx + w) as nat),
                    decreases w + 1 - dx,
                {
                    let sample_coord = Coord::new(
                        world.x + dx as i32,
                        world.y + dy as i32,
                        world.z + dz as i32,
                    );
                    let ghost prev = samples@;
                    if let Some(value) = self.sample_voxel(grid, sample_coord) {
                        samples.push(value);
                    }
                    proof {
                        let n = (dx + w + 1) as nat;
                        assert(row_samples(g, x, y, z, w, dy as int, dz as int, n) == push_sample(
                            row_samples(g, x, y, z, w, dy as int, dz as int, (n - 1) as nat),
                            g,
                            x + (-w + n - 1),
                            y + dy,
                            z + dz,
                        ));
                        assert(samples@ =~= before_row + row_samples(g, x, y, z, w, dy as int, dz as int, n));
                    }
                    dx += 1;
                }
                proof {
                    let n = (dy + w + 1) as nat;
                    assert(dx + w == full);
                    assert(-w + n - 1 == dy);
                    assert(plane_samples(g, x, y, z, w, dz as int, n) == plane_samples(
                        g,
                        x,
                        y,
                        z,
                        w,
                        dz as int,
                        (n - 1) as nat,
                    ) + row_samples(g, x, y, z, w, dy as int, dz as int, full));
                    assert(samples@ =~= before_plane + plane_samples(g, x, y, z, w, dz as int, n));
                }
                dy += 1;
            }
            proof {
                let n = (dz + w + 1) as nat;
                assert(dy + w == full);
                assert(-w + n - 1 == dz);
                assert(cube_samples(g, x, y, z, w, n) == cube_samples(g, x, y, z, w, (n - 1) as nat)
                    + plane_samples(g, x, y, z, w, dz as int, full));
            }
            dz += 1;
        }
        assert(dz + w == full);
        samples
    }

    /// A leaf's values after one box-filter pass along `axis`, sampling `grid`.
    fn filter_leaf_node_axis(
        &self,
        grid: &Grid<V>,
        node: &LeafNode<V>,
        width: i32,
        axis: usize,
        kernel_size: i32,
    ) -> (r: Vec<V>)
        requires
            axis < 3,
            kernel_size == 2 * width + 1,
            width > i32::MIN,
            leaf_fits(node@, margin(width as int)),
            leaf_writes_fit(grid@, node@, width as int, PassKind::Mean { axis }),
        ensures
            r@ == filter_leaf(grid@, node@, width as int, PassKind::Mean { axis }).buffer,
            r@.len() <= LEAF_SIZE,
    {
        let dim: i32 = LEAF_DIM;
        let origin = node.origin();
        let mask = node.value_mask();
        let mut filtered = copy_vec(node.buffer());
        let ghost leaf = node@;
        let ghost kind = PassKind::Mean { axis };
        let ghost target = filter_leaf(grid@, leaf, width as int, kind).buffer;
        let mut z: i32 = 0;
        while z < dim
            invariant
                dim == 8,
                axis < 3,
                kernel_size == 2 * width + 1,
                width > i32::MIN,
                leaf == node@,
                kind == (PassKind::Mean { axis }),
                target == filter_leaf(grid@, leaf, width as int, kind).buffer,
                leaf_fits(leaf, margin(width as int)),
                leaf_writes_fit(grid@, leaf, width as int, kind),
                origin == leaf.origin,
                mask@ == leaf.mask,
                mask@.len() == LEAF_SIZE,
                leaf.buffer.len() <= LEAF_SIZE,
                0 <= z <= 8,
                filtered@.len() == leaf.buffer.len(),
                forall|q: int|
                    0 <= q < leaf.buffer.len() ==> #[trigger] filtered@[q] == if q < z * 64 {
                        target[q]
                    } else {
                        leaf.buffer[q]
                    },
            decreases 8 - z,
        {
            let mut y: i32 = 0;
            while y < dim
                invariant
                    dim == 8,
                    axis < 3,
                    kernel_size == 2 * width + 1,
                    width > i32::MIN,
                    leaf == node@,
                    kind == (PassKind::Mean { axis }),
                    target == filter_leaf(grid@, leaf, width as int, kind).buffer,
                    leaf_fits(leaf, margin(width as int)),
                    leaf_writes_fit(grid@, leaf, width as int, kind),
                    origin == leaf.origin,
                    mask@ == leaf.mask,
                    mask@.len() == LEAF_SIZE,
                    leaf.buffer.len() <= LEAF_SIZE,
                    0 <= z < 8,
                    0 <= y <= 8,
                    filtered@.len() == leaf.buffer.len(),
                    forall|q: int|
                        0 <= q < leaf.buffer.len() ==> #[trigger] filtered@[q] == if q < z * 64 + y * 8 {
                            target[q]
                        } else {
                            leaf.buffer[q]
                        },
                decreases 8 - y,
            {
                let mut x: i32 = 0;
                while x < dim
                    invariant
                        dim == 8,
                        axis < 3,
                        kernel_size == 2 * width + 1,
                        width > i32::MIN,
                        leaf == node@,
                        kind == (PassKind::Mean { axis }),
                        target == filter_leaf(grid@, leaf, width as int, kind).buffer,
                        leaf_fits(leaf, margin(width as int)),
                        leaf_writes_fit(grid@, leaf, width as int, kind),
                        origin == leaf.origin,
                        mask@ == leaf.mask,
                        mask@.len() == LEAF_SIZE,
                        leaf.buffer.len() <= LEAF_SIZE,
                        0 <= z < 8,
                        0 <= y < 8,
                        0 <= x <= 8,
                        filtered@.len() == leaf.buffer.len(),
                        forall|q: int|
                            0 <= q < leaf.buffer.len() ==> #[trigger] filtered@[q] == if q < z * 64 + y
                                * 8 + x {
                                target[q]
                            } else {
                                leaf.buffer[q]
                            },
                    decreases 8 - x,
                {
                    proof {
                        lemma_local_index(x as int, y as int, z as int);
                    }
                    let idx: usize = (z * dim * dim + y * dim + x) as usize;
                    assert(idx == z * 64 + y * 8 + x);
                    if mask[idx] {
                        assert(leaf_fits(leaf, margin(width as int)));
                        assert(leaf.mask[idx as int]);
                        let world = Coord::new(origin.x + x, origin.y + y, origin.z + z);
                        let samples = self.gather_axis(grid, world, width, axis);
                        if samples.len() > 0 {
                            filtered.set(idx, V::mean_value(&samples, kernel_size));
                        }
                    }
                    assert(idx < filtered@.len() ==> filtered@[idx as int] == target[idx as int]);
                    x += 1;
                }
                y += 1;
            }
            z += 1;
        }
        proof {
            assert(filtered@ =~= target);
        }
        filtered
    }

    /// A leaf's values after one median pass, sampling `grid`.
    fn filter_leaf_node_median(
        &self,
        grid: &Grid<V>,
        node: &LeafNode<V>,
        width: i32,
    ) -> (r: Vec<V>)
        requires
            width > i32::MIN || !leaf_has_active(node@),
            leaf_fits(node@, margin(width as int)),
            leaf_writes_fit(grid@, node@, width as int, PassKind::Median),
        ensures
            r@ == filter_leaf(grid@, node@, width as int, PassKind::Median).buffer,
            r@.len() <= LEAF_SIZE,
    {
        let dim: i32 = LEAF_DIM;
        let origin = node.origin();
        let mask = node.value_mask();
        let mut filtered = copy_vec(node.buffer());
        let ghost leaf = node@;
        let ghost kind = PassKind::Median;
        let ghost target = filter_leaf(grid@, leaf, width as int, kind).buffer;
        let mut z: i32 = 0;
        while z < dim
            invariant
                dim == 8,
                width > i32::MIN || !leaf_has_active(node@),
                leaf == node@,
                kind == (PassKind::Median),
                target == filter_leaf(grid@, leaf, width as int, kind).buffer,
                leaf_fits(leaf, margin(width as int)),
                leaf_writes_fit(grid@, leaf, width as int, kind),
                origin == leaf.origin,
                mask@ == leaf.mask,
                mask@.len() == LEAF_SIZE,
                leaf.buffer.len() <= LEAF_SIZE,
                0 <= z <= 8,
                filtered@.len() == leaf.buffer.len(),
                forall|q: int|
                    0 <= q < leaf.buffer.len() ==> #[trigger] filtered@[q] == if q < z * 64 {
                        target[q]
                    } else {
                        leaf.buffer[q]
                    },
            decreases 8 - z,
        {
            let mut y: i32 = 0;
            while y < dim
                invariant
                    dim == 8,
                    width > i32::MIN || !leaf_has_active(node@),
                    leaf == node@,
                    kind == (PassKind::Median),
                    target == filter_leaf(grid@, leaf, width as int, kind).buffer,
                    leaf_fits(leaf, margin(width as int)),
                    leaf_writes_fit(grid@, leaf, width as int, kind),
                    origin == leaf.origin,
                    mask@ == leaf.mask,
                    mask@.len() == LEAF_SIZE,
                    leaf.buffer.len() <= LEAF_SIZE,
                    0 <= z < 8,
                    0 <= y <= 8,
                    filtered@.len() == leaf.buffer.len(),
                    forall|q: int|
                        0 <= q < leaf.buffer.len() ==> #[trigger] filtered@[q] == if q < z * 64 + y * 8 {
                            target[q]
                        } else {
                            leaf.buffer[q]
                        },
                decreases 8 - y,
            {
                let mut x: i32 = 0;
                while x < dim
                    invariant
                        dim == 8,
                        width > i32::MIN || !leaf_has_active(node@),
                        leaf == node@,
                        kind == (PassKind::Median),
                        target == filter_leaf(grid@, leaf, width as int, kind).buffer,
                        leaf_fits(leaf, margin(width as int)),
                        leaf_writes_fit(grid@, leaf, width as int, kind),
                        origin == leaf.origin,
                        mask@ == leaf.mask,
                        mask@.len() == LEAF_SIZE,
                        leaf.buffer.len() <= LEAF_SIZE,
                        0 <= z < 8,
                        0 <= y < 8,
                        0 <= x <= 8,
                        filtered@.len() == leaf.buffer.len(),
                        forall|q: int|
                            0 <= q < leaf.buffer.len() ==> #[trigger] filtered@[q] == if q < z * 64 + y
                                * 8 + x {
                                target[q]
                            } else {
                                leaf.buffer[q]
                            },
                    decreases 8 - x,
                {
                    proof {
                        lemma_local_index(x as int, y as int, z as int);
                    }
                    let idx: usize = (z * dim * dim + y * dim + x) as usize;
                    assert(idx == z * 64 + y * 8 + x);
                    if mask[idx] {
                        assert(leaf_fits(leaf, margin(width as int)));
                        assert(leaf.mask[idx as int]);
                        let world = Coord::new(origin.x + x, origin.y + y, origin.z + z);
                        assert(leaf_has_active(leaf));
                        let values = self.gather_cube(grid, world, width);
                        if values.len() > 0 {
                            filtered.set(idx, median_value(&values));
                        }
                    }
                    assert(idx < filtered@.len() ==> filtered@[idx as int] == target[idx as int]);
                    x += 1;
                }
                y += 1;
            }
            z += 1;
        }
        proof {
            assert(filtered@ =~= target);
        }
        filtered
    }

    /// The active value at `coord` of the first leaf, in tree order, that
    /// holds one there.
    fn sample_voxel(&self, grid: &Grid<V>, coord: Coord) -> (r: Option<V>)
        ensures
            r == grid_sample(grid@, coord.x as int, coord.y as int, coord.z as int),
    {
        let ghost x = coord.x as int;
        let ghost y = coord.y as int;
        let ghost z = coord.z as int;
        let ghost g = grid@;
        let roots = &grid.tree.root_nodes;
        let mut i: usize = 0;
        while i < roots.len()
            invariant
                g == grid@,
                x == coord.x as int,
                y == coord.y as int,
                z == coord.z as int,
                roots@ == grid.tree.root_nodes@,
                i <= roots@.len(),
                forall|k: int| 0 <= k < i ==> root_probe(x, y, z)(#[trigger] g[k]) is None,
            decreases roots@.len() - i,
        {
            let nodes = &roots[i].nodes;
            let ghost r = g[i as int];
            assert(r == roots@[i as int]@);
            let mut j: usize = 0;
            while j < nodes.len()
                invariant
                    g == grid@,
                    x == coord.x as int,
                    y == coord.y as int,
                    z == coord.z as int,
                    roots@ == grid.tree.root_nodes@,
                    i < roots@.len(),
                    r == g[i as int],
                    r == roots@[i as int]@,
                    nodes@ == roots@[i as int].nodes@,
                    j <= nodes@.len(),
                    forall|k: int| 0 <= k < i ==> root_probe(x, y, z)(#[trigger] g[k]) is None,
                    forall|m: int| 0 <= m < j ==> node_probe(x, y, z)(#[trigger] r[m]) is None,
                decreases nodes@.len() - j,
            {
                let leaves = &nodes[j].nodes;
                let ghost n = r[j as int];
                assert(n == nodes@[j as int]@);
                let mut k: usize = 0;
                while k < leaves.len()
                    invariant
                        g == grid@,
                        x == coord.x as int,
                        y == coord.y as int,
                        z == coord.z as int,
                        roots@ == grid.tree.root_nodes@,
                        i < roots@.len(),
                        r == g[i as int],
                        nodes@ == roots@[i as int].nodes@,
                        j < nodes@.len(),
                        n == r[j as int],
                        n == nodes@[j as int]@,
                        leaves@ == nodes@[j as int].nodes@,
                        k <= leaves@.len(),
                        forall|q: int| 0 <= q < i ==> root_probe(x, y, z)(#[trigger] g[q]) is None,
                        forall|m: int| 0 <= m < j ==> node_probe(x, y, z)(#[trigger] r[m]) is None,
                        forall|p: int| 0 <= p < k ==> leaf_probe(x, y, z)(#[trigger] n[p]) is None,
                    decreases leaves@.len() - k,
                {
                    let found = leaves[k].sample(coord);
                    assert(n[k as int] == leaves@[k as int]@);
                    if found.is_some() {
                        proof {
                            assert(leaf_sample(n[k as int], x, y, z) == found);
                            assert(leaf_probe::<V>(x, y, z)(n[k as int]) == found);
                            lemma_first_sample_at(n, leaf_probe(x, y, z), k as int);
                            assert(node_probe::<V>(x, y, z)(r[j as int]) == found);
                            lemma_first_sample_at(r, node_probe(x, y, z), j as int);
                            assert(root_probe::<V>(x, y, z)(g[i as int]) == found);
                            lemma_first_sample_at(g, root_probe(x, y, z), i as int);
                        }
                        return found;
                    }
                    k += 1;
                }
                proof {
                    lemma_first_sample_none(n, leaf_probe(x, y, z));
                }
                j += 1;
            }
            proof {
                lemma_first_sample_none(r, node_probe(x, y, z));
            }
            i += 1;
        }
        proof {
            lemma_first_sample_none(g, root_probe(x, y, z));
        }
        None
    }
}

} // verus!
