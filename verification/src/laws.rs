//! What holds of the filters on every grid.
use vstd::prelude::*;
use crate::filter::{
    filter_leaf, filter_node, filter_pass, filter_root, filtered_value, lemma_pass_layout,
    mean_iterations, median_iterations, neighbourhood, offset_grid, offset_leaf, same_layout,
    voxel_position, GridView, PassKind,
};
use crate::filterable::Filterable;
use crate::grid::LeafView;
use crate::locality::lemma_sample_after_pass;
use crate::median::{insert_sorted, lemma_median_is_a_sample, median_sample, sorted_samples};
use crate::neighbourhood::{
    axis_samples, cube_samples, offset_count, plane_samples, push_sample, row_samples,
};
use crate::sample::{
    first_sample, grid_sample, leaf_probe, leaf_sample, lemma_first_sample_found, node_probe,
    root_probe,
};

verus! {

/// Whether voxel `q` of a leaf is inactive.
pub open spec fn inactive<V>(leaf: LeafView<V>, q: int) -> bool {
    !(q < leaf.mask.len() && leaf.mask[q])
}

/// `b` has the layout of `a`, buffers of the same lengths, and the value of
/// every inactive voxel of `a`.
pub open spec fn keeps_inactive<V>(a: GridView<V>, b: GridView<V>) -> bool {
    &&& same_layout(a, b)
    &&& forall|i: int, j: int, k: int|
        0 <= i < a.len() && 0 <= j < a[i].len() && 0 <= k < a[i][j].len() ==> (
        #[trigger] a[i][j][k]).buffer.len() == b[i][j][k].buffer.len()
    &&& forall|i: int, j: int, k: int, q: int|
        0 <= i < a.len() && 0 <= j < a[i].len() && 0 <= k < a[i][j].len() && 0 <= q
            < a[i][j][k].buffer.len() && inactive(a[i][j][k], q) ==> (#[trigger] a[i][j][k].buffer[q])
            == b[i][j][k].buffer[q]
}

proof fn lemma_keeps_inactive_trans<V>(a: GridView<V>, b: GridView<V>, c: GridView<V>)
    requires
        keeps_inactive(a, b),
        keeps_inactive(b, c),
    ensures
        keeps_inactive(a, c),
{
    assert forall|i: int, j: int, k: int, q: int|
        0 <= i < a.len() && 0 <= j < a[i].len() && 0 <= k < a[i][j].len() && 0 <= q
            < a[i][j][k].buffer.len() && inactive(a[i][j][k], q) implies (
    #[trigger] a[i][j][k].buffer[q]) == c[i][j][k].buffer[q] by {
        assert(b[i][j][k].mask == a[i][j][k].mask);
        assert(b[i][j][k].buffer.len() == a[i][j][k].buffer.len());
        assert(a[i][j][k].buffer[q] == b[i][j][k].buffer[q]);
        assert(b[i][j][k].buffer[q] == c[i][j][k].buffer[q]);
    }
    assert forall|i: int, j: int, k: int|
        0 <= i < a.len() && 0 <= j < a[i].len() && 0 <= k < a[i][j].len() implies {
            &&& (#[trigger] a[i][j][k]).origin == c[i][j][k].origin
            &&& a[i][j][k].mask == c[i][j][k].mask
        } by {
        assert(b[i][j][k].origin == a[i][j][k].origin);
    }
    assert forall|i: int, j: int, k: int|
        0 <= i < a.len() && 0 <= j < a[i].len() && 0 <= k < a[i][j].len() implies (
        #[trigger] a[i][j][k]).buffer.len() == c[i][j][k].buffer.len() by {
        assert(b[i][j][k].buffer.len() == a[i][j][k].buffer.len());
    }
    assert forall|i: int| 0 <= i < a.len() implies (#[trigger] a[i]).len() == c[i].len() by {
        assert(b[i].len() == a[i].len());
    }
    assert forall|i: int, j: int| 0 <= i < a.len() && 0 <= j < a[i].len() implies (
    #[trigger] a[i][j]).len() == c[i][j].len() by {
        assert(b[i].len() == a[i].len());
        assert(b[i][j].len() == a[i][j].len());
    }
}

proof fn lemma_keeps_inactive_refl<V>(a: GridView<V>)
    ensures
        keeps_inactive(a, a),
{
}

proof fn lemma_pass_keeps_inactive<V: Filterable>(g: GridView<V>, width: int, kind: PassKind)
    ensures
        keeps_inactive(g, filter_pass(g, width, kind)),
{
    let p = filter_pass(g, width, kind);
    lemma_pass_layout(g, width, kind);
    assert forall|i: int, j: int, k: int|
        0 <= i < g.len() && 0 <= j < g[i].len() && 0 <= k < g[i][j].len() implies (
        #[trigger] g[i][j][k]).buffer.len() == p[i][j][k].buffer.len() by {
        assert(p[i] == filter_root(g, g[i], width, kind));
        assert(p[i][j] == filter_node(g, g[i][j], width, kind));
        assert(p[i][j][k] == filter_leaf(g, g[i][j][k], width, kind));
    }
    assert forall|i: int, j: int, k: int, q: int|
        0 <= i < g.len() && 0 <= j < g[i].len() && 0 <= k < g[i][j].len() && 0 <= q
            < g[i][j][k].buffer.len() && inactive(g[i][j][k], q) implies (
    #[trigger] g[i][j][k].buffer[q]) == p[i][j][k].buffer[q] by {
        assert(p[i] == filter_root(g, g[i], width, kind));
        assert(p[i][j] == filter_node(g, g[i][j], width, kind));
        assert(p[i][j][k] == filter_leaf(g, g[i][j][k], width, kind));
        assert(p[i][j][k].buffer[q] == filtered_value(g, g[i][j][k], q, width, kind));
    }
}

/// The mean filter, whatever its width and number of iterations, keeps the
/// layout of the grid and the value of every inactive voxel.
pub proof fn law_mean_keeps_inactive<V: Filterable>(g: GridView<V>, width: int, n: nat)
    ensures
        keeps_inactive(g, mean_iterations(g, width, n)),
    decreases n,
{
    if n == 0 {
        lemma_keeps_inactive_refl(g);
    } else {
        law_mean_keeps_inactive(g, width, (n - 1) as nat);
        let p = mean_iterations(g, width, (n - 1) as nat);
        let p0 = filter_pass(p, width, PassKind::Mean { axis: 0 });
        let p2 = filter_pass(p0, width, PassKind::Mean { axis: 2 });
        lemma_pass_keeps_inactive(p, width, PassKind::Mean { axis: 0 });
        lemma_pass_keeps_inactive(p0, width, PassKind::Mean { axis: 2 });
        lemma_pass_keeps_inactive(p2, width, PassKind::Mean { axis: 1 });
        lemma_keeps_inactive_trans(g, p, p0);
        lemma_keeps_inactive_trans(g, p0, p2);
        lemma_keeps_inactive_trans(g, p2, filter_pass(p2, width, PassKind::Mean { axis: 1 }));
    }
}

/// The median filter, whatever its width and number of iterations, keeps
/// the layout of the grid and the value of every inactive voxel.
pub proof fn law_median_keeps_inactive<V: Filterable>(g: GridView<V>, width: int, n: nat)
    ensures
        keeps_inactive(g, median_iterations(g, width, n)),
    decreases n,
{
    if n == 0 {
        lemma_keeps_inactive_refl(g);
    } else {
        law_median_keeps_inactive(g, width, (n - 1) as nat);
        let p = median_iterations(g, width, (n - 1) as nat);
        lemma_pass_keeps_inactive(p, width, PassKind::Median);
        lemma_keeps_inactive_trans(g, p, filter_pass(p, width, PassKind::Median));
    }
}

/// Adding an offset keeps the layout of the grid and the value of every
/// inactive voxel, and adds the offset to every active one.
pub proof fn law_offset_touches_active_only<V: Filterable>(g: GridView<V>, offset: V)
    ensures
        keeps_inactive(g, offset_grid(g, offset)),
        forall|i: int, j: int, k: int, q: int|
            0 <= i < g.len() && 0 <= j < g[i].len() && 0 <= k < g[i][j].len() && 0 <= q
                < g[i][j][k].buffer.len() && !inactive(g[i][j][k], q) ==> #[trigger] offset_grid(
                g,
                offset,
            )[i][j][k].buffer[q] == g[i][j][k].buffer[q].spec_add_value(offset),
{
    let p = offset_grid(g, offset);
    assert forall|i: int, j: int, k: int|
        0 <= i < g.len() && 0 <= j < g[i].len() && 0 <= k < g[i][j].len() implies p[i][j][k]
        == offset_leaf(#[trigger] g[i][j][k], offset) by {
    }
    assert forall|i: int| 0 <= i < g.len() implies (#[trigger] g[i]).len() == p[i].len() by {}
    assert forall|i: int, j: int| 0 <= i < g.len() && 0 <= j < g[i].len() implies (
    #[trigger] g[i][j]).len() == p[i][j].len() by {}
}

/// A filter whose width is negative reads no samples: it returns the grid
/// unchanged.
pub proof fn law_negative_width_is_identity<V: Filterable>(g: GridView<V>, width: int, n: nat)
    requires
        width < 0,
    ensures
        mean_iterations(g, width, n) == g,
        median_iterations(g, width, n) == g,
    decreases n,
{
    if n > 0 {
        law_negative_width_is_identity(g, width, (n - 1) as nat);
        lemma_negative_width_pass(g, width, PassKind::Mean { axis: 0 });
        lemma_negative_width_pass(g, width, PassKind::Mean { axis: 2 });
        lemma_negative_width_pass(g, width, PassKind::Mean { axis: 1 });
        lemma_negative_width_pass(g, width, PassKind::Median);
    }
}

proof fn lemma_negative_width_pass<V: Filterable>(g: GridView<V>, width: int, kind: PassKind)
    requires
        width < 0,
    ensures
        filter_pass(g, width, kind) == g,
{
    let p = filter_pass(g, width, kind);
    assert forall|i: int, j: int, k: int|
        0 <= i < g.len() && 0 <= j < g[i].len() && 0 <= k < g[i][j].len() implies p[i][j][k]
        == #[trigger] g[i][j][k] by {
        let l = g[i][j][k];
        assert(p[i] == filter_root(g, g[i], width, kind));
        assert(p[i][j] == filter_node(g, g[i][j], width, kind));
        assert(p[i][j][k] == filter_leaf(g, l, width, kind));
        assert(filter_leaf(g, l, width, kind).buffer =~= l.buffer);
    }
    assert forall|i: int, j: int| 0 <= i < g.len() && 0 <= j < g[i].len() implies p[i][j]
        == #[trigger] g[i][j] by {
        assert(p[i] == filter_root(g, g[i], width, kind));
        assert(p[i][j] =~= g[i][j]);
    }
    assert forall|i: int| 0 <= i < g.len() implies p[i] == #[trigger] g[i] by {
        assert(p[i] =~= g[i]);
    }
    assert(p =~= g);
}

/// Running the mean filter for `a + b` iterations is running it for `a`
/// iterations, then for `b` more on the result.
pub proof fn law_mean_iterations_compose<V: Filterable>(g: GridView<V>, width: int, a: nat, b: nat)
    ensures
        mean_iterations(g, width, a + b) == mean_iterations(mean_iterations(g, width, a), width, b),
    decreases b,
{
    if b > 0 {
        law_mean_iterations_compose(g, width, a, (b - 1) as nat);
        assert((a + b - 1) as nat == a + (b - 1) as nat);
    }
}

/// Running the median filter for `a + b` iterations is running it for `a`
/// iterations, then for `b` more on the result.
pub proof fn law_median_iterations_compose<V: Filterable>(
    g: GridView<V>,
    width: int,
    a: nat,
    b: nat,
)
    ensures
        median_iterations(g, width, a + b) == median_iterations(
            median_iterations(g, width, a),
            width,
            b,
        ),
    decreases b,
{
    if b > 0 {
        law_median_iterations_compose(g, width, a, (b - 1) as nat);
        assert((a + b - 1) as nat == a + (b - 1) as nat);
    }
}

proof fn lemma_axis_count<V>(
    g: GridView<V>,
    x: int,
    y: int,
    z: int,
    axis: int,
    width: int,
    n: nat,
)
    ensures
        axis_samples(g, x, y, z, axis, width, n).len() <= n,
    decreases n,
{
    if n > 0 {
        lemma_axis_count(g, x, y, z, axis, width, (n - 1) as nat);
    }
}

proof fn lemma_row_count<V>(
    g: GridView<V>,
    x: int,
    y: int,
    z: int,
    width: int,
    dy: int,
    dz: int,
    n: nat,
)
    ensures
        row_samples(g, x, y, z, width, dy, dz, n).len() <= n,
    decreases n,
{
    if n > 0 {
        lemma_row_count(g, x, y, z, width, dy, dz, (n - 1) as nat);
    }
}

proof fn lemma_plane_count<V>(g: GridView<V>, x: int, y: int, z: int, width: int, dz: int, n: nat)
    ensures
        plane_samples(g, x, y, z, width, dz, n).len() <= n * (offset_count(width) as nat),
    decreases n,
{
    if n > 0 {
        let c = offset_count(width) as nat;
        lemma_plane_count(g, x, y, z, width, dz, (n - 1) as nat);
        lemma_row_count(g, x, y, z, width, -width + n - 1, dz, c);
        assert((n - 1) as nat * c + c == n * c) by (nonlinear_arith)
            requires
                n > 0,
        ;
    }
}

proof fn lemma_cube_count<V>(g: GridView<V>, x: int, y: int, z: int, width: int, n: nat)
    ensures
        cube_samples(g, x, y, z, width, n).len() <= n * (offset_count(width) as nat) * (offset_count(
            width,
        ) as nat),
    decreases n,
{
    if n > 0 {
        let c = offset_count(width) as nat;
        lemma_cube_count(g, x, y, z, width, (n - 1) as nat);
        lemma_plane_count(g, x, y, z, width, -width + n - 1, c);
        assert((n - 1) as nat * c * c + c * c == n * c * c) by (nonlinear_arith)
            requires
                n > 0,
        ;
    }
}

/// The box filter reads at most `2 * width + 1` samples around a voxel, the
/// median filter at most `(2 * width + 1)` cubed.
pub proof fn law_window_size<V>(g: GridView<V>, x: int, y: int, z: int, axis: int, width: int)
    ensures
        axis_samples(g, x, y, z, axis, width, offset_count(width) as nat).len() <= offset_count(
            width,
        ),
        cube_samples(g, x, y, z, width, offset_count(width) as nat).len() <= offset_count(width)
            * offset_count(width) * offset_count(width),
{
    lemma_axis_count(g, x, y, z, axis, width, offset_count(width) as nat);
    lemma_cube_count(g, x, y, z, width, offset_count(width) as nat);
}

/// A value read from the grid at a position is the active value of some
/// leaf at that position.
pub proof fn law_sample_comes_from_a_leaf<V>(g: GridView<V>, x: int, y: int, z: int)
    requires
        grid_sample(g, x, y, z) is Some,
    ensures
        exists|i: int, j: int, k: int|
            0 <= i < g.len() && 0 <= j < g[i].len() && 0 <= k < g[i][j].len() && leaf_sample(
                #[trigger] g[i][j][k],
                x,
                y,
                z,
            ) == grid_sample(g, x, y, z),
{
    let v = grid_sample(g, x, y, z);
    lemma_first_sample_found(g, root_probe(x, y, z));
    let i = choose|i: int| 0 <= i < g.len() && root_probe(x, y, z)(g[i]) == v;
    assert(first_sample(g[i], node_probe(x, y, z)) == v);
    lemma_first_sample_found(g[i], node_probe(x, y, z));
    let j = choose|j: int| 0 <= j < g[i].len() && node_probe(x, y, z)(g[i][j]) == v;
    assert(first_sample(g[i][j], leaf_probe(x, y, z)) == v);
    lemma_first_sample_found(g[i][j], leaf_probe(x, y, z));
    let k = choose|k: int| 0 <= k < g[i][j].len() && leaf_probe(x, y, z)(g[i][j][k]) == v;
    assert(leaf_sample(g[i][j][k], x, y, z) == v);
}

/// Whether reading `g` somewhere within `r` of `(x, y, z)` along every axis
/// gives `v`.
pub open spec fn read_within<V>(g: GridView<V>, v: V, x: int, y: int, z: int, r: int) -> bool {
    exists|qx: int, qy: int, qz: int|
        x - r <= qx <= x + r && y - r <= qy <= y + r && z - r <= qz <= z + r && #[trigger] grid_sample(
            g,
            qx,
            qy,
            qz,
        ) == Some(v)
}

proof fn lemma_row_from_grid<V>(
    g: GridView<V>,
    x: int,
    y: int,
    z: int,
    width: int,
    dy: int,
    dz: int,
    n: nat,
)
    requires
        n <= offset_count(width),
        -width <= dy <= width,
        -width <= dz <= width,
    ensures
        forall|k: int|
            0 <= k < row_samples(g, x, y, z, width, dy, dz, n).len() ==> read_within(
                g,
                #[trigger] row_samples(g, x, y, z, width, dy, dz, n)[k],
                x,
                y,
                z,
                width,
            ),
    decreases n,
{
    if n > 0 {
        lemma_row_from_grid(g, x, y, z, width, dy, dz, (n - 1) as nat);
        let prev = row_samples(g, x, y, z, width, dy, dz, (n - 1) as nat);
        let cur = row_samples(g, x, y, z, width, dy, dz, n);
        let px = x + (-width + n - 1);
        assert forall|k: int| 0 <= k < cur.len() implies read_within(
            g,
            #[trigger] cur[k],
            x,
            y,
            z,
            width,
        ) by {
            if k < prev.len() {
                assert(cur[k] == prev[k]);
            } else {
                assert(grid_sample(g, px, y + dy, z + dz) == Some(cur[k]));
            }
        }
    }
}

proof fn lemma_plane_from_grid<V>(
    g: GridView<V>,
    x: int,
    y: int,
    z: int,
    width: int,
    dz: int,
    n: nat,
)
    requires
        n <= offset_count(width),
        -width <= dz <= width,
    ensures
        forall|k: int|
            0 <= k < plane_samples(g, x, y, z, width, dz, n).len() ==> read_within(
                g,
                #[trigger] plane_samples(g, x, y, z, width, dz, n)[k],
                x,
                y,
                z,
                width,
            ),
    decreases n,
{
    if n > 0 {
        lemma_plane_from_grid(g, x, y, z, width, dz, (n - 1) as nat);
        let dy = -width + n - 1;
        lemma_row_from_grid(g, x, y, z, width, dy, dz, offset_count(width) as nat);
        let prev = plane_samples(g, x, y, z, width, dz, (n - 1) as nat);
        let row = row_samples(g, x, y, z, width, dy, dz, offset_count(width) as nat);
        let cur = plane_samples(g, x, y, z, width, dz, n);
        assert forall|k: int| 0 <= k < cur.len() implies read_within(
            g,
            #[trigger] cur[k],
            x,
            y,
            z,
            width,
        ) by {
            if k < prev.len() {
                assert(cur[k] == prev[k]);
            } else {
                assert(cur[k] == row[k - prev.len()]);
            }
        }
    }
}

proof fn lemma_cube_from_grid<V>(g: GridView<V>, x: int, y: int, z: int, width: int, n: nat)
    requires
        n <= offset_count(width),
    ensures
        forall|k: int|
            0 <= k < cube_samples(g, x, y, z, width, n).len() ==> read_within(
                g,
                #[trigger] cube_samples(g, x, y, z, width, n)[k],
                x,
                y,
                z,
                width,
            ),
    decreases n,
{
    if n > 0 {
        lemma_cube_from_grid(g, x, y, z, width, (n - 1) as nat);
        let dz = -width + n - 1;
        lemma_plane_from_grid(g, x, y, z, width, dz, offset_count(width) as nat);
        let prev = cube_samples(g, x, y, z, width, (n - 1) as nat);
        let plane = plane_samples(g, x, y, z, width, dz, offset_count(width) as nat);
        let cur = cube_samples(g, x, y, z, width, n);
        assert forall|k: int| 0 <= k < cur.len() implies read_within(
            g,
            #[trigger] cur[k],
            x,
            y,
            z,
            width,
        ) by {
            if k < prev.len() {
                assert(cur[k] == prev[k]);
            } else {
                assert(cur[k] == plane[k - prev.len()]);
            }
        }
    }
}

/// After a median pass, every value read at a position is a value that the
/// grid held within `width` of it: the median never invents a value.
pub proof fn law_median_pass_picks_a_neighbour<V: Filterable>(
    g: GridView<V>,
    width: int,
    x: int,
    y: int,
    z: int,
)
    requires
        width >= 0,
        grid_sample(filter_pass(g, width, PassKind::Median), x, y, z) is Some,
    ensures
        read_within(
            g,
            grid_sample(filter_pass(g, width, PassKind::Median), x, y, z)->0,
            x,
            y,
            z,
            width,
        ),
{
    let u = grid_sample(filter_pass(g, width, PassKind::Median), x, y, z)->0;
    lemma_sample_after_pass(g, width, PassKind::Median, x, y, z);
    let v = grid_sample(g, x, y, z)->0;
    let s = neighbourhood(g, x, y, z, width, PassKind::Median);
    if s.len() > 0 {
        lemma_median_is_a_sample(s);
        let k = choose|k: int| 0 <= k < s.len() && s[k] == median_sample(s);
        lemma_cube_from_grid(g, x, y, z, width, offset_count(width) as nat);
        assert(read_within(g, s[k], x, y, z, width));
    } else {
        assert(grid_sample(g, x, y, z) == Some(u));
    }
}

/// After `n` median iterations, every value read at a position is a value
/// that the grid held within `n * width` of it; so the smallest and largest
/// values never spread.
pub proof fn law_median_picks_a_neighbour<V: Filterable>(
    g: GridView<V>,
    width: int,
    n: nat,
    x: int,
    y: int,
    z: int,
)
    requires
        width >= 0,
        grid_sample(median_iterations(g, width, n), x, y, z) is Some,
    ensures
        read_within(g, grid_sample(median_iterations(g, width, n), x, y, z)->0, x, y, z, n * width),
    decreases n,
{
    let u = grid_sample(median_iterations(g, width, n), x, y, z)->0;
    if n == 0 {
        assert(grid_sample(g, x, y, z) == Some(u));
    } else {
        let prev = median_iterations(g, width, (n - 1) as nat);
        law_median_pass_picks_a_neighbour(prev, width, x, y, z);
        let (qx, qy, qz) = choose|qx: int, qy: int, qz: int|
            x - width <= qx <= x + width && y - width <= qy <= y + width && z - width <= qz <= z
                + width && #[trigger] grid_sample(prev, qx, qy, qz) == Some(u);
        law_median_picks_a_neighbour(g, width, (n - 1) as nat, qx, qy, qz);
        let (sx, sy, sz) = choose|sx: int, sy: int, sz: int|
            qx - (n - 1) as nat * width <= sx <= qx + (n - 1) as nat * width && qy - (n - 1) as nat
                * width <= sy <= qy + (n - 1) as nat * width && qz - (n - 1) as nat * width <= sz
                <= qz + (n - 1) as nat * width && #[trigger] grid_sample(g, sx, sy, sz) == Some(u);
        assert((n - 1) as nat * width + width == n * width) by (nonlinear_arith)
            requires
                n > 0,
        ;
        assert(grid_sample(g, sx, sy, sz) == Some(u));
    }
}

/// Whether every active voxel of the grid holds `c`.
pub open spec fn constant_field<V>(g: GridView<V>, c: V) -> bool {
    forall|i: int, j: int, k: int, q: int|
        0 <= i < g.len() && 0 <= j < g[i].len() && 0 <= k < g[i][j].len() && 0 <= q
            < g[i][j][k].buffer.len() && q < g[i][j][k].mask.len() && g[i][j][k].mask[q] ==> (
        #[trigger] g[i][j][k].buffer[q]) == c
}

proof fn lemma_constant_reads<V>(g: GridView<V>, c: V, x: int, y: int, z: int)
    requires
        constant_field(g, c),
        grid_sample(g, x, y, z) is Some,
    ensures
        grid_sample(g, x, y, z) == Some(c),
{
    law_sample_comes_from_a_leaf(g, x, y, z);
    let (i, j, k) = choose|i: int, j: int, k: int|
        0 <= i < g.len() && 0 <= j < g[i].len() && 0 <= k < g[i][j].len() && leaf_sample(
            #[trigger] g[i][j][k],
            x,
            y,
            z,
        ) == grid_sample(g, x, y, z);
    let l = g[i][j][k];
    let idx = (z - l.origin.z) * 64 + (y - l.origin.y) * 8 + (x - l.origin.x);
    assert(g[i][j][k].buffer[idx] == c);
}

/// A grid whose active voxels all hold the same value is left unchanged by
/// the median filter, whatever its width and number of iterations.
pub proof fn law_median_constant_field<V: Filterable>(g: GridView<V>, c: V, width: int, n: nat)
    requires
        constant_field(g, c),
    ensures
        median_iterations(g, width, n) == g,
    decreases n,
{
    if n > 0 {
        law_median_constant_field(g, c, width, (n - 1) as nat);
        let p = filter_pass(g, width, PassKind::Median);
        assert forall|i: int, j: int, k: int|
            0 <= i < g.len() && 0 <= j < g[i].len() && 0 <= k < g[i][j].len() implies p[i][j][k]
            == #[trigger] g[i][j][k] by {
            let l = g[i][j][k];
            assert(p[i] == filter_root(g, g[i], width, PassKind::Median));
            assert(p[i][j] == filter_node(g, g[i][j], width, PassKind::Median));
            assert(p[i][j][k] == filter_leaf(g, l, width, PassKind::Median));
            assert forall|q: int| 0 <= q < l.buffer.len() implies #[trigger] filtered_value(
                g,
                l,
                q,
                width,
                PassKind::Median,
            ) == l.buffer[q] by {
                let pos = voxel_position(l, q);
                let s = neighbourhood(g, pos.0, pos.1, pos.2, width, PassKind::Median);
                if q < l.mask.len() && l.mask[q] && s.len() > 0 {
                    assert(l.buffer[q] == c);
                    lemma_median_is_a_sample(s);
                    let m = choose|m: int| 0 <= m < s.len() && s[m] == median_sample(s);
                    if width >= 0 {
                        lemma_cube_from_grid(g, pos.0, pos.1, pos.2, width, offset_count(width) as nat);
                    }
                    assert(read_within(g, s[m], pos.0, pos.1, pos.2, width));
                    let (qx, qy, qz) = choose|qx: int, qy: int, qz: int|
                        pos.0 - width <= qx <= pos.0 + width && pos.1 - width <= qy <= pos.1 + width
                            && pos.2 - width <= qz <= pos.2 + width && #[trigger] grid_sample(
                            g,
                            qx,
                            qy,
                            qz,
                        ) == Some(s[m]);
                    lemma_constant_reads(g, c, qx, qy, qz);
                }
            }
            assert(filter_leaf(g, l, width, PassKind::Median).buffer =~= l.buffer);
        }
        assert forall|i: int, j: int| 0 <= i < g.len() && 0 <= j < g[i].len() implies p[i][j]
            == #[trigger] g[i][j] by {
            assert(p[i] == filter_root(g, g[i], width, PassKind::Median));
            assert(p[i][j] =~= g[i][j]);
        }
        assert forall|i: int| 0 <= i < g.len() implies p[i] == #[trigger] g[i] by {
            assert(p[i] =~= g[i]);
        }
        assert(p =~= g);
    }
}

/// A median pass of width 0 reads each voxel alone and gives it back: the
/// grid reads the same everywhere afterwards, for any number of iterations.
pub proof fn law_median_width_zero<V: Filterable>(g: GridView<V>, n: nat, x: int, y: int, z: int)
    ensures
        grid_sample(median_iterations(g, 0, n), x, y, z) == grid_sample(g, x, y, z),
    decreases n,
{
    if n > 0 {
        let prev = median_iterations(g, 0, (n - 1) as nat);
        law_median_width_zero(g, (n - 1) as nat, x, y, z);
        lemma_sample_after_pass(prev, 0, PassKind::Median, x, y, z);
        let s = neighbourhood(prev, x, y, z, 0, PassKind::Median);
        assert(cube_samples(prev, x, y, z, 0, 0) =~= Seq::<V>::empty());
        assert(plane_samples(prev, x, y, z, 0, 0, 0) =~= Seq::<V>::empty());
        assert(row_samples(prev, x, y, z, 0, 0, 0, 0) =~= Seq::<V>::empty());
        assert(row_samples(prev, x, y, z, 0, 0, 0, 1) == push_sample(Seq::<V>::empty(), prev, x, y, z));
        if let Some(v) = grid_sample(prev, x, y, z) {
            assert(s =~= seq![v]);
            assert(s.drop_last() =~= Seq::<V>::empty());
            assert(sorted_samples(Seq::<V>::empty()) == Seq::<V>::empty());
            assert(s.last() == v);
            assert(sorted_samples(s) == insert_sorted(Seq::<V>::empty(), v));
            assert(insert_sorted(Seq::<V>::empty(), v) == seq![v]);
            assert(median_sample(s) == v);
        }
    }
}

} // verus!
