//! What a pass puts at each position, read back through the grid, and the
//! laws that follow: a voxel depends only on the voxels within the filter's
//! reach, and moving the grid moves the result.
use vstd::prelude::*;
use crate::filter::{
    filter_leaf, filter_node, filter_pass, filter_root, lemma_local_index, mean_iterations,
    filtered_value, grid_writes_fit, leaf_writes_fit, lemma_pass_layout, median_iterations, neighbourhood, same_layout,
    voxel_position, GridView, PassKind,
};
use crate::coord::Coord;
use crate::filterable::Filterable;
use crate::grid::{LeafView, LEAF_SIZE};
use crate::median::median_sample;
use crate::neighbourhood::{axis_samples, cube_samples, offset_count, plane_samples, row_samples, shifted};
use crate::sample::{first_sample, grid_sample, leaf_probe, leaf_sample, node_probe, root_probe};

verus! {

/// What a pass gives a voxel at `(x, y, z)` that held `v`: the mean (or
/// median) of its samples, or `v` when it has none.
pub open spec fn point_filter<V: Filterable>(
    g: GridView<V>,
    x: int,
    y: int,
    z: int,
    width: int,
    kind: PassKind,
    v: V,
) -> V {
    let s = neighbourhood(g, x, y, z, width, kind);
    if s.len() > 0 {
        match kind {
            PassKind::Mean { .. } => V::spec_mean_value(s, 2 * width + 1),
            PassKind::Median => median_sample(s),
        }
    } else {
        v
    }
}

/// `o` with `h` applied to the value it holds.
pub open spec fn map_option<V>(o: Option<V>, h: spec_fn(V) -> V) -> Option<V> {
    match o {
        Some(v) => Some(h(v)),
        None => None,
    }
}

/// When each answer over `s2` is the matching answer over `s1` with `h`
/// applied, so is the first answer.
pub proof fn lemma_first_sample_map<A, B, V>(
    s1: Seq<A>,
    s2: Seq<B>,
    f1: spec_fn(A) -> Option<V>,
    f2: spec_fn(B) -> Option<V>,
    h: spec_fn(V) -> V,
)
    requires
        s1.len() == s2.len(),
        forall|k: int| 0 <= k < s1.len() ==> f2(#[trigger] s2[k]) == map_option(f1(s1[k]), h),
    ensures
        first_sample(s2, f2) == map_option(first_sample(s1, f1), h),
    decreases s1.len(),
{
    if s1.len() > 0 {
        let t1 = s1.drop_first();
        let t2 = s2.drop_first();
        assert forall|k: int| 0 <= k < t1.len() implies f2(#[trigger] t2[k]) == map_option(
            f1(t1[k]),
            h,
        ) by {
            assert(t2[k] == s2[k + 1]);
            assert(t1[k] == s1[k + 1]);
        }
        lemma_first_sample_map(t1, t2, f1, f2, h);
        assert(f2(s2[0]) == map_option(f1(s1[0]), h));
    }
}

/// Reading a leaf after a pass gives what the pass made of the value read
/// before it.
pub proof fn lemma_leaf_after_pass<V: Filterable>(
    g: GridView<V>,
    l: LeafView<V>,
    width: int,
    kind: PassKind,
    x: int,
    y: int,
    z: int,
)
    ensures
        leaf_sample(filter_leaf(g, l, width, kind), x, y, z) == map_option(
            leaf_sample(l, x, y, z),
            |v: V| point_filter(g, x, y, z, width, kind, v),
        ),
{
    let lx = x - l.origin.x;
    let ly = y - l.origin.y;
    let lz = z - l.origin.z;
    if 0 <= lx < 8 && 0 <= ly < 8 && 0 <= lz < 8 {
        lemma_local_index(lx, ly, lz);
        let idx = lz * 64 + ly * 8 + lx;
        assert(voxel_position(l, idx) == (x, y, z));
    }
}

/// Reading the grid after a pass gives what the pass made of the value
/// read before it, at every position.
pub proof fn lemma_sample_after_pass<V: Filterable>(
    g: GridView<V>,
    width: int,
    kind: PassKind,
    x: int,
    y: int,
    z: int,
)
    ensures
        grid_sample(filter_pass(g, width, kind), x, y, z) == map_option(
            grid_sample(g, x, y, z),
            |v: V| point_filter(g, x, y, z, width, kind, v),
        ),
{
    let h = |v: V| point_filter(g, x, y, z, width, kind, v);
    let p = filter_pass(g, width, kind);
    assert forall|i: int| 0 <= i < g.len() implies root_probe(x, y, z)(#[trigger] p[i])
        == map_option(root_probe(x, y, z)(g[i]), h) by {
        let r = g[i];
        let pr = filter_root(g, r, width, kind);
        assert(p[i] == pr);
        assert forall|j: int| 0 <= j < r.len() implies node_probe(x, y, z)(#[trigger] pr[j])
            == map_option(node_probe(x, y, z)(r[j]), h) by {
            let n = r[j];
            let pn = filter_node(g, n, width, kind);
            assert(pr[j] == pn);
            assert forall|k: int| 0 <= k < n.len() implies leaf_probe(x, y, z)(#[trigger] pn[k])
                == map_option(leaf_probe(x, y, z)(n[k]), h) by {
                assert(pn[k] == filter_leaf(g, n[k], width, kind));
                lemma_leaf_after_pass(g, n[k], width, kind, x, y, z);
            }
            lemma_first_sample_map(n, pn, leaf_probe(x, y, z), leaf_probe(x, y, z), h);
        }
        lemma_first_sample_map(r, pr, node_probe(x, y, z), node_probe(x, y, z), h);
    }
    lemma_first_sample_map(g, p, root_probe(x, y, z), root_probe(x, y, z), h);
}

/// Within `(ex, ey, ez)` of `(x, y, z)`, reading `g1` at a position gives
/// what reading `g2` gives at that position moved by `(tx, ty, tz)`.
pub open spec fn window_agrees<V>(
    g1: GridView<V>,
    g2: GridView<V>,
    x: int,
    y: int,
    z: int,
    ex: int,
    ey: int,
    ez: int,
    tx: int,
    ty: int,
    tz: int,
) -> bool {
    forall|qx: int, qy: int, qz: int|
        x - ex <= qx <= x + ex && y - ey <= qy <= y + ey && z - ez <= qz <= z + ez ==> grid_sample(
            g2,
            qx + tx,
            qy + ty,
            qz + tz,
        ) == #[trigger] grid_sample(g1, qx, qy, qz)
}

/// How far a pass reads from a voxel along x, y and z.
pub open spec fn reach(width: int, kind: PassKind) -> (int, int, int) {
    match kind {
        PassKind::Mean { axis } => if axis == 0 {
            (width, 0, 0)
        } else if axis == 1 {
            (0, width, 0)
        } else {
            (0, 0, width)
        },
        PassKind::Median => (width, width, width),
    }
}

proof fn lemma_axis_eq<V>(
    g1: GridView<V>,
    g2: GridView<V>,
    x: int,
    y: int,
    z: int,
    axis: int,
    width: int,
    n: nat,
    tx: int,
    ty: int,
    tz: int,
)
    requires
        n <= offset_count(width),
        window_agrees(
            g1,
            g2,
            x,
            y,
            z,
            if axis == 0 { width } else { 0 },
            if axis == 1 { width } else { 0 },
            if axis != 0 && axis != 1 { width } else { 0 },
            tx,
            ty,
            tz,
        ),
    ensures
        axis_samples(g1, x, y, z, axis, width, n) == axis_samples(
            g2,
            x + tx,
            y + ty,
            z + tz,
            axis,
            width,
            n,
        ),
    decreases n,
{
    if n > 0 {
        lemma_axis_eq(g1, g2, x, y, z, axis, width, (n - 1) as nat, tx, ty, tz);
        let d = -width + n - 1;
        let p = shifted(x, y, z, axis, d);
        let q = shifted(x + tx, y + ty, z + tz, axis, d);
        assert(q == (p.0 + tx, p.1 + ty, p.2 + tz));
        assert(grid_sample(g2, p.0 + tx, p.1 + ty, p.2 + tz) == grid_sample(g1, p.0, p.1, p.2));
    }
}

proof fn lemma_row_eq<V>(
    g1: GridView<V>,
    g2: GridView<V>,
    x: int,
    y: int,
    z: int,
    width: int,
    dy: int,
    dz: int,
    n: nat,
    tx: int,
    ty: int,
    tz: int,
)
    requires
        n <= offset_count(width),
        -width <= dy <= width,
        -width <= dz <= width,
        window_agrees(g1, g2, x, y, z, width, width, width, tx, ty, tz),
    ensures
        row_samples(g1, x, y, z, width, dy, dz, n) == row_samples(
            g2,
            x + tx,
            y + ty,
            z + tz,
            width,
            dy,
            dz,
            n,
        ),
    decreases n,
{
    if n > 0 {
        lemma_row_eq(g1, g2, x, y, z, width, dy, dz, (n - 1) as nat, tx, ty, tz);
        let px = x + (-width + n - 1);
        assert(grid_sample(g2, px + tx, y + dy + ty, z + dz + tz) == grid_sample(
            g1,
            px,
            y + dy,
            z + dz,
        ));
        assert(x + tx + (-width + n - 1) == px + tx);
    }
}

proof fn lemma_plane_eq<V>(
    g1: GridView<V>,
    g2: GridView<V>,
    x: int,
    y: int,
    z: int,
    width: int,
    dz: int,
    n: nat,
    tx: int,
    ty: int,
    tz: int,
)
    requires
        n <= offset_count(width),
        -width <= dz <= width,
        window_agrees(g1, g2, x, y, z, width, width, width, tx, ty, tz),
    ensures
        plane_samples(g1, x, y, z, width, dz, n) == plane_samples(
            g2,
            x + tx,
            y + ty,
            z + tz,
            width,
            dz,
            n,
        ),
    decreases n,
{
    if n > 0 {
        lemma_plane_eq(g1, g2, x, y, z, width, dz, (n - 1) as nat, tx, ty, tz);
        lemma_row_eq(
            g1,
            g2,
            x,
            y,
            z,
            width,
            -width + n - 1,
            dz,
            offset_count(width) as nat,
            tx,
            ty,
            tz,
        );
    }
}

proof fn lemma_cube_eq<V>(
    g1: GridView<V>,
    g2: GridView<V>,
    x: int,
    y: int,
    z: int,
    width: int,
    n: nat,
    tx: int,
    ty: int,
    tz: int,
)
    requires
        n <= offset_count(width),
        window_agrees(g1, g2, x, y, z, width, width, width, tx, ty, tz),
    ensures
        cube_samples(g1, x, y, z, width, n) == cube_samples(
            g2,
            x + tx,
            y + ty,
            z + tz,
            width,
            n,
        ),
    decreases n,
{
    if n > 0 {
        lemma_cube_eq(g1, g2, x, y, z, width, (n - 1) as nat, tx, ty, tz);
        lemma_plane_eq(
            g1,
            g2,
            x,
            y,
            z,
            width,
            -width + n - 1,
            offset_count(width) as nat,
            tx,
            ty,
            tz,
        );
    }
}

/// Two grids that read alike within a pass's reach of a voxel (one moved by
/// `(tx, ty, tz)`) give that voxel the same samples.
pub proof fn lemma_neighbourhood_eq<V>(
    g1: GridView<V>,
    g2: GridView<V>,
    x: int,
    y: int,
    z: int,
    width: int,
    kind: PassKind,
    tx: int,
    ty: int,
    tz: int,
)
    requires
        window_agrees(
            g1,
            g2,
            x,
            y,
            z,
            reach(width, kind).0,
            reach(width, kind).1,
            reach(width, kind).2,
            tx,
            ty,
            tz,
        ),
    ensures
        neighbourhood(g1, x, y, z, width, kind) == neighbourhood(
            g2,
            x + tx,
            y + ty,
            z + tz,
            width,
            kind,
        ),
{
    match kind {
        PassKind::Mean { axis } => {
            lemma_axis_eq(
                g1,
                g2,
                x,
                y,
                z,
                axis as int,
                width,
                offset_count(width) as nat,
                tx,
                ty,
                tz,
            );
        },
        PassKind::Median => {
            lemma_cube_eq(g1, g2, x, y, z, width, offset_count(width) as nat, tx, ty, tz);
        },
    }
}

/// Two grids that read alike within `(rx, ry, rz)` of a voxel still read
/// alike after a pass, within that box shrunk by the pass's reach.
pub proof fn lemma_pass_locality<V: Filterable>(
    g1: GridView<V>,
    g2: GridView<V>,
    width: int,
    kind: PassKind,
    x: int,
    y: int,
    z: int,
    rx: int,
    ry: int,
    rz: int,
)
    requires
        width >= 0,
        window_agrees(g1, g2, x, y, z, rx, ry, rz, 0, 0, 0),
    ensures
        window_agrees(
            filter_pass(g1, width, kind),
            filter_pass(g2, width, kind),
            x,
            y,
            z,
            rx - reach(width, kind).0,
            ry - reach(width, kind).1,
            rz - reach(width, kind).2,
            0,
            0,
            0,
        ),
{
    let e = reach(width, kind);
    let p1 = filter_pass(g1, width, kind);
    let p2 = filter_pass(g2, width, kind);
    assert forall|qx: int, qy: int, qz: int|
        x - (rx - e.0) <= qx <= x + (rx - e.0) && y - (ry - e.1) <= qy <= y + (ry - e.1) && z - (rz
            - e.2) <= qz <= z + (rz - e.2) implies grid_sample(p2, qx + 0, qy + 0, qz + 0)
        == #[trigger] grid_sample(p1, qx, qy, qz) by {
        assert forall|sx: int, sy: int, sz: int|
            qx - e.0 <= sx <= qx + e.0 && qy - e.1 <= sy <= qy + e.1 && qz - e.2 <= sz <= qz
                + e.2 implies grid_sample(g2, sx + 0, sy + 0, sz + 0) == #[trigger] grid_sample(
            g1,
            sx,
            sy,
            sz,
        ) by {
            assert(grid_sample(g2, sx + 0, sy + 0, sz + 0) == grid_sample(g1, sx, sy, sz));
        }
        lemma_neighbourhood_eq(g1, g2, qx, qy, qz, width, kind, 0, 0, 0);
        lemma_sample_after_pass(g1, width, kind, qx, qy, qz);
        lemma_sample_after_pass(g2, width, kind, qx, qy, qz);
        assert(grid_sample(g2, qx + 0, qy + 0, qz + 0) == grid_sample(g1, qx, qy, qz));
    }
}

proof fn lemma_mean_iterations_locality<V: Filterable>(
    g1: GridView<V>,
    g2: GridView<V>,
    width: int,
    n: nat,
    x: int,
    y: int,
    z: int,
    r: int,
)
    requires
        width >= 0,
        r >= 0,
        window_agrees(g1, g2, x, y, z, r + n * width, r + n * width, r + n * width, 0, 0, 0),
    ensures
        window_agrees(
            mean_iterations(g1, width, n),
            mean_iterations(g2, width, n),
            x,
            y,
            z,
            r,
            r,
            r,
            0,
            0,
            0,
        ),
    decreases n,
{
    if n > 0 {
        assert(r + width + (n - 1) as nat * width == r + n * width) by (nonlinear_arith)
            requires
                n > 0,
        ;
        lemma_mean_iterations_locality(g1, g2, width, (n - 1) as nat, x, y, z, r + width);
        let a1 = mean_iterations(g1, width, (n - 1) as nat);
        let a2 = mean_iterations(g2, width, (n - 1) as nat);
        let k0 = PassKind::Mean { axis: 0 };
        let k2 = PassKind::Mean { axis: 2 };
        let k1 = PassKind::Mean { axis: 1 };
        lemma_pass_locality(a1, a2, width, k0, x, y, z, r + width, r + width, r + width);
        let b1 = filter_pass(a1, width, k0);
        let b2 = filter_pass(a2, width, k0);
        lemma_pass_locality(b1, b2, width, k2, x, y, z, r, r + width, r + width);
        let c1 = filter_pass(b1, width, k2);
        let c2 = filter_pass(b2, width, k2);
        lemma_pass_locality(c1, c2, width, k1, x, y, z, r, r + width, r);
    }
}

proof fn lemma_median_iterations_locality<V: Filterable>(
    g1: GridView<V>,
    g2: GridView<V>,
    width: int,
    n: nat,
    x: int,
    y: int,
    z: int,
    r: int,
)
    requires
        width >= 0,
        r >= 0,
        window_agrees(g1, g2, x, y, z, r + n * width, r + n * width, r + n * width, 0, 0, 0),
    ensures
        window_agrees(
            median_iterations(g1, width, n),
            median_iterations(g2, width, n),
            x,
            y,
            z,
            r,
            r,
            r,
            0,
            0,
            0,
        ),
    decreases n,
{
    if n > 0 {
        assert(r + width + (n - 1) as nat * width == r + n * width) by (nonlinear_arith)
            requires
                n > 0,
        ;
        lemma_median_iterations_locality(g1, g2, width, (n - 1) as nat, x, y, z, r + width);
        lemma_pass_locality(
            median_iterations(g1, width, (n - 1) as nat),
            median_iterations(g2, width, (n - 1) as nat),
            width,
            PassKind::Median,
            x,
            y,
            z,
            r + width,
            r + width,
            r + width,
        );
    }
}

/// After `n` iterations of the mean filter of width `width`, the value read
/// at a position depends only on what the grid holds within `n * width` of
/// it along every axis: two grids that read alike there read alike at the
/// position afterwards.
pub proof fn law_mean_locality<V: Filterable>(
    g1: GridView<V>,
    g2: GridView<V>,
    width: int,
    n: nat,
    x: int,
    y: int,
    z: int,
)
    requires
        width >= 0,
        window_agrees(g1, g2, x, y, z, n * width, n * width, n * width, 0, 0, 0),
    ensures
        grid_sample(mean_iterations(g1, width, n), x, y, z) == grid_sample(
            mean_iterations(g2, width, n),
            x,
            y,
            z,
        ),
{
    lemma_mean_iterations_locality(g1, g2, width, n, x, y, z, 0);
    assert(grid_sample(mean_iterations(g2, width, n), x + 0, y + 0, z + 0) == grid_sample(
        mean_iterations(g1, width, n),
        x,
        y,
        z,
    ));
}

/// After `n` iterations of the median filter of width `width`, the value
/// read at a position depends only on what the grid holds within
/// `n * width` of it along every axis.
pub proof fn law_median_locality<V: Filterable>(
    g1: GridView<V>,
    g2: GridView<V>,
    width: int,
    n: nat,
    x: int,
    y: int,
    z: int,
)
    requires
        width >= 0,
        window_agrees(g1, g2, x, y, z, n * width, n * width, n * width, 0, 0, 0),
    ensures
        grid_sample(median_iterations(g1, width, n), x, y, z) == grid_sample(
            median_iterations(g2, width, n),
            x,
            y,
            z,
        ),
{
    lemma_median_iterations_locality(g1, g2, width, n, x, y, z, 0);
    assert(grid_sample(median_iterations(g2, width, n), x + 0, y + 0, z + 0) == grid_sample(
        median_iterations(g1, width, n),
        x,
        y,
        z,
    ));
}

/// A leaf moved by `(tx, ty, tz)`.
pub open spec fn translate_leaf<V>(l: LeafView<V>, tx: int, ty: int, tz: int) -> LeafView<V> {
    LeafView {
        origin: Coord {
            x: (l.origin.x + tx) as i32,
            y: (l.origin.y + ty) as i32,
            z: (l.origin.z + tz) as i32,
        },
        mask: l.mask,
        buffer: l.buffer,
    }
}

/// The grid with every leaf moved by `(tx, ty, tz)`.
pub open spec fn translate<V>(g: GridView<V>, tx: int, ty: int, tz: int) -> GridView<V> {
    g.map_values(
        |r: Seq<Seq<LeafView<V>>>|
            r.map_values(
                |n: Seq<LeafView<V>>| n.map_values(|l: LeafView<V>| translate_leaf(l, tx, ty, tz)),
            ),
    )
}

/// Whether every leaf origin, moved by `(tx, ty, tz)`, stays within `i32`.
pub open spec fn translation_fits<V>(g: GridView<V>, tx: int, ty: int, tz: int) -> bool {
    forall|i: int, j: int, k: int|
        0 <= i < g.len() && 0 <= j < g[i].len() && 0 <= k < g[i][j].len() ==> {
            let o = (#[trigger] g[i][j][k]).origin;
            &&& i32::MIN <= o.x + tx <= i32::MAX
            &&& i32::MIN <= o.y + ty <= i32::MAX
            &&& i32::MIN <= o.z + tz <= i32::MAX
        }
}

/// Reading a moved grid at a moved position gives what the grid held there.
pub proof fn lemma_sample_translate<V>(g: GridView<V>, tx: int, ty: int, tz: int, x: int, y: int, z: int)
    requires
        translation_fits(g, tx, ty, tz),
    ensures
        grid_sample(translate(g, tx, ty, tz), x + tx, y + ty, z + tz) == grid_sample(g, x, y, z),
{
    let h = |v: V| v;
    let t = translate(g, tx, ty, tz);
    assert forall|i: int| 0 <= i < g.len() implies root_probe(x + tx, y + ty, z + tz)(
        #[trigger] t[i],
    ) == map_option(root_probe(x, y, z)(g[i]), h) by {
        let r = g[i];
        let tr = t[i];
        assert forall|j: int| 0 <= j < r.len() implies node_probe(x + tx, y + ty, z + tz)(
            #[trigger] tr[j],
        ) == map_option(node_probe(x, y, z)(r[j]), h) by {
            let n = r[j];
            let tn = tr[j];
            assert forall|k: int| 0 <= k < n.len() implies leaf_probe(x + tx, y + ty, z + tz)(
                #[trigger] tn[k],
            ) == map_option(leaf_probe(x, y, z)(n[k]), h) by {
                assert(tn[k] == translate_leaf(n[k], tx, ty, tz));
                assert(translation_fits(g, tx, ty, tz) ==> {
                    let o = g[i][j][k].origin;
                    i32::MIN <= o.x + tx <= i32::MAX
                });
            }
            lemma_first_sample_map(n, tn, leaf_probe(x, y, z), leaf_probe(x + tx, y + ty, z + tz), h);
        }
        lemma_first_sample_map(r, tr, node_probe(x, y, z), node_probe(x + tx, y + ty, z + tz), h);
    }
    lemma_first_sample_map(g, t, root_probe(x, y, z), root_probe(x + tx, y + ty, z + tz), h);
    assert(map_option(grid_sample(g, x, y, z), h) == grid_sample(g, x, y, z));
}

/// A pass over a moved grid is the moved pass.
pub proof fn lemma_pass_translate<V: Filterable>(
    g: GridView<V>,
    width: int,
    kind: PassKind,
    tx: int,
    ty: int,
    tz: int,
)
    requires
        translation_fits(g, tx, ty, tz),
    ensures
        filter_pass(translate(g, tx, ty, tz), width, kind) == translate(
            filter_pass(g, width, kind),
            tx,
            ty,
            tz,
        ),
{
    let t = translate(g, tx, ty, tz);
    let pt = filter_pass(t, width, kind);
    let p = filter_pass(g, width, kind);
    let tp = translate(p, tx, ty, tz);
    assert forall|i: int, j: int, k: int|
        0 <= i < g.len() && 0 <= j < g[i].len() && 0 <= k < g[i][j].len() implies pt[i][j][k]
        == tp[i][j][k] by {
        let l = g[i][j][k];
        let tl = translate_leaf(l, tx, ty, tz);
        assert(t[i][j][k] == tl);
        assert(pt[i] == filter_root(t, t[i], width, kind));
        assert(pt[i][j] == filter_node(t, t[i][j], width, kind));
        assert(pt[i][j][k] == filter_leaf(t, tl, width, kind));
        assert(p[i] == filter_root(g, g[i], width, kind));
        assert(p[i][j] == filter_node(g, g[i][j], width, kind));
        assert(p[i][j][k] == filter_leaf(g, l, width, kind));
        assert(tp[i][j][k] == translate_leaf(filter_leaf(g, l, width, kind), tx, ty, tz));
        assert(translation_fits(g, tx, ty, tz) ==> {
            let o = g[i][j][k].origin;
            i32::MIN <= o.x + tx <= i32::MAX
        });
        assert forall|q: int| 0 <= q < l.buffer.len() implies filtered_value(t, tl, q, width, kind)
            == #[trigger] filtered_value(g, l, q, width, kind) by {
            let pos = voxel_position(l, q);
            assert(voxel_position(tl, q) == (pos.0 + tx, pos.1 + ty, pos.2 + tz));
            let e = reach(width, kind);
            assert forall|qx: int, qy: int, qz: int|
                pos.0 - e.0 <= qx <= pos.0 + e.0 && pos.1 - e.1 <= qy <= pos.1 + e.1 && pos.2 - e.2
                    <= qz <= pos.2 + e.2 implies grid_sample(t, qx + tx, qy + ty, qz + tz)
                == #[trigger] grid_sample(g, qx, qy, qz) by {
                lemma_sample_translate(g, tx, ty, tz, qx, qy, qz);
            }
            lemma_neighbourhood_eq(g, t, pos.0, pos.1, pos.2, width, kind, tx, ty, tz);
        }
        assert(filter_leaf(t, tl, width, kind).buffer =~= filter_leaf(g, l, width, kind).buffer);
    }
    assert forall|i: int, j: int| 0 <= i < g.len() && 0 <= j < g[i].len() implies pt[i][j]
        == #[trigger] tp[i][j] by {
        assert(pt[i] == filter_root(t, t[i], width, kind));
        assert(pt[i][j] =~= tp[i][j]);
    }
    assert forall|i: int| 0 <= i < g.len() implies pt[i] == #[trigger] tp[i] by {
        assert(pt[i] =~= tp[i]);
    }
    assert(pt =~= tp);
}

/// Whether a moved grid fits within `i32` depends on its layout alone.
proof fn lemma_layout_translation_fits<V>(a: GridView<V>, b: GridView<V>, tx: int, ty: int, tz: int)
    requires
        same_layout(a, b),
        translation_fits(a, tx, ty, tz),
    ensures
        translation_fits(b, tx, ty, tz),
{
    assert forall|i: int, j: int, k: int|
        0 <= i < b.len() && 0 <= j < b[i].len() && 0 <= k < b[i][j].len() implies {
            let o = (#[trigger] b[i][j][k]).origin;
            &&& i32::MIN <= o.x + tx <= i32::MAX
            &&& i32::MIN <= o.y + ty <= i32::MAX
            &&& i32::MIN <= o.z + tz <= i32::MAX
        } by {
        assert(a[i].len() == b[i].len());
        assert(a[i][j].len() == b[i][j].len());
        assert(a[i][j][k].origin == b[i][j][k].origin);
    }
}

proof fn lemma_pass_translate_fits<V: Filterable>(
    g: GridView<V>,
    width: int,
    kind: PassKind,
    tx: int,
    ty: int,
    tz: int,
)
    requires
        translation_fits(g, tx, ty, tz),
    ensures
        translation_fits(filter_pass(g, width, kind), tx, ty, tz),
        filter_pass(translate(g, tx, ty, tz), width, kind) == translate(
            filter_pass(g, width, kind),
            tx,
            ty,
            tz,
        ),
{
    lemma_pass_layout(g, width, kind);
    lemma_layout_translation_fits(g, filter_pass(g, width, kind), tx, ty, tz);
    lemma_pass_translate(g, width, kind, tx, ty, tz);
}

/// Moving every leaf of a grid by `(tx, ty, tz)` and then running the mean
/// filter gives the filtered grid moved by `(tx, ty, tz)`.
pub proof fn law_mean_translation<V: Filterable>(
    g: GridView<V>,
    width: int,
    n: nat,
    tx: int,
    ty: int,
    tz: int,
)
    requires
        translation_fits(g, tx, ty, tz),
    ensures
        mean_iterations(translate(g, tx, ty, tz), width, n) == translate(
            mean_iterations(g, width, n),
            tx,
            ty,
            tz,
        ),
        translation_fits(mean_iterations(g, width, n), tx, ty, tz),
    decreases n,
{
    if n > 0 {
        law_mean_translation(g, width, (n - 1) as nat, tx, ty, tz);
        let a = mean_iterations(g, width, (n - 1) as nat);
        let k0 = PassKind::Mean { axis: 0 };
        let k2 = PassKind::Mean { axis: 2 };
        let k1 = PassKind::Mean { axis: 1 };
        lemma_pass_translate_fits(a, width, k0, tx, ty, tz);
        let b = filter_pass(a, width, k0);
        lemma_pass_translate_fits(b, width, k2, tx, ty, tz);
        let c = filter_pass(b, width, k2);
        lemma_pass_translate_fits(c, width, k1, tx, ty, tz);
    }
}

/// Moving every leaf of a grid by `(tx, ty, tz)` and then running the
/// median filter gives the filtered grid moved by `(tx, ty, tz)`.
pub proof fn law_median_translation<V: Filterable>(
    g: GridView<V>,
    width: int,
    n: nat,
    tx: int,
    ty: int,
    tz: int,
)
    requires
        translation_fits(g, tx, ty, tz),
    ensures
        median_iterations(translate(g, tx, ty, tz), width, n) == translate(
            median_iterations(g, width, n),
            tx,
            ty,
            tz,
        ),
        translation_fits(median_iterations(g, width, n), tx, ty, tz),
    decreases n,
{
    if n > 0 {
        law_median_translation(g, width, (n - 1) as nat, tx, ty, tz);
        lemma_pass_translate_fits(median_iterations(g, width, (n - 1) as nat), width, PassKind::Median, tx, ty, tz);
    }
}

/// Whether the same positions of the two grids hold values.
pub open spec fn same_presence<V>(g1: GridView<V>, g2: GridView<V>) -> bool {
    forall|qx: int, qy: int, qz: int|
        (#[trigger] grid_sample(g1, qx, qy, qz) is Some) == (grid_sample(g2, qx, qy, qz) is Some)
}

proof fn lemma_axis_len<V>(
    g1: GridView<V>,
    g2: GridView<V>,
    x: int,
    y: int,
    z: int,
    axis: int,
    width: int,
    n: nat,
)
    requires
        same_presence(g1, g2),
    ensures
        axis_samples(g1, x, y, z, axis, width, n).len() == axis_samples(
            g2,
            x,
            y,
            z,
            axis,
            width,
            n,
        ).len(),
    decreases n,
{
    if n > 0 {
        lemma_axis_len(g1, g2, x, y, z, axis, width, (n - 1) as nat);
        let p = shifted(x, y, z, axis, -width + n - 1);
        assert((grid_sample(g1, p.0, p.1, p.2) is Some) == (grid_sample(g2, p.0, p.1, p.2) is Some));
    }
}

proof fn lemma_row_len<V>(
    g1: GridView<V>,
    g2: GridView<V>,
    x: int,
    y: int,
    z: int,
    width: int,
    dy: int,
    dz: int,
    n: nat,
)
    requires
        same_presence(g1, g2),
    ensures
        row_samples(g1, x, y, z, width, dy, dz, n).len() == row_samples(
            g2,
            x,
            y,
            z,
            width,
            dy,
            dz,
            n,
        ).len(),
    decreases n,
{
    if n > 0 {
        lemma_row_len(g1, g2, x, y, z, width, dy, dz, (n - 1) as nat);
        let px = x + (-width + n - 1);
        assert((grid_sample(g1, px, y + dy, z + dz) is Some) == (grid_sample(
            g2,
            px,
            y + dy,
            z + dz,
        ) is Some));
    }
}

proof fn lemma_plane_len<V>(
    g1: GridView<V>,
    g2: GridView<V>,
    x: int,
    y: int,
    z: int,
    width: int,
    dz: int,
    n: nat,
)
    requires
        same_presence(g1, g2),
    ensures
        plane_samples(g1, x, y, z, width, dz, n).len() == plane_samples(
            g2,
            x,
            y,
            z,
            width,
            dz,
            n,
        ).len(),
    decreases n,
{
    if n > 0 {
        lemma_plane_len(g1, g2, x, y, z, width, dz, (n - 1) as nat);
        lemma_row_len(g1, g2, x, y, z, width, -width + n - 1, dz, offset_count(width) as nat);
    }
}

proof fn lemma_cube_len<V>(g1: GridView<V>, g2: GridView<V>, x: int, y: int, z: int, width: int, n: nat)
    requires
        same_presence(g1, g2),
    ensures
        cube_samples(g1, x, y, z, width, n).len() == cube_samples(g2, x, y, z, width, n).len(),
    decreases n,
{
    if n > 0 {
        lemma_cube_len(g1, g2, x, y, z, width, (n - 1) as nat);
        lemma_plane_len(g1, g2, x, y, z, width, -width + n - 1, offset_count(width) as nat);
    }
}

/// Grids that hold values at the same positions give every voxel the same
/// number of samples.
pub proof fn lemma_neighbourhood_len<V>(
    g1: GridView<V>,
    g2: GridView<V>,
    x: int,
    y: int,
    z: int,
    width: int,
    kind: PassKind,
)
    requires
        same_presence(g1, g2),
    ensures
        neighbourhood(g1, x, y, z, width, kind).len() == neighbourhood(
            g2,
            x,
            y,
            z,
            width,
            kind,
        ).len(),
{
    match kind {
        PassKind::Mean { axis } => {
            lemma_axis_len(g1, g2, x, y, z, axis as int, width, offset_count(width) as nat);
        },
        PassKind::Median => {
            lemma_cube_len(g1, g2, x, y, z, width, offset_count(width) as nat);
        },
    }
}

/// A pass keeps the positions that hold values.
pub proof fn lemma_pass_presence<V: Filterable>(g: GridView<V>, width: int, kind: PassKind)
    ensures
        same_presence(g, filter_pass(g, width, kind)),
{
    assert forall|qx: int, qy: int, qz: int|
        (#[trigger] grid_sample(g, qx, qy, qz) is Some) == (grid_sample(
            filter_pass(g, width, kind),
            qx,
            qy,
            qz,
        ) is Some) by {
        lemma_sample_after_pass(g, width, kind, qx, qy, qz);
    }
}

/// After a pass of any kind, every voxel that a later pass of kind `later`
/// writes still has a place in its buffer.
pub proof fn lemma_pass_writes_fit<V: Filterable>(
    g: GridView<V>,
    width: int,
    kind: PassKind,
    later: PassKind,
)
    requires
        grid_writes_fit(g, width, later),
    ensures
        grid_writes_fit(filter_pass(g, width, kind), width, later),
{
    let p = filter_pass(g, width, kind);
    lemma_pass_presence(g, width, kind);
    assert forall|i: int, j: int, k: int|
        0 <= i < p.len() && 0 <= j < p[i].len() && 0 <= k < p[i][j].len() implies leaf_writes_fit(
        p,
        #[trigger] p[i][j][k],
        width,
        later,
    ) by {
        let l = g[i][j][k];
        assert(p[i] == filter_root(g, g[i], width, kind));
        assert(p[i][j] == filter_node(g, g[i][j], width, kind));
        assert(p[i][j][k] == filter_leaf(g, l, width, kind));
        assert(leaf_writes_fit(g, l, width, later));
        assert forall|q: int|
            0 <= q < LEAF_SIZE && q < p[i][j][k].mask.len() && #[trigger] p[i][j][k].mask[q]
                && neighbourhood(
                p,
                voxel_position(p[i][j][k], q).0,
                voxel_position(p[i][j][k], q).1,
                voxel_position(p[i][j][k], q).2,
                width,
                later,
            ).len() > 0 implies q < p[i][j][k].buffer.len() by {
            let pos = voxel_position(l, q);
            lemma_neighbourhood_len(g, p, pos.0, pos.1, pos.2, width, later);
            assert(l.mask[q]);
        }
    }
}

} // verus!
