//! Which voxels each filter reads, stated directly over the grid: a box
//! pass along an axis reads every offset in `-width ..= width` along that
//! axis, a median pass every offset in the cube `[-width, width]^3`, and
//! each finds the active values there, in order of offset.
use vstd::prelude::*;
use crate::filter::{filter_pass, neighbourhood, GridView, PassKind};
use crate::filterable::Filterable;
use crate::locality::{lemma_sample_after_pass, map_option, point_filter};
use crate::median::median_sample;
use crate::neighbourhood::{
    axis_samples, cube_samples, offset_count, plane_samples, push_sample, row_samples, shifted,
};
use crate::sample::grid_sample;

verus! {

/// The values held in a sequence of optional reads, in order.
pub open spec fn some_values<V>(s: Seq<Option<V>>) -> Seq<V> {
    s.filter_map(|o: Option<V>| o)
}

/// What the grid holds at `(x, y, z)` moved by `-width + k` along `axis`,
/// for `k` in `0 .. n`.
pub open spec fn axis_reads<V>(
    g: GridView<V>,
    x: int,
    y: int,
    z: int,
    axis: int,
    width: int,
    n: nat,
) -> Seq<Option<V>> {
    Seq::new(
        n,
        |k: int|
            if axis == 0 {
                grid_sample(g, x - width + k, y, z)
            } else if axis == 1 {
                grid_sample(g, x, y - width + k, z)
            } else {
                grid_sample(g, x, y, z - width + k)
            },
    )
}

/// What the grid holds along the row `(x - width + k, y + dy, z + dz)`,
/// for `k` in `0 .. n`.
pub open spec fn row_reads<V>(
    g: GridView<V>,
    x: int,
    y: int,
    z: int,
    width: int,
    dy: int,
    dz: int,
    n: nat,
) -> Seq<Option<V>> {
    Seq::new(n, |k: int| grid_sample(g, x - width + k, y + dy, z + dz))
}

/// What the grid holds in the plane at offset `dz`, row by row over
/// `dy = -width + j` for `j` in `0 .. n`.
pub open spec fn plane_reads<V>(
    g: GridView<V>,
    x: int,
    y: int,
    z: int,
    width: int,
    dz: int,
    n: nat,
) -> Seq<Option<V>> {
    Seq::new(
        n,
        |j: int| row_reads(g, x, y, z, width, -width + j, dz, offset_count(width) as nat),
    ).flatten()
}

/// What the grid holds in the cube of half-width `width` around
/// `(x, y, z)`, plane by plane over `dz = -width + i` for `i` in `0 .. n`.
pub open spec fn cube_reads<V>(
    g: GridView<V>,
    x: int,
    y: int,
    z: int,
    width: int,
    n: nat,
) -> Seq<Option<V>> {
    Seq::new(
        n,
        |i: int| plane_reads(g, x, y, z, width, -width + i, offset_count(width) as nat),
    ).flatten()
}

proof fn lemma_some_values_add<V>(a: Seq<Option<V>>, b: Seq<Option<V>>)
    ensures
        some_values(a + b) == some_values(a) + some_values(b),
    decreases b.len(),
{
    if b.len() == 0 {
        assert(a + b =~= a);
        assert(some_values(b) =~= Seq::<V>::empty());
        assert(some_values(a) + some_values(b) =~= some_values(a));
    } else {
        let c = b.drop_last();
        lemma_some_values_add(a, c);
        assert((a + b).drop_last() =~= a + c);
        assert((a + b).last() == b.last());
        match b.last() {
            Some(v) => {
                assert(some_values(a) + some_values(b) =~= some_values(a) + some_values(c) + seq![v]);
            },
            None => {},
        }
    }
}

proof fn lemma_some_values_push<V>(a: Seq<Option<V>>, o: Option<V>)
    ensures
        some_values(a.push(o)) == match o {
            Some(v) => some_values(a).push(v),
            None => some_values(a),
        },
{
    assert(a.push(o).drop_last() =~= a);
    assert(a.push(o).last() == o);
    match o {
        Some(v) => {
            assert(some_values(a) + seq![v] =~= some_values(a).push(v));
        },
        None => {},
    }
}

proof fn lemma_axis_window<V>(
    g: GridView<V>,
    x: int,
    y: int,
    z: int,
    axis: int,
    width: int,
    n: nat,
)
    ensures
        axis_samples(g, x, y, z, axis, width, n) == some_values(
            axis_reads(g, x, y, z, axis, width, n),
        ),
    decreases n,
{
    if n > 0 {
        lemma_axis_window(g, x, y, z, axis, width, (n - 1) as nat);
        let r = axis_reads(g, x, y, z, axis, width, n);
        assert(r =~= axis_reads(g, x, y, z, axis, width, (n - 1) as nat).push(r[n - 1]));
        lemma_some_values_push(axis_reads(g, x, y, z, axis, width, (n - 1) as nat), r[n - 1]);
        let p = shifted(x, y, z, axis, -width + n - 1);
        assert(r[n - 1] == grid_sample(g, p.0, p.1, p.2));
    }
}

proof fn lemma_row_window<V>(
    g: GridView<V>,
    x: int,
    y: int,
    z: int,
    width: int,
    dy: int,
    dz: int,
    n: nat,
)
    ensures
        row_samples(g, x, y, z, width, dy, dz, n) == some_values(
            row_reads(g, x, y, z, width, dy, dz, n),
        ),
    decreases n,
{
    if n > 0 {
        lemma_row_window(g, x, y, z, width, dy, dz, (n - 1) as nat);
        let r = row_reads(g, x, y, z, width, dy, dz, n);
        assert(r =~= row_reads(g, x, y, z, width, dy, dz, (n - 1) as nat).push(r[n - 1]));
        lemma_some_values_push(row_reads(g, x, y, z, width, dy, dz, (n - 1) as nat), r[n - 1]);
    }
}

proof fn lemma_plane_window<V>(
    g: GridView<V>,
    x: int,
    y: int,
    z: int,
    width: int,
    dz: int,
    n: nat,
)
    ensures
        plane_samples(g, x, y, z, width, dz, n) == some_values(
            plane_reads(g, x, y, z, width, dz, n),
        ),
    decreases n,
{
    if n > 0 {
        let c = offset_count(width) as nat;
        lemma_plane_window(g, x, y, z, width, dz, (n - 1) as nat);
        let rows = Seq::new(n, |j: int| row_reads(g, x, y, z, width, -width + j, dz, c));
        let prev = Seq::new((n - 1) as nat, |j: int| row_reads(g, x, y, z, width, -width + j, dz, c));
        assert(rows =~= prev.push(rows[n - 1]));
        prev.lemma_flatten_push(rows[n - 1]);
        lemma_some_values_add(prev.flatten(), rows[n - 1]);
        lemma_row_window(g, x, y, z, width, -width + n - 1, dz, c);
    }
}

proof fn lemma_cube_window<V>(g: GridView<V>, x: int, y: int, z: int, width: int, n: nat)
    ensures
        cube_samples(g, x, y, z, width, n) == some_values(cube_reads(g, x, y, z, width, n)),
    decreases n,
{
    if n > 0 {
        let c = offset_count(width) as nat;
        lemma_cube_window(g, x, y, z, width, (n - 1) as nat);
        let planes = Seq::new(n, |i: int| plane_reads(g, x, y, z, width, -width + i, c));
        let prev = Seq::new((n - 1) as nat, |i: int| plane_reads(g, x, y, z, width, -width + i, c));
        assert(planes =~= prev.push(planes[n - 1]));
        prev.lemma_flatten_push(planes[n - 1]);
        lemma_some_values_add(prev.flatten(), planes[n - 1]);
        lemma_plane_window(g, x, y, z, width, -width + n - 1, c);
    }
}

proof fn lemma_some_values_contains<V>(s: Seq<Option<V>>, k: int)
    requires
        0 <= k < s.len(),
        s[k] is Some,
    ensures
        some_values(s).contains(s[k]->0),
    decreases s.len(),
{
    let t = s.drop_last();
    assert(s =~= t.push(s.last()));
    lemma_some_values_push(t, s.last());
    if k == s.len() - 1 {
        let v = s[k]->0;
        assert(some_values(s)[some_values(s).len() - 1] == v);
    } else {
        assert(t[k] == s[k]);
        lemma_some_values_contains(t, k);
        let m = choose|m: int| 0 <= m < some_values(t).len() && some_values(t)[m] == s[k]->0;
        match s.last() {
            Some(v) => {
                assert(some_values(s)[m] == some_values(t)[m]);
            },
            None => {},
        }
    }
}

proof fn lemma_row_contains<V>(
    g: GridView<V>,
    x: int,
    y: int,
    z: int,
    width: int,
    dy: int,
    dz: int,
    n: nat,
    k: int,
)
    requires
        0 <= k < n,
        grid_sample(g, x - width + k, y + dy, z + dz) is Some,
    ensures
        row_samples(g, x, y, z, width, dy, dz, n).contains(
            grid_sample(g, x - width + k, y + dy, z + dz)->0,
        ),
{
    lemma_row_window(g, x, y, z, width, dy, dz, n);
    let r = row_reads(g, x, y, z, width, dy, dz, n);
    assert(r[k] == grid_sample(g, x - width + k, y + dy, z + dz));
    lemma_some_values_contains(r, k);
}

proof fn lemma_plane_contains<V>(
    g: GridView<V>,
    x: int,
    y: int,
    z: int,
    width: int,
    dz: int,
    n: nat,
    j: int,
    k: int,
)
    requires
        0 <= j < n,
        0 <= k < offset_count(width),
        grid_sample(g, x - width + k, y - width + j, z + dz) is Some,
    ensures
        plane_samples(g, x, y, z, width, dz, n).contains(
            grid_sample(g, x - width + k, y - width + j, z + dz)->0,
        ),
    decreases n,
{
    let v = grid_sample(g, x - width + k, y - width + j, z + dz)->0;
    let c = offset_count(width) as nat;
    let prev = plane_samples(g, x, y, z, width, dz, (n - 1) as nat);
    let row = row_samples(g, x, y, z, width, -width + n - 1, dz, c);
    if j == n - 1 {
        assert(y + (-width + n - 1) == y - width + j);
        lemma_row_contains(g, x, y, z, width, -width + n - 1, dz, c, k);
        let m = choose|m: int| 0 <= m < row.len() && row[m] == v;
        assert((prev + row)[prev.len() + m] == v);
    } else {
        lemma_plane_contains(g, x, y, z, width, dz, (n - 1) as nat, j, k);
        let m = choose|m: int| 0 <= m < prev.len() && prev[m] == v;
        assert((prev + row)[m] == v);
    }
}

proof fn lemma_cube_contains<V>(
    g: GridView<V>,
    x: int,
    y: int,
    z: int,
    width: int,
    n: nat,
    i: int,
    j: int,
    k: int,
)
    requires
        0 <= i < n,
        0 <= j < offset_count(width),
        0 <= k < offset_count(width),
        grid_sample(g, x - width + k, y - width + j, z - width + i) is Some,
    ensures
        cube_samples(g, x, y, z, width, n).contains(
            grid_sample(g, x - width + k, y - width + j, z - width + i)->0,
        ),
    decreases n,
{
    let v = grid_sample(g, x - width + k, y - width + j, z - width + i)->0;
    let c = offset_count(width) as nat;
    let prev = cube_samples(g, x, y, z, width, (n - 1) as nat);
    let plane = plane_samples(g, x, y, z, width, -width + n - 1, c);
    if i == n - 1 {
        assert(z + (-width + n - 1) == z - width + i);
        lemma_plane_contains(g, x, y, z, width, -width + n - 1, c, j, k);
        let m = choose|m: int| 0 <= m < plane.len() && plane[m] == v;
        assert((prev + plane)[prev.len() + m] == v);
    } else {
        lemma_cube_contains(g, x, y, z, width, (n - 1) as nat, i, j, k);
        let m = choose|m: int| 0 <= m < prev.len() && prev[m] == v;
        assert((prev + plane)[m] == v);
    }
}

/// A box pass along `axis` reads exactly the voxels at offsets
/// `-width ..= width` along that axis, in increasing order of offset: its
/// samples are the active values found there, each once. In particular the
/// active value at every such offset is among them.
pub proof fn law_mean_window<V>(g: GridView<V>, x: int, y: int, z: int, axis: usize, width: int)
    requires
        axis < 3,
    ensures
        neighbourhood(g, x, y, z, width, PassKind::Mean { axis }) == some_values(
            axis_reads(g, x, y, z, axis as int, width, offset_count(width) as nat),
        ),
        axis == 0 ==> forall|qx: int|
            x - width <= qx <= x + width && (#[trigger] grid_sample(g, qx, y, z)) is Some
                ==> neighbourhood(g, x, y, z, width, PassKind::Mean { axis }).contains(
                grid_sample(g, qx, y, z)->0,
            ),
        axis == 1 ==> forall|qy: int|
            y - width <= qy <= y + width && (#[trigger] grid_sample(g, x, qy, z)) is Some
                ==> neighbourhood(g, x, y, z, width, PassKind::Mean { axis }).contains(
                grid_sample(g, x, qy, z)->0,
            ),
        axis == 2 ==> forall|qz: int|
            z - width <= qz <= z + width && (#[trigger] grid_sample(g, x, y, qz)) is Some
                ==> neighbourhood(g, x, y, z, width, PassKind::Mean { axis }).contains(
                grid_sample(g, x, y, qz)->0,
            ),
{
    let c = offset_count(width) as nat;
    lemma_axis_window(g, x, y, z, axis as int, width, c);
    let r = axis_reads(g, x, y, z, axis as int, width, c);
    if axis == 0 {
        assert forall|qx: int|
            x - width <= qx <= x + width && (#[trigger] grid_sample(g, qx, y, z)) is Some implies neighbourhood(
            g,
            x,
            y,
            z,
            width,
            PassKind::Mean { axis },
        ).contains(grid_sample(g, qx, y, z)->0) by {
            let k = qx - x + width;
            assert(r[k] == grid_sample(g, qx, y, z));
            lemma_some_values_contains(r, k);
        }
    } else if axis == 1 {
        assert forall|qy: int|
            y - width <= qy <= y + width && (#[trigger] grid_sample(g, x, qy, z)) is Some implies neighbourhood(
            g,
            x,
            y,
            z,
            width,
            PassKind::Mean { axis },
        ).contains(grid_sample(g, x, qy, z)->0) by {
            let k = qy - y + width;
            assert(r[k] == grid_sample(g, x, qy, z));
            lemma_some_values_contains(r, k);
        }
    } else {
        assert forall|qz: int|
            z - width <= qz <= z + width && (#[trigger] grid_sample(g, x, y, qz)) is Some implies neighbourhood(
            g,
            x,
            y,
            z,
            width,
            PassKind::Mean { axis },
        ).contains(grid_sample(g, x, y, qz)->0) by {
            let k = qz - z + width;
            assert(r[k] == grid_sample(g, x, y, qz));
            lemma_some_values_contains(r, k);
        }
    }
}

/// A median pass reads exactly the voxels of the cube `[-width, width]^3`
/// around a voxel, plane by plane along z, row by row along y, then along
/// x: its samples are the active values found there, each once. In
/// particular the active value at every position of the cube is among them.
pub proof fn law_median_window<V>(g: GridView<V>, x: int, y: int, z: int, width: int)
    ensures
        neighbourhood(g, x, y, z, width, PassKind::Median) == some_values(
            cube_reads(g, x, y, z, width, offset_count(width) as nat),
        ),
        forall|qx: int, qy: int, qz: int|
            x - width <= qx <= x + width && y - width <= qy <= y + width && z - width <= qz <= z
                + width && (#[trigger] grid_sample(g, qx, qy, qz)) is Some ==> neighbourhood(
                g,
                x,
                y,
                z,
                width,
                PassKind::Median,
            ).contains(grid_sample(g, qx, qy, qz)->0),
{
    let c = offset_count(width) as nat;
    lemma_cube_window(g, x, y, z, width, c);
    assert forall|qx: int, qy: int, qz: int|
        x - width <= qx <= x + width && y - width <= qy <= y + width && z - width <= qz <= z + width
            && (#[trigger] grid_sample(g, qx, qy, qz)) is Some implies neighbourhood(
        g,
        x,
        y,
        z,
        width,
        PassKind::Median,
    ).contains(grid_sample(g, qx, qy, qz)->0) by {
        let i = qz - z + width;
        let j = qy - y + width;
        let k = qx - x + width;
        assert(x - width + k == qx && y - width + j == qy && z - width + i == qz);
        lemma_cube_contains(g, x, y, z, width, c, i, j, k);
    }
}

/// A box pass along `axis` gives every voxel that holds a value the mean
/// of the active values at offsets `-width ..= width` along that axis,
/// weighted by `1 / (2 * width + 1)` at every width.
pub proof fn law_mean_pass_value<V: Filterable>(
    g: GridView<V>,
    width: int,
    axis: usize,
    x: int,
    y: int,
    z: int,
)
    requires
        width >= 0,
        axis < 3,
        grid_sample(g, x, y, z) is Some,
    ensures
        grid_sample(filter_pass(g, width, PassKind::Mean { axis }), x, y, z) == Some(
            V::spec_mean_value(
                some_values(axis_reads(g, x, y, z, axis as int, width, offset_count(width) as nat)),
                2 * width + 1,
            ),
        ),
{
    let kind = PassKind::Mean { axis };
    lemma_sample_after_pass(g, width, kind, x, y, z);
    law_mean_window(g, x, y, z, axis, width);
    let s = neighbourhood(g, x, y, z, width, kind);
    if axis == 0 {
        assert(grid_sample(g, x, y, z) is Some ==> s.contains(grid_sample(g, x, y, z)->0));
    } else if axis == 1 {
        assert(grid_sample(g, x, y, z) is Some ==> s.contains(grid_sample(g, x, y, z)->0));
    } else {
        assert(grid_sample(g, x, y, z) is Some ==> s.contains(grid_sample(g, x, y, z)->0));
    }
    assert(s.len() > 0);
}

/// A median pass gives every voxel that holds a value the median of the
/// active values in the cube `[-width, width]^3` around it: the sample at
/// position `len / 2` once they are sorted.
pub proof fn law_median_pass_value<V: Filterable>(g: GridView<V>, width: int, x: int, y: int, z: int)
    requires
        width >= 0,
        grid_sample(g, x, y, z) is Some,
    ensures
        grid_sample(filter_pass(g, width, PassKind::Median), x, y, z) == Some(
            median_sample(some_values(cube_reads(g, x, y, z, width, offset_count(width) as nat))),
        ),
{
    lemma_sample_after_pass(g, width, PassKind::Median, x, y, z);
    law_median_window(g, x, y, z, width);
    let s = neighbourhood(g, x, y, z, width, PassKind::Median);
    assert(grid_sample(g, x, y, z) is Some ==> s.contains(grid_sample(g, x, y, z)->0));
    assert(s.len() > 0);
}

} // verus!
