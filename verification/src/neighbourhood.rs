//! The samples that a filter gathers around one voxel.
use vstd::prelude::*;
use crate::grid::LeafView;
use crate::sample::grid_sample;

verus! {

/// How many offsets the range `-width ..= width` holds.
pub open spec fn offset_count(width: int) -> int {
    if width >= 0 {
        2 * width + 1
    } else {
        0
    }
}

/// `(x, y, z)` moved by `d` along `axis` (0 = x, 1 = y, 2 = z).
pub open spec fn shifted(x: int, y: int, z: int, axis: int, d: int) -> (int, int, int) {
    if axis == 0 {
        (x + d, y, z)
    } else if axis == 1 {
        (x, y + d, z)
    } else {
        (x, y, z + d)
    }
}

/// `s` followed by the grid's value at `(x, y, z)`, if it has one.
pub open spec fn push_sample<V>(
    s: Seq<V>,
    g: Seq<Seq<Seq<LeafView<V>>>>,
    x: int,
    y: int,
    z: int,
) -> Seq<V> {
    match grid_sample(g, x, y, z) {
        Some(v) => s.push(v),
        None => s,
    }
}

/// The values found along `axis` at the first `n` offsets of
/// `-width ..= width` from `(x, y, z)`, in increasing order of offset.
pub open spec fn axis_samples<V>(
    g: Seq<Seq<Seq<LeafView<V>>>>,
    x: int,
    y: int,
    z: int,
    axis: int,
    width: int,
    n: nat,
) -> Seq<V>
    decreases n,
{
    if n == 0 {
        Seq::empty()
    } else {
        let p = shifted(x, y, z, axis, -width + n - 1);
        push_sample(axis_samples(g, x, y, z, axis, width, (n - 1) as nat), g, p.0, p.1, p.2)
    }
}

/// The values found in the row `(x + dx, y + dy, z + dz)` for the first `n`
/// offsets `dx` of `-width ..= width`.
pub open spec fn row_samples<V>(
    g: Seq<Seq<Seq<LeafView<V>>>>,
    x: int,
    y: int,
    z: int,
    width: int,
    dy: int,
    dz: int,
    n: nat,
) -> Seq<V>
    decreases n,
{
    if n == 0 {
        Seq::empty()
    } else {
        push_sample(
            row_samples(g, x, y, z, width, dy, dz, (n - 1) as nat),
            g,
            x + (-width + n - 1),
            y + dy,
            z + dz,
        )
    }
}

/// The values found in the plane at offset `dz`, row by row, for the first
/// `n` offsets `dy` of `-width ..= width`.
pub open spec fn plane_samples<V>(
    g: Seq<Seq<Seq<LeafView<V>>>>,
    x: int,
    y: int,
    z: int,
    width: int,
    dz: int,
    n: nat,
) -> Seq<V>
    decreases n,
{
    if n == 0 {
        Seq::empty()
    } else {
        plane_samples(g, x, y, z, width, dz, (n - 1) as nat) + row_samples(
            g,
            x,
            y,
            z,
            width,
            -width + n - 1,
            dz,
            offset_count(width) as nat,
        )
    }
}

/// The values found in the cube of half-width `width` around `(x, y, z)`,
/// plane by plane, for the first `n` offsets `dz` of `-width ..= width`.
pub open spec fn cube_samples<V>(
    g: Seq<Seq<Seq<LeafView<V>>>>,
    x: int,
    y: int,
    z: int,
    width: int,
    n: nat,
) -> Seq<V>
    decreases n,
{
    if n == 0 {
        Seq::empty()
    } else {
        cube_samples(g, x, y, z, width, (n - 1) as nat) + plane_samples(
            g,
            x,
            y,
            z,
            width,
            -width + n - 1,
            offset_count(width) as nat,
        )
    }
}

} // verus!
