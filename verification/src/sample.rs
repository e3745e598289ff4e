//! Looking up the value of a voxel by its coordinate.
use vstd::prelude::*;
use crate::grid::{in_leaf, local_index, LeafView};

verus! {

/// The active value that a leaf holds at `(x, y, z)`, if the position lies
/// inside the leaf, its index lies inside the buffer and the voxel is active.
pub open spec fn leaf_sample<V>(leaf: LeafView<V>, x: int, y: int, z: int) -> Option<V> {
    let lx = x - leaf.origin.x;
    let ly = y - leaf.origin.y;
    let lz = z - leaf.origin.z;
    if in_leaf(lx, ly, lz) {
        let idx = local_index(lx, ly, lz);
        if idx < leaf.buffer.len() && idx < leaf.mask.len() && leaf.mask[idx] {
            Some(leaf.buffer[idx])
        } else {
            None
        }
    } else {
        None
    }
}

/// The first answer that `f` gives over `s`, in order.
pub open spec fn first_sample<A, V>(s: Seq<A>, f: spec_fn(A) -> Option<V>) -> Option<V>
    decreases s.len(),
{
    if s.len() == 0 {
        None
    } else if f(s[0]) is Some {
        f(s[0])
    } else {
        first_sample(s.drop_first(), f)
    }
}

/// Probing one leaf at `(x, y, z)`.
pub open spec fn leaf_probe<V>(x: int, y: int, z: int) -> spec_fn(LeafView<V>) -> Option<V> {
    |l: LeafView<V>| leaf_sample(l, x, y, z)
}

/// Probing the leaves of one internal node at `(x, y, z)`.
pub open spec fn node_probe<V>(x: int, y: int, z: int) -> spec_fn(Seq<LeafView<V>>) -> Option<V> {
    |n: Seq<LeafView<V>>| first_sample(n, leaf_probe(x, y, z))
}

/// Probing the internal nodes of one root node at `(x, y, z)`.
pub open spec fn root_probe<V>(x: int, y: int, z: int) -> spec_fn(Seq<Seq<LeafView<V>>>) -> Option<V> {
    |r: Seq<Seq<LeafView<V>>>| first_sample(r, node_probe(x, y, z))
}

/// The value of the grid at `(x, y, z)`: that of the first leaf, in tree
/// order, whose active voxels include the position; `None` if there is none.
pub open spec fn grid_sample<V>(g: Seq<Seq<Seq<LeafView<V>>>>, x: int, y: int, z: int) -> Option<V> {
    first_sample(g, root_probe(x, y, z))
}

/// Skipping a prefix on which `f` has no answer does not change the first answer.
pub proof fn lemma_first_sample_skip<A, V>(s: Seq<A>, f: spec_fn(A) -> Option<V>, i: int)
    requires
        0 <= i <= s.len(),
        forall|k: int| 0 <= k < i ==> f(#[trigger] s[k]) is None,
    ensures
        first_sample(s, f) == first_sample(s.skip(i), f),
    decreases i,
{
    if i > 0 {
        lemma_first_sample_skip(s, f, i - 1);
        let t = s.skip(i - 1);
        assert(t[0] == s[i - 1]);
        assert(t.drop_first() =~= s.skip(i));
    } else {
        assert(s.skip(0) =~= s);
    }
}

/// The first answer is the answer at the first position that has one.
pub proof fn lemma_first_sample_at<A, V>(s: Seq<A>, f: spec_fn(A) -> Option<V>, i: int)
    requires
        0 <= i < s.len(),
        forall|k: int| 0 <= k < i ==> f(#[trigger] s[k]) is None,
        f(s[i]) is Some,
    ensures
        first_sample(s, f) == f(s[i]),
{
    lemma_first_sample_skip(s, f, i);
    assert(s.skip(i)[0] == s[i]);
}

/// With no answer anywhere, there is no first answer.
pub proof fn lemma_first_sample_none<A, V>(s: Seq<A>, f: spec_fn(A) -> Option<V>)
    requires
        forall|k: int| 0 <= k < s.len() ==> f(#[trigger] s[k]) is None,
    ensures
        first_sample(s, f) is None,
{
    lemma_first_sample_skip(s, f, s.len() as int);
}

/// A first answer is an answer at some position.
pub proof fn lemma_first_sample_found<A, V>(s: Seq<A>, f: spec_fn(A) -> Option<V>)
    requires
        first_sample(s, f) is Some,
    ensures
        exists|k: int| 0 <= k < s.len() && f(s[k]) == first_sample(s, f),
    decreases s.len(),
{
    if f(s[0]) is Some {
        assert(f(s[0]) == first_sample(s, f));
    } else {
        lemma_first_sample_found(s.drop_first(), f);
        let k = choose|k: int| 0 <= k < s.drop_first().len() && f(s.drop_first()[k]) == first_sample(s.drop_first(), f);
        assert(s[k + 1] == s.drop_first()[k]);
    }
}

} // verus!
