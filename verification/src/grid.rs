//! The sparse grid: a tree of root nodes, internal nodes and leaf nodes,
//! where each leaf holds a dense 8 x 8 x 8 block of voxels.
use vstd::prelude::*;
use crate::coord::Coord;
use crate::sample::leaf_sample;

verus! {

/// Voxels along one edge of a leaf.
pub const LEAF_DIM: i32 = 8;

/// Voxels in one leaf.
pub const LEAF_SIZE: usize = 512;

/// What a leaf holds: the coordinate of its first voxel, which voxels are
/// active, and a value for every voxel.
pub struct LeafView<V> {
    pub origin: Coord,
    pub mask: Seq<bool>,
    pub buffer: Seq<V>,
}

/// Index of the voxel at local position `(x, y, z)` in a leaf's buffer.
pub open spec fn local_index(x: int, y: int, z: int) -> int {
    z * 64 + y * 8 + x
}

/// Whether the local position lies inside a leaf.
pub open spec fn in_leaf(x: int, y: int, z: int) -> bool {
    0 <= x < 8 && 0 <= y < 8 && 0 <= z < 8
}

/// A dense block of 8 x 8 x 8 voxels.
pub struct LeafNode<V> {
    origin: Coord,
    value_mask: Vec<bool>,
    buffer: Vec<V>,
}

impl<V> View for LeafNode<V> {
    type V = LeafView<V>;

    closed spec fn view(&self) -> LeafView<V> {
        LeafView { origin: self.origin, mask: self.value_mask@, buffer: self.buffer@ }
    }
}

/// Makes a copy of a vector of plain values.
pub fn copy_vec<T: Copy>(v: &Vec<T>) -> (r: Vec<T>)
    ensures
        r@ == v@,
{
    let mut r: Vec<T> = Vec::new();
    let mut i: usize = 0;
    while i < v.len()
        invariant
            i <= v@.len(),
            r@ == v@.take(i as int),
        decreases v@.len() - i,
    {
        r.push(v[i]);
        i += 1;
        assert(r@ =~= v@.take(i as int));
    }
    assert(v@.take(v@.len() as int) =~= v@);
    r
}

impl<V> LeafNode<V> {
    #[verifier::type_invariant]
    closed spec fn well_formed(self) -> bool {
        self.value_mask@.len() == LEAF_SIZE && self.buffer@.len() <= LEAF_SIZE
    }
}

impl<V: Copy> LeafNode<V> {

    /// Builds a leaf from its origin, its activity mask and its values;
    /// `None` unless the mask holds one entry per voxel and the buffer at
    /// most one value per voxel.
    pub fn new(origin: Coord, value_mask: Vec<bool>, buffer: Vec<V>) -> (r: Option<Self>)
        ensures
            r is Some <==> (value_mask@.len() == LEAF_SIZE && buffer@.len() <= LEAF_SIZE),
            r matches Some(leaf) ==> leaf@ == (LeafView { origin, mask: value_mask@, buffer: buffer@ }),
    {
        if value_mask.len() == LEAF_SIZE && buffer.len() <= LEAF_SIZE {
            Some(LeafNode { origin, value_mask, buffer })
        } else {
            None
        }
    }

    /// The coordinate of the leaf's voxel at local position (0, 0, 0).
    pub fn origin(&self) -> (r: Coord)
        ensures
            r == self@.origin,
    {
        self.origin
    }

    /// Which voxels are active.
    pub fn value_mask(&self) -> (r: &Vec<bool>)
        ensures
            r@ == self@.mask,
            r@.len() == LEAF_SIZE,
    {
        proof {
            use_type_invariant(self);
        }
        &self.value_mask
    }

    /// The value of every voxel, active or not.
    pub fn buffer(&self) -> (r: &Vec<V>)
        ensures
            r@ == self@.buffer,
            r@.len() <= LEAF_SIZE,
    {
        proof {
            use_type_invariant(self);
        }
        &self.buffer
    }

    /// The same leaf with its values replaced.
    pub fn with_buffer(&self, buffer: Vec<V>) -> (r: Self)
        requires
            buffer@.len() <= LEAF_SIZE,
        ensures
            r@ == (LeafView { origin: self@.origin, mask: self@.mask, buffer: buffer@ }),
    {
        proof {
            use_type_invariant(self);
        }
        LeafNode { origin: self.origin, value_mask: copy_vec(&self.value_mask), buffer }
    }
}

impl<V: Copy> Clone for LeafNode<V> {
    fn clone(&self) -> (r: Self)
        ensures
            r@ == self@,
    {
        proof {
            use_type_invariant(self);
        }
        LeafNode {
            origin: self.origin,
            value_mask: copy_vec(&self.value_mask),
            buffer: copy_vec(&self.buffer),
        }
    }
}

/// An internal node: the leaves below it.
pub struct InternalNode<V> {
    pub nodes: Vec<LeafNode<V>>,
}

impl<V> View for InternalNode<V> {
    type V = Seq<LeafView<V>>;

    open spec fn view(&self) -> Seq<LeafView<V>> {
        self.nodes@.map_values(|l: LeafNode<V>| l@)
    }
}

/// A root node: the internal nodes below it.
pub struct RootNode<V> {
    pub nodes: Vec<InternalNode<V>>,
}

impl<V> View for RootNode<V> {
    type V = Seq<Seq<LeafView<V>>>;

    open spec fn view(&self) -> Seq<Seq<LeafView<V>>> {
        self.nodes@.map_values(|n: InternalNode<V>| n@)
    }
}

/// The tree of a grid: its root nodes.
pub struct Tree<V> {
    pub root_nodes: Vec<RootNode<V>>,
}

/// A sparse voxel grid.
pub struct Grid<V> {
    pub tree: Tree<V>,
}

impl<V> View for Grid<V> {
    type V = Seq<Seq<Seq<LeafView<V>>>>;

    open spec fn view(&self) -> Seq<Seq<Seq<LeafView<V>>>> {
        self.tree.root_nodes@.map_values(|r: RootNode<V>| r@)
    }
}

impl<V: Copy> Clone for InternalNode<V> {
    fn clone(&self) -> (r: Self)
        ensures
            r@ == self@,
    {
        let mut nodes: Vec<LeafNode<V>> = Vec::new();
        let mut k: usize = 0;
        while k < self.nodes.len()
            invariant
                k <= self.nodes@.len(),
                nodes@.len() == k,
                forall|m: int| 0 <= m < k ==> (#[trigger] nodes@[m])@ == self.nodes@[m]@,
            decreases self.nodes@.len() - k,
        {
            nodes.push(self.nodes[k].clone());
            k += 1;
        }
        let r = InternalNode { nodes };
        assert(r@ =~= self@);
        r
    }
}

impl<V: Copy> Clone for RootNode<V> {
    fn clone(&self) -> (r: Self)
        ensures
            r@ == self@,
    {
        let mut nodes: Vec<InternalNode<V>> = Vec::new();
        let mut j: usize = 0;
        while j < self.nodes.len()
            invariant
                j <= self.nodes@.len(),
                nodes@.len() == j,
                forall|m: int| 0 <= m < j ==> (#[trigger] nodes@[m])@ == self.nodes@[m]@,
            decreases self.nodes@.len() - j,
        {
            nodes.push(self.nodes[j].clone());
            j += 1;
        }
        let r = RootNode { nodes };
        assert(r@ =~= self@);
        r
    }
}

impl<V: Copy> Clone for Grid<V> {
    fn clone(&self) -> (r: Self)
        ensures
            r@ == self@,
    {
        let mut roots: Vec<RootNode<V>> = Vec::new();
        let mut i: usize = 0;
        while i < self.tree.root_nodes.len()
            invariant
                i <= self.tree.root_nodes@.len(),
                roots@.len() == i,
                forall|m: int| 0 <= m < i ==> (#[trigger] roots@[m])@ == self.tree.root_nodes@[m]@,
            decreases self.tree.root_nodes@.len() - i,
        {
            roots.push(self.tree.root_nodes[i].clone());
            i += 1;
        }
        let r = Grid { tree: Tree { root_nodes: roots } };
        assert(r@ =~= self@);
        r
    }
}

impl<V: Copy> LeafNode<V> {
    /// The leaf's active value at `coord`, if it has one there.
    pub fn sample(&self, coord: Coord) -> (r: Option<V>)
        ensures
            r == leaf_sample(self@, coord.x as int, coord.y as int, coord.z as int),
    {
        proof {
            use_type_invariant(self);
        }
        let origin = self.origin;
        let lx: i64 = coord.x as i64 - origin.x as i64;
        let ly: i64 = coord.y as i64 - origin.y as i64;
        let lz: i64 = coord.z as i64 - origin.z as i64;
        if lx >= 0 && lx < 8 && ly >= 0 && ly < 8 && lz >= 0 && lz < 8 {
            let idx: usize = (lz * 64 + ly * 8 + lx) as usize;
            if idx < self.buffer.len() && self.value_mask[idx] {
                return Some(self.buffer[idx]);
            }
        }
        None
    }
}

} // verus!
