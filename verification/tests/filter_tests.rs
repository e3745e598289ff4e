use vdb_filter::coord::Coord;
use vdb_filter::filter::{Filter, FilterConfig};
use vdb_filter::filterable::Filterable;
use vdb_filter::grid::{Grid, InternalNode, LeafNode, RootNode, Tree, LEAF_SIZE};

/// An integer density: the box filter divides the sum by the kernel size,
/// the median picks the sorted sample at `len / 2`.
#[derive(Clone, Copy, Debug, PartialEq)]
struct Density(i64);

impl Filterable for Density {
    fn add_value(self, other: Self) -> Self {
        Density(self.0 + other.0)
    }

    fn mean_value(samples: &Vec<Self>, kernel_size: i32) -> Self {
        let sum: i64 = samples.iter().map(|d| d.0).sum();
        Density(sum / kernel_size as i64)
    }

    fn precedes(&self, other: &Self) -> bool {
        self.0 < other.0
    }
}

/// A value that records how many samples a filter read.
#[derive(Clone, Copy, Debug, PartialEq)]
struct Tally(i64);

impl Filterable for Tally {
    fn add_value(self, other: Self) -> Self {
        Tally(self.0 + other.0)
    }

    fn mean_value(samples: &Vec<Self>, _kernel_size: i32) -> Self {
        Tally(samples.len() as i64)
    }

    fn precedes(&self, other: &Self) -> bool {
        self.0 < other.0
    }
}

/// A 32-bit float density, averaged as `sum * (1 / kernel_size)`.
#[derive(Clone, Copy, Debug, PartialEq)]
struct Float(f32);

impl Filterable for Float {
    fn add_value(self, other: Self) -> Self {
        Float(self.0 + other.0)
    }

    fn mean_value(samples: &Vec<Self>, kernel_size: i32) -> Self {
        let weight = 1.0 / kernel_size as f32;
        let mut sum = 0.0f32;
        for s in samples {
            sum += s.0;
        }
        Float(sum * weight)
    }

    fn precedes(&self, other: &Self) -> bool {
        self.0.partial_cmp(&other.0).unwrap() == std::cmp::Ordering::Less
    }
}

fn index(x: usize, y: usize, z: usize) -> usize {
    z * 64 + y * 8 + x
}

/// A leaf at `origin` whose listed voxels are active with the given values;
/// every other voxel is inactive and holds `background`.
fn leaf<V: Copy>(origin: Coord, active: &[((usize, usize, usize), V)], background: V) -> LeafNode<V> {
    let mut mask = vec![false; LEAF_SIZE];
    let mut buffer = vec![background; LEAF_SIZE];
    for &((x, y, z), v) in active {
        mask[index(x, y, z)] = true;
        buffer[index(x, y, z)] = v;
    }
    LeafNode::new(origin, mask, buffer).unwrap()
}

fn single_leaf_grid<V: Copy>(l: LeafNode<V>) -> Grid<V> {
    Grid {
        tree: Tree {
            root_nodes: vec![RootNode { nodes: vec![InternalNode { nodes: vec![l] }] }],
        },
    }
}

fn value_at<V: Copy>(g: &Grid<V>, r: usize, n: usize, l: usize, voxel: (usize, usize, usize)) -> V {
    g.tree.root_nodes[r].nodes[n].nodes[l].buffer()[index(voxel.0, voxel.1, voxel.2)]
}

fn buffers<V: Copy>(g: &Grid<V>) -> Vec<Vec<V>> {
    let mut out = Vec::new();
    for r in &g.tree.root_nodes {
        for n in &r.nodes {
            for l in &n.nodes {
                out.push(l.buffer().clone());
            }
        }
    }
    out
}

fn origin() -> Coord {
    Coord::new(0, 0, 0)
}

#[test]
fn default_config_is_width_one_one_iteration() {
    let c = FilterConfig::default();
    assert_eq!(c.width, 1);
    assert_eq!(c.iterations, 1);
}

#[test]
fn leaf_needs_one_mask_entry_per_voxel() {
    assert!(LeafNode::new(origin(), vec![false; 511], vec![Density(0); 512]).is_none());
    assert!(LeafNode::new(origin(), vec![false; 512], vec![Density(0); 513]).is_none());
    assert!(LeafNode::new(origin(), vec![false; 512], vec![Density(0); 3]).is_some());
    let l = LeafNode::new(Coord::new(8, 16, -8), vec![true; 512], vec![Density(4); 512]).unwrap();
    assert_eq!(l.origin(), Coord::new(8, 16, -8));
    assert_eq!(l.value_mask().len(), 512);
    assert_eq!(l.buffer()[511], Density(4));
}

#[test]
fn mean_of_lone_voxel_divides_by_kernel_size_per_axis() {
    // x pass: 30 / 3 = 10, z pass: 10 / 3 = 3, y pass: 3 / 3 = 1.
    let g = single_leaf_grid(leaf(origin(), &[((0, 0, 0), Density(30))], Density(-1)));
    let out = Filter::new(&g).mean(FilterConfig { width: 1, iterations: 1 });
    assert_eq!(value_at(&out, 0, 0, 0, (0, 0, 0)), Density(1));
    assert_eq!(value_at(&out, 0, 0, 0, (1, 0, 0)), Density(-1));
}

#[test]
fn mean_pairs_voxels_along_x() {
    // x pass: both see [30, 60] -> 30; z pass: 10; y pass: 3.
    let g = single_leaf_grid(leaf(
        origin(),
        &[((0, 0, 0), Density(30)), ((1, 0, 0), Density(60))],
        Density(0),
    ));
    let out = Filter::new(&g).mean(FilterConfig { width: 1, iterations: 1 });
    assert_eq!(value_at(&out, 0, 0, 0, (0, 0, 0)), Density(3));
    assert_eq!(value_at(&out, 0, 0, 0, (1, 0, 0)), Density(3));
}

#[test]
fn mean_reads_across_leaves_and_nodes() {
    let a = leaf(origin(), &[((7, 0, 0), Density(30))], Density(0));
    let b = leaf(Coord::new(8, 0, 0), &[((0, 0, 0), Density(60))], Density(0));
    let g = Grid {
        tree: Tree {
            root_nodes: vec![
                RootNode { nodes: vec![InternalNode { nodes: vec![a] }] },
                RootNode { nodes: vec![InternalNode { nodes: vec![] }, InternalNode { nodes: vec![b] }] },
            ],
        },
    };
    let out = Filter::new(&g).mean(FilterConfig { width: 1, iterations: 1 });
    // x pass: both read [30, 60] -> 30; z: 10; y: 3.
    assert_eq!(value_at(&out, 0, 0, 0, (7, 0, 0)), Density(3));
    assert_eq!(value_at(&out, 1, 1, 0, (0, 0, 0)), Density(3));
    assert_eq!(out.tree.root_nodes[1].nodes[0].nodes.len(), 0);
}

#[test]
fn mean_window_reads_one_row_per_axis() {
    let g = single_leaf_grid(LeafNode::new(origin(), vec![true; 512], vec![Tally(0); 512]).unwrap());
    let out = Filter::new(&g).mean(FilterConfig { width: 1, iterations: 1 });
    assert_eq!(value_at(&out, 0, 0, 0, (3, 3, 3)), Tally(3));
    assert_eq!(value_at(&out, 0, 0, 0, (0, 3, 3)), Tally(3));
    let wide = Filter::new(&g).mean(FilterConfig { width: 2, iterations: 1 });
    assert_eq!(value_at(&wide, 0, 0, 0, (3, 3, 3)), Tally(5));
    // On the edge of the only leaf, only the neighbours inside it are read.
    assert_eq!(value_at(&wide, 0, 0, 0, (0, 3, 3)), Tally(5));
}

#[test]
fn median_window_reads_a_cube() {
    // Every voxel holds its own buffer index, so each median names a voxel.
    let values: Vec<Density> = (0..512).map(|i| Density(i as i64)).collect();
    let g = single_leaf_grid(LeafNode::new(origin(), vec![true; 512], values).unwrap());
    let out = Filter::new(&g).median(FilterConfig { width: 1, iterations: 1 });
    // Inside the leaf the 27 neighbours are symmetric about the voxel.
    assert_eq!(value_at(&out, 0, 0, 0, (3, 3, 3)), Density(index(3, 3, 3) as i64));
    // In a corner: {0, 1, 8, 9, 64, 65, 72, 73}, position 4 is 64.
    assert_eq!(value_at(&out, 0, 0, 0, (0, 0, 0)), Density(64));
    let wide = Filter::new(&g).median(FilterConfig { width: 2, iterations: 1 });
    assert_eq!(value_at(&wide, 0, 0, 0, (4, 4, 4)), Density(index(4, 4, 4) as i64));
}

#[test]
fn median_picks_upper_middle_of_sorted_row() {
    // Voxels (0,0,0), (1,0,0), (2,0,0) hold 1, 5, 3: neighbourhoods
    // {1, 5}, {1, 5, 3}, {5, 3} give 5, 3, 5; a second pass gives 5, 5, 5.
    let g = single_leaf_grid(leaf(
        origin(),
        &[((0, 0, 0), Density(1)), ((1, 0, 0), Density(5)), ((2, 0, 0), Density(3))],
        Density(0),
    ));
    let once = Filter::new(&g).median(FilterConfig { width: 1, iterations: 1 });
    assert_eq!(value_at(&once, 0, 0, 0, (0, 0, 0)), Density(5));
    assert_eq!(value_at(&once, 0, 0, 0, (1, 0, 0)), Density(3));
    assert_eq!(value_at(&once, 0, 0, 0, (2, 0, 0)), Density(5));
    let twice = Filter::new(&g).median(FilterConfig { width: 1, iterations: 2 });
    for x in 0..3 {
        assert_eq!(value_at(&twice, 0, 0, 0, (x, 0, 0)), Density(5));
    }
}

#[test]
fn median_width_zero_and_constant_field_are_fixed() {
    let g = single_leaf_grid(leaf(
        origin(),
        &[((0, 0, 0), Density(4)), ((1, 0, 0), Density(-2)), ((5, 5, 5), Density(9))],
        Density(0),
    ));
    let same = Filter::new(&g).median(FilterConfig { width: 0, iterations: 3 });
    assert_eq!(buffers(&same), buffers(&g));
    let flat = single_leaf_grid(LeafNode::new(origin(), vec![true; 512], vec![Density(6); 512]).unwrap());
    let out = Filter::new(&flat).median(FilterConfig { width: 2, iterations: 2 });
    assert_eq!(buffers(&out), buffers(&flat));
}

#[test]
fn median_of_three_neighbours() {
    let g = single_leaf_grid(leaf(
        origin(),
        &[((0, 0, 0), Density(5)), ((1, 0, 0), Density(1)), ((0, 1, 0), Density(9))],
        Density(100),
    ));
    let out = Filter::new(&g).median(FilterConfig { width: 1, iterations: 1 });
    assert_eq!(value_at(&out, 0, 0, 0, (0, 0, 0)), Density(5));
    assert_eq!(value_at(&out, 0, 0, 0, (1, 0, 0)), Density(5));
    assert_eq!(value_at(&out, 0, 0, 0, (0, 1, 0)), Density(5));
    assert_eq!(value_at(&out, 0, 0, 0, (5, 5, 5)), Density(100));
}

#[test]
fn median_of_two_takes_the_upper() {
    let g = single_leaf_grid(leaf(
        origin(),
        &[((2, 2, 2), Density(1)), ((3, 3, 3), Density(7))],
        Density(0),
    ));
    let out = Filter::new(&g).median(FilterConfig { width: 1, iterations: 2 });
    assert_eq!(value_at(&out, 0, 0, 0, (2, 2, 2)), Density(7));
    assert_eq!(value_at(&out, 0, 0, 0, (3, 3, 3)), Density(7));
}

#[test]
fn offset_adds_to_active_voxels_only() {
    let g = single_leaf_grid(leaf(
        origin(),
        &[((0, 0, 0), Density(5)), ((7, 7, 7), Density(-3))],
        Density(11),
    ));
    let out = Filter::new(&g).offset(Density(4));
    assert_eq!(value_at(&out, 0, 0, 0, (0, 0, 0)), Density(9));
    assert_eq!(value_at(&out, 0, 0, 0, (7, 7, 7)), Density(1));
    assert_eq!(value_at(&out, 0, 0, 0, (1, 0, 0)), Density(11));
    assert_eq!(out.tree.root_nodes[0].nodes[0].nodes[0].value_mask(), g.tree.root_nodes[0].nodes[0].nodes[0].value_mask());
}

#[test]
fn gaussian_is_four_mean_iterations_each() {
    let g = single_leaf_grid(leaf(
        origin(),
        &[((3, 3, 3), Density(90000)), ((4, 3, 3), Density(30000)), ((3, 4, 3), Density(600))],
        Density(0),
    ));
    let f = Filter::new(&g);
    let gauss = f.gaussian(FilterConfig { width: 1, iterations: 2 });
    let mean = f.mean(FilterConfig { width: 1, iterations: 8 });
    assert_eq!(buffers(&gauss), buffers(&mean));
    let once = f.gaussian(FilterConfig { width: 1, iterations: 1 });
    assert_ne!(buffers(&once), buffers(&gauss));
}

#[test]
fn zero_iterations_return_the_grid() {
    let g = single_leaf_grid(leaf(origin(), &[((1, 2, 3), Density(42))], Density(7)));
    let f = Filter::new(&g);
    assert_eq!(buffers(&f.mean(FilterConfig { width: 1, iterations: 0 })), buffers(&g));
    assert_eq!(buffers(&f.median(FilterConfig { width: 1, iterations: 0 })), buffers(&g));
    assert_eq!(buffers(&f.gaussian(FilterConfig { width: 3, iterations: 0 })), buffers(&g));
}

#[test]
fn negative_width_leaves_the_grid_unchanged() {
    let g = single_leaf_grid(leaf(
        origin(),
        &[((1, 2, 3), Density(42)), ((1, 2, 4), Density(8))],
        Density(7),
    ));
    let f = Filter::new(&g);
    assert_eq!(buffers(&f.mean(FilterConfig { width: -1, iterations: 3 })), buffers(&g));
    assert_eq!(buffers(&f.median(FilterConfig { width: -2, iterations: 2 })), buffers(&g));
}

#[test]
fn mean_iterations_compose() {
    let g = single_leaf_grid(leaf(
        origin(),
        &[((3, 3, 3), Density(81000)), ((4, 3, 3), Density(2700)), ((3, 3, 4), Density(900))],
        Density(0),
    ));
    let twice = Filter::new(&g).mean(FilterConfig { width: 1, iterations: 2 });
    let once = Filter::new(&g).mean(FilterConfig { width: 1, iterations: 1 });
    let again = Filter::new(&once).mean(FilterConfig { width: 1, iterations: 1 });
    assert_eq!(buffers(&twice), buffers(&again));
}

#[test]
fn median_iterations_compose() {
    let g = single_leaf_grid(leaf(
        origin(),
        &[((3, 3, 3), Density(1)), ((4, 3, 3), Density(2)), ((5, 3, 3), Density(9)), ((6, 3, 3), Density(4))],
        Density(0),
    ));
    let twice = Filter::new(&g).median(FilterConfig { width: 1, iterations: 2 });
    let once = Filter::new(&g).median(FilterConfig { width: 1, iterations: 1 });
    let again = Filter::new(&once).median(FilterConfig { width: 1, iterations: 1 });
    assert_eq!(buffers(&twice), buffers(&again));
}

#[test]
fn filters_keep_layout_and_inactive_values() {
    let a = leaf(Coord::new(-8, 0, 0), &[((7, 1, 1), Density(10))], Density(3));
    let b = leaf(origin(), &[((0, 1, 1), Density(20)), ((1, 1, 1), Density(40))], Density(5));
    let g = Grid {
        tree: Tree { root_nodes: vec![RootNode { nodes: vec![InternalNode { nodes: vec![a, b] }] }] },
    };
    let f = Filter::new(&g);
    for out in [
        f.mean(FilterConfig { width: 2, iterations: 2 }),
        f.median(FilterConfig { width: 1, iterations: 1 }),
        f.offset(Density(1)),
    ] {
        let before = &g.tree.root_nodes[0].nodes[0].nodes;
        let after = &out.tree.root_nodes[0].nodes[0].nodes;
        assert_eq!(after.len(), 2);
        for (l0, l1) in before.iter().zip(after.iter()) {
            assert_eq!(l0.origin(), l1.origin());
            assert_eq!(l0.value_mask(), l1.value_mask());
            for i in 0..512 {
                if !l0.value_mask()[i] {
                    assert_eq!(l0.buffer()[i], l1.buffer()[i]);
                }
            }
        }
    }
}

#[test]
fn float_mean_weights_by_kernel_size() {
    let g = single_leaf_grid(leaf(
        origin(),
        &[((2, 2, 2), Float(3.0)), ((3, 2, 2), Float(6.0))],
        Float(0.0),
    ));
    let out = Filter::new(&g).mean(FilterConfig { width: 1, iterations: 1 });
    // x pass: (3 + 6) / 3 = 3 for both; z pass: 1; y pass: 1/3.
    let v = value_at(&out, 0, 0, 0, (2, 2, 2)).0;
    assert!((v - 1.0 / 3.0).abs() < 1e-5);
    let median = Filter::new(&g).median(FilterConfig { width: 1, iterations: 1 });
    assert_eq!(value_at(&median, 0, 0, 0, (2, 2, 2)), Float(6.0));
}

#[test]
fn leaves_far_from_origin() {
    let far = Coord::new(i32::MAX - 7, i32::MIN, 1 << 20);
    let g = single_leaf_grid(leaf(far, &[((0, 0, 0), Density(9)), ((0, 0, 1), Density(18))], Density(0)));
    let f = Filter::new(&g);
    // Width 0: every voxel reads only itself, so the mean divides by one.
    let out = f.mean(FilterConfig { width: 0, iterations: 1 });
    assert_eq!(value_at(&out, 0, 0, 0, (0, 0, 0)), Density(9));
    let med = f.median(FilterConfig { width: 0, iterations: 1 });
    assert_eq!(value_at(&med, 0, 0, 0, (0, 0, 1)), Density(18));
}

#[test]
fn median_of_extreme_width_without_active_voxels() {
    let g = single_leaf_grid(LeafNode::new(origin(), vec![false; 512], vec![Density(3); 512]).unwrap());
    let out = Filter::new(&g).median(FilterConfig { width: i32::MIN, iterations: 2 });
    assert_eq!(buffers(&out), buffers(&g));
}

#[test]
fn moving_the_grid_moves_the_result() {
    let voxels = [((0, 0, 0), Density(900)), ((1, 0, 0), Density(300)), ((1, 1, 0), Density(60))];
    let g = single_leaf_grid(leaf(origin(), &voxels, Density(0)));
    let moved = single_leaf_grid(leaf(Coord::new(8, -16, 24), &voxels, Density(0)));
    let config = || FilterConfig { width: 1, iterations: 2 };
    let a = Filter::new(&g).mean(config());
    let b = Filter::new(&moved).mean(config());
    assert_eq!(buffers(&a), buffers(&b));
    assert_eq!(b.tree.root_nodes[0].nodes[0].nodes[0].origin(), Coord::new(8, -16, 24));
    let c = Filter::new(&g).median(config());
    let d = Filter::new(&moved).median(config());
    assert_eq!(buffers(&c), buffers(&d));
}

#[test]
fn far_voxels_do_not_reach() {
    let near = [((0, 0, 0), Density(300)), ((1, 0, 0), Density(90))];
    let g1 = single_leaf_grid(leaf(origin(), &[near[0], near[1], ((5, 5, 5), Density(99999))], Density(0)));
    let g2 = single_leaf_grid(leaf(origin(), &[near[0], near[1], ((5, 5, 5), Density(-7000))], Density(0)));
    let config = || FilterConfig { width: 1, iterations: 2 };
    let a = Filter::new(&g1).mean(config());
    let b = Filter::new(&g2).mean(config());
    assert_eq!(value_at(&a, 0, 0, 0, (0, 0, 0)), value_at(&b, 0, 0, 0, (0, 0, 0)));
    assert_ne!(value_at(&a, 0, 0, 0, (5, 5, 5)), value_at(&b, 0, 0, 0, (5, 5, 5)));
    let c = Filter::new(&g1).median(config());
    let d = Filter::new(&g2).median(config());
    assert_eq!(value_at(&c, 0, 0, 0, (1, 0, 0)), value_at(&d, 0, 0, 0, (1, 0, 0)));
}

#[test]
fn median_values_come_from_the_grid() {
    let voxels = [((2, 2, 2), Density(-4)), ((3, 2, 2), Density(17)), ((2, 3, 2), Density(8)), ((4, 4, 4), Density(2))];
    let g = single_leaf_grid(leaf(origin(), &voxels, Density(0)));
    let out = Filter::new(&g).median(FilterConfig { width: 2, iterations: 3 });
    let before: Vec<i64> = voxels.iter().map(|v| v.1 .0).collect();
    for &((x, y, z), _) in &voxels {
        let v = value_at(&out, 0, 0, 0, (x, y, z)).0;
        assert!(before.contains(&v));
        assert!(v >= -4 && v <= 17);
    }
}

#[test]
fn short_buffers_are_kept() {
    let mut mask = vec![false; 512];
    mask[0] = true;
    mask[100] = true;
    let buffer = vec![Density(27); 10];
    let l = LeafNode::new(origin(), mask, buffer).unwrap();
    assert_eq!(l.buffer().len(), 10);
    let g = single_leaf_grid(l);
    let shifted = Filter::new(&g).offset(Density(3));
    assert_eq!(buffers(&shifted), vec![{
        let mut b = vec![Density(27); 10];
        b[0] = Density(30);
        b
    }]);
    // Voxel 100 lies beyond the buffer and has no active neighbour: nothing
    // is written there. Voxel 0 reads itself alone: 27 / 3 / 3 / 3 = 1.
    let out = Filter::new(&g).mean(FilterConfig { width: 1, iterations: 1 });
    assert_eq!(out.tree.root_nodes[0].nodes[0].nodes[0].buffer().len(), 10);
    assert_eq!(value_at(&out, 0, 0, 0, (0, 0, 0)), Density(1));
    let med = Filter::new(&g).median(FilterConfig { width: 1, iterations: 1 });
    assert_eq!(buffers(&med), buffers(&g));
}
