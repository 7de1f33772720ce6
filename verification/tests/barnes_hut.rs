use dynbem_rs::barnes_hut::{
    bucket_by_octant, flatten_tree, is_leaf_cell, next_in_walk, octant_index, scratch_capacity,
    try_flatten_tree, FlatLink, TreeNode,
};

fn node(children: [i32; 8], particles: Vec<u32>, is_leaf: bool) -> TreeNode {
    TreeNode { children, particles, is_leaf }
}

/// Root with a three-particle leaf in octant 0 and, in octant 3, an inner
/// cell holding a nine-particle leaf in octant 7.
fn sample_tree() -> Vec<TreeNode> {
    let mut root = [-1; 8];
    root[0] = 1;
    root[3] = 2;
    let mut inner = [-1; 8];
    inner[7] = 3;
    vec![
        node(root, vec![], false),
        node([-1; 8], vec![0, 1, 2], true),
        node(inner, vec![], false),
        node([-1; 8], (3..12).collect(), true),
    ]
}

#[test]
fn flatten_orders_nodes_and_links_escapes() {
    let t = flatten_tree(&sample_tree(), 0);
    assert_eq!(
        t.links,
        vec![
            FlatLink { source: 0, escape: 4, leaf_start: 0, leaf_chunks: 0 },
            FlatLink { source: 1, escape: 2, leaf_start: 0, leaf_chunks: 1 },
            FlatLink { source: 2, escape: 4, leaf_start: 0, leaf_chunks: 0 },
            FlatLink { source: 3, escape: 4, leaf_start: 8, leaf_chunks: 2 },
        ]
    );
}

#[test]
fn flatten_packs_leaves_in_padded_chunks() {
    let t = flatten_tree(&sample_tree(), 0);
    assert_eq!(t.packed.len(), 24);
    let mut expected: Vec<Option<u32>> = vec![Some(0), Some(1), Some(2)];
    expected.extend(std::iter::repeat(None).take(5));
    expected.extend((3..12).map(Some));
    expected.extend(std::iter::repeat(None).take(7));
    assert_eq!(t.packed, expected);
}

#[test]
fn flatten_single_leaf_root() {
    let nodes = vec![node([-1; 8], (0..8).collect(), true)];
    let t = flatten_tree(&nodes, 0);
    assert_eq!(
        t.links,
        vec![FlatLink { source: 0, escape: 1, leaf_start: 0, leaf_chunks: 1 }]
    );
    assert_eq!(t.packed, (0..8).map(Some).collect::<Vec<_>>());
}

#[test]
fn walk_skips_far_cells_and_leaves() {
    let t = flatten_tree(&sample_tree(), 0);
    // Root near: open it.
    assert_eq!(next_in_walk(&t.links, 0, false), 1);
    // Root far: the whole tree is skipped.
    assert_eq!(next_in_walk(&t.links, 0, true), 4);
    // A near leaf is evaluated and skipped.
    assert_eq!(next_in_walk(&t.links, 1, false), 2);
    // A far inner cell skips its subtree.
    assert_eq!(next_in_walk(&t.links, 2, true), 4);
    assert_eq!(next_in_walk(&t.links, 2, false), 3);
}

#[test]
fn every_leaf_is_accepted_once_on_any_walk() {
    let t = flatten_tree(&sample_tree(), 0);
    for mask in 0u32..16 {
        let mut i = 0usize;
        let mut hits = vec![0u32; t.links.len()];
        while i < t.links.len() {
            let far = mask & (1 << i) != 0;
            let accepted = far || t.links[i].leaf_chunks != 0;
            if accepted {
                for j in i..t.links[i].escape as usize {
                    hits[j] += 1;
                }
            }
            i = next_in_walk(&t.links, i, far);
        }
        for (j, l) in t.links.iter().enumerate() {
            if l.leaf_chunks != 0 {
                assert_eq!(hits[j], 1, "leaf {j} under mask {mask}");
            }
        }
    }
}

#[test]
fn leaf_cell_rule() {
    assert!(is_leaf_cell(32, false));
    assert!(!is_leaf_cell(33, false));
    assert!(is_leaf_cell(1000, true));
    assert!(is_leaf_cell(0, false));
}

#[test]
fn octant_bits() {
    assert_eq!(octant_index(false, false, false), 0);
    assert_eq!(octant_index(true, false, false), 1);
    assert_eq!(octant_index(false, true, false), 2);
    assert_eq!(octant_index(false, false, true), 4);
    assert_eq!(octant_index(true, true, true), 7);
}

#[test]
fn buckets_keep_order_and_partition() {
    let idx: Vec<u32> = vec![10, 11, 12, 13, 14, 15];
    let oct: Vec<usize> = vec![3, 0, 3, 7, 0, 3];
    let b = bucket_by_octant(&idx, &oct);
    assert_eq!(b.len(), 8);
    assert_eq!(b[0], vec![11, 14]);
    assert_eq!(b[3], vec![10, 12, 15]);
    assert_eq!(b[7], vec![13]);
    assert!(b[1].is_empty() && b[2].is_empty() && b[4].is_empty());
    assert_eq!(b.iter().map(|v| v.len()).sum::<usize>(), idx.len());
}

#[test]
fn scratch_capacity_rounds_up_to_eight() {
    assert_eq!(scratch_capacity(0), 0);
    assert_eq!(scratch_capacity(1), 8);
    assert_eq!(scratch_capacity(8), 8);
    assert_eq!(scratch_capacity(9), 16);
    assert_eq!(scratch_capacity(17), 24);
}

#[test]
fn try_flatten_refuses_bad_links() {
    let mut bad = sample_tree();
    bad[2].children[7] = 1; // points back to an earlier node
    assert!(try_flatten_tree(&bad, 0).is_none());
    let mut bad = sample_tree();
    bad[0].children[5] = 9; // out of range
    assert!(try_flatten_tree(&bad, 0).is_none());
    let mut bad = sample_tree();
    bad[0].children[5] = -3;
    assert!(try_flatten_tree(&bad, 0).is_none());
    assert!(try_flatten_tree(&sample_tree(), 4).is_none());
    let good = try_flatten_tree(&sample_tree(), 0).unwrap();
    assert_eq!(good.links, flatten_tree(&sample_tree(), 0).links);
    assert_eq!(good.packed, flatten_tree(&sample_tree(), 0).packed);
}

#[test]
fn subtree_flatten_from_inner_root() {
    let t = flatten_tree(&sample_tree(), 2);
    assert_eq!(
        t.links,
        vec![
            FlatLink { source: 2, escape: 2, leaf_start: 0, leaf_chunks: 0 },
            FlatLink { source: 3, escape: 2, leaf_start: 0, leaf_chunks: 2 },
        ]
    );
    assert_eq!(t.packed.len(), 16);
}
