use dynbem_rs::barnes_hut::TreeNode;
use dynbem_rs::merge::{collapse_tree, merge_wanted, Emit};

fn node(children: [i32; 8], particles: Vec<u32>, is_leaf: bool) -> TreeNode {
    TreeNode { children, particles, is_leaf }
}

fn sample_tree() -> Vec<TreeNode> {
    let mut root = [-1; 8];
    root[0] = 1;
    root[3] = 2;
    let mut inner = [-1; 8];
    inner[7] = 3;
    vec![
        node(root, vec![], false),
        node([-1; 8], vec![0, 1, 2], true),
        node(inner, vec![], false),
        node([-1; 8], (3..12).collect(), true),
    ]
}

#[test]
fn nothing_mergeable_keeps_every_particle() {
    let out = collapse_tree(&sample_tree(), &vec![false; 4], 0);
    let expected: Vec<Emit> = (0..12).map(Emit::Particle).collect();
    assert_eq!(out, expected);
}

#[test]
fn mergeable_cell_collapses_its_subtree() {
    let out = collapse_tree(&sample_tree(), &vec![false, false, true, false], 0);
    assert_eq!(
        out,
        vec![Emit::Particle(0), Emit::Particle(1), Emit::Particle(2), Emit::Cell(2)]
    );
    let out = collapse_tree(&sample_tree(), &vec![false, true, false, true], 0);
    assert_eq!(out, vec![Emit::Cell(1), Emit::Cell(3)]);
}

#[test]
fn mergeable_root_collapses_everything() {
    let out = collapse_tree(&sample_tree(), &vec![true, true, true, true], 0);
    assert_eq!(out, vec![Emit::Cell(0)]);
}

#[test]
fn merge_only_large_wakes() {
    assert!(!merge_wanted(0, 0));
    assert!(merge_wanted(1, 0));
    assert!(!merge_wanted(100, 100));
    assert!(merge_wanted(101, 100));
}
