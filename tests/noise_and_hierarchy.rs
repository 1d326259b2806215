use libtrace::bvh::{BvhChild, BvhLayout};
use libtrace::perlin::{perlin_generate_perm, Permutations};
use std::collections::BTreeSet;

fn identity() -> Vec<usize> {
    (0..256).collect()
}

fn identity_tables() -> Permutations {
    Permutations { x: identity(), y: identity(), z: identity() }
}

#[test]
fn generated_permutation_holds_each_coordinate_once() {
    let p = perlin_generate_perm();
    let mut sorted = p.clone();
    sorted.sort();
    assert_eq!(sorted, identity());
    // 1 / 256! chance of coming back unshuffled
    assert_ne!(p, identity());
}

#[test]
fn tables_are_independent_permutations() {
    let t = Permutations::new();
    for table in [&t.x, &t.y, &t.z] {
        let mut sorted = table.clone();
        sorted.sort();
        assert_eq!(sorted, identity());
    }
    assert!(t.x != t.y || t.y != t.z);
}

#[test]
fn lattice_hash_xors_wrapped_coordinates() {
    let t = identity_tables();
    assert_eq!(t.lattice_hash(1, 2, 4), 7);
    assert_eq!(t.lattice_hash(256, 0, 0), 0);
    assert_eq!(t.lattice_hash(-1, 0, 0), 255);
    assert_eq!(t.lattice_hash(-256, 513, 3), 1 ^ 3);
}

#[test]
fn lattice_hash_uses_each_table() {
    let reversed: Vec<usize> = (0..256).rev().collect();
    let t = Permutations { x: reversed.clone(), y: identity(), z: identity() };
    assert_eq!(t.lattice_hash(0, 0, 0), 255);
    let t = Permutations { x: identity(), y: reversed.clone(), z: identity() };
    assert_eq!(t.lattice_hash(0, 1, 0), 254);
    let t = Permutations { x: identity(), y: identity(), z: reversed };
    assert_eq!(t.lattice_hash(0, 0, 2), 253);
}

#[test]
fn corners_follow_offset_order() {
    let t = identity_tables();
    let c = t.corner_indices(-1, 0, 255);
    // (i, j, k) wrap to (255, 0, 255); +1 wraps to (0, 1, 0)
    assert_eq!(c, vec![0, 255, 1, 254, 255, 0, 254, 1]);
    let c = t.corner_indices(i32::MAX, i32::MIN, 0);
    assert_eq!(c.len(), 8);
    assert_eq!(c[0], 255 ^ 0 ^ 0);
    assert_eq!(c[7], 0 ^ 1 ^ 1);
}

fn leaves(layout: &BvhLayout, node: usize, out: &mut Vec<usize>) {
    let link = layout.nodes[node];
    for child in [link.left, link.right] {
        match child {
            BvhChild::Item(i) => out.push(i),
            BvhChild::Node(n) => {
                assert!(n < node);
                leaves(layout, n, out);
            }
        }
    }
}

#[test]
fn single_item_fills_both_slots() {
    let layout = BvhLayout::new(&vec![vec![7], vec![7], vec![7]]);
    assert_eq!(layout.nodes.len(), 1);
    assert_eq!(layout.root(), 0);
    assert_eq!(layout.nodes[0].left, BvhChild::Item(0));
    assert_eq!(layout.nodes[0].right, BvhChild::Item(0));
}

#[test]
fn two_items_are_sorted_into_slots() {
    let layout = BvhLayout::new(&vec![vec![5, 1], vec![9, 2], vec![3, 0]]);
    assert_eq!(layout.nodes.len(), 1);
    assert_eq!(layout.nodes[0].left, BvhChild::Item(1));
    assert_eq!(layout.nodes[0].right, BvhChild::Item(0));
    assert!(layout.nodes[0].axis < 3);
}

#[test]
fn larger_lists_split_at_midpoint() {
    let keys: Vec<u32> = vec![40, 10, 30, 0, 20];
    let layout = BvhLayout::new(&vec![keys.clone(), keys.clone(), keys.clone()]);
    // 5 items: 2 | 3, and 3 items: 1 | 2
    assert_eq!(layout.nodes.len(), 5);
    let root = layout.root();
    assert_eq!(root, 4);
    let mut all = Vec::new();
    leaves(&layout, root, &mut all);
    assert_eq!(all, vec![3, 1, 4, 4, 2, 0]);
}

#[test]
fn every_item_is_reachable_and_nodes_split_along_axis() {
    let n = 37usize;
    let keys: Vec<Vec<u32>> = (0..3u32)
        .map(|a| (0..n as u32).map(|i| (i * 7 + a * 13) % 37).collect())
        .collect();
    let layout = BvhLayout::new(&keys);
    let mut all = Vec::new();
    leaves(&layout, layout.root(), &mut all);
    let set: BTreeSet<usize> = all.iter().cloned().collect();
    assert_eq!(set, (0..n).collect::<BTreeSet<usize>>());
    for (idx, link) in layout.nodes.iter().enumerate() {
        assert!(link.axis < 3);
        let side = |c: BvhChild| {
            let mut v = Vec::new();
            match c {
                BvhChild::Item(i) => v.push(i),
                BvhChild::Node(m) => {
                    assert!(m < idx);
                    leaves(&layout, m, &mut v)
                }
            }
            v
        };
        let (l, r) = (side(link.left), side(link.right));
        let max_l = l.iter().map(|&i| keys[link.axis][i]).max().unwrap();
        let min_r = r.iter().map(|&i| keys[link.axis][i]).min().unwrap();
        assert!(max_l <= min_r);
    }
}
