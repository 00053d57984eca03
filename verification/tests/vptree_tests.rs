use img_dup::bithash::BitHash;
use img_dup::collate::{collate, collate_images, neighbours_of};
use img_dup::error::ErrorKind;
use img_dup::hash::CompareMode;
use img_dup::model::{HashedImage, Image, ImageDistFn};
use img_dup::vptree::{Neighbor, VpTree};

fn hash_of(value: u64, bits: usize) -> BitHash {
    let bools: Vec<bool> = (0..bits).map(|i| (value >> i) & 1 == 1).collect();
    BitHash::from_bools(&bools)
}

fn item(name: &str, value: u64, bits: usize) -> HashedImage {
    HashedImage {
        image: Image { path: name.to_string(), dimensions: (1, 1), loaded_size: 4, load_time: 0 },
        hash: hash_of(value, bits),
        hash_time: 0,
    }
}

fn items_of(values: &[u64], bits: usize) -> Vec<HashedImage> {
    values.iter().enumerate().map(|(i, v)| item(&format!("{}.png", i), *v, bits)).collect()
}

fn brute_force(values: &[u64], query: u64, skip: Option<usize>) -> Vec<Neighbor> {
    let mut all: Vec<Neighbor> = values
        .iter()
        .enumerate()
        .filter(|(i, _)| Some(*i) != skip)
        .map(|(i, v)| Neighbor { index: i, dist: (v ^ query).count_ones() as u64 })
        .collect();
    all.sort_by_key(|n| (n.dist, n.index));
    all
}

fn sample_values(count: usize, seed: u64, mask: u64) -> Vec<u64> {
    let mut state = seed;
    let mut out = Vec::new();
    for _ in 0..count {
        state = state.wrapping_mul(6364136223846793005).wrapping_add(1442695040888963407);
        out.push((state >> 16) & mask);
    }
    out
}

#[test]
fn nearest_are_in_order_of_distance_then_position() {
    let values = [0b0000_0000u64, 0b0000_0001, 0b0000_0011, 0b1111_1111, 0b0000_0000];
    let tree = VpTree::build(items_of(&values, 8)).unwrap();
    let query = hash_of(0, 8);
    assert_eq!(
        tree.k_nearest(&query, 3).unwrap(),
        vec![
            Neighbor { index: 0, dist: 0 },
            Neighbor { index: 4, dist: 0 },
            Neighbor { index: 1, dist: 1 },
        ]
    );
    assert_eq!(tree.k_nearest(&query, 0).unwrap(), vec![]);
    assert_eq!(tree.k_nearest(&query, 1).unwrap(), vec![Neighbor { index: 0, dist: 0 }]);
}

#[test]
fn asking_for_more_than_there_is_gives_all() {
    let values = [3u64, 5, 6];
    let tree = VpTree::build(items_of(&values, 4)).unwrap();
    let got = tree.k_nearest(&hash_of(7, 4), 10).unwrap();
    assert_eq!(
        got,
        vec![
            Neighbor { index: 0, dist: 1 },
            Neighbor { index: 1, dist: 1 },
            Neighbor { index: 2, dist: 1 },
        ]
    );
    assert_eq!(tree.len(), 3);
    assert!(!tree.is_empty());
}

#[test]
fn within_gives_all_inside_the_radius() {
    let values = [0b0000_0000u64, 0b0000_0001, 0b0000_0011, 0b1111_1111, 0b0000_0000];
    let tree = VpTree::build(items_of(&values, 8)).unwrap();
    let query = hash_of(0, 8);
    assert_eq!(
        tree.within(&query, 1).unwrap(),
        vec![
            Neighbor { index: 0, dist: 0 },
            Neighbor { index: 4, dist: 0 },
            Neighbor { index: 1, dist: 1 },
        ]
    );
    assert_eq!(tree.within(&query, 8).unwrap().len(), 5);
    assert_eq!(tree.within(&hash_of(0b0111_1111, 8), 0).unwrap(), vec![]);
    assert_eq!(
        tree.within(&hash_of(0b1111_1111, 8), 0).unwrap(),
        vec![Neighbor { index: 3, dist: 0 }]
    );
}

#[test]
fn an_item_is_not_its_own_neighbour() {
    let values = [0b0000_0000u64, 0b0000_0001, 0b0000_0011, 0b1111_1111, 0b0000_0000];
    let tree = VpTree::build(items_of(&values, 8)).unwrap();
    assert_eq!(
        tree.nearest_excluding_self(0, 2).unwrap(),
        vec![Neighbor { index: 4, dist: 0 }, Neighbor { index: 1, dist: 1 }]
    );
    assert_eq!(
        tree.nearest_excluding_self(4, 2).unwrap(),
        vec![Neighbor { index: 0, dist: 0 }, Neighbor { index: 1, dist: 1 }]
    );
    assert_eq!(tree.nearest_excluding_self(3, 10).unwrap().len(), 4);
    assert_eq!(tree.nearest_excluding_self(5, 2), None);
    assert_eq!(
        tree.within_excluding_self(1, 1).unwrap(),
        vec![
            Neighbor { index: 0, dist: 1 },
            Neighbor { index: 2, dist: 1 },
            Neighbor { index: 4, dist: 1 },
        ]
    );
    assert_eq!(tree.within_excluding_self(9, 1), None);
}

#[test]
fn an_empty_tree_answers_with_nothing() {
    let tree = VpTree::build(vec![]).unwrap();
    assert!(tree.is_empty());
    assert_eq!(tree.k_nearest(&hash_of(1, 8), 5).unwrap(), vec![]);
    assert_eq!(tree.within(&hash_of(1, 3), 5).unwrap(), vec![]);
    assert_eq!(tree.nearest_excluding_self(0, 5), None);
}

#[test]
fn a_single_item_is_a_leaf() {
    let tree = VpTree::build(items_of(&[9], 4)).unwrap();
    assert_eq!(tree.k_nearest(&hash_of(9, 4), 3).unwrap(), vec![Neighbor { index: 0, dist: 0 }]);
    assert_eq!(tree.nearest_excluding_self(0, 3).unwrap(), vec![]);
}

#[test]
fn hashes_of_different_sizes_cannot_share_a_tree() {
    let mut items = items_of(&[1, 2], 8);
    items.push(item("odd.png", 3, 9));
    assert_eq!(VpTree::build(items).unwrap_err(), ErrorKind::DimensionMismatch);
}

#[test]
fn a_query_of_another_size_is_a_mismatch() {
    let tree = VpTree::build(items_of(&[1, 2, 3], 8)).unwrap();
    assert_eq!(tree.k_nearest(&hash_of(1, 4), 2).unwrap_err(), ErrorKind::DimensionMismatch);
    assert_eq!(tree.within(&hash_of(1, 9), 2).unwrap_err(), ErrorKind::DimensionMismatch);
}

#[test]
fn the_tree_keeps_the_items_in_their_order() {
    let tree = VpTree::build(items_of(&[7, 1, 4], 3)).unwrap();
    let paths: Vec<String> = tree.items().iter().map(|i| i.image.path.clone()).collect();
    assert_eq!(paths, vec!["0.png", "1.png", "2.png"]);
    let back = tree.into_items();
    assert_eq!(back.len(), 3);
    assert!(back[1].same_hash(&item("x", 1, 3)));
}

#[test]
fn nearest_agrees_with_a_full_scan() {
    for (count, mask, seed) in [(1usize, 0xffffu64, 1u64), (2, 0xff, 2), (50, 0xff, 3), (300, u64::MAX, 4), (257, 0xf, 5)] {
        let values = sample_values(count, seed, mask);
        let tree = VpTree::build(items_of(&values, 64)).unwrap();
        let queries = sample_values(12, seed + 100, mask);
        for q in queries.iter() {
            for k in [0usize, 1, 2, 5, 17, count, count + 3] {
                let want: Vec<Neighbor> = brute_force(&values, *q, None).into_iter().take(k).collect();
                assert_eq!(tree.k_nearest(&hash_of(*q, 64), k).unwrap(), want);
            }
        }
    }
}

#[test]
fn within_agrees_with_a_full_scan() {
    let values = sample_values(400, 77, 0xfff);
    let tree = VpTree::build(items_of(&values, 64)).unwrap();
    for q in sample_values(10, 78, 0xfff).iter() {
        for radius in [0u64, 1, 2, 3, 6, 64] {
            let want: Vec<Neighbor> =
                brute_force(&values, *q, None).into_iter().filter(|n| n.dist <= radius).collect();
            assert_eq!(tree.within(&hash_of(*q, 64), radius).unwrap(), want);
        }
    }
}

#[test]
fn excluding_self_agrees_with_a_full_scan() {
    let values = sample_values(120, 9, 0x3f);
    let tree = VpTree::build(items_of(&values, 64)).unwrap();
    for index in 0..values.len() {
        let all = brute_force(&values, values[index], Some(index));
        let want: Vec<Neighbor> = all.iter().cloned().take(5).collect();
        assert_eq!(tree.nearest_excluding_self(index, 5).unwrap(), want);
        let close: Vec<Neighbor> = all.iter().cloned().filter(|n| n.dist <= 1).collect();
        assert_eq!(tree.within_excluding_self(index, 1).unwrap(), close);
    }
}

#[test]
fn many_equal_hashes_are_all_found() {
    let values = vec![5u64; 40];
    let tree = VpTree::build(items_of(&values, 8)).unwrap();
    let got = tree.k_nearest(&hash_of(5, 8), 40).unwrap();
    let want: Vec<Neighbor> = (0..40).map(|i| Neighbor { index: i, dist: 0 }).collect();
    assert_eq!(got, want);
}

#[test]
fn threshold_mode() {
    // pairs (0,1) and (2,3) are duplicates; all others are far from each other
    let values = [
        0x0000_0000_0000_00ffu64,
        0x0000_0000_0000_00ff,
        0x0000_0000_00ff_0000,
        0x0000_0000_00ff_0000,
        0x0000_00ff_0000_0000,
        0x00ff_0000_0000_0000,
        0xff00_0000_0000_0000,
        0x0000_0000_0000_ff00,
        0x0000_0000_ff00_0000,
        0x0000_ff00_0000_0000,
    ];
    let tree = VpTree::build(items_of(&values, 64)).unwrap();
    let all = collate(&tree, CompareMode::MaxDist(0));
    assert_eq!(all.len(), 10);
    assert_eq!(all[0], vec![Neighbor { index: 1, dist: 0 }]);
    assert_eq!(all[1], vec![Neighbor { index: 0, dist: 0 }]);
    assert_eq!(all[2], vec![Neighbor { index: 3, dist: 0 }]);
    assert_eq!(all[3], vec![Neighbor { index: 2, dist: 0 }]);
    for i in 4..10 {
        assert_eq!(all[i], vec![]);
    }
}

#[test]
fn collate_by_nearest() {
    let values = [0u64, 1, 3, 7];
    let tree = VpTree::build(items_of(&values, 4)).unwrap();
    let all = collate(&tree, CompareMode::KNearest(2));
    assert_eq!(all[0], vec![Neighbor { index: 1, dist: 1 }, Neighbor { index: 2, dist: 2 }]);
    assert_eq!(all[1], vec![Neighbor { index: 0, dist: 1 }, Neighbor { index: 2, dist: 1 }]);
    assert_eq!(all[3], vec![Neighbor { index: 2, dist: 1 }, Neighbor { index: 1, dist: 2 }]);
    assert_eq!(neighbours_of(&tree, 4, CompareMode::KNearest(2)), None);
    assert_eq!(
        neighbours_of(&tree, 2, CompareMode::MaxDist(1)).unwrap(),
        vec![Neighbor { index: 1, dist: 1 }, Neighbor { index: 3, dist: 1 }]
    );
    assert_eq!(CompareMode::default(), CompareMode::KNearest(5));
}

#[test]
fn collating_builds_the_tree() {
    let collated = collate_images(items_of(&[1, 2, 3], 8)).unwrap();
    assert_eq!(collated.tree.len(), 3);
    let mut mixed = items_of(&[1, 2], 8);
    mixed.push(item("odd.png", 1, 16));
    assert_eq!(collate_images(mixed).unwrap_err(), ErrorKind::DimensionMismatch);
}

#[test]
fn distance_function_on_images() {
    let a = item("a", 0b1010, 4);
    let b = item("b", 0b0110, 4);
    let c = item("c", 0b0110, 5);
    assert_eq!(ImageDistFn.dist(&a, &b), Ok(2));
    assert_eq!(ImageDistFn.dist(&b, &a), Ok(2));
    assert_eq!(ImageDistFn.dist(&a, &c), Err(ErrorKind::DimensionMismatch));
    assert!(!a.same_hash(&b));
    assert!(b.same_hash(&item("other", 0b0110, 4)));
}

#[test]
fn the_tree_is_built_from_first_vantage_and_median() {
    // distances from item 0 to the others: 1, 2, 3, 4; the lower median is 2
    let tree = VpTree::build(items_of(&[0b0000, 0b0001, 0b0011, 0b0111, 0b1111], 4)).unwrap();
    let root = tree.root().as_ref().unwrap();
    assert_eq!(root.item, 0);
    assert_eq!(root.radius, 2);
    let near = root.near.as_ref().unwrap();
    assert_eq!(near.item, 1);
    assert_eq!(near.radius, 1);
    assert_eq!(near.near.as_ref().unwrap().item, 2);
    assert!(near.near.as_ref().unwrap().near.is_none());
    assert!(near.near.as_ref().unwrap().far.is_none());
    assert_eq!(near.near.as_ref().unwrap().radius, 0);
    assert!(near.far.is_none());
    let far = root.far.as_ref().unwrap();
    assert_eq!(far.item, 3);
    assert_eq!(far.radius, 1);
    assert_eq!(far.near.as_ref().unwrap().item, 4);
    assert!(far.far.is_none());
}

#[test]
fn items_as_far_as_the_radius_go_near() {
    // all others are at distance 1 from item 0
    let tree = VpTree::build(items_of(&[0b000, 0b001, 0b010, 0b100], 3)).unwrap();
    let root = tree.root().as_ref().unwrap();
    assert_eq!(root.radius, 1);
    assert!(root.far.is_none());
    let near = root.near.as_ref().unwrap();
    assert_eq!(near.item, 1);
    assert_eq!(near.radius, 2);
    assert_eq!(near.near.as_ref().unwrap().item, 2);
    assert_eq!(near.near.as_ref().unwrap().near.as_ref().unwrap().item, 3);
    assert!(VpTree::build(vec![]).unwrap().root().is_none());
}

fn check_node(node: &img_dup::vptree::VpNode, values: &[u64], seen: &mut Vec<usize>) -> Vec<usize> {
    seen.push(node.item);
    let mut below = Vec::new();
    if let Some(near) = node.near.as_ref() {
        for x in check_node(near, values, seen) {
            assert!((values[node.item] ^ values[x]).count_ones() as u64 <= node.radius);
            below.push(x);
        }
    }
    if let Some(far) = node.far.as_ref() {
        for x in check_node(far, values, seen) {
            assert!((values[node.item] ^ values[x]).count_ones() as u64 > node.radius);
            below.push(x);
        }
    }
    below.push(node.item);
    below
}

#[test]
fn every_node_parts_near_from_far() {
    let values = sample_values(500, 31, 0xffff);
    let tree = VpTree::build(items_of(&values, 64)).unwrap();
    let mut seen = Vec::new();
    check_node(tree.root().as_ref().unwrap(), &values, &mut seen);
    seen.sort();
    let all: Vec<usize> = (0..500).collect();
    assert_eq!(seen, all);
}
