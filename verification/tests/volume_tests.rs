use svdag::{Children, CubicVolume, HashedVolume, HashedVolumeNode, IsVolume};

#[test]
fn element_counts_are_powers() {
    assert_eq!(CubicVolume::<bool>::get_side_element_count(0), 1);
    assert_eq!(CubicVolume::<bool>::get_side_element_count(3), 8);
    assert_eq!(CubicVolume::<bool>::get_area_element_count(3), 64);
    assert_eq!(CubicVolume::<bool>::get_volume_element_count(3), 512);
    assert_eq!(CubicVolume::<bool>::get_volume_element_count(6), 262144);
}

#[test]
fn get_dimensions_is_cubic() {
    let v: CubicVolume<bool> = CubicVolume::new(4, false);
    assert_eq!(v.get_dimensions(), (16, 16, 16));
    assert_eq!(v.get_element_count(), 4096);
}

#[test]
fn position_index_follows_flat_layout() {
    let mut v: CubicVolume<bool> = CubicVolume::new(3, false);
    *v.get_mut((1, 1, 0)) = true;
    assert!(*v.get(9usize));
    assert!(*v.get((1, 1, 0)));
    assert!(!*v.get((0, 1, 1)));
    *v.get_mut(100usize) = true;
    assert!(*v.get((4, 4, 1)));
}

#[test]
fn hashed_volume_node_new_stores_fields() {
    let n = HashedVolumeNode::new(77, Children::new(0b101));
    assert_eq!(n.hash, 77);
    assert_eq!(n.children.child_bits, 0b101);
}

#[test]
fn base_level_masks_summarize_blocks() {
    let mut v: CubicVolume<bool> = CubicVolume::new(2, false);
    // One voxel in each of two blocks: octant (dx,dy,dz)=(0,0,0) of the
    // block at cell (0,0,0), octant (1,1,1) of the block at cell (1,1,1).
    *v.get_mut((0, 0, 0)) = true;
    *v.get_mut((3, 3, 3)) = true;
    let hv = HashedVolume::from_density_volume(&v);
    assert_eq!(hv.depth, 1);
    assert_eq!(hv.get((0usize, 0usize, 0usize)).children.child_bits, 0b0000_0001);
    assert_eq!(hv.get((1usize, 1usize, 1usize)).children.child_bits, 0b1000_0000);
    assert_eq!(hv.get((1usize, 0usize, 0usize)).children.child_bits, 0);
}

#[test]
fn equal_blocks_hash_equal_distinct_blocks_differ() {
    let mut v: CubicVolume<bool> = CubicVolume::new(2, false);
    *v.get_mut((0, 0, 0)) = true;
    *v.get_mut((2, 0, 0)) = true;
    *v.get_mut((1, 2, 2)) = true;
    let hv = HashedVolume::from_density_volume(&v);
    let a = hv.get((0usize, 0usize, 0usize));
    let b = hv.get((1usize, 0usize, 0usize));
    let c = hv.get((0usize, 1usize, 1usize));
    assert_eq!(a.hash, b.hash);
    assert_ne!(a.hash, c.hash);
}

#[test]
fn coarser_level_marks_occupied_children() {
    let mut v: CubicVolume<bool> = CubicVolume::new(2, false);
    *v.get_mut((0, 0, 0)) = true;
    *v.get_mut((3, 3, 3)) = true;
    let base = HashedVolume::from_density_volume(&v);
    let top = HashedVolume::from_hashed_volume(&base);
    assert_eq!(top.depth, 0);
    // Children 0 (cell (0,0,0)) and 7 (cell (1,1,1)) have content.
    assert_eq!(top.get(0usize).children.child_bits, 0b1000_0001);
}

#[test]
fn children_positions_follow_octant_order() {
    let v: CubicVolume<bool> = CubicVolume::new(3, false);
    let hv = HashedVolume::from_density_volume(&v);
    let p = hv.calculate_children_positions((1, 2, 3));
    assert_eq!(
        p,
        [
            (2, 4, 6),
            (2, 4, 7),
            (2, 5, 6),
            (2, 5, 7),
            (3, 4, 6),
            (3, 4, 7),
            (3, 5, 6),
            (3, 5, 7),
        ]
    );
}

#[test]
fn children_positions_at_origin() {
    let v: CubicVolume<bool> = CubicVolume::new(2, false);
    let hv = HashedVolume::from_density_volume(&v);
    let p = hv.calculate_children_positions((0, 0, 0));
    assert_eq!(
        p,
        [
            (0, 0, 0),
            (0, 0, 1),
            (0, 1, 0),
            (0, 1, 1),
            (1, 0, 0),
            (1, 0, 1),
            (1, 1, 0),
            (1, 1, 1),
        ]
    );
}
