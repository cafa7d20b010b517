use svdag::{
    CubicVolume, Svdag, SvdagBuilder, SvdagError, SvdagNode, SvdagPointer, SvdagValue, Children,
};

fn make_volume(depth: u8, mut f: impl FnMut(usize, usize, usize) -> bool) -> CubicVolume<bool> {
    let mut v: CubicVolume<bool> = CubicVolume::new(depth, false);
    let side = 1usize << depth;
    for z in 0..side {
        for y in 0..side {
            for x in 0..side {
                if f(x, y, z) {
                    *v.get_mut((x, y, z)) = true;
                }
            }
        }
    }
    v
}

fn build(volume: &CubicVolume<bool>) -> Svdag {
    let mut builder = SvdagBuilder::new();
    builder.create_layers(volume);
    builder.create_graph().expect("graph fits the offset range");
    builder.finish()
}

fn assert_round_trip(volume: &CubicVolume<bool>, graph: &Svdag) {
    let side = 1usize << volume.depth;
    for z in 0..side {
        for y in 0..side {
            for x in 0..side {
                assert_eq!(
                    graph.get((x, y, z)),
                    *volume.get((x, y, z)),
                    "mismatch at ({}, {}, {})",
                    x,
                    y,
                    z
                );
            }
        }
    }
}

fn sphere(depth: u8, center: f32, radius: f32) -> CubicVolume<bool> {
    make_volume(depth, |x, y, z| {
        let dx = x as f32 - center;
        let dy = y as f32 - center;
        let dz = z as f32 - center;
        (dx * dx + dy * dy + dz * dz).sqrt() < radius
    })
}

fn node_record_count(graph: &Svdag) -> usize {
    graph
        .nodes
        .iter()
        .filter(|v| matches!(v, SvdagValue::Node { .. }))
        .count()
}

fn region_occupied(
    v: &CubicVolume<bool>,
    ox: usize,
    oy: usize,
    oz: usize,
    extent: usize,
) -> bool {
    for z in oz..oz + extent {
        for y in oy..oy + extent {
            for x in ox..ox + extent {
                if *v.get((x, y, z)) {
                    return true;
                }
            }
        }
    }
    false
}

/// The node count of the naive, non-deduplicated octree of the same depth:
/// the root, plus one node per occupied sub-region, down to the 2x2x2
/// blocks whose occupancy the leaf masks encode.
fn naive_octree_count(v: &CubicVolume<bool>, ox: usize, oy: usize, oz: usize, extent: usize) -> usize {
    if extent == 2 {
        return 1;
    }
    let half = extent / 2;
    let mut count: usize = 1;
    for dx in 0..2 {
        for dy in 0..2 {
            for dz in 0..2 {
                let (cx, cy, cz) = (ox + dx * half, oy + dy * half, oz + dz * half);
                if region_occupied(v, cx, cy, cz, half) {
                    count += naive_octree_count(v, cx, cy, cz, half);
                }
            }
        }
    }
    count
}

#[test]
fn round_trip_empty_volume() {
    let v = make_volume(3, |_, _, _| false);
    let g = build(&v);
    assert_eq!(g.depth, 3);
    assert_eq!(g.nodes.len(), 1);
    assert_round_trip(&v, &g);
}

#[test]
fn round_trip_full_volume() {
    let v = make_volume(3, |_, _, _| true);
    let g = build(&v);
    // Full dedup: one node and eight pointers per interior level, one leaf.
    assert_eq!(g.nodes.len(), 19);
    assert_round_trip(&v, &g);
}

#[test]
fn round_trip_single_voxel() {
    let v = make_volume(3, |x, y, z| (x, y, z) == (5, 2, 7));
    let g = build(&v);
    assert_round_trip(&v, &g);
}

#[test]
fn round_trip_depth_one() {
    let v = make_volume(1, |x, y, z| (x, y, z) == (0, 0, 1));
    let g = build(&v);
    assert_eq!(g.nodes.len(), 1);
    assert_eq!(
        g.nodes[0],
        SvdagValue::Node { node: SvdagNode { children: Children::new(0b10), padding: 0 } }
    );
    assert_round_trip(&v, &g);
}

#[test]
fn round_trip_sphere_depth_3() {
    let v = sphere(3, 8.0, 4.0);
    let g = build(&v);
    assert_round_trip(&v, &g);
}

#[test]
fn round_trip_sphere_depth_6() {
    let v = sphere(6, 32.0, 16.0);
    let g = build(&v);
    assert_round_trip(&v, &g);
}

#[test]
fn construction_is_deterministic() {
    let v1 = sphere(4, 8.0, 5.0);
    let v2 = sphere(4, 8.0, 5.0);
    let g1 = build(&v1);
    let g2 = build(&v2);
    assert_eq!(g1.nodes.len(), g2.nodes.len());
    assert_eq!(g1.to_bytes(), g2.to_bytes());
}

#[test]
fn deduplication_beats_naive_octree() {
    // Two identical, non-overlapping, 2x2x2-aligned occupied blocks.
    let v = make_volume(3, |x, y, z| {
        (x < 2 && y < 2 && z < 2) || ((4..6).contains(&x) && (4..6).contains(&y) && (4..6).contains(&z))
    });
    let g = build(&v);
    let naive = naive_octree_count(&v, 0, 0, 0, 8);
    assert!(
        node_record_count(&g) < naive,
        "dedup count {} not below naive count {}",
        node_record_count(&g),
        naive
    );
    assert_round_trip(&v, &g);
}

#[test]
fn compression_beats_dense_bitset_for_depth_6_sphere() {
    let v = sphere(6, 32.0, 16.0);
    let g = build(&v);
    let dense_bytes: usize = 64 * 64 * 64 / 8;
    assert!(g.nodes.len() * 2 < dense_bytes);
}

#[test]
fn empty_graph_reports_unoccupied() {
    let g = Svdag::new();
    assert_eq!(g.depth, 0);
    assert!(g.nodes.is_empty());
}

#[test]
fn query_follows_relative_pointers() {
    // A hand-built two-level graph: the root's two occupied octants share
    // one child node through different relative offsets.
    let g = Svdag {
        depth: 2,
        nodes: vec![
            SvdagValue::Node { node: SvdagNode { children: Children::new(0b1000_0001), padding: 0 } },
            SvdagValue::Pointer { pointer: SvdagPointer { value: 2 } },
            SvdagValue::Pointer { pointer: SvdagPointer { value: 1 } },
            SvdagValue::Node { node: SvdagNode { children: Children::new(0b0000_0001), padding: 0 } },
        ],
    };
    // Octant 0 of the root, then octant 0 of the shared child.
    assert!(g.get((0, 0, 0)));
    assert!(!g.get((0, 0, 1)));
    assert!(!g.get((1, 1, 0)));
    // Octant 7 of the root reaches the same child: its (0,0,0) corner is
    // voxel (2,2,2).
    assert!(g.get((2, 2, 2)));
    assert!(!g.get((3, 3, 3)));
}

#[test]
fn to_bytes_serializes_depth_then_two_byte_records() {
    let g = Svdag {
        depth: 2,
        nodes: vec![
            SvdagValue::Node { node: SvdagNode { children: Children::new(3), padding: 0 } },
            SvdagValue::Pointer { pointer: SvdagPointer { value: -2 } },
            SvdagValue::Pointer { pointer: SvdagPointer { value: 300 } },
        ],
    };
    assert_eq!(g.to_bytes(), vec![2, 3, 0, 0xfe, 0xff, 44, 1]);
}

#[test]
fn oversized_offsets_are_reported_not_truncated() {
    // A pseudo-random volume has almost no shared sub-trees, so the graph
    // grows past what 16-bit relative offsets can span.
    let mut state: u64 = 0x9e3779b97f4a7c15;
    let v = make_volume(6, |_, _, _| {
        state = state
            .wrapping_mul(6364136223846793005)
            .wrapping_add(1442695040888963407);
        (state >> 33) & 1 == 1
    });
    let mut builder = SvdagBuilder::new();
    builder.create_layers(&v);
    assert_eq!(builder.create_graph(), Err(SvdagError::CapacityOverflow));
}

#[test]
fn one_call_pipeline_matches_builder_chain() {
    let v = sphere(3, 8.0, 4.0);
    let g1 = Svdag::from_density_volume(&v).expect("graph fits the offset range");
    let g2 = build(&v);
    assert_eq!(g1.to_bytes(), g2.to_bytes());
    assert_round_trip(&v, &g1);
}
