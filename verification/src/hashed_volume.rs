//! The bottom-up pyramid of content-hashed summary grids.
//!
//! Each level halves the side of the level below it. A cell of a level
//! holds an occupancy mask over its eight sub-cells and a 64-bit content
//! hash: at the base level, a hash of the raw occupancy mask; above it, a
//! hash of the eight child cells' hashes in fixed octant order, so that
//! structurally identical sub-octants always carry equal hashes.

use crate::children::{bit_set, Children};
use crate::volume::{pow2, CubicVolume, DensityVolume, IsVolume, IsVolumeIndex, VolumePosition};
use vstd::arithmetic::div_mod::lemma_fundamental_div_mod_converse;
use vstd::prelude::*;

verus! {

/// One cell of a pyramid level: a content hash and an occupancy mask.
#[derive(Clone, Copy, Debug, PartialEq, Eq, Structural)]
pub struct HashedVolumeNode {
    pub hash: u64,
    pub children: Children,
}

impl HashedVolumeNode {
    pub fn new(hash: u64, children: Children) -> (r: Self)
        ensures
            r.hash == hash,
            r.children == children,
    {
        Self { hash, children }
    }
}

/// A pyramid level: a cubic grid of hashed summary cells.
pub type HashedVolume = CubicVolume<HashedVolumeNode>;

pub const HASH_BASIS: u64 = 0xcbf29ce484222325;

pub const HASH_PRIME: u64 = 0x100000001b3;

/// One multiplicative mixing step folding `x` into the running hash `h`.
pub open spec fn spec_mix(h: u64, x: u64) -> u64 {
    ((((h ^ x) as nat) * (HASH_PRIME as nat)) % 0x1_0000_0000_0000_0000nat) as u64
}

/// The content hash of a base-level cell: a hash of its raw mask alone.
pub open spec fn spec_hash_leaf(mask: u8) -> u64 {
    spec_mix(HASH_BASIS, mask as u64)
}

/// The content hash of an interior cell: a fold over its eight children's
/// hashes in octant order.
pub open spec fn spec_hash8(
    h0: u64,
    h1: u64,
    h2: u64,
    h3: u64,
    h4: u64,
    h5: u64,
    h6: u64,
    h7: u64,
) -> u64 {
    spec_mix(
        spec_mix(
            spec_mix(spec_mix(spec_mix(spec_mix(spec_mix(spec_mix(HASH_BASIS, h0), h1), h2), h3), h4), h5),
            h6,
        ),
        h7,
    )
}

fn mix(h: u64, x: u64) -> (r: u64)
    ensures
        r == spec_mix(h, x),
{
    (h ^ x).wrapping_mul(HASH_PRIME)
}

fn hash_leaf(mask: u8) -> (r: u64)
    ensures
        r == spec_hash_leaf(mask),
{
    mix(HASH_BASIS, mask as u64)
}

fn hash_children(h0: u64, h1: u64, h2: u64, h3: u64, h4: u64, h5: u64, h6: u64, h7: u64) -> (r:
    u64)
    ensures
        r == spec_hash8(h0, h1, h2, h3, h4, h5, h6, h7),
{
    mix(mix(mix(mix(mix(mix(mix(mix(HASH_BASIS, h0), h1), h2), h3), h4), h5), h6), h7)
}

/// The mask whose bit `4*dx + 2*dy + dz` is `b(4*dx + 2*dy + dz)`.
pub open spec fn mask8(
    b0: bool,
    b1: bool,
    b2: bool,
    b3: bool,
    b4: bool,
    b5: bool,
    b6: bool,
    b7: bool,
) -> u8 {
    (if b0 {
        1u8
    } else {
        0u8
    }) | (if b1 {
        2u8
    } else {
        0u8
    }) | (if b2 {
        4u8
    } else {
        0u8
    }) | (if b3 {
        8u8
    } else {
        0u8
    }) | (if b4 {
        16u8
    } else {
        0u8
    }) | (if b5 {
        32u8
    } else {
        0u8
    }) | (if b6 {
        64u8
    } else {
        0u8
    }) | (if b7 {
        128u8
    } else {
        0u8
    })
}

/// Each bit of `mask8` reads back the flag it was packed from.
pub proof fn lemma_mask8_bits(
    b0: bool,
    b1: bool,
    b2: bool,
    b3: bool,
    b4: bool,
    b5: bool,
    b6: bool,
    b7: bool,
)
    ensures
        bit_set(mask8(b0, b1, b2, b3, b4, b5, b6, b7), 0) == b0,
        bit_set(mask8(b0, b1, b2, b3, b4, b5, b6, b7), 1) == b1,
        bit_set(mask8(b0, b1, b2, b3, b4, b5, b6, b7), 2) == b2,
        bit_set(mask8(b0, b1, b2, b3, b4, b5, b6, b7), 3) == b3,
        bit_set(mask8(b0, b1, b2, b3, b4, b5, b6, b7), 4) == b4,
        bit_set(mask8(b0, b1, b2, b3, b4, b5, b6, b7), 5) == b5,
        bit_set(mask8(b0, b1, b2, b3, b4, b5, b6, b7), 6) == b6,
        bit_set(mask8(b0, b1, b2, b3, b4, b5, b6, b7), 7) == b7,
        (mask8(b0, b1, b2, b3, b4, b5, b6, b7) != 0) == (b0 || b1 || b2 || b3 || b4 || b5 || b6
            || b7),
{
    let m = mask8(b0, b1, b2, b3, b4, b5, b6, b7);
    assert((m >> 0u8) & 1u8 == (if b0 { 1u8 } else { 0u8 }) && (m >> 1u8) & 1u8 == (if b1 { 1u8 } else { 0u8 })
        && (m >> 2u8) & 1u8 == (if b2 { 1u8 } else { 0u8 }) && (m >> 3u8) & 1u8 == (if b3 { 1u8 } else { 0u8 })
        && (m >> 4u8) & 1u8 == (if b4 { 1u8 } else { 0u8 }) && (m >> 5u8) & 1u8 == (if b5 { 1u8 } else { 0u8 })
        && (m >> 6u8) & 1u8 == (if b6 { 1u8 } else { 0u8 }) && (m >> 7u8) & 1u8 == (if b7 { 1u8 } else { 0u8 })
        && (m != 0) == (b0 || b1 || b2 || b3 || b4 || b5 || b6 || b7)) by (bit_vector)
        requires
            m == mask8(b0, b1, b2, b3, b4, b5, b6, b7),
    ;
}

/// Pack eight octant flags into a mask, in fixed octant order.
fn pack_mask(b0: bool, b1: bool, b2: bool, b3: bool, b4: bool, b5: bool, b6: bool, b7: bool) -> (r:
    Children)
    ensures
        r.child_bits == mask8(b0, b1, b2, b3, b4, b5, b6, b7),
{
    Children::new(
        (if b0 {
            1u8
        } else {
            0u8
        }) | (if b1 {
            2u8
        } else {
            0u8
        }) | (if b2 {
            4u8
        } else {
            0u8
        }) | (if b3 {
            8u8
        } else {
            0u8
        }) | (if b4 {
            16u8
        } else {
            0u8
        }) | (if b5 {
            32u8
        } else {
            0u8
        }) | (if b6 {
            64u8
        } else {
            0u8
        }) | (if b7 {
            128u8
        } else {
            0u8
        }),
    )
}

/// The flat index of cell `(x, y, z)` in a cubic grid of side `side`.
pub open spec fn spec_flat(side: int, x: int, y: int, z: int) -> int {
    z * side * side + y * side + x
}

/// In-range coordinates flatten to an in-range flat index.
pub proof fn lemma_flat_bound(side: int, x: int, y: int, z: int)
    requires
        1 <= side,
        0 <= x < side,
        0 <= y < side,
        0 <= z < side,
    ensures
        0 <= spec_flat(side, x, y, z) < side * side * side,
{
    assert(0 <= z * side * side + y * side + x < side * side * side) by (nonlinear_arith)
        requires
            1 <= side,
            0 <= x < side,
            0 <= y < side,
            0 <= z < side,
    ;
}

/// Flattening is inverted by division and remainder by the side.
pub proof fn lemma_flat_decode(side: int, x: int, y: int, z: int)
    requires
        1 <= side,
        0 <= x < side,
        0 <= y < side,
        0 <= z < side,
    ensures
        spec_flat(side, x, y, z) % side == x,
        (spec_flat(side, x, y, z) / side) % side == y,
        spec_flat(side, x, y, z) / (side * side) == z,
{
    let f = spec_flat(side, x, y, z);
    assert(z * side * side + y * side + x == (z * side + y) * side + x && z * side * side + y
        * side + x == z * (side * side) + (y * side + x) && 0 <= y * side + x < side * side)
        by (nonlinear_arith)
        requires
            1 <= side,
            0 <= x < side,
            0 <= y < side,
            0 <= z < side,
    ;
    lemma_fundamental_div_mod_converse(f, side, z * side + y, x);
    lemma_fundamental_div_mod_converse(z * side + y, side, z, y);
    lemma_fundamental_div_mod_converse(f, side * side, z, y * side + x);
}

/// The cell of the base pyramid level at `(x, y, z)`: the occupancy mask of
/// the eight raw voxels it covers, and a hash of that mask.
pub open spec fn spec_base_cell(src: Seq<bool>, side: int, x: int, y: int, z: int)
    -> HashedVolumeNode {
    let m = mask8(
        src[spec_flat(2 * side, 2 * x, 2 * y, 2 * z)],
        src[spec_flat(2 * side, 2 * x, 2 * y, 2 * z + 1)],
        src[spec_flat(2 * side, 2 * x, 2 * y + 1, 2 * z)],
        src[spec_flat(2 * side, 2 * x, 2 * y + 1, 2 * z + 1)],
        src[spec_flat(2 * side, 2 * x + 1, 2 * y, 2 * z)],
        src[spec_flat(2 * side, 2 * x + 1, 2 * y, 2 * z + 1)],
        src[spec_flat(2 * side, 2 * x + 1, 2 * y + 1, 2 * z)],
        src[spec_flat(2 * side, 2 * x + 1, 2 * y + 1, 2 * z + 1)],
    );
    HashedVolumeNode { hash: spec_hash_leaf(m), children: Children { child_bits: m } }
}

/// The whole base level, as a flat sequence of side `side` (half the
/// source volume's side).
pub open spec fn spec_base_layer(src: Seq<bool>, side: int) -> Seq<HashedVolumeNode> {
    Seq::new(
        (side * side * side) as nat,
        |f: int| spec_base_cell(src, side, f % side, (f / side) % side, f / (side * side)),
    )
}

/// The cell of an upper pyramid level at `(x, y, z)`: bit `i` of its mask
/// says whether child `i` below has any occupied content, and its hash
/// folds the eight children's hashes in octant order.
pub open spec fn spec_coarse_cell(prev: Seq<HashedVolumeNode>, side: int, x: int, y: int, z: int)
    -> HashedVolumeNode {
    let n0 = prev[spec_flat(2 * side, 2 * x, 2 * y, 2 * z)];
    let n1 = prev[spec_flat(2 * side, 2 * x, 2 * y, 2 * z + 1)];
    let n2 = prev[spec_flat(2 * side, 2 * x, 2 * y + 1, 2 * z)];
    let n3 = prev[spec_flat(2 * side, 2 * x, 2 * y + 1, 2 * z + 1)];
    let n4 = prev[spec_flat(2 * side, 2 * x + 1, 2 * y, 2 * z)];
    let n5 = prev[spec_flat(2 * side, 2 * x + 1, 2 * y, 2 * z + 1)];
    let n6 = prev[spec_flat(2 * side, 2 * x + 1, 2 * y + 1, 2 * z)];
    let n7 = prev[spec_flat(2 * side, 2 * x + 1, 2 * y + 1, 2 * z + 1)];
    let m = mask8(
        n0.children.child_bits != 0,
        n1.children.child_bits != 0,
        n2.children.child_bits != 0,
        n3.children.child_bits != 0,
        n4.children.child_bits != 0,
        n5.children.child_bits != 0,
        n6.children.child_bits != 0,
        n7.children.child_bits != 0,
    );
    HashedVolumeNode {
        hash: spec_hash8(n0.hash, n1.hash, n2.hash, n3.hash, n4.hash, n5.hash, n6.hash, n7.hash),
        children: Children { child_bits: m },
    }
}

/// A whole upper level of side `side`, summarizing a level of side
/// `2 * side`.
pub open spec fn spec_coarse_layer(prev: Seq<HashedVolumeNode>, side: int)
    -> Seq<HashedVolumeNode> {
    Seq::new(
        (side * side * side) as nat,
        |f: int| spec_coarse_cell(prev, side, f % side, (f / side) % side, f / (side * side)),
    )
}

/// Octant bit semantics of a base-level cell: bit `4*dx + 2*dy + dz` of
/// the mask at `(x, y, z)` reads exactly the source voxel `(2x+dx, 2y+dy,
/// 2z+dz)`.
pub proof fn lemma_base_cell_bits(
    src: Seq<bool>,
    side: int,
    x: int,
    y: int,
    z: int,
    dx: int,
    dy: int,
    dz: int,
)
    requires
        0 <= dx <= 1,
        0 <= dy <= 1,
        0 <= dz <= 1,
    ensures
        bit_set(spec_base_cell(src, side, x, y, z).children.child_bits, 4 * dx + 2 * dy + dz)
            == src[spec_flat(2 * side, 2 * x + dx, 2 * y + dy, 2 * z + dz)],
{
    lemma_mask8_bits(
        src[spec_flat(2 * side, 2 * x, 2 * y, 2 * z)],
        src[spec_flat(2 * side, 2 * x, 2 * y, 2 * z + 1)],
        src[spec_flat(2 * side, 2 * x, 2 * y + 1, 2 * z)],
        src[spec_flat(2 * side, 2 * x, 2 * y + 1, 2 * z + 1)],
        src[spec_flat(2 * side, 2 * x + 1, 2 * y, 2 * z)],
        src[spec_flat(2 * side, 2 * x + 1, 2 * y, 2 * z + 1)],
        src[spec_flat(2 * side, 2 * x + 1, 2 * y + 1, 2 * z)],
        src[spec_flat(2 * side, 2 * x + 1, 2 * y + 1, 2 * z + 1)],
    );
}

impl HashedVolume {
    /// Build the base pyramid level from a raw occupancy volume: each cell
    /// summarizes a 2x2x2 block of voxels.
    #[verifier::loop_isolation(false)]
    pub fn from_density_volume(src: &DensityVolume) -> (r: HashedVolume)
        requires
            src.wf(),
            src.depth >= 1,
        ensures
            r.wf(),
            r.depth == src.depth - 1,
            r@ == spec_base_layer(src@, pow2((src.depth - 1) as nat) as int),
    {
        let new_depth = src.depth - 1;
        let ghost s = pow2(new_depth as nat) as int;
        proof {
            crate::volume::lemma_pow2_pos(new_depth as nat);
            assert(src.spec_side() == 2 * s);
            assert(s * s * s <= (2 * s) * (2 * s) * (2 * s) && s <= s * s * s && 2 * s <= (2
                * s) * (2 * s) * (2 * s)) by (nonlinear_arith)
                requires
                    s >= 1,
            ;
        }
        let mut dst = CubicVolume::<HashedVolumeNode>::new(
            new_depth,
            HashedVolumeNode::new(0, Children::new(0)),
        );
        let side = CubicVolume::<HashedVolumeNode>::get_side_element_count(new_depth);
        let mut z: usize = 0;
        while z < side
            invariant
                z <= side,
                dst.depth == new_depth,
                dst@.len() == s * s * s,
                forall|f: int|
                    0 <= f < z * s * s ==> dst@[f] == spec_base_layer(src@, s)[f],
            decreases side - z,
        {
            let mut y: usize = 0;
            while y < side
                invariant
                    z < side,
                    y <= side,
                    dst.depth == new_depth,
                    dst@.len() == s * s * s,
                    forall|f: int|
                        0 <= f < z * s * s + y * s ==> dst@[f] == spec_base_layer(src@, s)[f],
                decreases side - y,
            {
                let mut x: usize = 0;
                while x < side
                    invariant
                        z < side,
                        y < side,
                        x <= side,
                        dst.depth == new_depth,
                        dst@.len() == s * s * s,
                        forall|f: int|
                            0 <= f < z * s * s + y * s + x ==> dst@[f] == spec_base_layer(
                                src@,
                                s,
                            )[f],
                    decreases side - x,
                {
                    proof {
                        lemma_flat_bound(s, x as int, y as int, z as int);
                        lemma_flat_bound(2 * s, 2 * x as int, 2 * y as int, 2 * z as int);
                        lemma_flat_bound(
                            2 * s,
                            2 * x as int + 1,
                            2 * y as int + 1,
                            2 * z as int + 1,
                        );
                        lemma_flat_bound(2 * s, 2 * x as int + 0, 2 * y as int + 0, 2 * z as int + 0);
                        lemma_flat_bound(2 * s, 2 * x as int + 0, 2 * y as int + 0, 2 * z as int + 1);
                        lemma_flat_bound(2 * s, 2 * x as int + 0, 2 * y as int + 1, 2 * z as int + 0);
                        lemma_flat_bound(2 * s, 2 * x as int + 0, 2 * y as int + 1, 2 * z as int + 1);
                        lemma_flat_bound(2 * s, 2 * x as int + 1, 2 * y as int + 0, 2 * z as int + 0);
                        lemma_flat_bound(2 * s, 2 * x as int + 1, 2 * y as int + 0, 2 * z as int + 1);
                        lemma_flat_bound(2 * s, 2 * x as int + 1, 2 * y as int + 1, 2 * z as int + 0);
                        lemma_flat_bound(2 * s, 2 * x as int + 1, 2 * y as int + 1, 2 * z as int + 1);
                    }
                    let x_src = x * 2;
                    let y_src = y * 2;
                    let z_src = z * 2;
                    let v0 = *src.get((x_src, y_src, z_src));
                    let v1 = *src.get((x_src, y_src, z_src + 1));
                    let v2 = *src.get((x_src, y_src + 1, z_src));
                    let v3 = *src.get((x_src, y_src + 1, z_src + 1));
                    let v4 = *src.get((x_src + 1, y_src, z_src));
                    let v5 = *src.get((x_src + 1, y_src, z_src + 1));
                    let v6 = *src.get((x_src + 1, y_src + 1, z_src));
                    let v7 = *src.get((x_src + 1, y_src + 1, z_src + 1));
                    let children = pack_mask(v0, v1, v2, v3, v4, v5, v6, v7);
                    let hash = hash_leaf(children.child_bits);
                    let new_hashnode = dst.get_mut((x, y, z));
                    *new_hashnode = HashedVolumeNode::new(hash, children);
                    proof {
                        let f = spec_flat(s, x as int, y as int, z as int);
                        lemma_flat_decode(s, x as int, y as int, z as int);
                        assert(dst@[f] == spec_base_cell(src@, s, x as int, y as int, z as int));
                        assert(dst@[f] == spec_base_layer(src@, s)[f]);
                    }
                    x += 1;
                }
                proof {
                    assert((y as int + 1) * s == y as int * s + s) by (nonlinear_arith);
                }
                y += 1;
            }
            proof {
                assert((z as int + 1) * s * s == z as int * s * s + s * s) by (nonlinear_arith);
            }
            z += 1;
        }
        proof {
            assert(dst@ =~= spec_base_layer(src@, s));
        }
        dst
    }

    /// Build the next (coarser) pyramid level from the level below: each
    /// cell's mask records which children have any occupied content, and
    /// its hash folds the children's hashes.
    #[verifier::loop_isolation(false)]
    pub fn from_hashed_volume(src_hashed_volume: &HashedVolume) -> (r: HashedVolume)
        requires
            src_hashed_volume.wf(),
            src_hashed_volume.depth >= 1,
        ensures
            r.wf(),
            r.depth == src_hashed_volume.depth - 1,
            r@ == spec_coarse_layer(
                src_hashed_volume@,
                pow2((src_hashed_volume.depth - 1) as nat) as int,
            ),
    {
        let src = src_hashed_volume;
        let new_depth = src.depth - 1;
        let ghost s = pow2(new_depth as nat) as int;
        proof {
            crate::volume::lemma_pow2_pos(new_depth as nat);
            assert(src.spec_side() == 2 * s);
            assert(s * s * s <= (2 * s) * (2 * s) * (2 * s) && s <= s * s * s && 2 * s <= (2
                * s) * (2 * s) * (2 * s)) by (nonlinear_arith)
                requires
                    s >= 1,
            ;
        }
        let mut dst = CubicVolume::<HashedVolumeNode>::new(
            new_depth,
            HashedVolumeNode::new(0, Children::new(0)),
        );
        let side = CubicVolume::<HashedVolumeNode>::get_side_element_count(new_depth);
        let mut z: usize = 0;
        while z < side
            invariant
                z <= side,
                dst.depth == new_depth,
                dst@.len() == s * s * s,
                forall|f: int|
                    0 <= f < z * s * s ==> dst@[f] == spec_coarse_layer(src@, s)[f],
            decreases side - z,
        {
            let mut y: usize = 0;
            while y < side
                invariant
                    z < side,
                    y <= side,
                    dst.depth == new_depth,
                    dst@.len() == s * s * s,
                    forall|f: int|
                        0 <= f < z * s * s + y * s ==> dst@[f] == spec_coarse_layer(src@, s)[f],
                decreases side - y,
            {
                let mut x: usize = 0;
                while x < side
                    invariant
                        z < side,
                        y < side,
                        x <= side,
                        dst.depth == new_depth,
                        dst@.len() == s * s * s,
                        forall|f: int|
                            0 <= f < z * s * s + y * s + x ==> dst@[f] == spec_coarse_layer(
                                src@,
                                s,
                            )[f],
                    decreases side - x,
                {
                    proof {
                        lemma_flat_bound(s, x as int, y as int, z as int);
                        lemma_flat_bound(2 * s, 2 * x as int + 0, 2 * y as int + 0, 2 * z as int + 0);
                        lemma_flat_bound(2 * s, 2 * x as int + 0, 2 * y as int + 0, 2 * z as int + 1);
                        lemma_flat_bound(2 * s, 2 * x as int + 0, 2 * y as int + 1, 2 * z as int + 0);
                        lemma_flat_bound(2 * s, 2 * x as int + 0, 2 * y as int + 1, 2 * z as int + 1);
                        lemma_flat_bound(2 * s, 2 * x as int + 1, 2 * y as int + 0, 2 * z as int + 0);
                        lemma_flat_bound(2 * s, 2 * x as int + 1, 2 * y as int + 0, 2 * z as int + 1);
                        lemma_flat_bound(2 * s, 2 * x as int + 1, 2 * y as int + 1, 2 * z as int + 0);
                        lemma_flat_bound(2 * s, 2 * x as int + 1, 2 * y as int + 1, 2 * z as int + 1);
                    }
                    let x_src = x * 2;
                    let y_src = y * 2;
                    let z_src = z * 2;
                    let node0 = *src.get((x_src, y_src, z_src));
                    let node1 = *src.get((x_src, y_src, z_src + 1));
                    let node2 = *src.get((x_src, y_src + 1, z_src));
                    let node3 = *src.get((x_src, y_src + 1, z_src + 1));
                    let node4 = *src.get((x_src + 1, y_src, z_src));
                    let node5 = *src.get((x_src + 1, y_src, z_src + 1));
                    let node6 = *src.get((x_src + 1, y_src + 1, z_src));
                    let node7 = *src.get((x_src + 1, y_src + 1, z_src + 1));
                    let children = pack_mask(
                        node0.children.have_occupied_children(),
                        node1.children.have_occupied_children(),
                        node2.children.have_occupied_children(),
                        node3.children.have_occupied_children(),
                        node4.children.have_occupied_children(),
                        node5.children.have_occupied_children(),
                        node6.children.have_occupied_children(),
                        node7.children.have_occupied_children(),
                    );
                    let hash = hash_children(
                        node0.hash,
                        node1.hash,
                        node2.hash,
                        node3.hash,
                        node4.hash,
                        node5.hash,
                        node6.hash,
                        node7.hash,
                    );
                    let new_hashnode = dst.get_mut((x, y, z));
                    *new_hashnode = HashedVolumeNode::new(hash, children);
                    proof {
                        let f = spec_flat(s, x as int, y as int, z as int);
                        lemma_flat_decode(s, x as int, y as int, z as int);
                        assert(dst@[f] == spec_coarse_cell(src@, s, x as int, y as int, z as int));
                        assert(dst@[f] == spec_coarse_layer(src@, s)[f]);
                    }
                    x += 1;
                }
                proof {
                    assert((y as int + 1) * s == y as int * s + s) by (nonlinear_arith);
                }
                y += 1;
            }
            proof {
                assert((z as int + 1) * s * s == z as int * s * s + s * s) by (nonlinear_arith);
            }
            z += 1;
        }
        proof {
            assert(dst@ =~= spec_coarse_layer(src@, s));
        }
        dst
    }

    /// The eight child positions of `position` one level down: exactly
    /// `(2x+dx, 2y+dy, 2z+dz)` for `dx, dy, dz` in `{0, 1}`, listed in the
    /// fixed octant order (octant index `4*dx + 2*dy + dz`).
    pub fn calculate_children_positions(&self, position: VolumePosition) -> (r: [VolumePosition; 8])
        requires
            self.wf(),
            position.0 < self.spec_side(),
            position.1 < self.spec_side(),
            position.2 < self.spec_side(),
        ensures
            r@.len() == 8,
            forall|b: int|
                0 <= b < 8 ==> #[trigger] r@[b].0 == 2 * position.0 + (if b >= 4 {
                    1int
                } else {
                    0int
                }),
            forall|b: int|
                0 <= b < 8 ==> #[trigger] r@[b].1 == 2 * position.1 + (if b == 2 || b == 3 || b
                    == 6 || b == 7 {
                    1int
                } else {
                    0int
                }),
            forall|b: int|
                0 <= b < 8 ==> #[trigger] r@[b].2 == 2 * position.2 + (if b % 2 == 1 {
                    1int
                } else {
                    0int
                }),
    {
        proof {
            let s = self.spec_side();
            assert(s >= 1) by {
                crate::volume::lemma_pow2_pos(self.depth as nat);
            }
            if s >= 2 {
                assert(2 * s <= s * s * s) by (nonlinear_arith)
                    requires
                        s >= 2,
                ;
            }
        }
        [
            (position.0 * 2, position.1 * 2, position.2 * 2),
            (position.0 * 2, position.1 * 2, position.2 * 2 + 1),
            (position.0 * 2, position.1 * 2 + 1, position.2 * 2),
            (position.0 * 2, position.1 * 2 + 1, position.2 * 2 + 1),
            (position.0 * 2 + 1, position.1 * 2, position.2 * 2),
            (position.0 * 2 + 1, position.1 * 2, position.2 * 2 + 1),
            (position.0 * 2 + 1, position.1 * 2 + 1, position.2 * 2),
            (position.0 * 2 + 1, position.1 * 2 + 1, position.2 * 2 + 1),
        ]
    }
}

} // verus!
