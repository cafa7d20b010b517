//! The compressed artifact: a flat array of 2-byte records and a depth,
//! queried by random access without decompression.
//!
//! A record is either a node (an occupancy mask plus one padding byte) or a
//! pointer (a signed relative offset, in array slots, from its own position
//! to the record it stands in for). The role of a record is implicit in
//! tree position, never stored: a node record at a non-leaf depth is
//! immediately followed by one pointer slot per occupied octant, in
//! ascending octant order.

use crate::children::{bit_set, count_below, Children};
use crate::volume::{pow2, IsVolume, VolumeDimensions, VolumePosition};
use vstd::prelude::*;

verus! {

/// A relative offset, in array slots, to a shared node record.
#[derive(Clone, Copy, Debug, PartialEq, Eq, Structural)]
pub struct SvdagPointer {
    pub value: i16,
}

/// A real octree node: its occupancy mask and a padding byte.
#[derive(Clone, Copy, Debug, PartialEq, Eq, Structural)]
pub struct SvdagNode {
    pub children: Children,
    pub padding: u8,
}

/// One 2-byte array slot: a node record or a pointer slot.
#[derive(Clone, Copy, Debug, PartialEq, Eq, Structural)]
pub enum SvdagValue {
    Node { node: SvdagNode },
    Pointer { pointer: SvdagPointer },
}

/// The serialized low byte of an array slot.
pub open spec fn spec_byte_lo(v: SvdagValue) -> u8 {
    match v {
        SvdagValue::Node { node } => node.children.child_bits,
        SvdagValue::Pointer { pointer } => (if pointer.value < 0 {
            (pointer.value + 0x10000) % 256
        } else {
            pointer.value as int % 256
        }) as u8,
    }
}

/// The serialized high byte of an array slot.
pub open spec fn spec_byte_hi(v: SvdagValue) -> u8 {
    match v {
        SvdagValue::Node { node } => node.padding,
        SvdagValue::Pointer { pointer } => (if pointer.value < 0 {
            (pointer.value + 0x10000) / 256
        } else {
            pointer.value as int / 256
        }) as u8,
    }
}

/// The meaning of a query against the record array, mirroring one descent
/// step per level: halve the filter extent, pick the octant the target
/// falls in, test the node's mask bit, and follow the pointer slot at the
/// octant's prefix-popcount offset. A structurally missing record (index
/// out of range, or a record of the wrong role) reads as unoccupied.
pub open spec fn spec_query(
    nodes: Seq<SvdagValue>,
    depth: int,
    node_index: int,
    current_depth: int,
    fx: int,
    fy: int,
    fz: int,
    fdim: int,
    px: int,
    py: int,
    pz: int,
) -> bool
    decreases depth - current_depth,
{
    let half = fdim / 2;
    let cx = px >= fx + half;
    let cy = py >= fy + half;
    let cz = pz >= fz + half;
    let child = (if cx {
        4int
    } else {
        0int
    }) + (if cy {
        2int
    } else {
        0int
    }) + (if cz {
        1int
    } else {
        0int
    });
    if !(0 <= node_index < nodes.len() && nodes[node_index] is Node) {
        false
    } else {
        let mask = nodes[node_index]->node.children.child_bits;
        if !bit_set(mask, child) {
            false
        } else if current_depth + 1 < depth {
            let slot = node_index + count_below(mask, child) + 1;
            if !(0 <= slot < nodes.len() && nodes[slot] is Pointer) {
                false
            } else {
                spec_query(
                    nodes,
                    depth,
                    slot + nodes[slot]->pointer.value,
                    current_depth + 1,
                    if cx {
                        fx + half
                    } else {
                        fx
                    },
                    if cy {
                        fy + half
                    } else {
                        fy
                    },
                    if cz {
                        fz + half
                    } else {
                        fz
                    },
                    half,
                    px,
                    py,
                    pz,
                )
            }
        } else {
            true
        }
    }
}

/// The compressed sparse voxel DAG: a depth and a flat record array whose
/// root node record sits at index 0.
#[derive(Debug)]
pub struct Svdag {
    pub depth: u8,
    pub nodes: Vec<SvdagValue>,
}

impl IsVolume for Svdag {
    open spec fn wf(&self) -> bool {
        pow2(self.depth as nat) * pow2(self.depth as nat) * pow2(self.depth as nat) <= usize::MAX
    }

    open spec fn spec_side(&self) -> int {
        pow2(self.depth as nat) as int
    }

    fn get_dimensions(&self) -> (r: VolumeDimensions) {
        proof {
            crate::volume::lemma_pow2_pos(self.depth as nat);
            let s = self.spec_side();
            assert(s <= s * s * s) by (nonlinear_arith)
                requires
                    s >= 1,
            ;
        }
        let side_size = crate::volume::CubicVolume::<bool>::get_side_element_count(self.depth);
        (side_size, side_size, side_size)
    }

    fn get_element_count(&self) -> (r: usize) {
        let d = self.get_dimensions();
        let s = d.0;
        proof {
            crate::volume::lemma_pow2_pos(self.depth as nat);
            assert(s * s <= s * s * s && (s * s) * s == s * s * s) by (nonlinear_arith)
                requires
                    s >= 1,
            ;
        }
        s * s * s
    }
}

impl Svdag {
    /// The empty graph: depth zero, no records; every query reads
    /// unoccupied.
    pub fn new() -> (r: Svdag)
        ensures
            r.depth == 0,
            r.nodes@.len() == 0,
    {
        Svdag { depth: 0, nodes: Vec::new() }
    }

    /// What this graph holds at the given voxel position.
    pub open spec fn spec_get(&self, px: int, py: int, pz: int) -> bool {
        spec_query(
            self.nodes@,
            self.depth as int,
            0,
            0,
            0,
            0,
            0,
            pow2(self.depth as nat) as int,
            px,
            py,
            pz,
        )
    }

    /// Occupancy at an absolute voxel coordinate, answered against the
    /// compressed array alone.
    pub fn get(&self, target_position: VolumePosition) -> (r: bool)
        requires
            self.wf(),
            target_position.0 < self.spec_side(),
            target_position.1 < self.spec_side(),
            target_position.2 < self.spec_side(),
        ensures
            r == self.spec_get(
                target_position.0 as int,
                target_position.1 as int,
                target_position.2 as int,
            ),
    {
        let dimensions = self.get_dimensions();
        self.get_recursive(target_position, 0, 0, (0, 0, 0), dimensions.0)
    }

    /// One descent step per level; `filter_dimension` is the extent of the
    /// cubic region the current node covers.
    fn get_recursive(
        &self,
        target_position: VolumePosition,
        node_index: usize,
        current_depth: u8,
        filter_position: VolumePosition,
        filter_dimension: usize,
    ) -> (r: bool)
        requires
            filter_position.0 + filter_dimension <= usize::MAX,
            filter_position.1 + filter_dimension <= usize::MAX,
            filter_position.2 + filter_dimension <= usize::MAX,
        ensures
            r == spec_query(
                self.nodes@,
                self.depth as int,
                node_index as int,
                current_depth as int,
                filter_position.0 as int,
                filter_position.1 as int,
                filter_position.2 as int,
                filter_dimension as int,
                target_position.0 as int,
                target_position.1 as int,
                target_position.2 as int,
            ),
        decreases self.depth - current_depth,
    {
        let half = filter_dimension / 2;
        let mut fx = filter_position.0;
        let mut fy = filter_position.1;
        let mut fz = filter_position.2;
        let mut child_index: usize = 0;
        if target_position.0 >= fx + half {
            fx += half;
            child_index += 4;
        }
        if target_position.1 >= fy + half {
            fy += half;
            child_index += 2;
        }
        if target_position.2 >= fz + half {
            fz += half;
            child_index += 1;
        }
        if node_index >= self.nodes.len() {
            return false;
        }
        let node = match self.nodes[node_index] {
            SvdagValue::Node { node } => node,
            SvdagValue::Pointer { .. } => {
                return false;
            },
        };
        let is_child_occupied = node.children.get(child_index);
        if !is_child_occupied {
            return false;
        }
        if (current_depth as u16) + 1 < (self.depth as u16) {
            let n = node.children.get_n(child_index);
            proof {
                crate::children::lemma_count_below_bounds(node.children.child_bits, 8);
                crate::children::lemma_count_below_monotonic(
                    node.children.child_bits,
                    child_index as int,
                    8,
                );
                reveal_with_fuel(spec_query, 2);
            }
            let child_pointer_index = match node_index.checked_add(n + 1) {
                Some(v) => v,
                None => {
                    return false;
                },
            };
            if child_pointer_index >= self.nodes.len() {
                return false;
            }
            let pointer = match self.nodes[child_pointer_index] {
                SvdagValue::Pointer { pointer } => pointer,
                SvdagValue::Node { .. } => {
                    return false;
                },
            };
            let offset = pointer.value;
            let next_index_opt: Option<usize> = if offset >= 0 {
                child_pointer_index.checked_add(offset as usize)
            } else {
                let magnitude = (-(offset as i32)) as usize;
                if magnitude <= child_pointer_index {
                    Some(child_pointer_index - magnitude)
                } else {
                    None
                }
            };
            match next_index_opt {
                Some(next_index) => self.get_recursive(
                    target_position,
                    next_index,
                    current_depth + 1,
                    (fx, fy, fz),
                    half,
                ),
                None => {
                    proof {
                        assert(child_pointer_index + offset > usize::MAX || child_pointer_index
                            + offset < 0);
                    }
                    false
                },
            }
        } else {
            true
        }
    }

    /// Serialize to the persisted byte layout: one depth byte, then each
    /// record as exactly two bytes (a node as mask then padding, a pointer
    /// as its offset in little-endian order).
    pub fn to_bytes(&self) -> (r: Vec<u8>)
        ensures
            r@.len() == 1 + 2 * self.nodes@.len(),
            r@[0] == self.depth,
            forall|i: int|
                0 <= i < self.nodes@.len() ==> r@[1 + 2 * i] == spec_byte_lo(#[trigger] self.nodes@[i]),
            forall|i: int|
                0 <= i < self.nodes@.len() ==> r@[2 + 2 * i] == spec_byte_hi(#[trigger] self.nodes@[i]),
    {
        let mut r: Vec<u8> = Vec::new();
        r.push(self.depth);
        let mut k: usize = 0;
        while k < self.nodes.len()
            invariant
                k <= self.nodes@.len(),
                r@.len() == 1 + 2 * k,
                r@[0] == self.depth,
                forall|i: int|
                    0 <= i < k ==> r@[1 + 2 * i] == spec_byte_lo(#[trigger] self.nodes@[i]),
                forall|i: int|
                    0 <= i < k ==> r@[2 + 2 * i] == spec_byte_hi(#[trigger] self.nodes@[i]),
            decreases self.nodes@.len() - k,
        {
            match self.nodes[k] {
                SvdagValue::Node { node } => {
                    r.push(node.children.child_bits);
                    r.push(node.padding);
                },
                SvdagValue::Pointer { pointer } => {
                    let raw = #[verifier::truncate] (pointer.value as u16);
                    proof {
                        let v = pointer.value;
                        assert(v as u16 == (if v < 0 {
                            v + 0x10000
                        } else {
                            v as int
                        })) by (bit_vector);
                        assert((v as u16) & 0xffu16 == (v as u16) % 256 && (v as u16) >> 8u16 == (v
                            as u16) / 256) by (bit_vector);
                    }
                    r.push((raw & 0xff) as u8);
                    r.push((raw >> 8) as u8);
                },
            }
            k += 1;
        }
        r
    }
}

} // verus!
