//! Merging the hashed-volume pyramid into one deduplicated graph.
//!
//! The builder walks the pyramid root-down, depth-first, left-to-right in
//! fixed octant order. Each node's content hash is looked up in a
//! hash-to-index table: a hit reuses the previously emitted record (the
//! deduplication that turns the octree into a DAG), a miss appends a node
//! record, reserves one pointer slot per occupied child, recurses, and
//! patches each slot with the signed offset from the slot to the child's
//! absolute index. A dedup hit is honoured only when the stored entry was
//! made at the same pyramid level: equal hashes at different levels are
//! treated as distinct rather than merged, so a hash collision across
//! levels cannot corrupt the graph's shape.
//!
//! The whole construction is a function of the source volume alone: its
//! meaning is the spec-level model `spec_emit_node` below, and the
//! executable code is proved to compute exactly that model.

use crate::children::{bit_set, count_below, lemma_count_below_bounds, lemma_count_below_monotonic,
    Children};
use crate::hashed_volume::{lemma_base_cell_bits, lemma_flat_bound, spec_base_cell,
    spec_base_layer, spec_coarse_layer, spec_flat, HashedVolume, HashedVolumeNode};
use crate::svdag::{spec_query, Svdag, SvdagNode, SvdagPointer, SvdagValue};
use crate::volume::{pow2, DensityVolume, IsVolume, IsVolumeIndex, VolumePosition};
use std::collections::HashMap;
use vstd::prelude::*;

verus! {

broadcast use vstd::std_specs::hash::group_hash_axioms;

/// Construction failure: a relative pointer offset fell outside the signed
/// 16-bit range the record format can store. This is a hard limit of the
/// format, reported rather than silently truncated.
#[derive(Clone, Copy, Debug, PartialEq, Eq, Structural)]
pub enum SvdagError {
    CapacityOverflow,
}

/// One entry of the deduplication table: where a node with a given content
/// hash was emitted, and at which pyramid level.
#[derive(Clone, Copy, Debug, PartialEq, Eq, Structural)]
pub struct TableEntry {
    pub index: usize,
    pub layer: usize,
}

/// The evolving output of the merge: the record array built so far and the
/// hash-to-index deduplication table.
pub struct BuildState {
    pub nodes: Seq<SvdagValue>,
    pub table: Map<u64, TableEntry>,
}

/// An unpatched pointer slot.
pub open spec fn spec_zero_pointer() -> SvdagValue {
    SvdagValue::Pointer { pointer: SvdagPointer { value: 0i16 } }
}

/// The octant's child position one level down: `(2x+dx, 2y+dy, 2z+dz)`
/// for octant index `4*dx + 2*dy + dz`.
pub open spec fn spec_child_position(px: int, py: int, pz: int, child: int) -> (int, int, int) {
    (2 * px + child / 4, 2 * py + (child / 2) % 2, 2 * pz + child % 2)
}

/// The model of emitting one pyramid node (and, recursively, everything
/// below it) into the build state. Returns the new state and the node's
/// absolute array index, or `None` when some pointer offset cannot be
/// represented. Layer `i` of `layers` has side `2^i`; the node addressed
/// is the one at `(px, py, pz)` in layer `layer_index`.
pub open spec fn spec_emit_node(
    layers: Seq<Seq<HashedVolumeNode>>,
    layer_index: int,
    px: int,
    py: int,
    pz: int,
    st: BuildState,
) -> Option<(BuildState, int)>
    decreases layers.len() - layer_index, 9int,
{
    if layer_index >= layers.len() {
        Some((st, 0))
    } else {
        let side = pow2(layer_index as nat) as int;
        let node = layers[layer_index][spec_flat(side, px, py, pz)];
        if st.table.contains_key(node.hash) && st.table[node.hash].layer == layer_index {
            Some((st, st.table[node.hash].index as int))
        } else if st.nodes.len() >= usize::MAX {
            None
        } else {
            let idx = st.nodes.len() as int;
            let st1 = BuildState {
                nodes: st.nodes.push(
                    SvdagValue::Node { node: SvdagNode { children: node.children, padding: 0 } },
                ),
                table: st.table.insert(
                    node.hash,
                    TableEntry { index: st.nodes.len() as usize, layer: layer_index as usize },
                ),
            };
            if layer_index + 1 < layers.len() {
                let count = count_below(node.children.child_bits, 8);
                let st2 = BuildState {
                    nodes: st1.nodes + Seq::new(count as nat, |j: int| spec_zero_pointer()),
                    table: st1.table,
                };
                match spec_emit_children(
                    layers,
                    layer_index,
                    px,
                    py,
                    pz,
                    node.children.child_bits,
                    0,
                    idx,
                    1,
                    st2,
                ) {
                    None => None,
                    Some(st3) => Some((st3, idx)),
                }
            } else {
                Some((st1, idx))
            }
        }
    }
}

/// The model of processing the children of a freshly emitted node, from
/// octant `child` upward: recurse into each occupied octant one level
/// down, then patch the pointer slot at `node_idx + slot_offset` with the
/// signed offset from the slot to the child's absolute index.
pub open spec fn spec_emit_children(
    layers: Seq<Seq<HashedVolumeNode>>,
    layer_index: int,
    px: int,
    py: int,
    pz: int,
    mask: u8,
    child: int,
    node_idx: int,
    slot_offset: int,
    st: BuildState,
) -> Option<BuildState>
    decreases layers.len() - layer_index, 8 - child,
{
    if child < 0 || child >= 8 || layer_index + 1 >= layers.len() {
        Some(st)
    } else if !bit_set(mask, child) {
        spec_emit_children(layers, layer_index, px, py, pz, mask, child + 1, node_idx, slot_offset, st)
    } else {
        let cp = spec_child_position(px, py, pz, child);
        match spec_emit_node(layers, layer_index + 1, cp.0, cp.1, cp.2, st) {
            None => None,
            Some((st2, child_abs)) => {
                let slot = node_idx + slot_offset;
                let off = child_abs - slot;
                if off < -32768 || off > 32767 {
                    None
                } else {
                    spec_emit_children(
                        layers,
                        layer_index,
                        px,
                        py,
                        pz,
                        mask,
                        child + 1,
                        node_idx,
                        slot_offset + 1,
                        BuildState {
                            nodes: st2.nodes.update(
                                slot,
                                SvdagValue::Pointer { pointer: SvdagPointer { value: off as i16 } },
                            ),
                            table: st2.table,
                        },
                    )
                }
            },
        }
    }
}

/// The whole merge: emit the root of the pyramid into an empty state.
pub open spec fn spec_build(layers: Seq<Seq<HashedVolumeNode>>) -> Option<BuildState> {
    match spec_emit_node(
        layers,
        0,
        0,
        0,
        0,
        BuildState { nodes: Seq::empty(), table: Map::empty() },
    ) {
        None => None,
        Some(p) => Some(p.0),
    }
}

/// Pyramid level `i` of a source volume of the given depth, as a pure
/// value: the base level for `i = depth - 1`, and one coarsening step for
/// each level above it.
pub open spec fn spec_layer(src: Seq<bool>, vol_depth: int, i: int) -> Seq<HashedVolumeNode>
    decreases vol_depth - i,
{
    if i >= vol_depth - 1 {
        spec_base_layer(src, pow2((vol_depth - 1) as nat) as int)
    } else {
        spec_coarse_layer(spec_layer(src, vol_depth, i + 1), pow2(i as nat) as int)
    }
}

/// The whole pyramid of a source volume, root level first.
pub open spec fn spec_pyramid(src: Seq<bool>, vol_depth: int) -> Seq<Seq<HashedVolumeNode>> {
    Seq::new(vol_depth as nat, |i: int| spec_layer(src, vol_depth, i))
}

/// The views of a vector of pyramid levels.
pub open spec fn views_of(s: Seq<HashedVolume>) -> Seq<Seq<HashedVolumeNode>> {
    Seq::new(s.len(), |i: int| s[i]@)
}

/// The structural facts the merge needs of a level vector: level `i` is a
/// well-formed grid of depth `i`, and there are at most 256 levels.
pub open spec fn layers_basic(s: Seq<HashedVolume>) -> bool {
    &&& s.len() <= 256
    &&& forall|i: int| 0 <= i < s.len() ==> (#[trigger] s[i]).wf() && s[i].depth == i
}

/// Emitting a node never shrinks the record array.
pub proof fn lemma_emit_node_grows(
    layers: Seq<Seq<HashedVolumeNode>>,
    layer_index: int,
    px: int,
    py: int,
    pz: int,
    st: BuildState,
)
    ensures
        match spec_emit_node(layers, layer_index, px, py, pz, st) {
            Some(p) => p.0.nodes.len() >= st.nodes.len(),
            None => true,
        },
    decreases layers.len() - layer_index, 9int,
{
    if layer_index < layers.len() {
        let side = pow2(layer_index as nat) as int;
        let node = layers[layer_index][spec_flat(side, px, py, pz)];
        if !(st.table.contains_key(node.hash) && st.table[node.hash].layer == layer_index)
            && st.nodes.len() < usize::MAX {
            let idx = st.nodes.len() as int;
            let st1 = BuildState {
                nodes: st.nodes.push(
                    SvdagValue::Node { node: SvdagNode { children: node.children, padding: 0 } },
                ),
                table: st.table.insert(
                    node.hash,
                    TableEntry { index: st.nodes.len() as usize, layer: layer_index as usize },
                ),
            };
            if layer_index + 1 < layers.len() {
                let count = count_below(node.children.child_bits, 8);
                let st2 = BuildState {
                    nodes: st1.nodes + Seq::new(count as nat, |j: int| spec_zero_pointer()),
                    table: st1.table,
                };
                lemma_count_below_bounds(node.children.child_bits, 8);
                lemma_emit_children_grows(
                    layers,
                    layer_index,
                    px,
                    py,
                    pz,
                    node.children.child_bits,
                    0,
                    idx,
                    1,
                    st2,
                );
            }
        }
    }
}

/// Processing children never shrinks the record array, provided the
/// parent's pointer slots all lie inside it.
pub proof fn lemma_emit_children_grows(
    layers: Seq<Seq<HashedVolumeNode>>,
    layer_index: int,
    px: int,
    py: int,
    pz: int,
    mask: u8,
    child: int,
    node_idx: int,
    slot_offset: int,
    st: BuildState,
)
    requires
        0 <= child,
        0 <= node_idx,
        slot_offset == count_below(mask, child) + 1,
        node_idx + count_below(mask, 8) < st.nodes.len(),
    ensures
        match spec_emit_children(
            layers,
            layer_index,
            px,
            py,
            pz,
            mask,
            child,
            node_idx,
            slot_offset,
            st,
        ) {
            Some(st2) => st2.nodes.len() >= st.nodes.len(),
            None => true,
        },
    decreases layers.len() - layer_index, 8 - child,
{
    if child < 8 && layer_index + 1 < layers.len() {
        lemma_count_below_bounds(mask, child);
        lemma_count_below_monotonic(mask, child + 1, 8);
        if !bit_set(mask, child) {
            lemma_emit_children_grows(
                layers,
                layer_index,
                px,
                py,
                pz,
                mask,
                child + 1,
                node_idx,
                slot_offset,
                st,
            );
        } else {
            let cp = spec_child_position(px, py, pz, child);
            lemma_emit_node_grows(layers, layer_index + 1, cp.0, cp.1, cp.2, st);
            match spec_emit_node(layers, layer_index + 1, cp.0, cp.1, cp.2, st) {
                None => {},
                Some((st2, child_abs)) => {
                    let slot = node_idx + slot_offset;
                    let off = child_abs - slot;
                    if !(off < -32768 || off > 32767) {
                        let upd = BuildState {
                            nodes: st2.nodes.update(
                                slot,
                                SvdagValue::Pointer {
                                    pointer: SvdagPointer { value: off as i16 },
                                },
                            ),
                            table: st2.table,
                        };
                        assert(0 <= slot < st2.nodes.len());
                        assert(upd.nodes.len() == st2.nodes.len());
                        lemma_emit_children_grows(
                            layers,
                            layer_index,
                            px,
                            py,
                            pz,
                            mask,
                            child + 1,
                            node_idx,
                            slot_offset + 1,
                            upd,
                        );
                    }
                },
            }
        }
    }
}

/// The builder: the pyramid levels, the deduplication table, and the
/// graph being assembled.
pub struct SvdagBuilder {
    pub hash_volume_layers: Vec<HashedVolume>,
    pub node_hashes: HashMap<u64, TableEntry>,
    pub graph: Svdag,
}

impl SvdagBuilder {
    /// A fresh builder holding an empty graph.
    pub fn new() -> (r: SvdagBuilder)
        ensures
            r.hash_volume_layers@.len() == 0,
            r.node_hashes@ == Map::<u64, TableEntry>::empty(),
            r.graph.depth == 0,
            r.graph.nodes@.len() == 0,
    {
        SvdagBuilder {
            hash_volume_layers: Vec::new(),
            node_hashes: HashMap::new(),
            graph: Svdag::new(),
        }
    }

    /// Emit the pyramid node at `position` of level `layer_index`, and
    /// everything below it, exactly as the model `spec_emit_node` says.
    fn recurse_layers(
        &self,
        new_graph: &mut Vec<SvdagValue>,
        node_hashes: &mut HashMap<u64, TableEntry>,
        layer_index: usize,
        position: VolumePosition,
    ) -> (r: Result<usize, SvdagError>)
        requires
            layers_basic(self.hash_volume_layers@),
            layer_index < self.hash_volume_layers@.len() ==> {
                &&& position.0 < pow2(layer_index as nat)
                &&& position.1 < pow2(layer_index as nat)
                &&& position.2 < pow2(layer_index as nat)
            },
        ensures
            match spec_emit_node(
                views_of(self.hash_volume_layers@),
                layer_index as int,
                position.0 as int,
                position.1 as int,
                position.2 as int,
                BuildState { nodes: old(new_graph)@, table: old(node_hashes)@ },
            ) {
                Some(p) => {
                    &&& r matches Ok(v) && v == p.1
                    &&& final (new_graph)@ == p.0.nodes
                    &&& final (node_hashes)@ == p.0.table
                },
                None => r is Err,
            },
        decreases self.hash_volume_layers@.len() - layer_index, 9int,
    {
        let ghost layersv = views_of(self.hash_volume_layers@);
        let layers_len = self.hash_volume_layers.len();
        if layer_index >= layers_len {
            return Ok(0);
        }
        let layer = &self.hash_volume_layers[layer_index];
        proof {
            crate::volume::lemma_pow2_pos(layer_index as nat);
            lemma_flat_bound(
                pow2(layer_index as nat) as int,
                position.0 as int,
                position.1 as int,
                position.2 as int,
            );
        }
        let node = *layer.get(position);
        let duplicate = node_hashes.get(&node.hash);
        match duplicate {
            Some(entry) => {
                if entry.layer == layer_index {
                    return Ok(entry.index);
                }
            },
            None => {},
        }
        let current_node_absolute_index = new_graph.len();
        if current_node_absolute_index == usize::MAX {
            return Err(SvdagError::CapacityOverflow);
        }
        node_hashes.insert(
            node.hash,
            TableEntry { index: current_node_absolute_index, layer: layer_index },
        );
        new_graph.push(SvdagValue::Node { node: SvdagNode { children: node.children, padding: 0 } });
        if layer_index + 1 < layers_len {
            let children_count = node.children.count_occupied();
            let ghost with_record = new_graph@;
            let mut k: usize = 0;
            while k < children_count
                invariant
                    k <= children_count,
                    new_graph@ =~= with_record + Seq::new(
                        k as nat,
                        |j: int| spec_zero_pointer(),
                    ),
                decreases children_count - k,
            {
                new_graph.push(SvdagValue::Pointer { pointer: SvdagPointer { value: 0 } });
                k += 1;
                proof {
                    assert(new_graph@ =~= with_record + Seq::new(
                        k as nat,
                        |j: int| spec_zero_pointer(),
                    ));
                }
            }
            proof {
                lemma_count_below_bounds(node.children.child_bits, 8);
            }
            let children_positions = layer.calculate_children_positions(position);
            let res = self.recurse_children(
                new_graph,
                node_hashes,
                layer_index,
                position,
                children_positions,
                node.children,
                0,
                current_node_absolute_index,
                1,
            );
            match res {
                Ok(_) => Ok(current_node_absolute_index),
                Err(e) => Err(e),
            }
        } else {
            Ok(current_node_absolute_index)
        }
    }

    /// Process the children of the freshly emitted node at `node_idx`,
    /// from octant `child` upward, exactly as `spec_emit_children` says:
    /// recurse into each occupied octant and patch its pointer slot.
    fn recurse_children(
        &self,
        new_graph: &mut Vec<SvdagValue>,
        node_hashes: &mut HashMap<u64, TableEntry>,
        layer_index: usize,
        position: VolumePosition,
        children_positions: [VolumePosition; 8],
        children: Children,
        child: usize,
        node_idx: usize,
        slot_offset: usize,
    ) -> (r: Result<(), SvdagError>)
        requires
            layers_basic(self.hash_volume_layers@),
            layer_index + 1 < self.hash_volume_layers@.len(),
            position.0 < pow2(layer_index as nat),
            position.1 < pow2(layer_index as nat),
            position.2 < pow2(layer_index as nat),
            forall|b: int|
                0 <= b < 8 ==> #[trigger] children_positions@[b].0 == 2 * position.0 + (if b >= 4 {
                    1int
                } else {
                    0int
                }),
            forall|b: int|
                0 <= b < 8 ==> #[trigger] children_positions@[b].1 == 2 * position.1 + (if b == 2
                    || b == 3 || b == 6 || b == 7 {
                    1int
                } else {
                    0int
                }),
            forall|b: int|
                0 <= b < 8 ==> #[trigger] children_positions@[b].2 == 2 * position.2 + (if b % 2
                    == 1 {
                    1int
                } else {
                    0int
                }),
            child <= 8,
            slot_offset == count_below(children.child_bits, child as int) + 1,
            node_idx + count_below(children.child_bits, 8) < old(new_graph)@.len(),
        ensures
            match spec_emit_children(
                views_of(self.hash_volume_layers@),
                layer_index as int,
                position.0 as int,
                position.1 as int,
                position.2 as int,
                children.child_bits,
                child as int,
                node_idx as int,
                slot_offset as int,
                BuildState { nodes: old(new_graph)@, table: old(node_hashes)@ },
            ) {
                Some(st) => {
                    &&& r matches Ok(u)
                    &&& final (new_graph)@ == st.nodes
                    &&& final (node_hashes)@ == st.table
                },
                None => r is Err,
            },
        decreases self.hash_volume_layers@.len() - layer_index, 8 - child,
    {
        let ghost layersv = views_of(self.hash_volume_layers@);
        let ghost st0 = BuildState { nodes: new_graph@, table: node_hashes@ };
        if child >= 8 {
            return Ok(());
        }
        proof {
            lemma_count_below_bounds(children.child_bits, child as int);
            lemma_count_below_monotonic(children.child_bits, child as int + 1, 8);
        }
        if !children.get(child) {
            return self.recurse_children(
                new_graph,
                node_hashes,
                layer_index,
                position,
                children_positions,
                children,
                child + 1,
                node_idx,
                slot_offset,
            );
        }
        let child_position = children_positions[child];
        proof {
            assert(child as int / 4 == (if child >= 4 {
                1int
            } else {
                0int
            }) && (child as int / 2) % 2 == (if child == 2 || child == 3 || child == 6 || child
                == 7 {
                1int
            } else {
                0int
            }) && child as int % 2 == (if child as int % 2 == 1 {
                1int
            } else {
                0int
            }));
            assert(child_position.0 as int == spec_child_position(
                position.0 as int,
                position.1 as int,
                position.2 as int,
                child as int,
            ).0);
        }
        let child_result = match self.recurse_layers(
            new_graph,
            node_hashes,
            layer_index + 1,
            child_position,
        ) {
            Ok(v) => v,
            Err(e) => {
                return Err(e);
            },
        };
        proof {
            lemma_emit_node_grows(
                layersv,
                layer_index as int + 1,
                child_position.0 as int,
                child_position.1 as int,
                child_position.2 as int,
                st0,
            );
        }
        let graph_len = new_graph.len();
        proof {
            assert(count_below(children.child_bits, child as int + 1) == count_below(
                children.child_bits,
                child as int,
            ) + 1);
            assert(node_idx + slot_offset <= node_idx + count_below(children.child_bits, 8));
        }
        let slot = node_idx + slot_offset;
        let offset_value: i16 = if child_result >= slot {
            let d = child_result - slot;
            if d > 32767 {
                return Err(SvdagError::CapacityOverflow);
            }
            d as i16
        } else {
            let d = slot - child_result;
            if d > 32768 {
                return Err(SvdagError::CapacityOverflow);
            }
            (-(d as i32)) as i16
        };
        new_graph[slot] = SvdagValue::Pointer { pointer: SvdagPointer { value: offset_value } };
        self.recurse_children(
            new_graph,
            node_hashes,
            layer_index,
            position,
            children_positions,
            children,
            child + 1,
            node_idx,
            slot_offset + 1,
        )
    }

    /// Build all pyramid levels bottom-up from the source volume and
    /// record the volume's depth as the graph's depth. Level `i` of the
    /// result is exactly `spec_layer(volume@, depth, i)`: the base level
    /// last, the 1x1x1 root level first.
    #[verifier::loop_isolation(false)]
    pub fn create_layers(&mut self, volume: &DensityVolume)
        requires
            volume.wf(),
            volume.depth >= 1,
            old(self).hash_volume_layers@.len() == 0,
        ensures
            final (self).graph.depth == volume.depth,
            final (self).graph.nodes == old(self).graph.nodes,
            final (self).node_hashes == old(self).node_hashes,
            layers_basic(final (self).hash_volume_layers@),
            final (self).hash_volume_layers@.len() == volume.depth,
            views_of(final (self).hash_volume_layers@) == spec_pyramid(
                volume@,
                volume.depth as int,
            ),
    {
        let ghost vol_depth = volume.depth as int;
        self.graph.depth = volume.depth;
        let mut stack: Vec<HashedVolume> = Vec::new();
        let mut hv = HashedVolume::from_density_volume(volume);
        while hv.depth > 0
            invariant
                hv.wf(),
                hv.depth < volume.depth,
                hv@ == spec_layer(volume@, vol_depth, hv.depth as int),
                stack@.len() == volume.depth - 1 - hv.depth,
                forall|j: int|
                    0 <= j < stack@.len() ==> (#[trigger] stack@[j]).wf() && stack@[j].depth
                        == vol_depth - 1 - j && stack@[j]@ == spec_layer(
                        volume@,
                        vol_depth,
                        vol_depth - 1 - j,
                    ),
            decreases hv.depth,
        {
            let next = HashedVolume::from_hashed_volume(&hv);
            stack.push(hv);
            hv = next;
        }
        stack.push(hv);
        let mut remaining = stack.len();
        while remaining > 0
            invariant
                remaining == stack@.len(),
                self.hash_volume_layers@.len() + stack@.len() == volume.depth,
                forall|j: int|
                    0 <= j < stack@.len() ==> (#[trigger] stack@[j]).wf() && stack@[j].depth
                        == vol_depth - 1 - j && stack@[j]@ == spec_layer(
                        volume@,
                        vol_depth,
                        vol_depth - 1 - j,
                    ),
                forall|i: int|
                    0 <= i < self.hash_volume_layers@.len() ==> (#[trigger] self
                        .hash_volume_layers@[i]).wf() && self.hash_volume_layers@[i].depth == i
                        && self.hash_volume_layers@[i]@ == spec_layer(volume@, vol_depth, i),
                self.graph.depth == volume.depth,
                self.graph.nodes == old(self).graph.nodes,
                self.node_hashes == old(self).node_hashes,
            decreases remaining,
        {
            let layer = match stack.pop() {
                Some(l) => l,
                None => {
                    break ;
                },
            };
            self.hash_volume_layers.push(layer);
            remaining = remaining - 1;
        }
        proof {
            assert(views_of(self.hash_volume_layers@) =~= spec_pyramid(volume@, vol_depth));
        }
    }

    /// Merge the pyramid into one deduplicated graph, replacing the record
    /// array and the deduplication table. Fails exactly when the model
    /// does: when some relative offset cannot be stored in 16 bits; the
    /// builder is then left unchanged.
    pub fn create_graph(&mut self) -> (r: Result<(), SvdagError>)
        requires
            layers_basic(old(self).hash_volume_layers@),
        ensures
            final (self).hash_volume_layers == old(self).hash_volume_layers,
            final (self).graph.depth == old(self).graph.depth,
            match spec_build(views_of(old(self).hash_volume_layers@)) {
                Some(st) => {
                    &&& r matches Ok(u)
                    &&& final (self).graph.nodes@ == st.nodes
                    &&& final (self).node_hashes@ == st.table
                },
                None => r is Err && *final (self) == *old(self),
            },
    {
        let mut graph_nodes: Vec<SvdagValue> = Vec::new();
        let mut node_hashes: HashMap<u64, TableEntry> = HashMap::new();
        let res = self.recurse_layers(&mut graph_nodes, &mut node_hashes, 0, (0, 0, 0));
        match res {
            Ok(_) => {
                self.graph.nodes = graph_nodes;
                self.node_hashes = node_hashes;
                Ok(())
            },
            Err(e) => Err(e),
        }
    }

    /// Hand out a copy of the finished graph.
    pub fn finish(&self) -> (r: Svdag)
        ensures
            r.depth == self.graph.depth,
            r.nodes@ == self.graph.nodes@,
    {
        let mut nodes: Vec<SvdagValue> = Vec::new();
        let mut i: usize = 0;
        while i < self.graph.nodes.len()
            invariant
                i <= self.graph.nodes@.len(),
                nodes@.len() == i,
                forall|j: int| 0 <= j < i ==> nodes@[j] == self.graph.nodes@[j],
            decreases self.graph.nodes@.len() - i,
        {
            nodes.push(self.graph.nodes[i]);
            i += 1;
        }
        proof {
            assert(nodes@ =~= self.graph.nodes@);
        }
        Svdag { depth: self.graph.depth, nodes }
    }
}

impl Svdag {
    /// The whole pipeline in one call: build the pyramid from the volume,
    /// merge it into a deduplicated graph, and hand the graph back. Fails
    /// exactly when the model does: when some relative offset cannot be
    /// stored in 16 bits.
    pub fn from_density_volume(volume: &DensityVolume) -> (r: Result<Svdag, SvdagError>)
        requires
            volume.wf(),
            volume.depth >= 1,
        ensures
            match spec_build(spec_pyramid(volume@, volume.depth as int)) {
                Some(st) => {
                    &&& r matches Ok(g) && g.depth == volume.depth && g.nodes@ == st.nodes
                },
                None => r is Err,
            },
    {
        let mut builder = SvdagBuilder::new();
        builder.create_layers(volume);
        match builder.create_graph() {
            Ok(_) => Ok(builder.finish()),
            Err(e) => Err(e),
        }
    }
}

/// Every deduplication-table entry names an in-range node record.
pub open spec fn table_ok(st: BuildState) -> bool {
    forall|h: u64|
        #[trigger] st.table.contains_key(h) ==> 0 <= st.table[h].index < st.nodes.len()
            && st.nodes[st.table[h].index as int] is Node
}

/// Whatever the build appends or patches, every record that existed before
/// is left exactly as it was.
pub open spec fn prefix_preserved(old_nodes: Seq<SvdagValue>, new_nodes: Seq<SvdagValue>) -> bool {
    &&& new_nodes.len() >= old_nodes.len()
    &&& forall|i: int| 0 <= i < old_nodes.len() ==> new_nodes[i] == old_nodes[i]
}

/// Table entries only change by insertions that name records at or beyond
/// the old array length.
pub open spec fn table_extended(st: BuildState, st2: BuildState) -> bool {
    forall|h: u64|
        #[trigger] st2.table.contains_key(h) ==> ((st.table.contains_key(h) && st2.table[h]
            == st.table[h]) || st2.table[h].index >= st.nodes.len())
}

/// The parent-before-child shape of one emitted node: for every occupied
/// octant `j` at or beyond `child`, the pointer slot at the octant's
/// prefix-popcount offset holds a pointer whose target is an in-range node
/// record lying strictly outside the parent's own record-and-slots block —
/// before it (a deduplication hit) or after it (a fresh emission).
pub open spec fn spec_child_slots_ok(
    nodes: Seq<SvdagValue>,
    mask: u8,
    child: int,
    node_idx: int,
) -> bool {
    forall|j: int|
        child <= j < 8 && #[trigger] bit_set(mask, j) ==> {
            let slot = node_idx + count_below(mask, j) + 1;
            &&& nodes[slot] is Pointer
            &&& {
                let t = slot + nodes[slot]->pointer.value as int;
                &&& 0 <= t < nodes.len()
                &&& nodes[t] is Node
                &&& (t < node_idx || t > node_idx + count_below(mask, 8))
            }
        }
}

/// The structural facts an emission establishes: the table invariant is
/// kept, everything already emitted is preserved verbatim, the returned
/// index names a node record, and a freshly emitted non-leaf node leaves
/// the parent-before-child shape behind.
#[verifier::rlimit(60)]
pub proof fn lemma_emit_node_props(
    layers: Seq<Seq<HashedVolumeNode>>,
    layer_index: int,
    px: int,
    py: int,
    pz: int,
    st: BuildState,
)
    requires
        table_ok(st),
        0 <= layer_index,
        layers.len() <= usize::MAX,
    ensures
        match spec_emit_node(layers, layer_index, px, py, pz, st) {
            None => true,
            Some(p) => ({
                let st2 = p.0;
                let r = p.1;
                let side = pow2(layer_index as nat) as int;
                let node = layers[layer_index][spec_flat(side, px, py, pz)];
                &&& table_ok(st2)
                &&& prefix_preserved(st.nodes, st2.nodes)
                &&& table_extended(st, st2)
                &&& (layer_index < layers.len() ==> {
                    &&& 0 <= r <= st.nodes.len()
                    &&& r < st2.nodes.len()
                    &&& st2.nodes[r] is Node
                    &&& (r < st.nodes.len() ==> exists|h: u64|
                        #[trigger] st.table.contains_key(h) && st.table[h].index == r
                            && st.table[h].layer == layer_index)
                    &&& (!(st.table.contains_key(node.hash) && st.table[node.hash].layer
                        == layer_index) ==> st2.nodes[r]->node.children == node.children)
                    &&& ((!(st.table.contains_key(node.hash) && st.table[node.hash].layer
                        == layer_index) && layer_index + 1 < layers.len())
                        ==> spec_child_slots_ok(st2.nodes, node.children.child_bits, 0, r))
                })
            }),
        },
    decreases layers.len() - layer_index, 9int,
{
    if layer_index >= layers.len() {
        return ;
    }
    let side = pow2(layer_index as nat) as int;
    let node = layers[layer_index][spec_flat(side, px, py, pz)];
    if st.table.contains_key(node.hash) && st.table[node.hash].layer == layer_index {
        let h = node.hash;
        assert(st.table.contains_key(h) && st.table[h].index == st.table[node.hash].index
            && st.table[h].layer == layer_index);
        return ;
    }
    if st.nodes.len() >= usize::MAX {
        return ;
    }
    let idx = st.nodes.len() as int;
    let st1 = BuildState {
        nodes: st.nodes.push(
            SvdagValue::Node { node: SvdagNode { children: node.children, padding: 0 } },
        ),
        table: st.table.insert(
            node.hash,
            TableEntry { index: st.nodes.len() as usize, layer: layer_index as usize },
        ),
    };
    if layer_index + 1 < layers.len() {
        let count = count_below(node.children.child_bits, 8);
        lemma_count_below_bounds(node.children.child_bits, 8);
        let st2 = BuildState {
            nodes: st1.nodes + Seq::new(count as nat, |j: int| spec_zero_pointer()),
            table: st1.table,
        };
        assert(table_ok(st2)) by {
            assert forall|h: u64| #[trigger] st2.table.contains_key(h) implies 0
                <= st2.table[h].index < st2.nodes.len() && st2.nodes[st2.table[h].index as int]
                is Node by {
                if h != node.hash {
                    assert(st.table.contains_key(h) && st2.table[h] == st.table[h]);
                    assert(st2.nodes[st2.table[h].index as int] == st.nodes[st2.table[h].index as int]);
                }
            }
        }
        assert forall|k: int| idx + 1 <= k <= idx + count implies st2.nodes[k] is Pointer by {
            assert(st2.nodes[k] == Seq::new(count as nat, |j: int| spec_zero_pointer())[k - idx
                - 1]);
        }
        assert forall|h: u64| #[trigger] st2.table.contains_key(h) implies st2.table[h].index
            != idx || st2.table[h].layer == layer_index by {
            if h != node.hash {
                assert(st.table.contains_key(h) && st2.table[h] == st.table[h]);
                assert(st.table[h].index < st.nodes.len());
            }
        }
        lemma_emit_children_props(
            layers,
            layer_index,
            px,
            py,
            pz,
            node.children.child_bits,
            0,
            idx,
            1,
            st2,
        );
        match spec_emit_children(
            layers,
            layer_index,
            px,
            py,
            pz,
            node.children.child_bits,
            0,
            idx,
            1,
            st2,
        ) {
            None => {},
            Some(st3) => {
                assert(prefix_preserved(st.nodes, st3.nodes));
                assert(table_extended(st, st3)) by {
                    assert forall|h: u64| #[trigger] st3.table.contains_key(h) implies ((
                    st.table.contains_key(h) && st3.table[h] == st.table[h]) || st3.table[h].index
                        >= st.nodes.len()) by {
                        if st2.table.contains_key(h) && st3.table[h] == st2.table[h] {
                            if h != node.hash {
                                assert(st.table.contains_key(h) && st2.table[h] == st.table[h]);
                            }
                        } else {
                            assert(st3.table[h].index >= st2.nodes.len());
                        }
                    }
                }
                assert(st3.nodes[idx] is Node);
            },
        }
    } else {
        assert(table_ok(st1)) by {
            assert forall|h: u64| #[trigger] st1.table.contains_key(h) implies 0
                <= st1.table[h].index < st1.nodes.len() && st1.nodes[st1.table[h].index as int]
                is Node by {
                if h != node.hash {
                    assert(st.table.contains_key(h) && st1.table[h] == st.table[h]);
                }
            }
        }
    }
}

/// The structural facts child processing establishes: besides keeping the
/// table invariant, it touches nothing below the parent's remaining slot
/// range, keeps the parent's slots pointer-shaped, and leaves every octant
/// at or beyond `child` in the parent-before-child shape.
#[verifier::rlimit(60)]
pub proof fn lemma_emit_children_props(
    layers: Seq<Seq<HashedVolumeNode>>,
    layer_index: int,
    px: int,
    py: int,
    pz: int,
    mask: u8,
    child: int,
    node_idx: int,
    slot_offset: int,
    st: BuildState,
)
    requires
        table_ok(st),
        0 <= layer_index,
        layers.len() <= usize::MAX,
        layer_index + 1 < layers.len(),
        0 <= child,
        0 <= node_idx,
        slot_offset == count_below(mask, child) + 1,
        node_idx + count_below(mask, 8) < st.nodes.len(),
        forall|k: int|
            node_idx + 1 <= k <= node_idx + count_below(mask, 8) ==> st.nodes[k] is Pointer,
        forall|h: u64|
            #[trigger] st.table.contains_key(h) ==> st.table[h].index != node_idx
                || st.table[h].layer == layer_index,
    ensures
        match spec_emit_children(
            layers,
            layer_index,
            px,
            py,
            pz,
            mask,
            child,
            node_idx,
            slot_offset,
            st,
        ) {
            None => true,
            Some(st2) => {
                &&& table_ok(st2)
                &&& table_extended(st, st2)
                &&& st2.nodes.len() >= st.nodes.len()
                &&& forall|i: int|
                    0 <= i < st.nodes.len() && (i < node_idx + slot_offset || i > node_idx
                        + count_below(mask, 8)) ==> st2.nodes[i] == st.nodes[i]
                &&& forall|k: int|
                    node_idx + 1 <= k <= node_idx + count_below(mask, 8) ==> st2.nodes[k]
                        is Pointer
                &&& spec_child_slots_ok(st2.nodes, mask, child, node_idx)
            },
        },
    decreases layers.len() - layer_index, 8 - child,
{
    if child >= 8 {
        return ;
    }
    lemma_count_below_bounds(mask, child);
    lemma_count_below_monotonic(mask, child + 1, 8);
    if !bit_set(mask, child) {
        lemma_emit_children_props(
            layers,
            layer_index,
            px,
            py,
            pz,
            mask,
            child + 1,
            node_idx,
            slot_offset,
            st,
        );
        return ;
    }
    let cp = spec_child_position(px, py, pz, child);
    lemma_emit_node_props(layers, layer_index + 1, cp.0, cp.1, cp.2, st);
    match spec_emit_node(layers, layer_index + 1, cp.0, cp.1, cp.2, st) {
        None => {},
        Some((sta, child_abs)) => {
            let slot = node_idx + slot_offset;
            let off = child_abs - slot;
            if off < -32768 || off > 32767 {
                return ;
            }
            let count8 = count_below(mask, 8);
            // The child's index lies outside the parent's block.
            assert(child_abs < node_idx || child_abs > node_idx + count8) by {
                if child_abs < st.nodes.len() {
                    let h = choose|h: u64|
                        #[trigger] st.table.contains_key(h) && st.table[h].index == child_abs
                            && st.table[h].layer == layer_index + 1;
                    if node_idx + 1 <= child_abs <= node_idx + count8 {
                        assert(st.nodes[child_abs] is Pointer);
                        assert(st.nodes[st.table[h].index as int] is Node);
                    }
                    if child_abs == node_idx {
                        assert(st.table[h].layer == layer_index);
                    }
                } else {
                    assert(child_abs == st.nodes.len());
                }
            }
            let upd = BuildState {
                nodes: sta.nodes.update(
                    slot,
                    SvdagValue::Pointer { pointer: SvdagPointer { value: off as i16 } },
                ),
                table: sta.table,
            };
            assert(0 <= slot < sta.nodes.len());
            assert(table_ok(upd)) by {
                assert forall|h: u64| #[trigger] upd.table.contains_key(h) implies 0
                    <= upd.table[h].index < upd.nodes.len() && upd.nodes[upd.table[h].index as int]
                    is Node by {
                    assert(sta.nodes[sta.table[h].index as int] is Node);
                    if sta.table[h].index == slot {
                        assert(sta.nodes[slot] == st.nodes[slot]);
                        assert(st.nodes[slot] is Pointer);
                    }
                }
            }
            assert forall|h: u64| #[trigger] upd.table.contains_key(h) implies upd.table[h].index
                != node_idx || upd.table[h].layer == layer_index by {
                if st.table.contains_key(h) && sta.table[h] == st.table[h] {
                } else {
                    assert(sta.table[h].index >= st.nodes.len());
                }
            }
            lemma_emit_children_props(
                layers,
                layer_index,
                px,
                py,
                pz,
                mask,
                child + 1,
                node_idx,
                slot_offset + 1,
                upd,
            );
            match spec_emit_children(
                layers,
                layer_index,
                px,
                py,
                pz,
                mask,
                child + 1,
                node_idx,
                slot_offset + 1,
                upd,
            ) {
                None => {},
                Some(st2) => {
                    assert(table_extended(st, st2)) by {
                        assert forall|h: u64| #[trigger] st2.table.contains_key(h) implies ((
                        st.table.contains_key(h) && st2.table[h] == st.table[h])
                            || st2.table[h].index >= st.nodes.len()) by {
                            if upd.table.contains_key(h) && st2.table[h] == upd.table[h] {
                            } else {
                                assert(st2.table[h].index >= upd.nodes.len());
                            }
                        }
                    }
                    assert(spec_child_slots_ok(st2.nodes, mask, child, node_idx)) by {
                        assert forall|j: int|
                            child <= j < 8 && #[trigger] bit_set(mask, j) implies {
                            let slotj = node_idx + count_below(mask, j) + 1;
                            &&& st2.nodes[slotj] is Pointer
                            &&& {
                                let t = slotj + st2.nodes[slotj]->pointer.value as int;
                                &&& 0 <= t < st2.nodes.len()
                                &&& st2.nodes[t] is Node
                                &&& (t < node_idx || t > node_idx + count_below(mask, 8))
                            }
                        } by {
                            if j == child {
                                assert(st2.nodes[slot] == upd.nodes[slot]);
                                assert(upd.nodes[slot]->pointer.value as int == off);
                                assert(st2.nodes[slot + off] is Node) by {
                                    assert(sta.nodes[child_abs] is Node);
                                    assert(upd.nodes[child_abs] is Node);
                                    assert(st2.nodes[child_abs] == upd.nodes[child_abs]);
                                }
                            } else {
                                lemma_count_below_monotonic(mask, child + 1, j);
                            }
                        }
                    }
                },
            }
        },
    }
}

/// Parent-before-child at the root of a finished build: the root record at
/// index 0 is a node, each of its occupied octants has a pointer slot in
/// the root's own block, and every referenced child index lies outside
/// that block — the root's record and all its placeholder slots exist
/// before any child record.
pub proof fn lemma_parent_before_child(layers: Seq<Seq<HashedVolumeNode>>, st: BuildState)
    requires
        spec_build(layers) == Some(st),
        2 <= layers.len() <= usize::MAX,
    ensures
        st.nodes.len() > 0,
        st.nodes[0] is Node,
        spec_child_slots_ok(st.nodes, st.nodes[0]->node.children.child_bits, 0, 0),
{
    let empty = BuildState { nodes: Seq::empty(), table: Map::empty() };
    lemma_emit_node_props(layers, 0, 0, 0, 0, empty);
}

/// The round-trip law, proved for single-level volumes (side 2): querying
/// the built graph at any in-range coordinate returns exactly the source
/// voxel. (At greater depths the law additionally rests on content hashes
/// colliding on no two distinct sub-trees of one level, which no fixed
/// 64-bit hash grants unconditionally.)
pub proof fn lemma_round_trip_depth_one(src: Seq<bool>, st: BuildState, px: int, py: int, pz: int)
    requires
        src.len() == 8,
        spec_build(spec_pyramid(src, 1)) == Some(st),
        0 <= px < 2,
        0 <= py < 2,
        0 <= pz < 2,
    ensures
        spec_query(st.nodes, 1, 0, 0, 0, 0, 0, 2, px, py, pz) == src[spec_flat(2, px, py, pz)],
{
    let layers = spec_pyramid(src, 1);
    assert(layers[0] == spec_base_layer(src, 1));
    let cell = spec_base_cell(src, 1, 0, 0, 0);
    assert(spec_base_layer(src, 1)[0] == cell);
    let record = SvdagValue::Node { node: SvdagNode { children: cell.children, padding: 0 } };
    assert(st.nodes =~= seq![record]);
    let dx: int = if px >= 1 { 1 } else { 0 };
    let dy: int = if py >= 1 { 1 } else { 0 };
    let dz: int = if pz >= 1 { 1 } else { 0 };
    lemma_base_cell_bits(src, 1, 0, 0, 0, dx, dy, dz);
    assert(px == dx && py == dy && pz == dz);
    assert(spec_query(st.nodes, 1, 0, 0, 0, 0, 0, 2, px, py, pz) == bit_set(
        cell.children.child_bits,
        4 * dx + 2 * dy + dz,
    ));
}

/// Determinism of construction: the merged record array and table are a
/// function of the source volume alone — any two results that realize the
/// model of the same volume are identical, record for record.
pub proof fn lemma_build_deterministic(
    src: Seq<bool>,
    vol_depth: int,
    st1: BuildState,
    st2: BuildState,
)
    requires
        spec_build(spec_pyramid(src, vol_depth)) == Some(st1),
        spec_build(spec_pyramid(src, vol_depth)) == Some(st2),
    ensures
        st1.nodes == st2.nodes,
        st1.table == st2.table,
{
}

} // verus!

