//! An 8-bit occupancy mask over the eight octants of a cubic node.
//!
//! Bit `i` of the mask records whether octant `i` is occupied. Octant
//! numbering follows the fixed `(dx, dy, dz)` bit-doubling order: octant
//! index `4*dx + 2*dy + dz` for `dx, dy, dz` in `{0, 1}`.

use vstd::prelude::*;

verus! {

/// True when bit `i` of `bits` is set. Meaningful for `0 <= i < 8`.
pub open spec fn bit_set(bits: u8, i: int) -> bool {
    0 <= i < 8 && (bits >> (i as u8)) & 1u8 == 1u8
}

/// The number of set bits of `bits` strictly below bit index `i`.
pub open spec fn count_below(bits: u8, i: int) -> int
    decreases i,
{
    if i <= 0 {
        0
    } else {
        count_below(bits, i - 1) + if bit_set(bits, i - 1) {
            1int
        } else {
            0int
        }
    }
}

/// `count_below` never exceeds the number of bit positions considered.
pub proof fn lemma_count_below_bounds(bits: u8, i: int)
    ensures
        0 <= count_below(bits, i) <= if i <= 0 {
            0int
        } else {
            i
        },
    decreases i,
{
    if i > 0 {
        lemma_count_below_bounds(bits, i - 1);
    }
}

/// `count_below` grows by steps of at most one as `i` grows.
pub proof fn lemma_count_below_monotonic(bits: u8, i: int, j: int)
    requires
        i <= j,
    ensures
        count_below(bits, i) <= count_below(bits, j),
    decreases j - i,
{
    if i < j {
        lemma_count_below_monotonic(bits, i, j - 1);
    }
}

/// Setting bit `i` leaves every other bit alone and forces bit `i` on.
pub proof fn lemma_or_bit(bits: u8, i: u8, j: int)
    requires
        i < 8,
        0 <= j < 8,
    ensures
        bit_set(bits | (1u8 << i), j) == (j == i || bit_set(bits, j)),
{
    let ju = j as u8;
    assert(ju < 8 && (ju == i || ju != i));
    assert(((bits | (1u8 << i)) >> ju) & 1u8 == (if ju == i {
        1u8
    } else {
        (bits >> ju) & 1u8
    })) by (bit_vector)
        requires
            i < 8,
            ju < 8,
    ;
}

/// Clearing bit `i` leaves every other bit alone and forces bit `i` off.
pub proof fn lemma_and_not_bit(bits: u8, i: u8, j: int)
    requires
        i < 8,
        0 <= j < 8,
    ensures
        bit_set(bits & !(1u8 << i), j) == (j != i && bit_set(bits, j)),
{
    let ju = j as u8;
    assert(((bits & !(1u8 << i)) >> ju) & 1u8 == (if ju == i {
        0u8
    } else {
        (bits >> ju) & 1u8
    })) by (bit_vector)
        requires
            i < 8,
            ju < 8,
    ;
}

/// The per-node occupancy mask: bit `i` marks octant `i` as occupied.
#[derive(Clone, Copy, Debug, PartialEq, Eq, Structural)]
pub struct Children {
    pub child_bits: u8,
}

impl Children {
    /// Wrap a raw 8-bit mask.
    pub fn new(child_bits: u8) -> (r: Children)
        ensures
            r.child_bits == child_bits,
    {
        Children { child_bits }
    }

    /// Whether octant `i` of this mask is occupied.
    pub open spec fn spec_get(&self, i: int) -> bool {
        bit_set(self.child_bits, i)
    }

    /// Test whether octant `child_index` is occupied.
    pub fn get(&self, child_index: usize) -> (r: bool)
        requires
            child_index < 8,
        ensures
            r == self.spec_get(child_index as int),
    {
        let bits = self.child_bits;
        let r = (bits >> child_index as u8) & 1 > 0;
        proof {
            let iu = child_index as u8;
            assert(((bits >> iu) & 1u8 > 0) == ((bits >> iu) & 1u8 == 1u8)) by (bit_vector);
        }
        r
    }

    /// Count the occupied octants strictly below `child_index`: the prefix
    /// population count that locates a child's pointer slot.
    pub fn get_n(&self, child_index: usize) -> (count: usize)
        requires
            child_index <= 8,
        ensures
            count == count_below(self.child_bits, child_index as int),
    {
        let mut count: usize = 0;
        let mut index: usize = 0;
        while index < child_index
            invariant
                index <= child_index,
                child_index <= 8,
                count == count_below(self.child_bits, index as int),
            decreases child_index - index,
        {
            proof {
                lemma_count_below_bounds(self.child_bits, index as int);
            }
            if self.get(index) {
                count += 1;
            }
            index += 1;
        }
        count
    }

    /// Set or clear octant `child_index`.
    pub fn set(&mut self, child_index: usize, has_child: bool)
        requires
            child_index < 8,
        ensures
            forall|j: int|
                0 <= j < 8 ==> final (self).spec_get(j) == (if j == child_index as int {
                    has_child
                } else {
                    old(self).spec_get(j)
                }),
    {
        match has_child {
            true => self.child_bits |= 1 << child_index as u8,
            false => self.child_bits &= !(1 << child_index as u8),
        };
        proof {
            assert forall|j: int| 0 <= j < 8 implies self.spec_get(j) == (if j
                == child_index as int {
                has_child
            } else {
                old(self).spec_get(j)
            }) by {
                if has_child {
                    lemma_or_bit(old(self).child_bits, child_index as u8, j);
                } else {
                    lemma_and_not_bit(old(self).child_bits, child_index as u8, j);
                }
            }
        }
    }

    /// Whether any octant at all is occupied.
    pub fn have_occupied_children(&self) -> (r: bool)
        ensures
            r == (self.child_bits != 0),
    {
        self.child_bits > 0
    }

    /// The total number of occupied octants.
    pub fn count_occupied(&self) -> (count: usize)
        ensures
            count == count_below(self.child_bits, 8),
    {
        self.get_n(8)
    }
}

} // verus!
