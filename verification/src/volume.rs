//! Dense cubic grids of side `2^depth`, indexed by flat index or by
//! `(x, y, z)` position with the flat layout `z*side*side + y*side + x`.

use vstd::prelude::*;

verus! {

pub type VolumeDimensions = (usize, usize, usize);

pub type VolumePosition = (usize, usize, usize);

pub type VolumeIndex = usize;

/// `2^e`, the side length of a cubic volume of depth `e`.
pub open spec fn pow2(e: nat) -> nat
    decreases e,
{
    if e == 0 {
        1nat
    } else {
        2 * pow2((e - 1) as nat)
    }
}

pub proof fn lemma_pow2_pos(e: nat)
    ensures
        pow2(e) >= 1,
    decreases e,
{
    if e > 0 {
        lemma_pow2_pos((e - 1) as nat);
    }
}

pub proof fn lemma_pow2_monotonic(a: nat, b: nat)
    requires
        a <= b,
    ensures
        pow2(a) <= pow2(b),
    decreases b,
{
    if a < b {
        lemma_pow2_monotonic(a, (b - 1) as nat);
        lemma_pow2_pos((b - 1) as nat);
    }
}

/// Anything that presents itself as a cubic grid.
pub trait IsVolume: Sized {
    /// The structural invariant a well-formed volume maintains.
    spec fn wf(&self) -> bool;

    /// The side length, as a mathematical integer.
    spec fn spec_side(&self) -> int;

    fn get_dimensions(&self) -> (r: VolumeDimensions)
        requires
            self.wf(),
        ensures
            r.0 == self.spec_side(),
            r.1 == self.spec_side(),
            r.2 == self.spec_side(),
    ;

    fn get_element_count(&self) -> (r: usize)
        requires
            self.wf(),
        ensures
            r == self.spec_side() * self.spec_side() * self.spec_side(),
    ;
}

/// Anything that can address a cell of a cubic grid.
pub trait IsVolumeIndex: Sized {
    /// When this index is meaningful for a grid of the given side.
    spec fn index_wf(&self, side: int) -> bool;

    /// The flat index this value addresses in a grid of the given side.
    spec fn spec_index(&self, side: int) -> int;

    fn get_index<V: IsVolume>(&self, volume: &V) -> (r: VolumeIndex)
        requires
            volume.wf(),
            self.index_wf(volume.spec_side()),
        ensures
            r == self.spec_index(volume.spec_side()),
    ;
}

impl IsVolumeIndex for usize {
    open spec fn index_wf(&self, side: int) -> bool {
        true
    }

    open spec fn spec_index(&self, side: int) -> int {
        *self as int
    }

    fn get_index<V: IsVolume>(&self, _volume: &V) -> (r: VolumeIndex) {
        *self
    }
}

impl IsVolumeIndex for VolumePosition {
    open spec fn index_wf(&self, side: int) -> bool {
        self.0 < side && self.1 < side && self.2 < side && side * side * side <= usize::MAX
    }

    open spec fn spec_index(&self, side: int) -> int {
        self.2 * side * side + self.1 * side + self.0
    }

    fn get_index<V: IsVolume>(&self, volume: &V) -> (r: VolumeIndex) {
        let d = volume.get_dimensions();
        let s = d.0;
        proof {
            assert(self.2 * (s * s) + self.1 * s + self.0 < s * s * s && s * s <= s * s * s
                && self.2 * (s * s) <= s * s * s - s * s && self.2 * (s * s) + self.1 * s + self.0
                == self.2 * s * s + self.1 * s + self.0) by (nonlinear_arith)
                requires
                    self.0 < s,
                    self.1 < s,
                    self.2 < s,
            ;
        }
        self.2 * (s * s) + self.1 * s + self.0
    }
}

/// A dense cubic grid of side `2^depth` holding one `T` per cell.
pub struct CubicVolume<T> {
    pub values: Vec<T>,
    pub depth: u8,
}

/// A binary occupancy volume: the input to compression.
pub type DensityVolume = CubicVolume<bool>;

impl<T> View for CubicVolume<T> {
    type V = Seq<T>;

    open spec fn view(&self) -> Seq<T> {
        self.values@
    }
}

impl<T> IsVolume for CubicVolume<T> {
    open spec fn wf(&self) -> bool {
        &&& self.spec_side() * self.spec_side() * self.spec_side() <= usize::MAX
        &&& self.values@.len() == self.spec_side() * self.spec_side() * self.spec_side()
    }

    open spec fn spec_side(&self) -> int {
        pow2(self.depth as nat) as int
    }

    fn get_dimensions(&self) -> (r: VolumeDimensions) {
        proof {
            lemma_pow2_pos(self.depth as nat);
            let s = self.spec_side();
            assert(s <= s * s * s) by (nonlinear_arith)
                requires
                    s >= 1,
            ;
        }
        let side_size = CubicVolume::<T>::get_side_element_count(self.depth);
        (side_size, side_size, side_size)
    }

    fn get_element_count(&self) -> (r: usize) {
        let d = self.get_dimensions();
        let s = d.0;
        proof {
            lemma_pow2_pos(self.depth as nat);
            assert(s * s <= s * s * s && (s * s) * s == s * s * s) by (nonlinear_arith)
                requires
                    s >= 1,
            ;
        }
        s * s * s
    }
}

impl<T> CubicVolume<T> {
    /// Construct a grid of depth `depth` with every cell set to `fill`.
    pub fn new(depth: u8, fill: T) -> (r: CubicVolume<T>) where T: Copy
        requires
            pow2(depth as nat) * pow2(depth as nat) * pow2(depth as nat) <= usize::MAX,
        ensures
            r.wf(),
            r.depth == depth,
            r@ =~= Seq::new((pow2(depth as nat) * pow2(depth as nat) * pow2(depth as nat)) as nat,
                |i: int| fill),
    {
        let count = CubicVolume::<T>::get_volume_element_count(depth);
        let mut values: Vec<T> = Vec::new();
        let mut j: usize = 0;
        while j < count
            invariant
                j <= count,
                values@.len() == j,
                forall|k: int| 0 <= k < j ==> values@[k] == fill,
            decreases count - j,
        {
            values.push(fill);
            j += 1;
        }
        CubicVolume { values, depth }
    }

    /// Read the cell the given index addresses.
    pub fn get(&self, volume_index: impl IsVolumeIndex) -> (element: &T)
        requires
            self.wf(),
            volume_index.index_wf(self.spec_side()),
            0 <= volume_index.spec_index(self.spec_side()) < self@.len(),
        ensures
            *element == self@[volume_index.spec_index(self.spec_side())],
    {
        let index = volume_index.get_index(self);
        &self.values[index]
    }

    /// Borrow the cell the given index addresses for writing.
    pub fn get_mut(&mut self, volume_index: impl IsVolumeIndex) -> (element: &mut T)
        requires
            old(self).wf(),
            volume_index.index_wf(old(self).spec_side()),
            0 <= volume_index.spec_index(old(self).spec_side()) < old(self)@.len(),
        ensures
            *element == old(self)@[volume_index.spec_index(old(self).spec_side())],
            final (self)@ == old(self)@.update(
                volume_index.spec_index(old(self).spec_side()),
                *final (element),
            ),
            final (self).depth == old(self).depth,
            final (self).wf(),
    {
        let index = volume_index.get_index(self);
        &mut self.values[index]
    }

    /// The side length `2^depth` of a grid of the given depth.
    pub fn get_side_element_count(depth: u8) -> (r: usize)
        requires
            pow2(depth as nat) <= usize::MAX,
        ensures
            r == pow2(depth as nat),
    {
        let mut r: usize = 1;
        let mut i: u8 = 0;
        while i < depth
            invariant
                i <= depth,
                r == pow2(i as nat),
                pow2(depth as nat) <= usize::MAX,
            decreases depth - i,
        {
            proof {
                lemma_pow2_monotonic((i + 1) as nat, depth as nat);
            }
            r = r * 2;
            i = i + 1;
        }
        r
    }

    /// The per-slice cell count `4^depth` of a grid of the given depth.
    pub fn get_area_element_count(depth: u8) -> (r: usize)
        requires
            pow2(depth as nat) * pow2(depth as nat) <= usize::MAX,
        ensures
            r == pow2(depth as nat) * pow2(depth as nat),
    {
        proof {
            lemma_pow2_pos(depth as nat);
            let s = pow2(depth as nat) as int;
            assert(s <= s * s) by (nonlinear_arith)
                requires
                    s >= 1,
            ;
        }
        let s = CubicVolume::<T>::get_side_element_count(depth);
        s * s
    }

    /// The total cell count `8^depth` of a grid of the given depth.
    pub fn get_volume_element_count(depth: u8) -> (r: usize)
        requires
            pow2(depth as nat) * pow2(depth as nat) * pow2(depth as nat) <= usize::MAX,
        ensures
            r == pow2(depth as nat) * pow2(depth as nat) * pow2(depth as nat),
    {
        proof {
            lemma_pow2_pos(depth as nat);
            let s = pow2(depth as nat) as int;
            assert(s * s <= s * s * s && s <= s * s * s && (s * s) * s == s * s * s)
                by (nonlinear_arith)
                requires
                    s >= 1,
            ;
        }
        let s = CubicVolume::<T>::get_side_element_count(depth);
        (s * s) * s
    }
}

} // verus!
