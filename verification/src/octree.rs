//! A content-addressed octree over quantized 3D positions.
//!
//! Positions are grid coordinates on a `2^21` lattice spanning the root
//! cube, matching the Morton code's 21 bits per axis: the octant of a
//! position at level `l` is read off its upper `l` bits per axis. The caller
//! quantizes its floating-point centers onto the lattice; every placement
//! decision made here is proved.

use vstd::prelude::*;
use crate::error::CoordsError;
use crate::morton::morton_encode;

verus! {

/// A position on the `2^21` lattice inside the root cube.
#[derive(Debug, Clone, Copy, PartialEq, Eq, Hash, Structural)]
pub struct GridPoint {
    pub x: u64,
    pub y: u64,
    pub z: u64,
}

impl GridPoint {
    /// Each coordinate stays below `2^21`.
    pub open spec fn wf(self) -> bool {
        self.x < 0x200000 && self.y < 0x200000 && self.z < 0x200000
    }

    pub fn new(x: u64, y: u64, z: u64) -> (r: Option<GridPoint>)
        ensures
            r matches Some(p) ==> p == (GridPoint { x, y, z }) && p.wf(),
            r is None <==> !(GridPoint { x, y, z }).wf(),
    {
        if x < 0x200000 && y < 0x200000 && z < 0x200000 {
            Some(GridPoint { x, y, z })
        } else {
            None
        }
    }
}

/// The address of one octant: a subdivision level and three cell
/// coordinates, each below `2^level`.
#[derive(Eq, PartialEq, Debug, Copy, Clone, Hash, Structural)]
pub struct OctantIndex {
    pub level: u32,
    pub x: u64,
    pub y: u64,
    pub z: u64,
}

/// Whether the octant holds the position: the position's upper `level` bits
/// per axis address exactly this octant.
pub open spec fn octant_contains(idx: OctantIndex, p: GridPoint) -> bool {
    &&& idx.level <= 21
    &&& p.x >> (21 - idx.level) == idx.x
    &&& p.y >> (21 - idx.level) == idx.y
    &&& p.z >> (21 - idx.level) == idx.z
}

/// Whether `a` is `d` or one of its ancestors in the octant hierarchy.
pub open spec fn ancestor_or_self(a: OctantIndex, d: OctantIndex) -> bool {
    &&& a.level <= d.level
    &&& a.x == d.x >> ((d.level - a.level) as u64)
    &&& a.y == d.y >> ((d.level - a.level) as u64)
    &&& a.z == d.z >> ((d.level - a.level) as u64)
}

impl OctantIndex {
    /// Coordinates stay below `2^level`.
    pub open spec fn wf(self) -> bool {
        &&& self.level <= 21
    &&& self.x < (1u64 << (self.level as u64))
        &&& self.y < (1u64 << (self.level as u64))
        &&& self.z < (1u64 << (self.level as u64))
    }

    /// Builds an octant address; coordinates beyond the level's range are
    /// rejected.
    pub fn new(level: u32, x: u64, y: u64, z: u64) -> (r: Result<OctantIndex, CoordsError>)
        requires
            level <= 21,
        ensures
            r matches Ok(i) ==> i == (OctantIndex { level, x, y, z }) && i.wf(),
            r is Err <==> !(OctantIndex { level, x, y, z }).wf(),
            r matches Err(e) ==> e matches CoordsError::IndexOutOfBounds { .. },
    {
        proof {
            let l = level as u64;
            assert(l <= 21 ==> 1u64 << l >= 1) by (bit_vector);
        }
        let maximum_index: u64 = (1u64 << (level as u64)) - 1;
        if x > maximum_index || y > maximum_index || z > maximum_index {
            return Err(CoordsError::IndexOutOfBounds { level, maximum_index, x, y, z });
        }
        Ok(OctantIndex { level, x, y, z })
    }

    /// Builds an octant address without the range test.
    pub fn new_unchecked(level: u32, x: u64, y: u64, z: u64) -> (r: OctantIndex)
        ensures
            r == (OctantIndex { level, x, y, z }),
    {
        OctantIndex { level, x, y, z }
    }

    /// The level-0 root octant.
    pub fn origin() -> (r: OctantIndex)
        ensures
            r == (OctantIndex { level: 0, x: 0, y: 0, z: 0 }),
            r.wf(),
    {
        proof {
            assert(0u64 < 1u64 << 0u64) by (bit_vector);
        }
        OctantIndex { level: 0, x: 0, y: 0, z: 0 }
    }

    /// The Morton code of the cell coordinates: the bits of `x`, `y` and `z`
    /// interleaved. Coordinates beyond 32 bits are rejected.
    pub fn morton_index(&self) -> (r: Result<u64, CoordsError>)
        ensures
            self.x <= u32::MAX && self.y <= u32::MAX && self.z <= u32::MAX <==> r is Ok,
            r matches Err(e) ==> e matches CoordsError::IndexTooLarge,
            r matches Ok(code) ==> {
                &&& forall|i: u64| i < 21 ==> #[trigger] ((code >> (3 * i)) & 1) == ((self.x >> i)
                    & 1)
                &&& forall|i: u64| i < 21 ==> #[trigger] ((code >> (3 * i + 1)) & 1) == ((self.y
                    >> i) & 1)
                &&& forall|i: u64| i < 21 ==> #[trigger] ((code >> (3 * i + 2)) & 1) == ((self.z
                    >> i) & 1)
            },
    {
        if self.x > u32::MAX as u64 || self.y > u32::MAX as u64 || self.z > u32::MAX as u64 {
            return Err(CoordsError::IndexTooLarge);
        }
        let code = morton_encode(self.x as u32, self.y as u32, self.z as u32);
        proof {
            let sx = self.x;
            let sy = self.y;
            let sz = self.z;
            assert((sx <= 0xFFFF_FFFFu64 ==> sx as u32 as u64 == sx) && (sy <= 0xFFFF_FFFFu64
                ==> sy as u32 as u64 == sy) && (sz <= 0xFFFF_FFFFu64 ==> sz as u32 as u64
                == sz)) by (bit_vector);
        }
        Ok(code)
    }

    /// The first child: the octant at the next level covering this octant's
    /// lower corner.
    pub fn get_child_base_octant(&self) -> (r: OctantIndex)
        requires
            self.wf(),
            self.level < 21,
        ensures
            r.level == self.level + 1,
            r.x == self.x * 2 && r.y == self.y * 2 && r.z == self.z * 2,
            r.wf(),
    {
        proof {
            let l = self.level as u64;
            let sx = self.x;
            let sy = self.y;
            let sz = self.z;
            assert(sx < (1u64 << l) ==> sx * 2 < (1u64 << ((l + 1) as u64)) && sx * 2 <= u64::MAX
                - 1) by (bit_vector)
                requires
                    l < 21u64,
            ;
            assert(sy < (1u64 << l) ==> sy * 2 < (1u64 << ((l + 1) as u64)) && sy * 2 <= u64::MAX
                - 1) by (bit_vector)
                requires
                    l < 21u64,
            ;
            assert(sz < (1u64 << l) ==> sz * 2 < (1u64 << ((l + 1) as u64)) && sz * 2 <= u64::MAX
                - 1) by (bit_vector)
                requires
                    l < 21u64,
            ;
        }
        OctantIndex { level: self.level + 1, x: self.x * 2, y: self.y * 2, z: self.z * 2 }
    }

    /// Whether the octant has a parent: every octant but the root.
    pub fn has_parent(&self) -> (r: bool)
        ensures
            r == (self.level > 0),
    {
        self.level > 0
    }

    /// The parent octant, for every octant but the root.
    pub fn get_parent(&self) -> (r: Option<OctantIndex>)
        requires
            self.wf(),
        ensures
            self.level == 0 ==> r is None,
            self.level > 0 ==> (r matches Some(p) && p == (OctantIndex {
                level: (self.level - 1) as u32,
                x: self.x / 2,
                y: self.y / 2,
                z: self.z / 2,
            }) && p.wf() && ancestor_or_self(p, *self)),
    {
        if self.level == 0 {
            return None;
        }
        let p = OctantIndex {
            level: self.level - 1,
            x: self.x / 2,
            y: self.y / 2,
            z: self.z / 2,
        };
        proof {
            let l = self.level as u64;
            let sx = self.x;
            let sy = self.y;
            let sz = self.z;
            assert((sx < (1u64 << l) ==> sx / 2 < (1u64 << ((l - 1) as u64))) && sx / 2 == sx
                >> 1u64) by (bit_vector)
                requires
                    0 < l <= 21u64,
            ;
            assert((sy < (1u64 << l) ==> sy / 2 < (1u64 << ((l - 1) as u64))) && sy / 2 == sy
                >> 1u64) by (bit_vector)
                requires
                    0 < l <= 21u64,
            ;
            assert((sz < (1u64 << l) ==> sz / 2 < (1u64 << ((l - 1) as u64))) && sz / 2 == sz
                >> 1u64) by (bit_vector)
                requires
                    0 < l <= 21u64,
            ;
        }
        Some(p)
    }

    /// Every ancestor of this octant, itself included, ordered from the root
    /// down to the octant itself.
    pub fn get_ancestors(&self) -> (r: Vec<OctantIndex>)
        requires
            self.wf(),
        ensures
            r@.len() == self.level + 1,
            forall|k: int| 0 <= k <= self.level ==> (#[trigger] r@[k]).level == k,
            forall|k: int| 0 <= k <= self.level ==> ancestor_or_self(#[trigger] r@[k], *self),
            r@[self.level as int] == *self,
            forall|k: int| 0 <= k <= self.level ==> (#[trigger] r@[k]).wf(),
    {
        let mut chain: Vec<OctantIndex> = Vec::new();
        let mut current = *self;
        chain.push(current);
        proof {
            let sx = self.x;
            let sy = self.y;
            let sz = self.z;
            assert(ancestor_or_self(*self, *self)) by {
                assert(sx >> 0u64 == sx && sy >> 0u64 == sy && sz >> 0u64
                    == sz) by (bit_vector);
            }
        }
        while current.level > 0
            invariant
                self.wf(),
                current.wf(),
                chain@.len() >= 1,
                chain@.len() == self.level - current.level + 1,
                forall|k: int| 0 <= k < chain@.len() ==> (#[trigger] chain@[k]).level == self.level
                    - k,
                forall|k: int| 0 <= k < chain@.len() ==> ancestor_or_self(
                    #[trigger] chain@[k],
                    *self,
                ) && chain@[k].wf(),
                chain@[0] == *self,
                chain@.last() == current,
            decreases current.level,
        {
            let parent = match current.get_parent() {
                Some(p) => p,
                None => {
                    proof {
                        assert(false);
                    }
                    current
                },
            };
            proof {
                lemma_ancestor_step(parent, current, *self);
            }
            chain.push(parent);
            current = parent;
        }
        // reverse: root first
        let mut out: Vec<OctantIndex> = Vec::new();
        let n = chain.len();
        let mut i: usize = 0;
        while i < n
            invariant
                0 <= i <= n,
                n == chain@.len(),
                n == self.level + 1,
                out@.len() == i,
                forall|k: int| 0 <= k < chain@.len() ==> (#[trigger] chain@[k]).level == self.level
                    - k,
                forall|k: int| 0 <= k < chain@.len() ==> ancestor_or_self(
                    #[trigger] chain@[k],
                    *self,
                ) && chain@[k].wf(),
                chain@[0] == *self,
                forall|k: int| 0 <= k < i ==> #[trigger] out@[k] == chain@[n - 1 - k],
            decreases n - i,
        {
            out.push(chain[n - 1 - i]);
            i = i + 1;
        }
        out
    }

    /// The eight children of the octant, in the fixed order: low corner
    /// first, then `x`, `y`, `x y`, `z`, `x z`, `y z`, `x y z` offsets.
    pub fn get_children(&self) -> (r: Vec<OctantIndex>)
        requires
            self.wf(),
            self.level < 21,
        ensures
            r@.len() == 8,
            forall|d: int|
                0 <= d < 8 ==> #[trigger] r@[d] == (OctantIndex {
                    level: (self.level + 1) as u32,
                    x: (self.x * 2 + (d % 2)) as u64,
                    y: (self.y * 2 + ((d / 2) % 2)) as u64,
                    z: (self.z * 2 + (d / 4)) as u64,
                }),
            forall|d: int| 0 <= d < 8 ==> (#[trigger] r@[d]).wf(),
    {
        let base = self.get_child_base_octant();
        let mut out: Vec<OctantIndex> = Vec::new();
        let mut d: usize = 0;
        while d < 8
            invariant
                0 <= d <= 8,
                base.level == self.level + 1,
                base.x == self.x * 2 && base.y == self.y * 2 && base.z == self.z * 2,
                base.wf(),
                self.wf(),
                self.level < 21,
                out@.len() == d,
                forall|k: int|
                    0 <= k < d ==> #[trigger] out@[k] == (OctantIndex {
                        level: (self.level + 1) as u32,
                        x: (self.x * 2 + (k % 2)) as u64,
                        y: (self.y * 2 + ((k / 2) % 2)) as u64,
                        z: (self.z * 2 + (k / 4)) as u64,
                    }),
                forall|k: int| 0 <= k < d ==> (#[trigger] out@[k]).wf(),
            decreases 8 - d,
        {
            let dx = (d % 2) as u64;
            let dy = ((d / 2) % 2) as u64;
            let dz = (d / 4) as u64;
            proof {
                let l = self.level as u64;
                let sx = self.x;
                let sy = self.y;
                let sz = self.z;
                assert((sx < (1u64 << l) && sx * 2 <= u64::MAX - 1) ==> sx * 2 + 1 < (1u64 << ((l
                    + 1) as u64))) by (bit_vector)
                    requires
                        l < 21u64,
                ;
                assert((sy < (1u64 << l) && sy * 2 <= u64::MAX - 1) ==> sy * 2 + 1 < (1u64 << ((l
                    + 1) as u64))) by (bit_vector)
                    requires
                        l < 21u64,
                ;
                assert((sz < (1u64 << l) && sz * 2 <= u64::MAX - 1) ==> sz * 2 + 1 < (1u64 << ((l
                    + 1) as u64))) by (bit_vector)
                    requires
                        l < 21u64,
                ;
            }
            out.push(
                OctantIndex {
                    level: base.level,
                    x: base.x + dx,
                    y: base.y + dy,
                    z: base.z + dz,
                },
            );
            d = d + 1;
        }
        out
    }
}

/// An ancestor of an ancestor is an ancestor.
proof fn lemma_ancestor_step(a: OctantIndex, b: OctantIndex, d: OctantIndex)
    requires
        ancestor_or_self(a, b),
        ancestor_or_self(b, d),
        a.level + 1 == b.level,
        d.level <= 63,
    ensures
        ancestor_or_self(a, d),
{
    let s1 = (d.level - b.level) as u64;
    let dx = d.x;
    let dy = d.y;
    let dz = d.z;
    let bx = b.x;
    let by = b.y;
    let bz = b.z;
    assert((dx >> s1) >> 1u64 == dx >> ((s1 + 1) as u64)) by (bit_vector)
        requires
            s1 <= 63u64,
    ;
    assert((dy >> s1) >> 1u64 == dy >> ((s1 + 1) as u64)) by (bit_vector)
        requires
            s1 <= 63u64,
    ;
    assert((dz >> s1) >> 1u64 == dz >> ((s1 + 1) as u64)) by (bit_vector)
        requires
            s1 <= 63u64,
    ;
    assert(bx >> 1u64 == bx / 2 && by >> 1u64 == by / 2 && bz >> 1u64 == bz
        / 2) by (bit_vector);
}

} // verus!

verus! {

/// Whether an octant occurs in a list of octants.
pub open spec fn contains_octant(s: Seq<OctantIndex>, o: OctantIndex) -> bool {
    exists|i: int| 0 <= i < s.len() && #[trigger] s[i] == o
}

/// Tracks which octants, with all their ancestors, have content.
#[derive(Debug, Clone)]
pub struct OctreeOccupancyGraph {
    pub occupied: Vec<OctantIndex>,
}

impl OctreeOccupancyGraph {
    /// Well-formed: valid octants, none listed twice.
    pub open spec fn wf(self) -> bool {
        &&& forall|i: int| 0 <= i < self.occupied@.len() ==> (#[trigger] self.occupied@[i]).wf()
        &&& forall|a: int, b: int|
            0 <= a < b < self.occupied@.len() ==> self.occupied@[a] != self.occupied@[b]
    }

    /// An empty occupancy record.
    pub fn new() -> (r: OctreeOccupancyGraph)
        ensures
            r.wf(),
            r.occupied@.len() == 0,
    {
        OctreeOccupancyGraph { occupied: Vec::new() }
    }

    /// Whether the cell, or one of its descendants, holds content.
    pub fn is_cell_occupied(&self, index: OctantIndex) -> (r: bool)
        ensures
            r == contains_octant(self.occupied@, index),
    {
        let mut i: usize = 0;
        while i < self.occupied.len()
            invariant
                0 <= i <= self.occupied@.len(),
                forall|k: int| 0 <= k < i ==> #[trigger] self.occupied@[k] != index,
            decreases self.occupied@.len() - i,
        {
            if self.occupied[i] == index {
                return true;
            }
            i = i + 1;
        }
        false
    }

    /// The occupied cells of one level.
    pub fn get_occupied_cell_indices_of_level(&self, level: u32) -> (r: Vec<OctantIndex>)
        ensures
            forall|o: OctantIndex|
                #![trigger contains_octant(r@, o)]
                contains_octant(r@, o) <==> (contains_octant(self.occupied@, o) && o.level
                    == level),
    {
        let mut out: Vec<OctantIndex> = Vec::new();
        let mut i: usize = 0;
        while i < self.occupied.len()
            invariant
                0 <= i <= self.occupied@.len(),
                forall|o: OctantIndex|
                    #![trigger contains_octant(out@, o)]
                    contains_octant(out@, o) <==> ((exists|k: int|
                        0 <= k < i && #[trigger] self.occupied@[k] == o) && o.level == level),
            decreases self.occupied@.len() - i,
        {
            let ghost pre = out@;
            if self.occupied[i].level == level {
                out.push(self.occupied[i]);
            }
            proof {
                assert forall|o: OctantIndex| #[trigger] contains_octant(out@, o) implies ((exists|
                    k: int,
                |
                    0 <= k < i + 1 && #[trigger] self.occupied@[k] == o) && o.level == level) by {
                    let m = choose|m: int| 0 <= m < out@.len() && #[trigger] out@[m] == o;
                    if m < pre.len() {
                        assert(contains_octant(pre, o));
                    } else {
                        assert(o == self.occupied@[i as int]);
                    }
                }
                assert forall|o: OctantIndex|
                    ((exists|k: int| 0 <= k < i + 1 && #[trigger] self.occupied@[k] == o)
                        && o.level == level) implies #[trigger] contains_octant(out@, o) by {
                    let k = choose|k: int| 0 <= k < i + 1 && #[trigger] self.occupied@[k] == o;
                    if k < i {
                        assert(contains_octant(pre, o));
                        let m = choose|m: int| 0 <= m < pre.len() && #[trigger] pre[m] == o;
                        assert(out@[m] == o);
                    } else {
                        assert(out@[out@.len() - 1] == o);
                    }
                }
            }
            i = i + 1;
        }
        out
    }

    /// Records content in the cell: the cell and every ancestor up to the
    /// root become occupied.
    #[verifier::loop_isolation(false)]
    pub fn add_cell_occupancy(&mut self, octant_index: OctantIndex)
        requires
            old(self).wf(),
            octant_index.wf(),
        ensures
            final(self).wf(),
            forall|o: OctantIndex|
                #![trigger contains_octant(final(self).occupied@, o)]
                contains_octant(final(self).occupied@, o) <==> (contains_octant(
                    old(self).occupied@,
                    o,
                ) || (ancestor_or_self(o, octant_index) && o.wf())),
    {
        let chain = octant_index.get_ancestors();
        let mut k: usize = 0;
        while k < chain.len()
            invariant
                0 <= k <= chain@.len(),
                self.wf(),
                forall|o: OctantIndex|
                    #![trigger contains_octant(self.occupied@, o)]
                    contains_octant(self.occupied@, o) <==> (contains_octant(
                        old(self).occupied@,
                        o,
                    ) || exists|m: int| 0 <= m < k && #[trigger] chain@[m] == o),
            decreases chain@.len() - k,
        {
            let ghost pre = self.occupied@;
            if !self.is_cell_occupied(chain[k]) {
                self.occupied.push(chain[k]);
                proof {
                    assert forall|a: int, b: int|
                        0 <= a < b < self.occupied@.len() implies self.occupied@[a]
                        != self.occupied@[b] by {
                        if b == self.occupied@.len() - 1 {
                            assert(contains_octant(pre, pre[a]));
                        }
                    }
                }
            }
            proof {
                assert forall|o: OctantIndex| #[trigger] contains_octant(
                    self.occupied@,
                    o,
                ) implies (contains_octant(old(self).occupied@, o) || exists|m: int|
                    0 <= m < k + 1 && #[trigger] chain@[m] == o) by {
                    let m = choose|m: int| 0 <= m < self.occupied@.len()
                        && #[trigger] self.occupied@[m] == o;
                    if m < pre.len() {
                        assert(contains_octant(pre, o));
                    } else {
                        assert(o == chain@[k as int]);
                    }
                }
                assert forall|o: OctantIndex|
                    (contains_octant(old(self).occupied@, o) || exists|m: int|
                        0 <= m < k + 1 && #[trigger] chain@[m] == o) implies
                    #[trigger] contains_octant(self.occupied@, o) by {
                    if contains_octant(pre, o) {
                        let m = choose|m: int| 0 <= m < pre.len() && #[trigger] pre[m] == o;
                        assert(self.occupied@[m] == o);
                    } else {
                        assert(o == chain@[k as int]);
                        if !contains_octant(pre, chain@[k as int]) {
                            assert(self.occupied@[self.occupied@.len() - 1] == chain@[k as int]);
                        } else {
                            let m2 = choose|m2: int|
                                0 <= m2 < pre.len() && #[trigger] pre[m2] == chain@[k as int];
                            assert(self.occupied@[m2] == chain@[k as int]);
                        }
                        assert(contains_octant(self.occupied@, chain@[k as int]));
                    }
                }
            }
            k = k + 1;
        }
        proof {
            assert forall|o: OctantIndex|
                (ancestor_or_self(o, octant_index) && o.wf()) implies exists|m: int|
                0 <= m < chain@.len() && #[trigger] chain@[m] == o by {
                assert(chain@[o.level as int].level == o.level);
                assert(ancestor_or_self(chain@[o.level as int], octant_index));
                lemma_ancestor_unique(chain@[o.level as int], o, octant_index);
            }
            assert forall|o: OctantIndex|
                (exists|m: int| 0 <= m < chain@.len() && #[trigger] chain@[m] == o) implies (
            ancestor_or_self(o, octant_index) && o.wf()) by {
                let m = choose|m: int| 0 <= m < chain@.len() && #[trigger] chain@[m] == o;
            }
        }
    }
}

/// Two ancestors of one octant at one level coincide.
proof fn lemma_ancestor_unique(a: OctantIndex, b: OctantIndex, d: OctantIndex)
    requires
        ancestor_or_self(a, d),
        ancestor_or_self(b, d),
        a.level == b.level,
    ensures
        a == b,
{
}

/// Whether a code is the Morton interleaving of an octant's coordinates.
pub open spec fn is_morton_pair(idx: OctantIndex, code: u64) -> bool {
    &&& forall|i: u64| i < 21 ==> #[trigger] ((code >> (3 * i)) & 1) == ((idx.x >> i) & 1)
    &&& forall|i: u64| i < 21 ==> #[trigger] ((code >> (3 * i + 1)) & 1) == ((idx.y >> i) & 1)
    &&& forall|i: u64| i < 21 ==> #[trigger] ((code >> (3 * i + 2)) & 1) == ((idx.z >> i) & 1)
}

/// Pairs each octant with its Morton code and sorts, primarily by level
/// ascending, secondarily by Morton code ascending.
#[verifier::loop_isolation(false)]
pub fn sort_by_morton_indices(indices: &Vec<OctantIndex>) -> (r: Result<
    Vec<(OctantIndex, u64)>,
    CoordsError,
>)
    requires
        forall|i: int| 0 <= i < indices@.len() ==> (#[trigger] indices@[i]).wf(),
    ensures
        r matches Ok(out) ==> {
            &&& out@.len() == indices@.len()
            &&& out@.map_values(|p: (OctantIndex, u64)| p.0).to_multiset()
                == indices@.to_multiset()
            &&& forall|a: int, b: int|
                0 <= a < b < out@.len() ==> ((#[trigger] out@[a]).0.level < (
                #[trigger] out@[b]).0.level || (out@[a].0.level == out@[b].0.level && out@[a].1
                    <= out@[b].1))
            &&& forall|k: int| 0 <= k < out@.len() ==> is_morton_pair(
                (#[trigger] out@[k]).0,
                out@[k].1,
            )
        },
        r is Ok,
{
    broadcast use vstd::seq_lib::group_to_multiset_ensures;

    let mut paired: Vec<(OctantIndex, u64)> = Vec::new();
    let mut i: usize = 0;
    while i < indices.len()
        invariant
            0 <= i <= indices@.len(),
            paired@.len() == i,
            forall|k: int| 0 <= k < i ==> (#[trigger] paired@[k]).0 == indices@[k],
            forall|k: int| 0 <= k < i ==> is_morton_pair((#[trigger] paired@[k]).0, paired@[k].1),
        decreases indices@.len() - i,
    {
        let code = match indices[i].morton_index() {
            Ok(c) => c,
            Err(e) => {
                proof {
                    let sx = indices@[i as int].x;
                    let sy = indices@[i as int].y;
                    let sz = indices@[i as int].z;
                    let l = indices@[i as int].level as u64;
                    assert((sx < 1u64 << 21u64 ==> sx <= 0xFFFF_FFFFu64) && (sy < 1u64 << 21u64
                        ==> sy <= 0xFFFF_FFFFu64) && (sz < 1u64 << 21u64 ==> sz
                        <= 0xFFFF_FFFFu64) && (l <= 21u64 ==> ((1u64 << l) <= (1u64
                        << 21u64)))) by (bit_vector);
                    assert(false);
                }
                return Err(e);
            },
        };
        paired.push((indices[i], code));
        i = i + 1;
    }
    proof {
        assert(paired@.map_values(|p: (OctantIndex, u64)| p.0) =~= indices@);
    }
    // selection sort by (level, code)
    let ghost orig = paired@;
    let mut rest = paired;
    let mut out: Vec<(OctantIndex, u64)> = Vec::new();
    while rest.len() > 0
        invariant
            out@.to_multiset().add(rest@.to_multiset()) =~= orig.to_multiset(),
            forall|a: int, b: int|
                0 <= a < b < out@.len() ==> ((#[trigger] out@[a]).0.level < (
                #[trigger] out@[b]).0.level || (out@[a].0.level == out@[b].0.level && out@[a].1
                    <= out@[b].1)),
            forall|a: int, b: int|
                0 <= a < out@.len() && 0 <= b < rest@.len() ==> ((#[trigger] out@[a]).0.level < (
                #[trigger] rest@[b]).0.level || (out@[a].0.level == rest@[b].0.level && out@[a].1
                    <= rest@[b].1)),
            forall|k: int| 0 <= k < out@.len() ==> is_morton_pair(
                (#[trigger] out@[k]).0,
                out@[k].1,
            ),
            forall|k: int| 0 <= k < rest@.len() ==> is_morton_pair(
                (#[trigger] rest@[k]).0,
                rest@[k].1,
            ),
        decreases rest.len(),
    {
        let mut best: usize = 0;
        let mut j: usize = 1;
        while j < rest.len()
            invariant
                0 <= best < j <= rest@.len(),
                rest@.len() > 0,
                forall|m: int|
                    0 <= m < j ==> ((#[trigger] rest@[best as int]).0.level < (
                    #[trigger] rest@[m]).0.level || (rest@[best as int].0.level == rest@[
                        m
                    ].0.level && rest@[best as int].1 <= rest@[m].1)),
            decreases rest@.len() - j,
        {
            let better = rest[j].0.level < rest[best].0.level || (rest[j].0.level
                == rest[best].0.level && rest[j].1 < rest[best].1);
            if better {
                best = j;
            }
            j = j + 1;
        }
        let ghost old_out = out@;
        let ghost old_rest = rest@;
        let x = rest.remove(best);
        out.push(x);
        proof {
            old_rest.to_multiset_ensures();
            old_out.to_multiset_ensures();
            assert(old_rest.remove(best as int).to_multiset() =~= old_rest.to_multiset().remove(
                x,
            ));
            assert(old_out.push(x).to_multiset() =~= old_out.to_multiset().insert(x));
            assert(old_rest.to_multiset().count(x) > 0) by {
                assert(old_rest[best as int] == x);
                assert(old_rest.contains(x));
            }
            assert(out@.to_multiset().add(rest@.to_multiset()) =~= orig.to_multiset());
        }
    }
    proof {
        out@.to_multiset_ensures();
        orig.to_multiset_ensures();
        assert(rest@.to_multiset() =~= vstd::multiset::Multiset::empty()) by {
            rest@.to_multiset_ensures();
        }
        assert(out@.to_multiset() =~= orig.to_multiset());
        assert(out@.to_multiset().len() == out@.len());
        assert(orig.to_multiset().len() == orig.len());
        assert(out@.map_values(|p: (OctantIndex, u64)| p.0).to_multiset() =~= orig.map_values(
            |p: (OctantIndex, u64)| p.0,
        ).to_multiset()) by {
            lemma_map_multiset(out@, orig);
        }
    }
    Ok(out)
}

/// Equal multisets of pairs give equal multisets of their first components.
proof fn lemma_map_multiset(a: Seq<(OctantIndex, u64)>, b: Seq<(OctantIndex, u64)>)
    requires
        a.to_multiset() == b.to_multiset(),
    ensures
        a.map_values(|p: (OctantIndex, u64)| p.0).to_multiset() =~= b.map_values(
            |p: (OctantIndex, u64)| p.0,
        ).to_multiset(),
    decreases a.len(),
{
    a.to_multiset_ensures();
    b.to_multiset_ensures();
    if a.len() == 0 {
        assert(b.len() == 0);
        assert(a.map_values(|p: (OctantIndex, u64)| p.0) =~= Seq::empty());
        assert(b.map_values(|p: (OctantIndex, u64)| p.0) =~= Seq::empty());
    } else {
        let x = a.last();
        assert(a.to_multiset().count(x) > 0) by {
            assert(a.contains(x));
        }
        assert(b.contains(x)) by {
            assert(b.to_multiset().count(x) > 0);
        }
        let k = choose|k: int| 0 <= k < b.len() && b[k] == x;
        let a2 = a.drop_last();
        let b2 = b.remove(k);
        assert(a2.to_multiset() =~= b2.to_multiset()) by {
            assert(a.remove(a.len() - 1).to_multiset() =~= a.to_multiset().remove(x));
            assert(a.remove(a.len() - 1) =~= a2);
            assert(b.remove(k).to_multiset() =~= b.to_multiset().remove(x));
        }
        lemma_map_multiset(a2, b2);
        let fm = |p: (OctantIndex, u64)| p.0;
        assert(a.map_values(fm) =~= a2.map_values(fm).push(x.0));
        assert(b.map_values(fm) =~= b2.map_values(fm).insert(k, x.0)) by {
            assert forall|m: int| 0 <= m < b.len() implies b.map_values(fm)[m] == b2.map_values(
                fm,
            ).insert(k, x.0)[m] by {
                if m < k {
                    assert(b2[m] == b[m]);
                } else if m > k {
                    assert(b2[m - 1] == b[m]);
                }
            }
        }
        a2.map_values(fm).to_multiset_ensures();
        b2.map_values(fm).to_multiset_ensures();
        assert(a.map_values(fm).to_multiset() =~= a2.map_values(fm).to_multiset().insert(x.0));
        lemma_insert_multiset(b2.map_values(fm), k, x.0);
        assert(b.map_values(fm).to_multiset() =~= b2.map_values(fm).to_multiset().insert(x.0));
    }
}

/// Inserting anywhere adds one occurrence to the multiset.
proof fn lemma_insert_multiset(s: Seq<OctantIndex>, k: int, v: OctantIndex)
    requires
        0 <= k <= s.len(),
    ensures
        s.insert(k, v).to_multiset() =~= s.to_multiset().insert(v),
    decreases s.len() - k,
{
    s.to_multiset_ensures();
    s.insert(k, v).to_multiset_ensures();
    if k == s.len() {
        assert(s.insert(k, v) =~= s.push(v));
    } else {
        let s2 = s.insert(k, v);
        assert(s2.remove(k) =~= s);
        assert(s2.remove(k).to_multiset() =~= s2.to_multiset().remove(s2[k]));
        assert(s2[k] == v);
        assert(s2.to_multiset().count(v) > 0) by {
            assert(s2.contains(v));
        }
        assert(s2.to_multiset() =~= s2.to_multiset().remove(v).insert(v));
    }
}

} // verus!

verus! {

/// Relies on rand: `StdRng::seed_from_u64` and `SliceRandom::shuffle` permute
/// the slice; the result holds the same items in some order.
#[verifier::external_body]
fn shuffle_with_seed(items: &mut Vec<usize>, seed: u64)
    ensures
        final(items)@.to_multiset() == old(items)@.to_multiset(),
        final(items)@.len() == old(items)@.len(),
{
    let mut rng = <rand::rngs::StdRng as rand::SeedableRng>::seed_from_u64(seed);
    rand::prelude::SliceRandom::shuffle(items.as_mut_slice(), &mut rng);
}

/// A content-addressed octree: the cells map octants to the indices of the
/// items they hold, over the caller's item list.
#[derive(Debug)]
pub struct Octree {
    pub positions: Vec<GridPoint>,
    pub occupancy_graph: OctreeOccupancyGraph,
    pub cells: Vec<(OctantIndex, Vec<usize>)>,
    pub max_items_per_octant: usize,
}

/// The indices `0 .. n`, in order.
pub open spec fn index_seq(n: nat) -> Seq<usize> {
    Seq::new(n, |i: int| i as usize)
}

impl Octree {
    /// Well-formed, carrying the placement guarantees: every cell holds at
    /// most the cap, every item of a cell lies in the cell's octant, every
    /// cell's ancestor chain is occupied, and the cells together hold every
    /// item exactly once.
    pub open spec fn wf(self) -> bool {
        &&& forall|i: int| 0 <= i < self.positions@.len() ==> (#[trigger] self.positions@[i]).wf()
        &&& forall|c: int|
            0 <= c < self.cells@.len() ==> (#[trigger] self.cells@[c]).0.wf() && self.cells@[
                c
            ].1@.len() >= 1 && self.cells@[c].1@.len() <= self.max_items_per_octant
        &&& forall|c: int, m: int|
            #![trigger self.cells@[c].1@[m]]
            0 <= c < self.cells@.len() && 0 <= m < self.cells@[c].1@.len() ==> self.cells@[c].1@[
                m
            ] < self.positions@.len() && octant_contains(
                self.cells@[c].0,
                self.positions@[self.cells@[c].1@[m] as int],
            )
        &&& forall|c: int, o: OctantIndex|
            #![trigger contains_octant(self.occupancy_graph.occupied@, o), self.cells@[c]]
            0 <= c < self.cells@.len() && ancestor_or_self(o, self.cells@[c].0) && o.wf()
                ==> contains_octant(self.occupancy_graph.occupied@, o)
        &&& self.occupancy_graph.wf()
        &&& cells_items(self.cells@).to_multiset() == index_seq(
            self.positions@.len() as nat,
        ).to_multiset()
    }

    /// The bounds the caller quantized against are its own; the octree's
    /// structural queries:
    pub fn occupancy_graph(&self) -> (r: &OctreeOccupancyGraph)
        ensures
            r == &self.occupancy_graph,
    {
        &self.occupancy_graph
    }

    /// The cells.
    pub fn cells(&self) -> (r: &Vec<(OctantIndex, Vec<usize>)>)
        ensures
            r == &self.cells,
    {
        &self.cells
    }

    /// The octants that hold content.
    pub fn cell_indices(&self) -> (r: Vec<OctantIndex>)
        ensures
            r@.len() == self.cells@.len(),
            forall|k: int| 0 <= k < r@.len() ==> #[trigger] r@[k] == self.cells@[k].0,
    {
        let mut out: Vec<OctantIndex> = Vec::new();
        let mut i: usize = 0;
        while i < self.cells.len()
            invariant
                0 <= i <= self.cells@.len(),
                out@.len() == i,
                forall|k: int| 0 <= k < i ==> #[trigger] out@[k] == self.cells@[k].0,
            decreases self.cells@.len() - i,
        {
            out.push(self.cells[i].0);
            i = i + 1;
        }
        out
    }

    /// The number of octants that hold content.
    pub fn cell_count(&self) -> (r: usize)
        ensures
            r == self.cells@.len(),
    {
        self.cells.len()
    }

    /// The items of the given octant, when it holds content.
    pub fn cell(&self, index: OctantIndex) -> (r: Option<&Vec<usize>>)
        ensures
            r matches Some(v) ==> exists|c: int|
                0 <= c < self.cells@.len() && (#[trigger] self.cells@[c]).0 == index && v
                    == &self.cells@[c].1,
            r is None ==> forall|c: int| 0 <= c < self.cells@.len() ==> (
            #[trigger] self.cells@[c]).0 != index,
    {
        let mut i: usize = 0;
        while i < self.cells.len()
            invariant
                0 <= i <= self.cells@.len(),
                forall|k: int| 0 <= k < i ==> (#[trigger] self.cells@[k]).0 != index,
            decreases self.cells@.len() - i,
        {
            if self.cells[i].0 == index {
                return Some(&self.cells[i].1);
            }
            i = i + 1;
        }
        None
    }

    /// Whether the given octant holds content.
    pub fn contains_content_cells(&self, index: OctantIndex) -> (r: bool)
        ensures
            r == exists|c: int| 0 <= c < self.cells@.len() && (#[trigger] self.cells@[c]).0
                == index,
    {
        match self.cell(index) {
            Some(_) => true,
            None => false,
        }
    }

    /// The deepest level holding content, when any cell does.
    pub fn get_max_occupied_level(&self) -> (r: Option<u32>)
        ensures
            r is None <==> self.cells@.len() == 0,
            r matches Some(l) ==> (exists|c: int|
                0 <= c < self.cells@.len() && (#[trigger] self.cells@[c]).0.level == l) && forall|
                c: int,
            |
                0 <= c < self.cells@.len() ==> (#[trigger] self.cells@[c]).0.level <= l,
    {
        if self.cells.len() == 0 {
            return None;
        }
        let mut best: u32 = self.cells[0].0.level;
        let mut i: usize = 1;
        while i < self.cells.len()
            invariant
                1 <= i <= self.cells@.len(),
                self.cells@.len() >= 1,
                exists|c: int| 0 <= c < i && (#[trigger] self.cells@[c]).0.level == best,
                forall|c: int| 0 <= c < i ==> (#[trigger] self.cells@[c]).0.level <= best,
            decreases self.cells@.len() - i,
        {
            if self.cells[i].0.level > best {
                best = self.cells[i].0.level;
            }
            i = i + 1;
        }
        Some(best)
    }
}

/// No two positions coincide.
pub open spec fn distinct_positions(ps: Seq<GridPoint>) -> bool {
    forall|a: int, b: int| 0 <= a < b < ps.len() ==> ps[a] != ps[b]
}

/// Every item index the cells hold, cell after cell.
pub open spec fn cells_items(cells: Seq<(OctantIndex, Vec<usize>)>) -> Seq<usize>
    decreases cells.len(),
{
    if cells.len() == 0 {
        Seq::empty()
    } else {
        cells_items(cells.drop_last()) + cells.last().1@
    }
}

/// Every item index the buckets hold, bucket after bucket.
pub open spec fn buckets_items(buckets: Seq<Vec<usize>>) -> Seq<usize>
    decreases buckets.len(),
{
    if buckets.len() == 0 {
        Seq::empty()
    } else {
        buckets_items(buckets.drop_last()) + buckets.last()@
    }
}

/// Appending one item to one bucket adds one occurrence overall.
proof fn lemma_buckets_push_one(b: Seq<Vec<usize>>, nb: Seq<Vec<usize>>, i: int, x: usize)
    requires
        0 <= i < b.len(),
        nb.len() == b.len(),
        forall|j: int| 0 <= j < b.len() && j != i ==> nb[j] == b[j],
        nb[i]@ == b[i]@.push(x),
    ensures
        buckets_items(nb).to_multiset() =~= buckets_items(b).to_multiset().insert(x),
    decreases b.len(),
{
    broadcast use vstd::seq_lib::group_to_multiset_ensures;

    if i == b.len() - 1 {
        assert(nb.drop_last() =~= b.drop_last());
        vstd::seq_lib::lemma_multiset_commutative(buckets_items(nb.drop_last()), nb.last()@);
        vstd::seq_lib::lemma_multiset_commutative(buckets_items(b.drop_last()), b.last()@);
        assert(nb.last()@.to_multiset() =~= b.last()@.to_multiset().insert(x));
    } else {
        lemma_buckets_push_one(b.drop_last(), nb.drop_last(), i, x);
        assert(nb.last() == b.last());
        vstd::seq_lib::lemma_multiset_commutative(buckets_items(nb.drop_last()), nb.last()@);
        vstd::seq_lib::lemma_multiset_commutative(buckets_items(b.drop_last()), b.last()@);
    }
}

/// One bucket's occurrences are among the whole collection's.
proof fn lemma_bucket_count_le(b: Seq<Vec<usize>>, i: int, x: usize)
    requires
        0 <= i < b.len(),
    ensures
        b[i]@.to_multiset().count(x) <= buckets_items(b).to_multiset().count(x),
    decreases b.len(),
{
    vstd::seq_lib::lemma_multiset_commutative(buckets_items(b.drop_last()), b.last()@);
    if i == b.len() - 1 {
    } else {
        assert(b.drop_last()[i] == b[i]);
        lemma_bucket_count_le(b.drop_last(), i, x);
    }
}

/// A collection of empty buckets holds nothing.
proof fn lemma_buckets_all_empty(b: Seq<Vec<usize>>)
    requires
        forall|j: int| 0 <= j < b.len() ==> (#[trigger] b[j])@.len() == 0,
    ensures
        buckets_items(b).to_multiset() =~= Seq::<usize>::empty().to_multiset(),
    decreases b.len(),
{
    broadcast use vstd::seq_lib::group_to_multiset_ensures;

    if b.len() > 0 {
        lemma_buckets_all_empty(b.drop_last());
        vstd::seq_lib::lemma_multiset_commutative(buckets_items(b.drop_last()), b.last()@);
        assert(b.last()@ =~= Seq::<usize>::empty());
    }
}

/// Each prefix step of the collection adds exactly one bucket's items.
proof fn lemma_buckets_take_step(b: Seq<Vec<usize>>, d: int)
    requires
        0 <= d < b.len(),
    ensures
        buckets_items(b.take(d + 1)).to_multiset() =~= buckets_items(b.take(d)).to_multiset().add(
            b[d]@.to_multiset(),
        ),
{
    assert(b.take(d + 1).drop_last() =~= b.take(d));
    assert(b.take(d + 1).last() == b[d]);
    vstd::seq_lib::lemma_multiset_commutative(buckets_items(b.take(d + 1).drop_last()), b[d]@);
}

/// Places pending items under a parent octant: the first `cap` stay at the
/// parent, the rest descend into the children holding them.
#[verifier::loop_isolation(false)]
#[verifier::rlimit(100)]
#[verifier::spinoff_prover]
fn place_items(
    positions: &Vec<GridPoint>,
    parent: OctantIndex,
    items: Vec<usize>,
    cap: usize,
    cells: &mut Vec<(OctantIndex, Vec<usize>)>,
    occupancy: &mut OctreeOccupancyGraph,
)
    requires
        cap >= 1,
        forall|i: int| 0 <= i < positions@.len() ==> (#[trigger] positions@[i]).wf(),
        distinct_positions(positions@),
        parent.wf(),
        items@.len() >= 1,
        forall|m: int| 0 <= m < items@.len() ==> (#[trigger] items@[m]) < positions@.len(),
        forall|m: int| 0 <= m < items@.len() ==> octant_contains(
            parent,
            positions@[(#[trigger] items@[m]) as int],
        ),
        forall|a: int, b: int| 0 <= a < b < items@.len() ==> items@[a] != items@[b],
        old(occupancy).wf(),
    ensures
        final(occupancy).wf(),
        forall|o: OctantIndex| contains_octant(old(occupancy).occupied@, o)
            ==> #[trigger] contains_octant(final(occupancy).occupied@, o),
        final(cells)@.len() > old(cells)@.len(),
        forall|c: int| 0 <= c < old(cells)@.len() ==> #[trigger] final(cells)@[c] == old(
            cells,
        )@[c],
        forall|c: int|
            old(cells)@.len() <= c < final(cells)@.len() ==> (#[trigger] final(cells)@[c]).0.wf()
                && final(cells)@[c].1@.len() >= 1 && final(cells)@[c].1@.len() <= cap
                && ancestor_or_self(parent, final(cells)@[c].0),
        forall|c: int, m: int|
            #![trigger final(cells)@[c].1@[m]]
            old(cells)@.len() <= c < final(cells)@.len() && 0 <= m < final(cells)@[c].1@.len()
                ==> final(cells)@[c].1@[m] < positions@.len() && octant_contains(
                final(cells)@[c].0,
                positions@[final(cells)@[c].1@[m] as int],
            ),
        forall|c: int, o: OctantIndex|
            #![trigger contains_octant(final(occupancy).occupied@, o), final(cells)@[c]]
            old(cells)@.len() <= c < final(cells)@.len() && ancestor_or_self(
                o,
                final(cells)@[c].0,
            ) && o.wf() ==> contains_octant(final(occupancy).occupied@, o),
        cells_items(final(cells)@).to_multiset() == cells_items(old(cells)@).to_multiset().add(
            items@.to_multiset(),
        ),
    decreases 21 - parent.level,
{
    broadcast use vstd::seq_lib::group_to_multiset_ensures;

    let ghost all_items = items@;
    let ghost cells0 = cells@;
    let ghost occ0 = occupancy.occupied@;
    let mut assigned = items;
    let mut overflow: Vec<usize> = Vec::new();
    if assigned.len() > cap {
        overflow = assigned.split_off(cap);
        proof {
            vstd::seq_lib::lemma_multiset_commutative(
                all_items.take(cap as int),
                all_items.skip(cap as int),
            );
            assert(all_items.take(cap as int) + all_items.skip(cap as int) =~= all_items);
        }
    }
    proof {
        assert(assigned@.to_multiset().add(overflow@.to_multiset())
            =~= all_items.to_multiset()) by {
            if all_items.len() <= cap {
                assert(overflow@ =~= Seq::<usize>::empty());
                assert(overflow@.to_multiset() =~= Seq::<usize>::empty().to_multiset());
            }
        }
    }
    let ghost assigned_v = assigned@;
    let ghost overflow_v = overflow@;
    occupancy.add_cell_occupancy(parent);
    cells.push((parent, assigned));
    let ghost occ_mid = occupancy.occupied@;
    proof {
        assert(cells_items(cells@).to_multiset() =~= cells_items(cells0).to_multiset().add(
            assigned_v.to_multiset(),
        )) by {
            assert(cells@.drop_last() =~= cells0);
            vstd::seq_lib::lemma_multiset_commutative(cells_items(cells0), cells@.last().1@);
        }
        assert(cells@.len() == cells0.len() + 1);
        assert(cells@[cells0.len() as int].0 == parent);
        assert(cells@[cells0.len() as int].1@.len() >= 1);
        assert(cells@[cells0.len() as int].1@.len() <= cap);
        assert(ancestor_or_self(parent, parent)) by {
            let sx = parent.x;
            let sy = parent.y;
            let sz = parent.z;
            assert(sx >> 0u64 == sx && sy >> 0u64 == sy && sz >> 0u64 == sz) by (bit_vector);
        }
        assert(contains_octant(occupancy.occupied@, parent));
    }
    if overflow.len() == 0 {
        proof {
            assert(overflow_v.to_multiset() =~= Seq::<usize>::empty().to_multiset());
            assert(cells_items(cells@).to_multiset() =~= cells_items(cells0).to_multiset().add(
                all_items.to_multiset(),
            ));
        }
        return ;
    }
    // more items than the cap: the parent cannot be at the finest level,
    // since distinct positions separate below it
    proof {
        if parent.level == 21 {
            let i0 = overflow@[0];
            let j0 = items@[0];
            assert(items@[cap as int] == overflow@[0]);
            let p = positions@[i0 as int];
            let q = positions@[j0 as int];
            assert(octant_contains(parent, p) && octant_contains(parent, q));
            let px = p.x;
            let qx = q.x;
            let py = p.y;
            let qy = q.y;
            let pz = p.z;
            let qz = q.z;
            assert(px >> 0u64 == px && qx >> 0u64 == qx && py >> 0u64 == py && qy >> 0u64 == qy
                && pz >> 0u64 == pz && qz >> 0u64 == qz) by (bit_vector);
            assert(p == q);
            assert(items@[0] != items@[cap as int]);
            assert(false);
        }
    }
    let ghost cells_mid = cells@;
    let children = parent.get_children();
    proof {
        assert forall|k: int| 0 <= k < 8 implies ancestor_or_self(
            parent,
            #[trigger] children@[k],
        ) by {
            let px = parent.x;
            let py = parent.y;
            let pz = parent.z;
            let dx = k % 2;
            let dy = (k / 2) % 2;
            let dz = k / 4;
            assert(px <= 0x1FFFFFu64 && py <= 0x1FFFFFu64 && pz <= 0x1FFFFFu64) by {
                let l = parent.level as u64;
                assert((l < 21u64 && px < (1u64 << l) ==> px <= 0x1FFFFFu64) && (l < 21u64
                    && py < (1u64 << l) ==> py <= 0x1FFFFFu64) && (l < 21u64 && pz < (1u64 << l)
                    ==> pz <= 0x1FFFFFu64)) by (bit_vector);
            }
            assert(children@[k].x == px * 2 + dx && children@[k].y == py * 2 + dy && children@[
                k
            ].z == pz * 2 + dz);
            let cx = children@[k].x;
            let cy = children@[k].y;
            let cz = children@[k].z;
            assert(((cx == px * 2 || cx == px * 2 + 1) && px <= 0x1FFFFFu64 ==> cx >> 1u64
                == px) && ((cy == py * 2 || cy == py * 2 + 1) && py <= 0x1FFFFFu64 ==> cy >> 1u64
                == py) && ((cz == pz * 2 || cz == pz * 2 + 1) && pz <= 0x1FFFFFu64 ==> cz >> 1u64
                == pz)) by (bit_vector);
        }
    }
    // distribute the overflow: each item goes to the one child whose octant
    // holds its position
    let mut buckets: Vec<Vec<usize>> = Vec::new();
    let mut bi: usize = 0;
    while bi < 8
        invariant
            0 <= bi <= 8,
            buckets@.len() == bi,
            forall|j: int| 0 <= j < bi ==> (#[trigger] buckets@[j])@.len() == 0,
        decreases 8 - bi,
    {
        buckets.push(Vec::new());
        bi = bi + 1;
    }
    proof {
        lemma_buckets_all_empty(buckets@);
        assert(overflow@.take(0int) =~= Seq::<usize>::empty());
    }
    let mut m: usize = 0;
    while m < overflow.len()
        invariant
            0 <= m <= overflow@.len(),
            parent.wf(),
            parent.level < 21,
            children@.len() == 8,
            forall|k: int| 0 <= k < 8 ==> (#[trigger] children@[k]).wf() && children@[k].level
                == parent.level + 1 && ancestor_or_self(parent, children@[k]),
            buckets@.len() == 8,
            buckets_items(buckets@).to_multiset() =~= overflow@.take(m as int).to_multiset(),
            forall|j: int, k: int|
                #![trigger buckets@[j]@[k]]
                0 <= j < 8 && 0 <= k < buckets@[j]@.len() ==> buckets@[j]@[k] < positions@.len()
                    && octant_contains(children@[j], positions@[buckets@[j]@[k] as int]),
        decreases overflow@.len() - m,
    {
        let idx = overflow[m];
        let p = positions[idx];
        let shift: u64 = ((20 - parent.level) as u32) as u64;
        proof {
            let l = parent.level as u64;
            let px = p.x;
            let py = p.y;
            let pz = p.z;
            assert(shift == (20 - l) as u64);
            assert(((px >> shift) & 1) <= 1 && ((py >> shift) & 1) <= 1 && ((pz >> shift) & 1)
                <= 1) by (bit_vector);
        }
        let dx: u64 = (p.x >> shift) & 1;
        let dy: u64 = (p.y >> shift) & 1;
        let dz: u64 = (p.z >> shift) & 1;
        let child_slot: usize = (dx + 2 * dy + 4 * dz) as usize;
        proof {
            let l = parent.level as u64;
            let px = p.x;
            let py = p.y;
            let pz = p.z;
            let qx = parent.x;
            let qy = parent.y;
            let qz = parent.z;
            assert(l < 21u64);
            assert(qx <= 0x1FFFFFu64 && qy <= 0x1FFFFFu64 && qz <= 0x1FFFFFu64) by {
                assert((l < 21u64 && qx < (1u64 << l) ==> qx <= 0x1FFFFFu64) && (l < 21u64 && qy
                    < (1u64 << l) ==> qy <= 0x1FFFFFu64) && (l < 21u64 && qz < (1u64 << l) ==> qz
                    <= 0x1FFFFFu64)) by (bit_vector);
            }
            assert(octant_contains(parent, positions@[idx as int]));
            // the position's next address bit names the child that holds it
            assert(px >> ((21 - l) as u64) == qx ==> px >> ((20 - l) as u64) == 2 * qx + ((px
                >> ((20 - l) as u64)) & 1)) by (bit_vector)
                requires
                    l < 21u64,
                    qx <= 0x1FFFFFu64,
            ;
            assert(py >> ((21 - l) as u64) == qy ==> py >> ((20 - l) as u64) == 2 * qy + ((py
                >> ((20 - l) as u64)) & 1)) by (bit_vector)
                requires
                    l < 21u64,
                    qy <= 0x1FFFFFu64,
            ;
            assert(pz >> ((21 - l) as u64) == qz ==> pz >> ((20 - l) as u64) == 2 * qz + ((pz
                >> ((20 - l) as u64)) & 1)) by (bit_vector)
                requires
                    l < 21u64,
                    qz <= 0x1FFFFFu64,
            ;
            let ds = child_slot as int;
            assert(ds == dx + 2 * dy + 4 * dz);
            assert(ds % 2 == dx && (ds / 2) % 2 == dy && ds / 4 == dz) by (nonlinear_arith)
                requires
                    dx <= 1,
                    dy <= 1,
                    dz <= 1,
                    ds == dx + 2 * dy + 4 * dz,
            ;
            let ghost cs = children@[ds];
            assert(cs.x == (qx * 2 + dx) as u64 && cs.y == (qy * 2 + dy) as u64 && cs.z == (qz * 2
                + dz) as u64);
            assert(cs.x == 2 * qx + dx && cs.y == 2 * qy + dy && cs.z == 2 * qz + dz);
            assert(cs.level == l + 1);
            assert((21 - cs.level) as u64 == (20 - l) as u64);
            assert(octant_contains(cs, p));
        }
        let ghost pre_buckets = buckets@;
        let slot = &mut buckets[child_slot];
        slot.push(idx);
        proof {
            lemma_buckets_push_one(pre_buckets, buckets@, child_slot as int, idx);
            assert(overflow@.take(m as int + 1) =~= overflow@.take(m as int).push(idx));
            assert(overflow@.take(m as int + 1).to_multiset() =~= overflow@.take(
                m as int,
            ).to_multiset().insert(idx));
        }
        m = m + 1;
    }
    proof {
        assert(overflow@.take(overflow@.len() as int) =~= overflow@);
    }
    let ghost init_buckets = buckets@;
    let mut d: usize = 0;
    while d < 8
        invariant
            0 <= d <= 8,
            cap >= 1,
            parent.wf(),
            parent.level < 21,
            children@.len() == 8,
            init_buckets.len() == 8,
            forall|k: int| 0 <= k < 8 ==> (#[trigger] children@[k]).wf() && children@[k].level
                == parent.level + 1 && ancestor_or_self(parent, children@[k]),
            buckets@ =~= init_buckets.skip(d as int),
            buckets_items(init_buckets).to_multiset() =~= overflow_v.to_multiset(),
            forall|j: int, k: int|
                #![trigger init_buckets[j]@[k]]
                0 <= j < 8 && 0 <= k < init_buckets[j]@.len() ==> init_buckets[j]@[k]
                    < positions@.len() && octant_contains(
                    children@[j],
                    positions@[init_buckets[j]@[k] as int],
                ),
            occupancy.wf(),
            forall|o: OctantIndex| contains_octant(occ_mid, o) ==> #[trigger] contains_octant(
                occupancy.occupied@,
                o,
            ),
            contains_octant(occupancy.occupied@, parent),
            cells@.len() >= cells_mid.len(),
            forall|c: int| 0 <= c < cells_mid.len() ==> #[trigger] cells@[c] == cells_mid[c],
            forall|c: int|
                cells_mid.len() <= c < cells@.len() ==> (#[trigger] cells@[c]).0.wf() && cells@[
                    c
                ].1@.len() >= 1 && cells@[c].1@.len() <= cap && ancestor_or_self(
                    parent,
                    cells@[c].0,
                ),
            forall|c: int, m2: int|
                #![trigger cells@[c].1@[m2]]
                cells_mid.len() <= c < cells@.len() && 0 <= m2 < cells@[c].1@.len() ==> cells@[
                    c
                ].1@[m2] < positions@.len() && octant_contains(
                    cells@[c].0,
                    positions@[cells@[c].1@[m2] as int],
                ),
            forall|c: int, o: OctantIndex|
                #![trigger contains_octant(occupancy.occupied@, o), cells@[c]]
                cells_mid.len() <= c < cells@.len() && ancestor_or_self(o, cells@[c].0) && o.wf()
                    ==> contains_octant(occupancy.occupied@, o),
            cells_items(cells@).to_multiset() =~= cells_items(cells_mid).to_multiset().add(
                buckets_items(init_buckets.take(d as int)).to_multiset(),
            ),
        decreases 8 - d,
    {
        let child = children[d];
        let child_items = buckets.remove(0);
        proof {
            assert(child_items == init_buckets[d as int]);
            assert(buckets@ =~= init_buckets.skip(d as int + 1));
            lemma_buckets_take_step(init_buckets, d as int);
        }
        if child_items.len() > 0 {
            proof {
                // the bucket's indices are pairwise distinct: the overflow's
                // are, so each occurs at most once anywhere
                overflow_v.lemma_multiset_has_no_duplicates();
                assert forall|x: usize| child_items@.to_multiset().contains(x)
                    implies child_items@.to_multiset().count(x) == 1 by {
                    lemma_bucket_count_le(init_buckets, d as int, x);
                    assert(buckets_items(init_buckets).to_multiset().count(x)
                        == overflow_v.to_multiset().count(x));
                }
                child_items@.lemma_multiset_has_no_duplicates_conv();
            }
            let ghost cells_pre = cells@;
            let ghost occ_pre = occupancy.occupied@;
            place_items(positions, child, child_items, cap, cells, occupancy);
            proof {
                assert forall|c: int|
                    cells_mid.len() <= c < cells@.len() implies (#[trigger] cells@[c]).0.wf()
                        && cells@[c].1@.len() >= 1 && cells@[c].1@.len() <= cap
                        && ancestor_or_self(parent, cells@[c].0) by {
                    if c < cells_pre.len() {
                    } else {
                        assert(ancestor_or_self(child, cells@[c].0));
                        lemma_ancestor_transitive(parent, child, cells@[c].0);
                    }
                }
                assert forall|c: int, o: OctantIndex|
                    cells_mid.len() <= c < cells@.len() && ancestor_or_self(
                        o,
                        (#[trigger] cells@[c]).0,
                    ) && o.wf() implies #[trigger] contains_octant(occupancy.occupied@, o) by {
                    if c < cells_pre.len() {
                        assert(cells@[c] == cells_pre[c]);
                        assert(contains_octant(occ_pre, o));
                    }
                }
            }
        } else {
            proof {
                assert(init_buckets[d as int]@.to_multiset()
                    =~= Seq::<usize>::empty().to_multiset());
            }
        }
        d = d + 1;
    }
    proof {
        assert(init_buckets.take(8int) =~= init_buckets);
        assert(cells_items(cells@).to_multiset() =~= cells_items(cells0).to_multiset().add(
            all_items.to_multiset(),
        ));
        assert forall|c: int, o: OctantIndex|
            cells0.len() <= c < cells@.len() && ancestor_or_self(o, (#[trigger] cells@[c]).0)
                && o.wf() implies #[trigger] contains_octant(occupancy.occupied@, o) by {
            if c < cells_mid.len() {
                assert(cells@[c] == cells_mid[c]);
                assert(cells@[c].0 == parent);
                assert(contains_octant(occ_mid, o));
            }
        }
    }
}

/// Ancestry is transitive.
#[verifier::rlimit(100)]
#[verifier::spinoff_prover]
proof fn lemma_ancestor_transitive(a: OctantIndex, b: OctantIndex, c: OctantIndex)
    requires
        ancestor_or_self(a, b),
        ancestor_or_self(b, c),
        c.level <= 63,
    ensures
        ancestor_or_self(a, c),
{
    let s1 = (c.level - b.level) as u64;
    let s2 = (b.level - a.level) as u64;
    let s3 = (c.level - a.level) as u64;
    let cx = c.x;
    let cy = c.y;
    let cz = c.z;
    assert((cx >> s1) >> s2 == cx >> s3) by (bit_vector)
        requires
            s1 <= 63u64 && s2 <= 63u64 && s3 == s1 + s2,
    ;
    assert((cy >> s1) >> s2 == cy >> s3) by (bit_vector)
        requires
            s1 <= 63u64 && s2 <= 63u64 && s3 == s1 + s2,
    ;
    assert((cz >> s1) >> s2 == cz >> s3) by (bit_vector)
        requires
            s1 <= 63u64 && s2 <= 63u64 && s3 == s1 + s2,
    ;
}

} // verus!

verus! {

impl Octree {
    /// Builds the octree over the given lattice positions: each cell ends up
    /// with at most `max_items_per_octant` item indices, every index placed
    /// in a cell whose octant holds its position, the occupancy graph closed
    /// under ancestors, and every index placed exactly once. A seed permutes
    /// the items first, which decides which items overflow into deeper
    /// levels without changing these guarantees.
    ///
    /// The positions must be pairwise distinct on the lattice and the cap at
    /// least one: two coinciding positions over a full cell would demand
    /// subdivision without end, where splitting can never separate them.
    #[verifier::loop_isolation(false)]
    pub fn new(
        positions: Vec<GridPoint>,
        max_items_per_octant: usize,
        shuffle_seed_number: Option<u64>,
    ) -> (r: Result<Octree, crate::error::Error>)
        requires
            forall|i: int| 0 <= i < positions@.len() ==> (#[trigger] positions@[i]).wf(),
            distinct_positions(positions@),
            max_items_per_octant >= 1,
        ensures
            r is Ok <==> positions@.len() > 0,
            r matches Err(e) ==> e matches crate::error::Error::CoordsError(c) && c
                matches CoordsError::NoMinValue,
            r matches Ok(t) ==> {
                &&& t.wf()
                &&& t.positions@ == positions@
                &&& t.max_items_per_octant == max_items_per_octant
                &&& t.cells@.len() >= 1
            },
    {
        broadcast use vstd::seq_lib::group_to_multiset_ensures;

        if positions.len() == 0 {
            return Err(crate::error::Error::CoordsError(CoordsError::NoMinValue));
        }
        let n = positions.len();
        let mut items: Vec<usize> = Vec::new();
        let mut i: usize = 0;
        while i < n
            invariant
                0 <= i <= n,
                items@.len() == i,
                forall|k: int| 0 <= k < i ==> #[trigger] items@[k] == k,
            decreases n - i,
        {
            items.push(i);
            i = i + 1;
        }
        proof {
            assert(items@.no_duplicates());
            items@.lemma_multiset_has_no_duplicates();
        }
        let ghost ordered = items@;
        match shuffle_seed_number {
            Some(seed) => {
                shuffle_with_seed(&mut items, seed);
            },
            None => {},
        }
        proof {
            assert forall|k: int| 0 <= k < items@.len() implies (#[trigger] items@[k]) < n by {
                assert(items@.contains(items@[k]));
                assert(items@.to_multiset().count(items@[k]) > 0);
                assert(ordered.to_multiset().count(items@[k]) > 0);
                assert(ordered.contains(items@[k]));
                let m = choose|m: int| 0 <= m < ordered.len() && ordered[m] == items@[k];
            }
            assert(forall|x: usize|
                items@.to_multiset().contains(x) ==> items@.to_multiset().count(x) == 1);
            items@.lemma_multiset_has_no_duplicates_conv();
        }
        let root = OctantIndex::origin();
        proof {
            assert forall|m: int| 0 <= m < items@.len() implies octant_contains(
                root,
                positions@[(#[trigger] items@[m]) as int],
            ) by {
                let p = positions@[items@[m] as int];
                let px = p.x;
                let py = p.y;
                let pz = p.z;
                assert((px < 0x200000u64 ==> px >> 21u64 == 0) && (py < 0x200000u64 ==> py
                    >> 21u64 == 0) && (pz < 0x200000u64 ==> pz >> 21u64 == 0)) by (bit_vector);
            }
        }
        let mut cells: Vec<(OctantIndex, Vec<usize>)> = Vec::new();
        let ghost shuffled = items@;
        let mut occupancy = OctreeOccupancyGraph::new();
        place_items(&positions, root, items, max_items_per_octant, &mut cells, &mut occupancy);
        let t = Octree { positions, occupancy_graph: occupancy, cells, max_items_per_octant };
        proof {
            assert(cells_items(t.cells@).to_multiset() == index_seq(
                t.positions@.len() as nat,
            ).to_multiset()) by {
                assert(cells_items(Seq::<(OctantIndex, Vec<usize>)>::empty()).to_multiset()
                    =~= Seq::<usize>::empty().to_multiset());
                assert(ordered =~= index_seq(t.positions@.len() as nat));
                assert(cells_items(t.cells@).to_multiset() =~= shuffled.to_multiset());
            }
            assert(forall|c: int|
                0 <= c < t.cells@.len() ==> (#[trigger] t.cells@[c]).0.wf() && t.cells@[
                    c
                ].1@.len() >= 1 && t.cells@[c].1@.len() <= t.max_items_per_octant);
            assert(forall|c: int, m: int|
                #![trigger t.cells@[c].1@[m]]
                0 <= c < t.cells@.len() && 0 <= m < t.cells@[c].1@.len() ==> t.cells@[c].1@[m]
                    < t.positions@.len() && octant_contains(
                    t.cells@[c].0,
                    t.positions@[t.cells@[c].1@[m] as int],
                ));
            assert forall|c: int, o: OctantIndex|
                0 <= c < t.cells@.len() && ancestor_or_self(o, (#[trigger] t.cells@[c]).0)
                    && o.wf() implies #[trigger] contains_octant(
                t.occupancy_graph.occupied@,
                o,
            ) by {}
            assert(t.wf());
        }
        Ok(t)
    }
}

} // verus!

verus! {

/// Octree containment: every item of every cell lies in the cell's octant,
/// and the cell's whole ancestor chain is occupied.
pub proof fn lemma_octree_containment(t: Octree, c: int, m: int, o: OctantIndex)
    requires
        t.wf(),
        0 <= c < t.cells@.len(),
        0 <= m < t.cells@[c].1@.len(),
    ensures
        octant_contains(t.cells@[c].0, t.positions@[t.cells@[c].1@[m] as int]),
        ancestor_or_self(o, t.cells@[c].0) && o.wf() ==> contains_octant(
            t.occupancy_graph.occupied@,
            o,
        ),
{
}

/// Octree completeness: the cells' item lists together hold every input
/// index exactly once — nothing lost, nothing duplicated.
pub proof fn lemma_octree_completeness(t: Octree)
    requires
        t.wf(),
    ensures
        cells_items(t.cells@).to_multiset() == index_seq(
            t.positions@.len() as nat,
        ).to_multiset(),
{
}

/// Octree capacity: every cell holds at least one and at most the configured
/// number of items.
pub proof fn lemma_octree_capacity(t: Octree, c: int)
    requires
        t.wf(),
        0 <= c < t.cells@.len(),
    ensures
        1 <= t.cells@[c].1@.len() <= t.max_items_per_octant,
{
}

} // verus!
