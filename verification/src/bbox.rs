//! Axis-aligned bounding boxes over coordinate codes, the octant (child
//! index) encoding, and the cubic octant subdivision.
//!
//! Coordinates live in `i64` so that a box can grow past the `u32` code
//! range when it is made cubic. A cubic box has the same extent on all three
//! axes, and that extent is one less than a power of two; halving such a box
//! at its center then yields eight congruent cubic octants that tile the
//! parent exactly, with the high half starting one past the center, matching
//! the strict comparison of the child-index encoding.

use vstd::prelude::*;
use crate::point::Position;

verus! {

/// Bound on every coordinate a valid box may hold; all box arithmetic stays
/// far inside `i64` under it.
pub const COORD_LIMIT: i64 = 0x1_0000_0000_0000;

/// Bound on the coordinates a box handed to `make_cubic` may hold; the
/// cubic hull of such a box stays inside `COORD_LIMIT`.
pub const CUBE_INPUT_LIMIT: i64 = 0x100_0000_0000;

/// A coordinate triple.
#[derive(Clone, Copy, PartialEq, Eq, Structural, Debug)]
pub struct Coord3 {
    pub x: i64,
    pub y: i64,
    pub z: i64,
}

/// Axis-aligned bounding box, tracked by its minimum and maximum corners
/// (both inclusive).
#[derive(Clone, Copy, PartialEq, Eq, Structural, Debug)]
pub struct BoundingBox {
    pub min: Coord3,
    pub max: Coord3,
}

impl BoundingBox {
    /// Nonempty box whose corners are ordered and in range.
    pub open spec fn valid(self) -> bool {
        &&& -COORD_LIMIT <= self.min.x <= self.max.x <= COORD_LIMIT
        &&& -COORD_LIMIT <= self.min.y <= self.max.y <= COORD_LIMIT
        &&& -COORD_LIMIT <= self.min.z <= self.max.z <= COORD_LIMIT
    }

    /// The box contains the given position.
    pub open spec fn covers(self, x: int, y: int, z: int) -> bool {
        &&& self.min.x <= x <= self.max.x
        &&& self.min.y <= y <= self.max.y
        &&& self.min.z <= z <= self.max.z
    }

    pub open spec fn center_x(self) -> int {
        self.min.x + (self.max.x - self.min.x) / 2
    }

    pub open spec fn center_y(self) -> int {
        self.min.y + (self.max.y - self.min.y) / 2
    }

    pub open spec fn center_z(self) -> int {
        self.min.z + (self.max.z - self.min.z) / 2
    }

    /// Empty box: ready to be folded over a point stream with `update`.
    pub fn new() -> (r: BoundingBox)
        ensures
            r.min.x == COORD_LIMIT && r.min.y == COORD_LIMIT && r.min.z == COORD_LIMIT,
            r.max.x == -COORD_LIMIT && r.max.y == -COORD_LIMIT && r.max.z == -COORD_LIMIT,
    {
        BoundingBox {
            min: Coord3 { x: COORD_LIMIT, y: COORD_LIMIT, z: COORD_LIMIT },
            max: Coord3 { x: -COORD_LIMIT, y: -COORD_LIMIT, z: -COORD_LIMIT },
        }
    }

    /// Grows the box to cover the given position.
    pub fn update(&mut self, v: &Position)
        requires
            old(self).min.x <= COORD_LIMIT && old(self).min.y <= COORD_LIMIT && old(
                self,
            ).min.z <= COORD_LIMIT,
            old(self).max.x >= -COORD_LIMIT && old(self).max.y >= -COORD_LIMIT && old(
                self,
            ).max.z >= -COORD_LIMIT,
        ensures
            final (self).min.x == if (v.x as int) < old(self).min.x {
                v.x as int
            } else {
                old(self).min.x as int
            },
            final (self).min.y == if (v.y as int) < old(self).min.y {
                v.y as int
            } else {
                old(self).min.y as int
            },
            final (self).min.z == if (v.z as int) < old(self).min.z {
                v.z as int
            } else {
                old(self).min.z as int
            },
            final (self).max.x == if (v.x as int) > old(self).max.x {
                v.x as int
            } else {
                old(self).max.x as int
            },
            final (self).max.y == if (v.y as int) > old(self).max.y {
                v.y as int
            } else {
                old(self).max.y as int
            },
            final (self).max.z == if (v.z as int) > old(self).max.z {
                v.z as int
            } else {
                old(self).max.z as int
            },
    {
        let px = v.x as i64;
        let py = v.y as i64;
        let pz = v.z as i64;
        if px < self.min.x {
            self.min.x = px;
        }
        if py < self.min.y {
            self.min.y = py;
        }
        if pz < self.min.z {
            self.min.z = pz;
        }
        if px > self.max.x {
            self.max.x = px;
        }
        if py > self.max.y {
            self.max.y = py;
        }
        if pz > self.max.z {
            self.max.z = pz;
        }
    }

    /// Replaces the box by a cubic hull: equal extents on all three axes,
    /// the common extent the smallest octree edge covering every old
    /// extent, and each axis still centered where it was. Octant
    /// subdivision of the result is exact at every depth.
    pub fn make_cubic(&mut self)
        requires
            old(self).min.x <= old(self).max.x,
            old(self).min.y <= old(self).max.y,
            old(self).min.z <= old(self).max.z,
            -CUBE_INPUT_LIMIT <= old(self).min.x && old(self).max.x <= CUBE_INPUT_LIMIT,
            -CUBE_INPUT_LIMIT <= old(self).min.y && old(self).max.y <= CUBE_INPUT_LIMIT,
            -CUBE_INPUT_LIMIT <= old(self).min.z && old(self).max.z <= CUBE_INPUT_LIMIT,
        ensures
            final (self).valid(),
            is_octree_cube(*final (self)),
            final (self).min.x <= old(self).min.x && old(self).max.x <= final (self).max.x,
            final (self).min.y <= old(self).min.y && old(self).max.y <= final (self).max.y,
            final (self).min.z <= old(self).min.z && old(self).max.z <= final (self).max.z,
            final (self).center_x() == old(self).center_x(),
            final (self).center_y() == old(self).center_y(),
            final (self).center_z() == old(self).center_z(),
            cubic_hull_tight(
                final (self).max.x - final (self).min.x,
                old(self).max.x - old(self).min.x,
                old(self).max.y - old(self).min.y,
                old(self).max.z - old(self).min.z,
            ),
    {
        let ex = (self.max.x - self.min.x) as u64;
        let ey = (self.max.y - self.min.y) as u64;
        let ez = (self.max.z - self.min.z) as u64;
        let mut e0 = ex;
        if ey > e0 {
            e0 = ey;
        }
        if ez > e0 {
            e0 = ez;
        }
        let mut e: u64 = 0;
        while e < e0
            invariant
                is_octree_edge(e as int),
                e == 0 || (e as int - 1) / 2 < e0,
                e <= 2 * e0,
                e0 <= 4 * CUBE_INPUT_LIMIT as u64,
            decreases 2 * e0 - e,
        {
            e = 2 * e + 1;
        }
        let e_i = e as i64;
        let half = (e / 2) as i64;
        proof {
            assert(ex as int == 2 * ((ex as int) / 2) + (ex as int) % 2);
            assert(ey as int == 2 * ((ey as int) / 2) + (ey as int) % 2);
            assert(ez as int == 2 * ((ez as int) / 2) + (ez as int) % 2);
            assert(e as int == 2 * ((e as int) / 2) + (e as int) % 2);
        }
        let cx = self.min.x + ((self.max.x - self.min.x) as u64 / 2) as i64;
        let cy = self.min.y + ((self.max.y - self.min.y) as u64 / 2) as i64;
        let cz = self.min.z + ((self.max.z - self.min.z) as u64 / 2) as i64;
        self.min.x = cx - half;
        self.max.x = cx - half + e_i;
        self.min.y = cy - half;
        self.max.y = cy - half + e_i;
        self.min.z = cz - half;
        self.max.z = cz - half + e_i;
    }

    /// Center of the box, each axis rounded down.
    pub fn center(&self) -> (r: Coord3)
        requires
            self.valid(),
        ensures
            r.x == self.center_x(),
            r.y == self.center_y(),
            r.z == self.center_z(),
    {
        let ex = (self.max.x - self.min.x) as u64;
        let ey = (self.max.y - self.min.y) as u64;
        let ez = (self.max.z - self.min.z) as u64;
        Coord3 {
            x: self.min.x + (ex / 2) as i64,
            y: self.min.y + (ey / 2) as i64,
            z: self.min.z + (ez / 2) as i64,
        }
    }
}

/// The cubic hull's extent is tight: it covers each old extent, and the
/// next smaller octree edge would miss at least one of them.
pub open spec fn cubic_hull_tight(e: int, ex: int, ey: int, ez: int) -> bool {
    &&& e >= ex
    &&& e >= ey
    &&& e >= ez
    &&& (e == 0 || (e - 1) / 2 < ex || (e - 1) / 2 < ey || (e - 1) / 2 < ez)
}

/// Extents one less than a power of two: the edge lengths for which halving
/// at the center yields two halves of equal extent, forever.
pub open spec fn is_octree_edge(e: int) -> bool
    decreases e,
{
    if e <= 0 {
        e == 0
    } else {
        e % 2 == 1 && is_octree_edge((e - 1) / 2)
    }
}

/// A cube fit for octant subdivision: equal extents, each an octree edge.
pub open spec fn is_octree_cube(b: BoundingBox) -> bool {
    &&& b.max.x - b.min.x == b.max.y - b.min.y
    &&& b.max.x - b.min.x == b.max.z - b.min.z
    &&& is_octree_edge(b.max.x - b.min.x)
}

/// Child index of a position relative to a box: one bit per axis, set when
/// the coordinate lies strictly above the center.
pub open spec fn spec_child_index(b: BoundingBox, x: int, y: int, z: int) -> int {
    (if x > b.center_x() {
        4int
    } else {
        0int
    }) + (if y > b.center_y() {
        2int
    } else {
        0int
    }) + (if z > b.center_z() {
        1int
    } else {
        0int
    })
}

/// Computes the octant of `v` inside `bounding_box`.
pub fn get_child_index(bounding_box: &BoundingBox, v: &Position) -> (r: u8)
    requires
        bounding_box.valid(),
    ensures
        r as int == spec_child_index(*bounding_box, v.x as int, v.y as int, v.z as int),
        r < 8,
{
    let center = bounding_box.center();
    let gt_x: u8 = if (v.x as i64) > center.x {
        4
    } else {
        0
    };
    let gt_y: u8 = if (v.y as i64) > center.y {
        2
    } else {
        0
    };
    let gt_z: u8 = if (v.z as i64) > center.z {
        1
    } else {
        0
    };
    gt_x + gt_y + gt_z
}

/// The octant `i` of a cube: on each axis, the low half keeps
/// `[min, center]` and the high half takes `[center + 1, max]`.
pub open spec fn spec_child_box(b: BoundingBox, i: int) -> BoundingBox {
    BoundingBox {
        min: Coord3 {
            x: if i >= 4 {
                (b.center_x() + 1) as i64
            } else {
                b.min.x
            },
            y: if i % 4 >= 2 {
                (b.center_y() + 1) as i64
            } else {
                b.min.y
            },
            z: if i % 2 == 1 {
                (b.center_z() + 1) as i64
            } else {
                b.min.z
            },
        },
        max: Coord3 {
            x: if i >= 4 {
                b.max.x
            } else {
                b.center_x() as i64
            },
            y: if i % 4 >= 2 {
                b.max.y
            } else {
                b.center_y() as i64
            },
            z: if i % 2 == 1 {
                b.max.z
            } else {
                b.center_z() as i64
            },
        },
    }
}

/// Bounding box of child `child_index` of `parent`.
pub fn child_bounding_box(parent: &BoundingBox, child_index: u8) -> (r: BoundingBox)
    requires
        parent.valid(),
        child_index < 8,
    ensures
        r == spec_child_box(*parent, child_index as int),
{
    let c = parent.center();
    let min = Coord3 {
        x: if child_index >= 4 {
            c.x + 1
        } else {
            parent.min.x
        },
        y: if child_index % 4 >= 2 {
            c.y + 1
        } else {
            parent.min.y
        },
        z: if child_index % 2 == 1 {
            c.z + 1
        } else {
            parent.min.z
        },
    };
    let max = Coord3 {
        x: if child_index >= 4 {
            parent.max.x
        } else {
            c.x
        },
        y: if child_index % 4 >= 2 {
            parent.max.y
        } else {
            c.y
        },
        z: if child_index % 2 == 1 {
            parent.max.z
        } else {
            c.z
        },
    };
    BoundingBox { min, max }
}

/// Law: the octants partition the cube. A position inside the parent box
/// lies in the child box `i` exactly when its child index is `i`; hence it
/// lies in exactly one of the eight child boxes.
pub proof fn lemma_child_box_exact(b: BoundingBox, i: int, x: int, y: int, z: int)
    requires
        b.valid(),
        0 <= i < 8,
        b.covers(x, y, z),
    ensures
        spec_child_box(b, i).covers(x, y, z) <==> spec_child_index(b, x, y, z) == i,
{
}

/// Law: subdividing a cubic box with positive extent yields cubic children
/// of half extent, each contained in the parent.
pub proof fn lemma_child_box_cubic(b: BoundingBox, i: int)
    requires
        b.valid(),
        is_octree_cube(b),
        b.max.x - b.min.x >= 1,
        0 <= i < 8,
    ensures
        spec_child_box(b, i).valid(),
        is_octree_cube(spec_child_box(b, i)),
        spec_child_box(b, i).max.x - spec_child_box(b, i).min.x == (b.max.x - b.min.x - 1) / 2,
        b.min.x <= spec_child_box(b, i).min.x,
        spec_child_box(b, i).max.x <= b.max.x,
{
    let e = b.max.x - b.min.x;
    assert(e % 2 == 1);
}

} // verus!
