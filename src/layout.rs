//! Footprints, render transforms and the geometry of child slots.

use vstd::prelude::*;

use crate::block::{ObjectData, Orientation, Point};
use crate::mouseover::Side;

verus! {

/// Largest coordinate magnitude plus size that a block may have.
pub const EXTENT: i64 = 4_398_046_511_104;

/// Child size is parent size times `SHRINK_NUM / SHRINK_DEN`, which is
/// `FRAC_1_SQRT_2 * 0.90` to six places.
pub const SHRINK_NUM: i64 = 636_396;
pub const SHRINK_DEN: i64 = 1_000_000;

/// The short side is the long side times `ASPECT_NUM / ASPECT_DEN`
/// (`FRAC_1_SQRT_2` to six places), as on a sheet of paper.
pub const ASPECT_NUM: i64 = 707_107;
pub const ASPECT_DEN: i64 = 1_000_000;

/// Edge length of the block textures; a block of this size is drawn at scale 1.
pub const IMAGE_SIZE: i64 = 300_000;

/// A scale factor of one, in thousandths.
pub const SCALE_ONE: i64 = 1000;

pub open spec fn short_side(size: int) -> int {
    size * (ASPECT_NUM as int) / (ASPECT_DEN as int)
}

/// Width and height of a block of the given size and orientation.
pub open spec fn footprint_of(size: int, o: Orientation) -> (int, int) {
    match o {
        Orientation::Horizontal => (size, short_side(size)),
        Orientation::Vertical => (short_side(size), size),
    }
}

pub open spec fn child_size(size: int) -> int {
    size * (SHRINK_NUM as int) / (SHRINK_DEN as int)
}

/// Offset of a child slot's center from its parent's center: a quarter of the
/// parent's size along the parent's long axis, backwards for the first side.
pub open spec fn child_offset(size: int, o: Orientation, side: Side) -> (int, int) {
    let q = size / 4;
    let d = match side {
        Side::First => -q,
        Side::Second => q,
    };
    match o {
        Orientation::Horizontal => (d, 0),
        Orientation::Vertical => (0, d),
    }
}

/// A size that layout arithmetic can handle.
pub open spec fn size_in_range(size: int) -> bool {
    0 <= size <= EXTENT
}

pub fn footprint(size: i64, o: Orientation) -> (r: (i64, i64))
    requires
        size_in_range(size as int),
    ensures
        (r.0 as int, r.1 as int) == footprint_of(size as int, o),
        0 <= r.0 <= size,
        0 <= r.1 <= size,
{
    let short = size * ASPECT_NUM / ASPECT_DEN;
    assert(0 <= short <= size) by (nonlinear_arith)
        requires
            short == size * 707_107 / 1_000_000,
            0 <= size <= EXTENT,
    ;
    match o {
        Orientation::Horizontal => (size, short),
        Orientation::Vertical => (short, size),
    }
}

/// Size, offset from the parent's center, and orientation of a block that sits
/// in the given side of a parent of the given size and orientation.
pub fn child_slot_geometry(parent_size: i64, parent_orientation: Orientation, side: Side) -> (r: (
    i64,
    Point,
    Orientation,
))
    requires
        size_in_range(parent_size as int),
    ensures
        r.0 as int == child_size(parent_size as int),
        (r.1.x as int, r.1.y as int) == child_offset(parent_size as int, parent_orientation, side),
        r.2 == parent_orientation.swapped(),
{
    let size = parent_size * SHRINK_NUM / SHRINK_DEN;
    let q = parent_size / 4;
    let d = match side {
        Side::First => -q,
        Side::Second => q,
    };
    let offset = match parent_orientation {
        Orientation::Horizontal => Point { x: d, y: 0 },
        Orientation::Vertical => Point { x: 0, y: d },
    };
    (size, offset, parent_orientation.swap())
}

/// A child slot's block has the other orientation and is strictly smaller
/// than its parent, for every parent of positive size.
pub proof fn lemma_child_slot_shrinks(size: int, o: Orientation)
    requires
        0 < size,
    ensures
        o.swapped() != o,
        0 <= child_size(size) < size,
        child_size(size) + size / 4 <= size,
{
    assert(0 <= size * 636_396 / 1_000_000 < size) by (nonlinear_arith)
        requires
            0 < size,
    ;
    assert(size * 636_396 / 1_000_000 + size / 4 <= size) by (nonlinear_arith)
        requires
            0 < size,
    ;
}

/// What the renderer needs to draw a block: position with stacking depth,
/// rotation in degrees, and scale in thousandths.
#[derive(Clone, Copy, Debug, PartialEq, Eq, Structural)]
pub struct Transform {
    pub x: i64,
    pub y: i64,
    pub z: usize,
    pub rotation: u32,
    pub scale: i64,
}

impl ObjectData {
    /// Size and location are small enough for all layout arithmetic.
    pub open spec fn in_extent(self) -> bool {
        &&& 0 <= self.size
        &&& -EXTENT <= self.location.x - self.size
        &&& self.location.x + self.size <= EXTENT
        &&& -EXTENT <= self.location.y - self.size
        &&& self.location.y + self.size <= EXTENT
    }

    pub open spec fn rotation_of(self) -> int {
        (if self.flip { 180int } else { 0int }) + (match self.orientation {
            Orientation::Vertical => 90int,
            Orientation::Horizontal => 0int,
        })
    }

    pub open spec fn transform_of(self, z: usize) -> Transform {
        Transform {
            x: self.location.x,
            y: self.location.y,
            z,
            rotation: self.rotation_of() as u32,
            scale: (self.size * (SCALE_ONE as int) / (IMAGE_SIZE as int)) as i64,
        }
    }

    /// The render transform of this block at stacking depth `z`: rotated a
    /// quarter turn when vertical, and a further half turn when flipped.
    pub fn gen_transform(&self, z: usize) -> (r: Transform)
        requires
            size_in_range(self.size as int),
        ensures
            r == self.transform_of(z),
    {
        let turn: u32 = if self.flip { 180 } else { 0 };
        let quarter: u32 = match self.orientation {
            Orientation::Vertical => 90,
            Orientation::Horizontal => 0,
        };
        Transform {
            x: self.location.x,
            y: self.location.y,
            z,
            rotation: turn + quarter,
            scale: self.size * SCALE_ONE / IMAGE_SIZE,
        }
    }

    /// Long and short side of this block.
    pub fn size(&self) -> (r: (i64, i64))
        requires
            size_in_range(self.size as int),
        ensures
            r.0 == self.size,
            r.1 as int == short_side(self.size as int),
    {
        footprint(self.size, Orientation::Horizontal)
    }
}

} // verus!
