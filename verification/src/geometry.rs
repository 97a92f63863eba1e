//! Integer vectors and rectangles used to describe glyph sizes, regions and offsets.
//!
//! These are plain-value counterparts of the `glam`/`bevy_math` integer types, carrying exactly
//! the operations the font pipeline performs on them.
use vstd::prelude::*;

verus! {

/// The value of a `u32` reinterpreted as an `i32` (two's complement truncation).
pub open spec fn u32_as_i32(v: u32) -> i32 {
    v as i32
}

/// The value of an `i32` reinterpreted as a `u32` (two's complement truncation).
pub open spec fn i32_as_u32(v: i32) -> u32 {
    v as u32
}

/// A two-dimensional vector of unsigned 32-bit integers.
#[derive(Clone, Copy, Debug, Default, PartialEq, Eq, Hash, Structural)]
pub struct UVec2 {
    pub x: u32,
    pub y: u32,
}

/// A two-dimensional vector of signed 32-bit integers.
#[derive(Clone, Copy, Debug, Default, PartialEq, Eq, Hash, Structural)]
pub struct IVec2 {
    pub x: i32,
    pub y: i32,
}

/// An axis-aligned rectangle with unsigned integer corners.
#[derive(Clone, Copy, Debug, Default, PartialEq, Eq, Hash, Structural)]
pub struct URect {
    pub min: UVec2,
    pub max: UVec2,
}

/// An axis-aligned rectangle with signed integer corners.
#[derive(Clone, Copy, Debug, Default, PartialEq, Eq, Hash, Structural)]
pub struct IRect {
    pub min: IVec2,
    pub max: IVec2,
}

impl UVec2 {
    /// Creates a vector from its components.
    pub fn new(x: u32, y: u32) -> (r: Self)
        ensures
            r == (UVec2 { x, y }),
    {
        UVec2 { x, y }
    }

    pub open spec fn spec_min(self, rhs: Self) -> Self {
        UVec2 {
            x: if self.x < rhs.x { self.x } else { rhs.x },
            y: if self.y < rhs.y { self.y } else { rhs.y },
        }
    }

    pub open spec fn spec_max(self, rhs: Self) -> Self {
        UVec2 {
            x: if self.x > rhs.x { self.x } else { rhs.x },
            y: if self.y > rhs.y { self.y } else { rhs.y },
        }
    }

    /// Component-wise minimum.
    pub fn min(self, rhs: Self) -> (r: Self)
        ensures
            r == self.spec_min(rhs),
    {
        UVec2 {
            x: if self.x < rhs.x { self.x } else { rhs.x },
            y: if self.y < rhs.y { self.y } else { rhs.y },
        }
    }

    /// Component-wise maximum.
    pub fn max(self, rhs: Self) -> (r: Self)
        ensures
            r == self.spec_max(rhs),
    {
        UVec2 {
            x: if self.x > rhs.x { self.x } else { rhs.x },
            y: if self.y > rhs.y { self.y } else { rhs.y },
        }
    }

    pub open spec fn spec_as_ivec2(self) -> IVec2 {
        IVec2 { x: u32_as_i32(self.x), y: u32_as_i32(self.y) }
    }

    /// Casts each component to `i32` (wrapping, like `as`).
    pub fn as_ivec2(self) -> (r: IVec2)
        ensures
            r == self.spec_as_ivec2(),
    {
        IVec2 { x: self.x as i32, y: self.y as i32 }
    }
}

impl IVec2 {
    /// The zero vector.
    pub fn zero() -> (r: Self)
        ensures
            r == (IVec2 { x: 0, y: 0 }),
    {
        IVec2 { x: 0, y: 0 }
    }

    /// Creates a vector from its components.
    pub fn new(x: i32, y: i32) -> (r: Self)
        ensures
            r == (IVec2 { x, y }),
    {
        IVec2 { x, y }
    }

    pub open spec fn spec_min(self, rhs: Self) -> Self {
        IVec2 {
            x: if self.x < rhs.x { self.x } else { rhs.x },
            y: if self.y < rhs.y { self.y } else { rhs.y },
        }
    }

    pub open spec fn spec_max(self, rhs: Self) -> Self {
        IVec2 {
            x: if self.x > rhs.x { self.x } else { rhs.x },
            y: if self.y > rhs.y { self.y } else { rhs.y },
        }
    }

    /// Component-wise minimum.
    pub fn min(self, rhs: Self) -> (r: Self)
        ensures
            r == self.spec_min(rhs),
    {
        IVec2 {
            x: if self.x < rhs.x { self.x } else { rhs.x },
            y: if self.y < rhs.y { self.y } else { rhs.y },
        }
    }

    /// Component-wise maximum.
    pub fn max(self, rhs: Self) -> (r: Self)
        ensures
            r == self.spec_max(rhs),
    {
        IVec2 {
            x: if self.x > rhs.x { self.x } else { rhs.x },
            y: if self.y > rhs.y { self.y } else { rhs.y },
        }
    }

    /// Whether the component-wise sum fits in `i32`.
    pub open spec fn add_fits(self, rhs: Self) -> bool {
        &&& i32::MIN <= self.x + rhs.x <= i32::MAX
        &&& i32::MIN <= self.y + rhs.y <= i32::MAX
    }

    pub open spec fn spec_add(self, rhs: Self) -> Self {
        IVec2 { x: (self.x + rhs.x) as i32, y: (self.y + rhs.y) as i32 }
    }

    /// Component-wise sum; overflow is excluded by the precondition.
    pub fn add(self, rhs: Self) -> (r: Self)
        requires
            self.add_fits(rhs),
        ensures
            r == self.spec_add(rhs),
    {
        IVec2 { x: self.x + rhs.x, y: self.y + rhs.y }
    }

    pub open spec fn spec_as_uvec2(self) -> UVec2 {
        UVec2 { x: i32_as_u32(self.x), y: i32_as_u32(self.y) }
    }

    /// Casts each component to `u32` (wrapping, like `as`).
    pub fn as_uvec2(self) -> (r: UVec2)
        ensures
            r == self.spec_as_uvec2(),
    {
        UVec2 { x: self.x as u32, y: self.y as u32 }
    }
}

impl URect {
    pub open spec fn spec_from_corners(p0: UVec2, p1: UVec2) -> Self {
        URect { min: p0.spec_min(p1), max: p0.spec_max(p1) }
    }

    /// A rectangle spanning two opposite corners.
    pub fn from_corners(p0: UVec2, p1: UVec2) -> (r: Self)
        ensures
            r == Self::spec_from_corners(p0, p1),
    {
        URect { min: p0.min(p1), max: p0.max(p1) }
    }

    /// A rectangle spanning the corners `(x0, y0)` and `(x1, y1)`.
    pub fn new(x0: u32, y0: u32, x1: u32, y1: u32) -> (r: Self)
        ensures
            r == Self::spec_from_corners(UVec2 { x: x0, y: y0 }, UVec2 { x: x1, y: y1 }),
    {
        Self::from_corners(UVec2::new(x0, y0), UVec2::new(x1, y1))
    }

    /// Whether `max.y >= min.y`, which is what makes `height` defined.
    pub open spec fn height_defined(self) -> bool {
        self.min.y <= self.max.y
    }

    pub open spec fn spec_height(self) -> u32 {
        (self.max.y - self.min.y) as u32
    }

    /// The rectangle's height, `max.y - min.y`.
    pub fn height(&self) -> (r: u32)
        requires
            self.height_defined(),
        ensures
            r == self.spec_height(),
    {
        self.max.y - self.min.y
    }
}

impl IRect {
    pub open spec fn spec_from_corners(p0: IVec2, p1: IVec2) -> Self {
        IRect { min: p0.spec_min(p1), max: p0.spec_max(p1) }
    }

    /// A rectangle spanning two opposite corners.
    pub fn from_corners(p0: IVec2, p1: IVec2) -> (r: Self)
        ensures
            r == Self::spec_from_corners(p0, p1),
    {
        IRect { min: p0.min(p1), max: p0.max(p1) }
    }

    /// A rectangle spanning the corners `(x0, y0)` and `(x1, y1)`.
    pub fn new(x0: i32, y0: i32, x1: i32, y1: i32) -> (r: Self)
        ensures
            r == Self::spec_from_corners(IVec2 { x: x0, y: y0 }, IVec2 { x: x1, y: y1 }),
    {
        Self::from_corners(IVec2::new(x0, y0), IVec2::new(x1, y1))
    }

    pub open spec fn spec_as_urect(self) -> URect {
        URect::spec_from_corners(self.min.spec_as_uvec2(), self.max.spec_as_uvec2())
    }

    /// Casts both corners to unsigned and normalises them into a rectangle.
    pub fn as_urect(&self) -> (r: URect)
        ensures
            r == self.spec_as_urect(),
    {
        URect::from_corners(self.min.as_uvec2(), self.max.as_uvec2())
    }
}

/// A rectangle produced by `as_urect` always has a defined height.
pub proof fn lemma_as_urect_height_defined(r: IRect)
    ensures
        r.spec_as_urect().height_defined(),
{
}

} // verus!
