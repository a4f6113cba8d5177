use vstd::prelude::*;

use core::cmp::Ordering;

verus! {

/// A 2D grid coordinate together with the position assigned to it along a
/// space-filling curve. Equality compares all three fields, while the order
/// (`<`, `partial_cmp`) is keyed on the curve position `i` alone.
#[derive(Debug, Clone, Copy, PartialEq, Eq, Structural)]
pub struct HPoint {
    pub x: u32,
    pub y: u32,
    pub i: u64,
}

impl HPoint {
    /// A fresh point starts with curve position 0; the position is assigned
    /// later, when a curve is built over the grid the point belongs to.
    pub fn new(x: u32, y: u32) -> (p: HPoint)
        ensures
            p.x == x && p.y == y && p.i == 0,
    {
        HPoint { x, y, i: 0 }
    }

    pub fn new_with_index(x: u32, y: u32, i: u64) -> (p: HPoint)
        ensures
            p.x == x && p.y == y && p.i == i,
    {
        HPoint { x, y, i }
    }

    pub fn set_index(&mut self, i: u64)
        ensures
            final(self).x == old(self).x,
            final(self).y == old(self).y,
            final(self).i == i,
    {
        self.i = i;
    }
}

impl PartialOrd for HPoint {
    fn partial_cmp(&self, other: &HPoint) -> (r: Option<Ordering>) {
        if self.i < other.i {
            Some(Ordering::Less)
        } else if self.i == other.i {
            Some(Ordering::Equal)
        } else {
            Some(Ordering::Greater)
        }
    }
}

impl vstd::std_specs::cmp::PartialOrdSpecImpl for HPoint {
    open spec fn obeys_partial_cmp_spec() -> bool {
        true
    }

    open spec fn partial_cmp_spec(&self, other: &HPoint) -> Option<Ordering> {
        if self.i < other.i {
            Some(Ordering::Less)
        } else if self.i == other.i {
            Some(Ordering::Equal)
        } else {
            Some(Ordering::Greater)
        }
    }
}

impl core::ops::Add<HPoint> for HPoint {
    type Output = HPoint;

    /// Componentwise addition; the left operand's curve position is kept.
    fn add(self, other: HPoint) -> (r: HPoint) {
        HPoint { x: self.x + other.x, y: self.y + other.y, i: self.i }
    }
}

impl vstd::std_specs::ops::AddSpecImpl<HPoint> for HPoint {
    open spec fn obeys_add_spec() -> bool {
        true
    }

    open spec fn add_req(self, rhs: HPoint) -> bool {
        self.x + rhs.x <= u32::MAX && self.y + rhs.y <= u32::MAX
    }

    open spec fn add_spec(self, rhs: HPoint) -> HPoint {
        HPoint { x: (self.x + rhs.x) as u32, y: (self.y + rhs.y) as u32, i: self.i }
    }
}

impl core::ops::Add<u32> for HPoint {
    type Output = HPoint;

    /// Adds the scalar to both axes; the curve position is kept.
    fn add(self, other: u32) -> (r: HPoint) {
        HPoint { x: self.x + other, y: self.y + other, i: self.i }
    }
}

impl vstd::std_specs::ops::AddSpecImpl<u32> for HPoint {
    open spec fn obeys_add_spec() -> bool {
        true
    }

    open spec fn add_req(self, rhs: u32) -> bool {
        self.x + rhs <= u32::MAX && self.y + rhs <= u32::MAX
    }

    open spec fn add_spec(self, rhs: u32) -> HPoint {
        HPoint { x: (self.x + rhs) as u32, y: (self.y + rhs) as u32, i: self.i }
    }
}

impl core::ops::Sub<HPoint> for HPoint {
    type Output = HPoint;

    /// Componentwise subtraction; the left operand's curve position is kept.
    fn sub(self, other: HPoint) -> (r: HPoint) {
        HPoint { x: self.x - other.x, y: self.y - other.y, i: self.i }
    }
}

impl vstd::std_specs::ops::SubSpecImpl<HPoint> for HPoint {
    open spec fn obeys_sub_spec() -> bool {
        true
    }

    open spec fn sub_req(self, rhs: HPoint) -> bool {
        rhs.x <= self.x && rhs.y <= self.y
    }

    open spec fn sub_spec(self, rhs: HPoint) -> HPoint {
        HPoint { x: (self.x - rhs.x) as u32, y: (self.y - rhs.y) as u32, i: self.i }
    }
}

impl core::ops::Sub<u32> for HPoint {
    type Output = HPoint;

    /// Subtracts the scalar from both axes; the curve position is kept.
    fn sub(self, other: u32) -> (r: HPoint) {
        HPoint { x: self.x - other, y: self.y - other, i: self.i }
    }
}

impl vstd::std_specs::ops::SubSpecImpl<u32> for HPoint {
    open spec fn obeys_sub_spec() -> bool {
        true
    }

    open spec fn sub_req(self, rhs: u32) -> bool {
        rhs <= self.x && rhs <= self.y
    }

    open spec fn sub_spec(self, rhs: u32) -> HPoint {
        HPoint { x: (self.x - rhs) as u32, y: (self.y - rhs) as u32, i: self.i }
    }
}

} // verus!
