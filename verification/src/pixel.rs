//! Pixels, their order, and translation by a signed offset.

use std::cmp::Ordering;
use vstd::prelude::*;
use crate::color::{lemma_color_order_total, lemma_color_order_transitive, Color};

verus! {

/// One coloured cell of the terminal.
#[derive(Clone, Copy, Debug, PartialEq, Eq, Ord, Hash, Structural)]
pub struct Pixel {
    /// The column.
    pub x: u16,
    /// The row.
    pub y: u16,
    /// The colour of the cell.
    pub color: Color,
}

/// A coordinate moved by `delta`, wrapping around the coordinate range:
/// the remainder of the sum modulo 2^16, which is never negative.
pub open spec fn wrapped(coord: u16, delta: i32) -> u16 {
    ((coord + delta) % 0x1_0000) as u16
}

/// Moves a coordinate by `delta`. A sum that is a coordinate is the
/// result; one below zero or above the largest coordinate wraps around.
pub fn wrap_coord(coord: u16, delta: i32) -> (moved: u16)
    ensures
        moved == wrapped(coord, delta),
        0 <= coord + delta <= u16::MAX ==> moved == coord + delta,
{
    // 0x8000_0000 is a multiple of the range, so adding it keeps the
    // remainder and makes the sum non-negative.
    let lifted: i64 = coord as i64 + delta as i64 + 0x8000_0000i64;
    let rem: i64 = lifted % 0x1_0000i64;
    rem as u16
}

impl Pixel {
    /// The strict order of pixels: by `x`, then `y`, then colour.
    pub open spec fn precedes(self, other: Pixel) -> bool {
        ||| self.x < other.x
        ||| self.x == other.x && self.y < other.y
        ||| self.x == other.x && self.y == other.y && self.color.precedes(other.color)
    }

    /// The pixel moved by (`dx`, `dy`), each coordinate wrapping on its own;
    /// the colour is kept.
    pub open spec fn shifted(self, dx: i32, dy: i32) -> Pixel {
        Pixel { x: wrapped(self.x, dx), y: wrapped(self.y, dy), color: self.color }
    }

    /// The pixel with its colour replaced.
    pub open spec fn recolored(self, color: Color) -> Pixel {
        Pixel { x: self.x, y: self.y, color }
    }

    /// Whether `self` comes strictly before `other`.
    pub fn is_before(&self, other: &Pixel) -> (before: bool)
        ensures
            before == self.precedes(*other),
    {
        if self.x != other.x {
            self.x < other.x
        } else if self.y != other.y {
            self.y < other.y
        } else {
            self.color.is_before(&other.color)
        }
    }
}

impl PartialOrd for Pixel {
    /// Compares by [`Pixel::precedes`]; any two pixels compare.
    fn partial_cmp(&self, other: &Pixel) -> (order: Option<Ordering>) {
        if self.is_before(other) {
            Some(Ordering::Less)
        } else if other.is_before(self) {
            Some(Ordering::Greater)
        } else {
            Some(Ordering::Equal)
        }
    }
}

impl vstd::std_specs::cmp::PartialOrdSpecImpl for Pixel {
    open spec fn obeys_partial_cmp_spec() -> bool {
        true
    }

    open spec fn partial_cmp_spec(&self, other: &Pixel) -> Option<Ordering> {
        if self.precedes(*other) {
            Some(Ordering::Less)
        } else if other.precedes(*self) {
            Some(Ordering::Greater)
        } else {
            Some(Ordering::Equal)
        }
    }
}

/// No pixel precedes itself, and of two pixels that differ exactly one
/// precedes the other.
pub proof fn lemma_pixel_order_total(a: Pixel, b: Pixel)
    ensures
        !a.precedes(a),
        a != b ==> (a.precedes(b) <==> !b.precedes(a)),
        a == b ==> !a.precedes(b) && !b.precedes(a),
{
    lemma_color_order_total(a.color, b.color);
}

/// The order of pixels is transitive.
pub proof fn lemma_pixel_order_transitive(a: Pixel, b: Pixel, c: Pixel)
    requires
        a.precedes(b),
        b.precedes(c),
    ensures
        a.precedes(c),
{
    if a.x == b.x && b.x == c.x && a.y == b.y && b.y == c.y {
        lemma_color_order_transitive(a.color, b.color, c.color);
    }
}

} // verus!
