//! Terminal colours and their order.

use std::cmp::Ordering;
use vstd::prelude::*;

verus! {

/// A colour of a terminal cell.
///
/// The variants and their order are those of `crossterm::style::Color`:
/// the sixteen base colours after `Reset`, then 24-bit colours, then
/// indexed ones.
#[derive(Clone, Copy, Debug, PartialEq, Eq, Ord, Hash, Structural)]
pub enum Color {
    /// The terminal's default colour.
    Reset,
    Black,
    DarkGrey,
    Red,
    DarkRed,
    Green,
    DarkGreen,
    Yellow,
    DarkYellow,
    Blue,
    DarkBlue,
    Magenta,
    DarkMagenta,
    Cyan,
    DarkCyan,
    White,
    Grey,
    /// A 24-bit colour.
    Rgb { r: u8, g: u8, b: u8 },
    /// One of the 256 indexed colours.
    AnsiValue(u8),
}

impl Color {
    /// The position of the colour's variant in the declaration.
    pub open spec fn rank(self) -> int {
        match self {
            Color::Reset => 0,
            Color::Black => 1,
            Color::DarkGrey => 2,
            Color::Red => 3,
            Color::DarkRed => 4,
            Color::Green => 5,
            Color::DarkGreen => 6,
            Color::Yellow => 7,
            Color::DarkYellow => 8,
            Color::Blue => 9,
            Color::DarkBlue => 10,
            Color::Magenta => 11,
            Color::DarkMagenta => 12,
            Color::Cyan => 13,
            Color::DarkCyan => 14,
            Color::White => 15,
            Color::Grey => 16,
            Color::Rgb { .. } => 17,
            Color::AnsiValue(_) => 18,
        }
    }

    /// The strict order of colours: by variant first, and within a variant
    /// by its fields from left to right.
    pub open spec fn precedes(self, other: Color) -> bool {
        ||| self.rank() < other.rank()
        ||| self.rank() == other.rank() && match (self, other) {
            (Color::Rgb { r: r1, g: g1, b: b1 }, Color::Rgb { r: r2, g: g2, b: b2 }) => {
                r1 < r2 || (r1 == r2 && (g1 < g2 || (g1 == g2 && b1 < b2)))
            },
            (Color::AnsiValue(v1), Color::AnsiValue(v2)) => v1 < v2,
            _ => false,
        }
    }

    fn variant_index(&self) -> (n: u8)
        ensures
            n == self.rank(),
    {
        match self {
            Color::Reset => 0,
            Color::Black => 1,
            Color::DarkGrey => 2,
            Color::Red => 3,
            Color::DarkRed => 4,
            Color::Green => 5,
            Color::DarkGreen => 6,
            Color::Yellow => 7,
            Color::DarkYellow => 8,
            Color::Blue => 9,
            Color::DarkBlue => 10,
            Color::Magenta => 11,
            Color::DarkMagenta => 12,
            Color::Cyan => 13,
            Color::DarkCyan => 14,
            Color::White => 15,
            Color::Grey => 16,
            Color::Rgb { .. } => 17,
            Color::AnsiValue(_) => 18,
        }
    }

    /// Whether `self` comes strictly before `other`.
    pub fn is_before(&self, other: &Color) -> (before: bool)
        ensures
            before == self.precedes(*other),
    {
        let i: u8 = self.variant_index();
        let j: u8 = other.variant_index();
        if i != j {
            i < j
        } else {
            match (*self, *other) {
                (Color::Rgb { r: r1, g: g1, b: b1 }, Color::Rgb { r: r2, g: g2, b: b2 }) => {
                    r1 < r2 || (r1 == r2 && (g1 < g2 || (g1 == g2 && b1 < b2)))
                },
                (Color::AnsiValue(v1), Color::AnsiValue(v2)) => v1 < v2,
                _ => false,
            }
        }
    }
}

impl PartialOrd for Color {
    /// Compares by [`Color::precedes`]; any two colours compare.
    fn partial_cmp(&self, other: &Color) -> (order: Option<Ordering>) {
        if self.is_before(other) {
            Some(Ordering::Less)
        } else if other.is_before(self) {
            Some(Ordering::Greater)
        } else {
            Some(Ordering::Equal)
        }
    }
}

impl vstd::std_specs::cmp::PartialOrdSpecImpl for Color {
    open spec fn obeys_partial_cmp_spec() -> bool {
        true
    }

    open spec fn partial_cmp_spec(&self, other: &Color) -> Option<Ordering> {
        if self.precedes(*other) {
            Some(Ordering::Less)
        } else if other.precedes(*self) {
            Some(Ordering::Greater)
        } else {
            Some(Ordering::Equal)
        }
    }
}

/// No colour precedes itself, and of two colours that differ exactly one
/// precedes the other.
pub proof fn lemma_color_order_total(a: Color, b: Color)
    ensures
        !a.precedes(a),
        a != b ==> (a.precedes(b) <==> !b.precedes(a)),
        a == b ==> !a.precedes(b) && !b.precedes(a),
{
}

/// The order of colours is transitive.
pub proof fn lemma_color_order_transitive(a: Color, b: Color, c: Color)
    requires
        a.precedes(b),
        b.precedes(c),
    ensures
        a.precedes(c),
{
}

} // verus!
