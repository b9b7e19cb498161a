//! The calls an operation asks of the terminal backend.

use vstd::prelude::*;
use crate::color::Color;
use crate::pixel::Pixel;

verus! {

/// One call of a primitive of the terminal backend. An operation returns the
/// calls it asks for, first to last; performing them is left to the caller.
#[derive(Clone, Copy, Debug, PartialEq, Eq, Hash, Structural)]
pub enum BackendCall {
    /// Write one cell at (`x`, `y`) in `color`.
    Draw { x: u16, y: u16, color: Color },
    /// Clear the cell at (`x`, `y`).
    Erase { x: u16, y: u16 },
}

/// The call that draws `p`.
pub open spec fn draw_of(p: Pixel) -> BackendCall {
    BackendCall::Draw { x: p.x, y: p.y, color: p.color }
}

/// The call that erases the cell of `p`.
pub open spec fn erase_of(p: Pixel) -> BackendCall {
    BackendCall::Erase { x: p.x, y: p.y }
}

/// One draw call for each pixel of `pixels`, in their order.
pub open spec fn draw_calls(pixels: Seq<Pixel>) -> Seq<BackendCall> {
    Seq::new(pixels.len(), |i: int| draw_of(pixels[i]))
}

/// One erase call for each pixel of `pixels`, in their order.
pub open spec fn erase_calls(pixels: Seq<Pixel>) -> Seq<BackendCall> {
    Seq::new(pixels.len(), |i: int| erase_of(pixels[i]))
}

/// Appends to `calls` the draw call of each pixel.
pub(crate) fn push_draws(calls: &mut Vec<BackendCall>, pixels: &Vec<Pixel>)
    ensures
        final(calls)@ == old(calls)@ + draw_calls(pixels@),
{
    let ghost before = calls@;
    let n: usize = pixels.len();
    let mut i: usize = 0;
    while i < n
        invariant
            n == pixels.len(),
            i <= n,
            calls@ == before + draw_calls(pixels@.take(i as int)),
        decreases n - i,
    {
        let p: Pixel = pixels[i];
        calls.push(BackendCall::Draw { x: p.x, y: p.y, color: p.color });
        i = i + 1;
    }
    assert(pixels@.take(n as int) == pixels@);
}

/// Appends to `calls` the erase call of each pixel.
pub(crate) fn push_erases(calls: &mut Vec<BackendCall>, pixels: &Vec<Pixel>)
    ensures
        final(calls)@ == old(calls)@ + erase_calls(pixels@),
{
    let ghost before = calls@;
    let n: usize = pixels.len();
    let mut i: usize = 0;
    while i < n
        invariant
            n == pixels.len(),
            i <= n,
            calls@ == before + erase_calls(pixels@.take(i as int)),
        decreases n - i,
    {
        let p: Pixel = pixels[i];
        calls.push(BackendCall::Erase { x: p.x, y: p.y });
        i = i + 1;
    }
    assert(pixels@.take(n as int) == pixels@);
}

} // verus!
