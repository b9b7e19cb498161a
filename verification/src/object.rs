//! The pixel object and its operations.

use vstd::prelude::*;
use crate::backend::{
    draw_calls, draw_of, erase_calls, erase_of, push_draws, push_erases, BackendCall,
};
use crate::color::Color;
use crate::order::{is_canonical_of, lemma_canonical_unique, optimized};
use crate::pixel::{wrap_coord, wrapped, Pixel};
use crate::sorting::{lemma_rearranged, sorted, without_repeats};

verus! {

/// A shape on the terminal: pixels that are drawn, moved, recoloured and
/// erased together.
///
/// Any sequence of pixels is a valid object, the empty one too. A pixel
/// that stands later is drawn later, so of two pixels in one cell the later
/// one is seen. The operations that write to the terminal return the calls
/// for the backend instead of making them; see [`BackendCall`].
///
/// Every operation runs to its end before it returns. An object has no lock
/// of its own: one that several threads use needs a lock around it.
pub struct Object {
    /// The pixels, in the order in which they are drawn.
    pub pixels: Vec<Pixel>,
}

impl View for Object {
    type V = Seq<Pixel>;

    /// The pixels, first to last.
    open spec fn view(&self) -> Seq<Pixel> {
        self.pixels@
    }
}

/// Each pixel of `pixels` moved by (`dx`, `dy`), in the same order.
pub open spec fn shifted(pixels: Seq<Pixel>, dx: i32, dy: i32) -> Seq<Pixel> {
    Seq::new(pixels.len(), |i: int| pixels[i].shifted(dx, dy))
}

/// Each pixel of `pixels` in the colour `color`, in the same order.
pub open spec fn recolored(pixels: Seq<Pixel>, color: Color) -> Seq<Pixel> {
    Seq::new(pixels.len(), |i: int| pixels[i].recolored(color))
}

/// What moving `pixels` by (`dx`, `dy`) asks of the backend: every pixel
/// erased where it was, then every pixel drawn where it is now.
pub open spec fn move_calls(pixels: Seq<Pixel>, dx: i32, dy: i32) -> Seq<BackendCall> {
    erase_calls(pixels) + draw_calls(shifted(pixels, dx, dy))
}

/// What offsetting `pixels` by (`dx`, `dy`) asks of the backend: every pixel
/// drawn where it is now.
pub open spec fn offset_calls(pixels: Seq<Pixel>, dx: i32, dy: i32) -> Seq<BackendCall> {
    draw_calls(shifted(pixels, dx, dy))
}

/// Moving a coordinate by `delta` and then by `-delta` gives the coordinate
/// back, wherever `-delta` can be written.
pub proof fn lemma_wrapped_back(coord: u16, delta: i32)
    requires
        delta > i32::MIN,
    ensures
        wrapped(wrapped(coord, delta), (-delta) as i32) == coord,
{
}

/// Moving pixels by (`dx`, `dy`) and then by (`-dx`, `-dy`) gives the
/// pixels back, wherever the two opposite offsets can be written.
pub proof fn lemma_shifted_back(pixels: Seq<Pixel>, dx: i32, dy: i32)
    requires
        dx > i32::MIN,
        dy > i32::MIN,
    ensures
        shifted(shifted(pixels, dx, dy), (-dx) as i32, (-dy) as i32) == pixels,
{
    let there = shifted(pixels, dx, dy);
    let back = shifted(there, (-dx) as i32, (-dy) as i32);
    assert forall|i: int| 0 <= i < pixels.len() implies back[i] == pixels[i] by {
        lemma_wrapped_back(pixels[i].x, dx);
        lemma_wrapped_back(pixels[i].y, dy);
    }
    assert(back =~= pixels);
}

/// Moving asks for one erase for each pixel, at the place where it was, and
/// then for exactly what offsetting asks for: one draw for each pixel, at
/// the place where it is now. Offsetting asks for no erase.
pub proof fn lemma_move_erases_before_offset(pixels: Seq<Pixel>, dx: i32, dy: i32)
    ensures
        move_calls(pixels, dx, dy) == erase_calls(pixels) + offset_calls(pixels, dx, dy),
        erase_calls(pixels).len() == pixels.len(),
        offset_calls(pixels, dx, dy).len() == pixels.len(),
        forall|i: int|
            0 <= i < pixels.len() ==> #[trigger] move_calls(pixels, dx, dy)[i] == erase_of(
                pixels[i],
            ),
        forall|i: int|
            0 <= i < pixels.len() ==> #[trigger] offset_calls(pixels, dx, dy)[i] == draw_of(
                pixels[i].shifted(dx, dy),
            ),
        forall|i: int|
            0 <= i < pixels.len() ==> move_calls(pixels, dx, dy)[pixels.len() + i]
                == #[trigger] offset_calls(pixels, dx, dy)[i],
{
}

/// Moves every pixel of `pixels` by (`dx`, `dy`).
fn translate(pixels: &mut Vec<Pixel>, dx: i32, dy: i32)
    ensures
        final(pixels)@ == shifted(old(pixels)@, dx, dy),
{
    let ghost before = pixels@;
    let n: usize = pixels.len();
    let mut i: usize = 0;
    while i < n
        invariant
            n == pixels.len(),
            i <= n,
            pixels@.len() == before.len(),
            forall|k: int| 0 <= k < i ==> pixels@[k] == before[k].shifted(dx, dy),
            forall|k: int| i <= k < n ==> pixels@[k] == before[k],
        decreases n - i,
    {
        pixels[i].x = wrap_coord(pixels[i].x, dx);
        pixels[i].y = wrap_coord(pixels[i].y, dy);
        i = i + 1;
    }
}

impl Object {
    /// An object that holds exactly `pixels`, in their order. Nothing is
    /// drawn.
    pub fn new(pixels: Vec<Pixel>) -> (object: Object)
        ensures
            object@ == pixels@,
            object.pixels == pixels,
    {
        Object { pixels }
    }

    /// The calls that draw the object: one for each pixel, in order. The
    /// object is not changed.
    pub fn draw(&self) -> (calls: Vec<BackendCall>)
        ensures
            calls@ == draw_calls(self@),
    {
        let mut calls: Vec<BackendCall> = Vec::new();
        push_draws(&mut calls, &self.pixels);
        calls
    }

    /// Moves the object by (`x`, `y`), a coordinate that leaves the range
    /// wrapping around. The calls returned erase every pixel where it was
    /// and then draw every pixel where it is now.
    pub fn move_object(&mut self, x: i32, y: i32) -> (calls: Vec<BackendCall>)
        ensures
            final(self)@ == shifted(old(self)@, x, y),
            calls@ == move_calls(old(self)@, x, y),
            calls@ == erase_calls(old(self)@) + draw_calls(final(self)@),
    {
        let mut calls: Vec<BackendCall> = Vec::new();
        push_erases(&mut calls, &self.pixels);
        translate(&mut self.pixels, x, y);
        push_draws(&mut calls, &self.pixels);
        calls
    }

    /// Empties the object, which stays usable. The calls returned erase
    /// every pixel it held.
    pub fn erase_pixels(&mut self) -> (calls: Vec<BackendCall>)
        ensures
            final(self)@ == Seq::<Pixel>::empty(),
            calls@ == erase_calls(old(self)@),
    {
        let mut calls: Vec<BackendCall> = Vec::new();
        push_erases(&mut calls, &self.pixels);
        self.pixels = Vec::new();
        calls
    }

    /// Appends `pixels` behind those the object holds. Nothing is drawn.
    pub fn add_pixels(&mut self, pixels: Vec<Pixel>)
        ensures
            final(self)@ == old(self)@ + pixels@,
    {
        let mut pixels = pixels;
        self.pixels.append(&mut pixels);
    }

    /// Moves the object by (`x`, `y`) as `move_object` does, without
    /// erasing anything: the calls returned draw every pixel where it is
    /// now.
    pub fn offset(&mut self, x: i32, y: i32) -> (calls: Vec<BackendCall>)
        ensures
            final(self)@ == shifted(old(self)@, x, y),
            calls@ == offset_calls(old(self)@, x, y),
            calls@ == draw_calls(final(self)@),
    {
        translate(&mut self.pixels, x, y);
        self.draw()
    }

    /// Gives the object up. The calls returned erase every pixel it held.
    pub fn delete(self) -> (calls: Vec<BackendCall>)
        ensures
            calls@ == erase_calls(self@),
    {
        let mut calls: Vec<BackendCall> = Vec::new();
        push_erases(&mut calls, &self.pixels);
        calls
    }

    /// Sorts the pixels by `x`, then `y`, then colour, and drops every
    /// pixel that occurs a second time. The terminal is not touched; the
    /// order in which the pixels will be drawn changes.
    pub fn optimize(&mut self)
        ensures
            final(self)@ == optimized(old(self)@),
            is_canonical_of(final(self)@, old(self)@),
            final(self)@.len() <= old(self)@.len(),
    {
        let sorted: Vec<Pixel> = sorted(&self.pixels);
        let kept: Vec<Pixel> = without_repeats(&sorted);
        proof {
            lemma_rearranged(sorted@, self.pixels@);
            lemma_canonical_unique(kept@, self.pixels@);
        }
        self.pixels = kept;
    }

    /// Gives every pixel the colour `color`. Nothing is drawn: the
    /// terminal shows the old colours until the object is drawn again.
    pub fn change_color(&mut self, color: Color)
        ensures
            final(self)@ == recolored(old(self)@, color),
    {
        let ghost before = self.pixels@;
        let n: usize = self.pixels.len();
        let mut i: usize = 0;
        while i < n
            invariant
                n == self.pixels.len(),
                i <= n,
                self.pixels@.len() == before.len(),
                forall|k: int| 0 <= k < i ==> self.pixels@[k] == before[k].recolored(color),
                forall|k: int| i <= k < n ==> self.pixels@[k] == before[k],
            decreases n - i,
        {
            self.pixels[i].color = color;
            i = i + 1;
        }
    }
}

} // verus!
