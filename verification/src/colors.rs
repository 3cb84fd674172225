//! LED colors and the small collections that hold them.
//!
//! Each collection owns a `SmallVec` of one inline capacity. Its view is what
//! the `SmallVec` holds, in order.

use smallvec::SmallVec;
use vstd::prelude::*;

verus! {

/// A color of three 8-bit channels.
#[derive(Debug, Clone, Copy, PartialEq, Eq, Structural)]
pub struct RGB8 {
    /// Red
    pub r: u8,
    /// Green
    pub g: u8,
    /// Blue
    pub b: u8,
}

/// The color of an LED that is off.
pub open spec fn black() -> RGB8 {
    RGB8 { r: 0, g: 0, b: 0 }
}

impl Default for RGB8 {
    fn default() -> (r: Self)
        ensures
            r == black(),
    {
        RGB8 { r: 0, g: 0, b: 0 }
    }
}

impl RGB8 {
    /// A color from its three channels.
    pub fn new(r: u8, g: u8, b: u8) -> (color: RGB8)
        ensures
            color == (RGB8 { r, g, b }),
    {
        RGB8 { r, g, b }
    }
}

/// The same color for a number of LEDs.
pub fn solid(color: RGB8, count: usize) -> (r: Vec<RGB8>)
    ensures
        r@ == Seq::new(count as nat, |i: int| color),
{
    let mut leds: Vec<RGB8> = Vec::new();
    let mut i: usize = 0;
    while i < count
        invariant
            i <= count,
            leds@.len() == i,
            forall|j: int| 0 <= j < i ==> leds@[j] == color,
        decreases count - i,
    {
        leds.push(color);
        i = i + 1;
    }
    assert(leds@ =~= Seq::new(count as nat, |i: int| color));
    leds
}

// ---------------------------------------------------------------------------
// Color stops
// ---------------------------------------------------------------------------

/// The colors of a rule. Four of them are stored inline.
#[verifier::external_body]
#[derive(Debug)]
pub struct ColorStops {
    inner: SmallVec<[RGB8; 4]>,
}

/// The colors of a rule, in order.
pub uninterp spec fn stop_colors(stops: ColorStops) -> Seq<RGB8>;

impl View for ColorStops {
    type V = Seq<RGB8>;

    open spec fn view(&self) -> Seq<RGB8> {
        stop_colors(*self)
    }
}

impl Clone for ColorStops {
    fn clone(&self) -> (r: Self)
        ensures
            r@ == self@,
    {
        ColorStops::from_slice(self.as_slice())
    }
}

impl ColorStops {
    /// `SmallVec::from_slice`: the colors of a slice.
    #[verifier::external_body]
    pub(crate) fn from_slice(colors: &[RGB8]) -> (r: Self)
        ensures
            stop_colors(r) == colors@,
    {
        ColorStops { inner: SmallVec::from_slice(colors) }
    }

    /// `SmallVec::as_slice`: the colors.
    #[verifier::external_body]
    pub(crate) fn as_slice(&self) -> (r: &[RGB8])
        ensures
            r@ == stop_colors(*self),
    {
        self.inner.as_slice()
    }

    /// A copy of the given colors.
    pub fn of(colors: &[RGB8]) -> (r: Self)
        ensures
            r@ == colors@,
    {
        ColorStops::from_slice(colors)
    }

    /// The colors, in order.
    pub fn colors(&self) -> (r: &[RGB8])
        ensures
            r@ == self@,
    {
        self.as_slice()
    }
}

// ---------------------------------------------------------------------------
// Gradients
// ---------------------------------------------------------------------------

/// The colors of a range of LEDs. Sixteen of them are stored inline.
#[verifier::external_body]
#[derive(Debug)]
pub struct Gradient {
    inner: SmallVec<[RGB8; 16]>,
}

/// The colors of a gradient, in order.
pub uninterp spec fn gradient_colors(gradient: Gradient) -> Seq<RGB8>;

impl View for Gradient {
    type V = Seq<RGB8>;

    open spec fn view(&self) -> Seq<RGB8> {
        gradient_colors(*self)
    }
}

impl Clone for Gradient {
    fn clone(&self) -> (r: Self)
        ensures
            r@ == self@,
    {
        Gradient::from_slice(self.as_slice())
    }
}

impl Gradient {
    /// `SmallVec::new`: a gradient without colors.
    #[verifier::external_body]
    pub(crate) fn new() -> (r: Self)
        ensures
            gradient_colors(r) == Seq::<RGB8>::empty(),
    {
        Gradient { inner: SmallVec::new() }
    }

    /// `SmallVec::from_elem`: one color, repeated.
    #[verifier::external_body]
    pub(crate) fn from_elem(color: RGB8, count: usize) -> (r: Self)
        ensures
            gradient_colors(r) == Seq::new(count as nat, |i: int| color),
    {
        Gradient { inner: SmallVec::from_elem(color, count) }
    }

    /// `SmallVec::from_slice`: the colors of a slice.
    #[verifier::external_body]
    pub(crate) fn from_slice(colors: &[RGB8]) -> (r: Self)
        ensures
            gradient_colors(r) == colors@,
    {
        Gradient { inner: SmallVec::from_slice(colors) }
    }

    /// `SmallVec::as_slice`: the colors.
    #[verifier::external_body]
    pub(crate) fn as_slice(&self) -> (r: &[RGB8])
        ensures
            r@ == gradient_colors(*self),
    {
        self.inner.as_slice()
    }

    /// A copy of the given colors.
    pub fn of(colors: &[RGB8]) -> (r: Self)
        ensures
            r@ == colors@,
    {
        Gradient::from_slice(colors)
    }

    /// The colors, in order.
    pub fn colors(&self) -> (r: &[RGB8])
        ensures
            r@ == self@,
    {
        self.as_slice()
    }
}

// ---------------------------------------------------------------------------
// LED indices
// ---------------------------------------------------------------------------

/// Indices of LEDs to light, in the order in which they light up. Sixteen of
/// them are stored inline.
#[verifier::external_body]
#[derive(Debug)]
pub struct LedIndices {
    inner: SmallVec<[usize; 16]>,
}

/// The indices, in order.
pub uninterp spec fn led_order(indices: LedIndices) -> Seq<usize>;

impl View for LedIndices {
    type V = Seq<usize>;

    open spec fn view(&self) -> Seq<usize> {
        led_order(*self)
    }
}

impl LedIndices {
    /// `SmallVec::new`: no index.
    #[verifier::external_body]
    pub(crate) fn new() -> (r: Self)
        ensures
            led_order(r) == Seq::<usize>::empty(),
    {
        LedIndices { inner: SmallVec::new() }
    }

    /// `SmallVec::push` appends one index.
    #[verifier::external_body]
    pub(crate) fn push(&mut self, index: usize)
        ensures
            led_order(*final(self)) == led_order(*old(self)).push(index),
    {
        self.inner.push(index);
    }

    /// `SmallVec::as_slice`: the indices.
    #[verifier::external_body]
    pub(crate) fn as_slice(&self) -> (r: &[usize])
        ensures
            r@ == led_order(*self),
    {
        self.inner.as_slice()
    }
}

} // verus!
