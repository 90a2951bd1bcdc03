use vstd::prelude::*;

verus! {

use crate::color::Color;
use crate::color::ColorV;
use crate::rational::rzero;

/// A two-dimensional color buffer, stored column major: the pixel at
/// `(x, y)` sits at flat index `x * height + y`.
#[derive(Debug)]
pub struct Canvas {
    width: usize,
    height: usize,
    pixels: Vec<Color>,
}

impl View for Canvas {
    type V = Seq<ColorV>;

    closed spec fn view(&self) -> Seq<ColorV> {
        Seq::new(self.pixels@.len(), |k: int| self.pixels@[k]@)
    }
}

impl Canvas {
    /// The buffer covers exactly `width` by `height` pixels.
    #[verifier::type_invariant]
    closed spec fn canvas_inv(self) -> bool {
        &&& self.pixels@.len() == self.width * self.height
        &&& self.width * self.height <= usize::MAX
    }

    pub closed spec fn width_spec(&self) -> int {
        self.width as int
    }

    pub closed spec fn height_spec(&self) -> int {
        self.height as int
    }

    /// A canvas of the given size with every pixel black.
    pub fn new(width: usize, height: usize) -> (r: Canvas)
        requires
            width * height <= usize::MAX,
        ensures
            r.width_spec() == width,
            r.height_spec() == height,
            r@.len() == width * height,
            forall|k: int|
                0 <= k < r@.len() ==> (#[trigger] r@[k]).red == rzero() && r@[k].green == rzero()
                    && r@[k].blue == rzero(),
    {
        let n = width * height;
        let mut pixels: Vec<Color> = Vec::new();
        let mut k: usize = 0;
        while k < n
            invariant
                0 <= k <= n,
                pixels@.len() == k,
                forall|k2: int|
                    0 <= k2 < k ==> (#[trigger] pixels@[k2])@.red == rzero()
                        && pixels@[k2]@.green == rzero() && pixels@[k2]@.blue == rzero(),
            decreases n - k,
        {
            pixels.push(Color::black());
            k = k + 1;
        }
        Canvas { width, height, pixels }
    }

    /// The width in pixels.
    pub fn width(&self) -> (r: usize)
        ensures
            r == self.width_spec(),
    {
        self.width
    }

    /// The height in pixels.
    pub fn height(&self) -> (r: usize)
        ensures
            r == self.height_spec(),
    {
        self.height
    }

    /// The number of pixels in the buffer.
    pub fn area(&self) -> (r: usize)
        ensures
            r == self@.len(),
            r == self.width_spec() * self.height_spec(),
    {
        proof {
            use_type_invariant(self);
        }
        self.pixels.len()
    }

    /// The pixel at `(x, y)`.
    pub fn pixel(&self, x: usize, y: usize) -> (r: Color)
        requires
            x < self.width_spec(),
            y < self.height_spec(),
        ensures
            r@ == self@[x * self.height_spec() + y],
    {
        proof {
            use_type_invariant(self);
            crate::matrix::lemma_flat_bound(x as int, y as int, self.width as int, self.height as int);
        }
        self.pixels[x * self.height + y]
    }

    /// Replaces the pixel at `(x, y)`; the write is bounds checked by the
    /// precondition.
    pub fn write_pixel(&mut self, x: usize, y: usize, c: &Color)
        requires
            x < old(self).width_spec(),
            y < old(self).height_spec(),
        ensures
            final(self).width_spec() == old(self).width_spec(),
            final(self).height_spec() == old(self).height_spec(),
            final(self)@.len() == old(self)@.len(),
            final(self)@ == old(self)@.update(
                x * old(self).height_spec() + y,
                c@,
            ),
    {
        proof {
            use_type_invariant(&*self);
            crate::matrix::lemma_flat_bound(x as int, y as int, self.width as int, self.height as int);
        }
        let idx = x * self.height + y;
        let mut px = self.pixels.clone();
        proof {
            assert(px@ =~= self.pixels@);
        }
        px[idx] = *c;
        *self = Canvas { width: self.width, height: self.height, pixels: px };
        proof {
            assert(self@ =~= old(self)@.update(
                x as int * old(self).height_spec() + y as int,
                c@,
            ));
        }
    }
}

} // verus!
