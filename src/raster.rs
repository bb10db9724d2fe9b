use vstd::prelude::*;
use crate::color::Rgba;

verus! {

/// A dense RGBA image, row-major from the top-left pixel.
#[derive(Clone, Debug)]
pub struct Image {
    pub width: usize,
    pub height: usize,
    pub pixels: Vec<Rgba>,
}

impl Image {
    pub open spec fn wf(self) -> bool {
        self.pixels.len() == self.width * self.height
    }

    /// The image holds as many pixels as its size says.
    pub fn is_wf(&self) -> (r: bool)
        ensures
            r == self.wf(),
    {
        if self.width == 0 {
            return self.pixels.len() == 0;
        }
        let q = self.pixels.len() / self.width;
        let m = self.pixels.len() % self.width;
        proof {
            vstd::arithmetic::div_mod::lemma_fundamental_div_mod(self.pixels.len() as int, self.width as int);
            assert(self.width * self.height == self.height * self.width) by (nonlinear_arith);
            assert(self.width * q == q * self.width) by (nonlinear_arith);
            if self.wf() {
                crate::geometry::lemma_row_major(self.pixels.len() as int, self.width as int, self.height as int, 0);
            }
        }
        q == self.height && m == 0
    }

    /// Pixel `(x, y)`.
    pub open spec fn at(self, x: int, y: int) -> Rgba {
        self.pixels@[y * self.width + x]
    }
}

} // verus!
