use vstd::arithmetic::div_mod::lemma_fundamental_div_mod;
use vstd::arithmetic::div_mod::lemma_mod_pos_bound;
use vstd::prelude::*;

verus! {

/// The size of the picture to render, in pixels.
#[derive(Clone, Copy, Debug)]
pub struct Image {
    pub height: usize,
    pub width: usize,
}

/// `n / d` rounded to the nearest natural number; a half rounds up.
pub open spec fn rounded_quotient(n: nat, d: nat) -> nat
    recommends
        d > 0,
{
    (2 * n + d) / (2 * d)
}

/// The rounded quotient is the natural number nearest to `n / d`: it is off
/// by half at most, and by exactly half only where it lies above.
pub proof fn lemma_rounded_quotient_is_nearest(n: nat, d: nat)
    requires
        d > 0,
    ensures
        -(d as int) <= 2 * (n - rounded_quotient(n, d) * d) < d,
{
    let q = rounded_quotient(n, d) as int;
    let x = (2 * n + d) as int;
    let m = (2 * d) as int;
    lemma_fundamental_div_mod(x, m);
    lemma_mod_pos_bound(x, m);
    assert(m * q == 2 * (q * d)) by (nonlinear_arith)
        requires
            m == 2 * d,
    ;
}

impl Image {
    /// The height that goes with `width` at the aspect ratio
    /// `aspect_ratio.0 : aspect_ratio.1` (width to height).
    pub open spec fn height_for(width: usize, aspect_ratio: (u32, u32)) -> nat {
        rounded_quotient(width as nat * aspect_ratio.1 as nat, aspect_ratio.0 as nat)
    }

    /// An image of the given width whose height is the width divided by the
    /// aspect ratio, rounded to the nearest pixel. The ratio is given exactly,
    /// as width to height (`(16, 9)` for 16:9). There is no image for a ratio
    /// with a zero term, nor for a height that `usize` cannot hold.
    pub fn new(width: usize, aspect_ratio: (u32, u32)) -> (image: Option<Image>)
        ensures
            image is Some <==> aspect_ratio.0 > 0 && aspect_ratio.1 > 0 && Self::height_for(
                width,
                aspect_ratio,
            ) <= usize::MAX,
            image is Some ==> image.unwrap().width == width && image.unwrap().height
                == Self::height_for(width, aspect_ratio),
    {
        if aspect_ratio.0 == 0 || aspect_ratio.1 == 0 {
            return None;
        }
        assert(width as nat * aspect_ratio.1 as nat <= 0xffff_ffff_ffff_ffff * 0xffff_ffff)
            by (nonlinear_arith)
            requires
                width <= 0xffff_ffff_ffff_ffff,
                aspect_ratio.1 <= 0xffff_ffff,
        ;
        let scaled: u128 = (width as u128) * (aspect_ratio.1 as u128);
        let height: u128 = (2 * scaled + aspect_ratio.0 as u128) / (2 * (aspect_ratio.0 as u128));
        if height > usize::MAX as u128 {
            None
        } else {
            Some(Image { height: height as usize, width })
        }
    }

    /// The number of pixels of the image, where `usize` can hold it.
    pub fn pixel_count(&self) -> (count: Option<usize>)
        ensures
            count is Some <==> self.height * self.width <= usize::MAX,
            count is Some ==> count.unwrap() == self.height * self.width,
    {
        self.height.checked_mul(self.width)
    }
}

impl Default for Image {
    /// The empty image.
    fn default() -> (image: Image)
        ensures
            image.height == 0,
            image.width == 0,
    {
        Image { height: 0, width: 0 }
    }
}

} // verus!
