use vstd::prelude::*;

use crate::arith::{lemma_div_below, lemma_flat_index_bound, lemma_mul_le_mono};

verus! {

/// An 8-bit, 3-channel image: an ndarray array of shape `(height, width, 3)`.
#[verifier::external_body]
pub struct Image {
    pixels: ndarray::Array3<u8>,
}

/// What an image holds, in the array's logical order: row by row, the three
/// channels of a pixel together.
pub uninterp spec fn image_data(img: Image) -> Seq<u8>;

/// Height and width of an image.
pub uninterp spec fn image_shape(img: Image) -> (usize, usize);

/// Size limit of an ndarray array: the product of its non-zero axis lengths
/// stays within `isize`.
pub open spec fn array_fits(height: int, width: int) -> bool {
    &&& height * 3 <= isize::MAX
    &&& width * 3 <= isize::MAX
    &&& height * width * 3 <= isize::MAX
}

/// Whether an array of `height` by `width` pixels fits.
pub fn fits(height: usize, width: usize) -> (r: bool)
    ensures
        r == array_fits(height as int, width as int),
{
    let limit: usize = isize::MAX as usize / 3;
    if height > limit || width > limit {
        return false;
    }
    match height.checked_mul(width) {
        Some(hw) => hw <= limit,
        None => {
            proof {
                assert(height * width * 3 >= height * width) by (nonlinear_arith)
                    requires
                        height * width >= 0,
                ;
            }
            false
        },
    }
}

impl Image {
    pub open spec fn height(&self) -> int {
        image_shape(*self).0 as int
    }

    pub open spec fn width(&self) -> int {
        image_shape(*self).1 as int
    }

    pub open spec fn wf(&self) -> bool {
        &&& image_data(*self).len() == self.height() * self.width() * 3
        &&& array_fits(self.height(), self.width())
    }

    /// Channel `ch` of the pixel in row `y`, column `x`.
    pub open spec fn at(&self, y: int, x: int, ch: int) -> int {
        image_data(*self)[(y * self.width() + x) * 3 + ch] as int
    }

    /// Relies on ndarray's `Array3::zeros`: an array of the given shape, all
    /// zero. It panics where the size overflows `isize`.
    #[verifier::external_body]
    pub(crate) fn zeros(height: usize, width: usize) -> (r: Image)
        requires
            array_fits(height as int, width as int),
        ensures
            image_shape(r) == (height, width),
            image_data(r) == Seq::new((height * width * 3) as nat, |i: int| 0u8),
    {
        Image { pixels: ndarray::Array3::<u8>::zeros((height, width, 3)) }
    }

    /// Relies on ndarray's `ArrayBase::dim`: the lengths of the axes.
    #[verifier::external_body]
    pub(crate) fn dim(&self) -> (r: (usize, usize))
        ensures
            r == image_shape(*self),
    {
        let (h, w, _) = self.pixels.dim();
        (h, w)
    }

    /// Relies on ndarray's indexing by `[y, x, ch]`: the element there.
    #[verifier::external_body]
    pub(crate) fn get(&self, y: usize, x: usize, ch: usize) -> (r: u8)
        requires
            self.wf(),
            y < self.height(),
            x < self.width(),
            ch < 3,
        ensures
            r == self.at(y as int, x as int, ch as int),
    {
        self.pixels[[y, x, ch]]
    }

    /// Relies on ndarray's mutable indexing by `[y, x, ch]`: that element
    /// alone changes.
    #[verifier::external_body]
    pub(crate) fn set(&mut self, y: usize, x: usize, ch: usize, v: u8)
        requires
            old(self).wf(),
            y < old(self).height(),
            x < old(self).width(),
            ch < 3,
        ensures
            image_shape(*final(self)) == image_shape(*old(self)),
            image_data(*final(self)) == image_data(*old(self)).update(
                (y * old(self).width() + x) * 3 + ch,
                v,
            ),
    {
        self.pixels[[y, x, ch]] = v;
    }

    /// An image of `height` by `width` pixels holding `data`, if `data` has
    /// exactly `height * width * 3` bytes and the array fits.
    pub fn new(height: usize, width: usize, data: Vec<u8>) -> (r: Option<Image>)
        ensures
            r.is_some() <==> data@.len() == height * width * 3 && array_fits(
                height as int,
                width as int,
            ),
            r matches Some(img) ==> img.wf() && image_shape(img) == (height, width) && image_data(
                img,
            ) == data@,
    {
        let len: usize = data.len();
        if height > isize::MAX as usize / 3 || width > isize::MAX as usize / 3 {
            return None;
        }
        let hw: usize = match height.checked_mul(width) {
            Some(hw) => hw,
            None => {
                proof {
                    assert(height * width * 3 >= height * width) by (nonlinear_arith)
                        requires
                            height * width >= 0,
                    ;
                }
                return None;
            },
        };
        if hw > isize::MAX as usize / 3 || len != hw * 3 {
            return None;
        }
        let mut img: Image = Image::zeros(height, width);
        let mut p: usize = 0;
        while p < hw
            invariant
                hw == height * width,
                len == data@.len() == hw * 3,
                p <= hw,
                width > 0 || hw == 0,
                image_shape(img) == (height, width),
                array_fits(height as int, width as int),
                image_data(img).len() == hw * 3,
                forall|i: int| 0 <= i < p * 3 ==> image_data(img)[i] == data@[i],
            decreases hw - p,
        {
            proof {
                lemma_div_below(p as int, height as int, width as int);
            }
            let y: usize = p / width;
            let x: usize = p % width;
            proof {
                lemma_flat_index_bound(y as int, x as int, 2, height as int, width as int);
                vstd::arithmetic::div_mod::lemma_fundamental_div_mod(p as int, width as int);
                assert(y * width + x == p) by (nonlinear_arith)
                    requires
                        p == width * y + x,
                ;
            }
            img.set(y, x, 0, data[p * 3]);
            img.set(y, x, 1, data[p * 3 + 1]);
            img.set(y, x, 2, data[p * 3 + 2]);
            p = p + 1;
        }
        assert(image_data(img) =~= data@);
        Some(img)
    }

    /// Height and width.
    pub fn shape(&self) -> (r: (usize, usize))
        ensures
            r == image_shape(*self),
    {
        self.dim()
    }

    /// The bytes of the image, row by row, the three channels of a pixel
    /// together.
    pub fn to_vec(&self) -> (r: Vec<u8>)
        requires
            self.wf(),
        ensures
            r@ == image_data(*self),
    {
        let (height, width) = self.dim();
        proof {
            lemma_mul_le_mono(height as int * width as int, height as int * width as int, 0, 3);
        }
        let n: usize = height * width;
        proof {
            if width == 0 {
                assert(height * width == 0) by (nonlinear_arith)
                    requires
                        width == 0,
                ;
            }
        }
        let mut v: Vec<u8> = Vec::new();
        let mut p: usize = 0;
        while p < n
            invariant
                self.wf(),
                (height, width) == image_shape(*self),
                n == height * width,
                width > 0 || n == 0,
                p <= n,
                v@.len() == p * 3,
                forall|i: int| 0 <= i < p * 3 ==> v@[i] == image_data(*self)[i],
            decreases n - p,
        {
            proof {
                lemma_div_below(p as int, height as int, width as int);
                lemma_flat_index_bound(
                    (p / width) as int,
                    (p % width) as int,
                    2,
                    height as int,
                    width as int,
                );
                vstd::arithmetic::div_mod::lemma_fundamental_div_mod(p as int, width as int);
            }
            let y: usize = p / width;
            let x: usize = p % width;
            v.push(self.get(y, x, 0));
            v.push(self.get(y, x, 1));
            v.push(self.get(y, x, 2));
            p = p + 1;
        }
        assert(v@ =~= image_data(*self));
        v
    }
}

} // verus!
