use vstd::prelude::*;

verus! {

/// One RGBA pixel: red, green, blue, alpha.
pub type Rgba = [u8; 4];

/// An 8-bit RGBA raster held as rows of pixels, top row first.
///
/// Every row has `width` pixels, so the image is `width` by `rows.len()`.
#[derive(Debug, PartialEq, Eq)]
pub struct RgbaImage {
    width: u32,
    rows: Vec<Vec<Rgba>>,
}

impl RgbaImage {
    #[verifier::type_invariant]
    spec fn well_formed(self) -> bool {
        &&& self.rows@.len() <= u32::MAX
        &&& forall|y: int| 0 <= y < self.rows@.len() ==> #[trigger] self.rows@[y]@.len() == self.width
    }

    /// Number of pixel columns.
    pub closed spec fn spec_width(&self) -> nat {
        self.width as nat
    }

    /// Number of pixel rows.
    pub closed spec fn spec_height(&self) -> nat {
        self.rows@.len()
    }

    /// The pixel in column `x` of row `y`.
    pub closed spec fn pixel(&self, x: int, y: int) -> Rgba {
        self.rows@[y]@[x]
    }

    /// A `width` by `height` image whose pixels are all `[0, 0, 0, 0]`.
    pub fn new(width: u32, height: u32) -> (img: Self)
        ensures
            img.spec_width() == width,
            img.spec_height() == height,
            forall|x: int, y: int|
                0 <= x < width && 0 <= y < height ==> #[trigger] img.pixel(x, y) == [0u8, 0u8, 0u8, 0u8],
    {
        let mut rows: Vec<Vec<Rgba>> = Vec::new();
        for y in 0..height
            invariant
                rows@.len() == y,
                forall|j: int| 0 <= j < y ==> #[trigger] rows@[j]@.len() == width,
                forall|i: int, j: int|
                    0 <= j < y && 0 <= i < width ==> #[trigger] rows@[j]@[i] == [0u8, 0u8, 0u8, 0u8],
        {
            let mut row: Vec<Rgba> = Vec::new();
            for x in 0..width
                invariant
                    row@.len() == x,
                    forall|i: int| 0 <= i < x ==> #[trigger] row@[i] == [0u8, 0u8, 0u8, 0u8],
            {
                row.push([0u8, 0u8, 0u8, 0u8]);
            }
            rows.push(row);
        }
        RgbaImage { width, rows }
    }

    /// Builds an image from its rows, or `None` when a row's length is not
    /// `width` or there are more than `u32::MAX` rows.
    pub fn from_rows(width: u32, rows: Vec<Vec<Rgba>>) -> (img: Option<Self>)
        ensures
            match img {
                Some(img) => {
                    &&& img.spec_width() == width
                    &&& img.spec_height() == rows@.len()
                    &&& forall|x: int, y: int|
                        0 <= x < width && 0 <= y < rows@.len() ==> #[trigger] img.pixel(x, y) == rows@[y]@[x]
                },
                None => rows@.len() > u32::MAX || exists|y: int|
                    0 <= y < rows@.len() && #[trigger] rows@[y]@.len() != width,
            },
    {
        if rows.len() > 0xffff_ffffusize {
            return None;
        }
        let n = rows.len();
        for y in 0..n
            invariant
                n == rows@.len(),
                forall|j: int| 0 <= j < y ==> #[trigger] rows@[j]@.len() == width,
        {
            if rows[y].len() != width as usize {
                return None;
            }
        }
        Some(RgbaImage { width, rows })
    }

    /// The rows of the image, top row first.
    pub fn rows(&self) -> (r: &Vec<Vec<Rgba>>)
        ensures
            r@.len() == self.spec_height(),
            forall|y: int| 0 <= y < r@.len() ==> #[trigger] r@[y]@.len() == self.spec_width(),
            forall|x: int, y: int|
                0 <= x < self.spec_width() && 0 <= y < self.spec_height() ==> #[trigger] r@[y]@[x]
                    == self.pixel(x, y),
    {
        proof {
            use_type_invariant(self);
        }
        &self.rows
    }

    pub fn width(&self) -> (w: u32)
        ensures
            w == self.spec_width(),
    {
        self.width
    }

    pub fn height(&self) -> (h: u32)
        ensures
            h == self.spec_height(),
    {
        proof {
            use_type_invariant(self);
        }
        self.rows.len() as u32
    }

    /// `(width, height)`.
    pub fn dimensions(&self) -> (d: (u32, u32))
        ensures
            d.0 == self.spec_width(),
            d.1 == self.spec_height(),
    {
        (self.width(), self.height())
    }

    /// The pixel at column `x`, row `y`.
    pub fn get_pixel(&self, x: u32, y: u32) -> (p: Rgba)
        requires
            x < self.spec_width(),
            y < self.spec_height(),
        ensures
            p == self.pixel(x as int, y as int),
    {
        proof {
            use_type_invariant(self);
        }
        self.rows[y as usize][x as usize]
    }

    /// Replaces the pixel at column `x`, row `y`.
    pub fn put_pixel(&mut self, x: u32, y: u32, p: Rgba)
        requires
            x < old(self).spec_width(),
            y < old(self).spec_height(),
        ensures
            final(self).spec_width() == old(self).spec_width(),
            final(self).spec_height() == old(self).spec_height(),
            forall|i: int, j: int|
                0 <= i < old(self).spec_width() && 0 <= j < old(self).spec_height() ==> #[trigger] final(self).pixel(i, j)
                    == if i == x && j == y { p } else { old(self).pixel(i, j) },
    {
        proof {
            use_type_invariant(&*self);
        }
        let mut rows: Vec<Vec<Rgba>> = Vec::new();
        std::mem::swap(&mut rows, &mut self.rows);
        let mut row = rows.remove(y as usize);
        row.set(x as usize, p);
        rows.insert(y as usize, row);
        assert(forall|j: int| 0 <= j < rows@.len() ==> #[trigger] rows@[j]@.len() == self.width);
        std::mem::swap(&mut rows, &mut self.rows);
    }

    /// The `w` by `h` block whose top-left pixel is at column `x0`, row `y0`.
    pub fn crop(&self, x0: u32, y0: u32, w: u32, h: u32) -> (out: Self)
        requires
            x0 + w <= self.spec_width(),
            y0 + h <= self.spec_height(),
        ensures
            out.spec_width() == w,
            out.spec_height() == h,
            forall|x: int, y: int|
                0 <= x < w && 0 <= y < h ==> #[trigger] out.pixel(x, y) == self.pixel(x0 + x, y0 + y),
    {
        proof {
            use_type_invariant(self);
        }
        let mut rows: Vec<Vec<Rgba>> = Vec::new();
        for j in 0..h
            invariant
                x0 + w <= self.spec_width(),
                y0 + h <= self.spec_height(),
                self.rows@.len() == self.spec_height(),
                self.rows@.len() <= u32::MAX,
                forall|k: int| 0 <= k < self.rows@.len() ==> #[trigger] self.rows@[k]@.len() == self.spec_width(),
                rows@.len() == j,
                forall|k: int| 0 <= k < j ==> #[trigger] rows@[k]@.len() == w,
                forall|i: int, k: int|
                    0 <= i < w && 0 <= k < j ==> #[trigger] rows@[k]@[i] == self.pixel(x0 + i, y0 + k),
        {
            let src = &self.rows[(y0 + j) as usize];
            let mut row: Vec<Rgba> = Vec::new();
            for i in 0..w
                invariant
                    x0 + w <= self.spec_width(),
                    src@.len() == self.spec_width(),
                    src@ == self.rows@[y0 + j]@,
                    row@.len() == i,
                    forall|t: int| 0 <= t < i ==> #[trigger] row@[t] == src@[x0 + t],
            {
                row.push(src[(x0 + i) as usize]);
            }
            rows.push(row);
        }
        RgbaImage { width: w, rows }
    }
}

impl Clone for RgbaImage {
    /// A copy with the same dimensions and pixels.
    fn clone(&self) -> (res: Self)
        ensures
            res.spec_width() == self.spec_width(),
            res.spec_height() == self.spec_height(),
            forall|x: int, y: int|
                0 <= x < self.spec_width() && 0 <= y < self.spec_height() ==> #[trigger] res.pixel(x, y)
                    == self.pixel(x, y),
    {
        let (w, h) = self.dimensions();
        self.crop(0, 0, w, h)
    }
}

} // verus!
