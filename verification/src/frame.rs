//! The pixel buffer that the rasterizer draws into.
//!
//! The buffer itself is a `tgaimage::TGAImage`, kept behind a small trusted
//! boundary: `pixels_of` names the RGBA grid that such an image holds, and
//! each trusted wrapper states what one method of the crate does to that
//! grid. Everything above the wrappers is verified against those contracts.

use vstd::prelude::*;
use tgaimage::{TGAColor, TGAImage};

verus! {

/// The image type of the `tgaimage` crate. It is declared here so that a
/// value of it can be held in a field and passed through; what it holds is
/// described by the names below.
#[verifier::external_type_specification]
#[verifier::external_body]
pub struct ExTGAImage(TGAImage);

/// The pixel grid that a `tgaimage::TGAImage` holds: a map from coordinates
/// `(x, y)` to the four channels `(r, g, b, a)` of the pixel there.
pub uninterp spec fn pixels_of(img: &TGAImage) -> Map<(int, int), (u8, u8, u8, u8)>;

/// The width that a `tgaimage::TGAImage` was made with.
pub uninterp spec fn width_of(img: &TGAImage) -> usize;

/// The height that a `tgaimage::TGAImage` was made with.
pub uninterp spec fn height_of(img: &TGAImage) -> usize;

/// Whether a `tgaimage::TGAImage` stores four bytes (RGBA) per pixel and its
/// data holds exactly one such entry for every coordinate of its grid.
pub uninterp spec fn rgba_format(img: &TGAImage) -> bool;

/// A 4-channel colour, 8 bits per channel.
#[derive(Debug, Clone, Copy, PartialEq, Eq, Structural)]
pub struct Color {
    pub r: u8,
    pub g: u8,
    pub b: u8,
    pub a: u8,
}

impl View for Color {
    type V = (u8, u8, u8, u8);

    open spec fn view(&self) -> (u8, u8, u8, u8) {
        (self.r, self.g, self.b, self.a)
    }
}

impl Color {
    pub fn rgba(r: u8, g: u8, b: u8, a: u8) -> (c: Color)
        ensures
            c@ == (r, g, b, a),
    {
        Color { r, g, b, a }
    }
}

/// The set of coordinates of a `w` by `h` grid.
pub open spec fn grid(w: int, h: int) -> Set<(int, int)> {
    Set::new(|p: (int, int)| 0 <= p.0 < w && 0 <= p.1 < h)
}

/// A `w` by `h` grid with every pixel fully transparent black.
pub open spec fn blank_grid(w: int, h: int) -> Map<(int, int), (u8, u8, u8, u8)> {
    Map::new(|p: (int, int)| grid(w, h).contains(p), |p: (int, int)| (0u8, 0u8, 0u8, 0u8))
}

/// The grid `m` mirrored about its horizontal midline: row `y` of the result
/// is row `h - 1 - y` of `m`.
pub open spec fn flip_map(m: Map<(int, int), (u8, u8, u8, u8)>, h: int) -> Map<
    (int, int),
    (u8, u8, u8, u8),
> {
    Map::new(
        |p: (int, int)| m.dom().contains((p.0, h - 1 - p.1)),
        |p: (int, int)| m[(p.0, h - 1 - p.1)],
    )
}

/// Mirroring a grid about its horizontal midline twice restores it, whatever
/// it holds.
pub proof fn lemma_flip_involution(m: Map<(int, int), (u8, u8, u8, u8)>, h: int)
    ensures
        flip_map(flip_map(m, h), h) == m,
{
    assert(flip_map(flip_map(m, h), h) =~= m);
}

/// Relies on `tgaimage::TGAImage::new`: it records the dimensions and
/// allocates `w * h * bpp` zeroed bytes, so with 4 bytes per pixel every
/// pixel of the grid starts as `(0, 0, 0, 0)`.
#[verifier::external_body]
fn image_new(w: usize, h: usize) -> (img: TGAImage)
    requires
        w * h * 4 <= usize::MAX,
    ensures
        width_of(&img) == w,
        height_of(&img) == h,
        rgba_format(&img),
        pixels_of(&img) == blank_grid(w as int, h as int),
{
    TGAImage::new(w, h, 4)
}

/// Relies on `tgaimage::TGAImage::set`: on an RGBA image it overwrites the
/// four channels of the pixel at `(x, y)` when those coordinates are in
/// range, and returns `false` leaving the image unchanged when they are not.
#[verifier::external_body]
fn image_set(img: &mut TGAImage, x: usize, y: usize, c: Color)
    requires
        rgba_format(old(img)),
    ensures
        width_of(final(img)) == width_of(old(img)),
        height_of(final(img)) == height_of(old(img)),
        rgba_format(final(img)),
        x < width_of(old(img)) && y < height_of(old(img)) ==> pixels_of(final(img)) == pixels_of(
            old(img),
        ).insert((x as int, y as int), c@),
        !(x < width_of(old(img)) && y < height_of(old(img))) ==> pixels_of(final(img))
            == pixels_of(old(img)),
{
    let _ = img.set(x, y, &TGAColor::rgba(c.r, c.g, c.b, c.a));
}

/// Relies on `tgaimage::TGAImage::get`: on an RGBA image it reads the four
/// channels of the pixel at `(x, y)`; the coordinates must be in range, as
/// the read is unchecked.
#[verifier::external_body]
fn image_get(img: &TGAImage, x: usize, y: usize) -> (c: Color)
    requires
        rgba_format(img),
        x < width_of(img),
        y < height_of(img),
    ensures
        c@ == pixels_of(img)[(x as int, y as int)],
{
    match img.get(x, y) {
        TGAColor::Rgba(c) => Color { r: c.r, g: c.g, b: c.b, a: c.a },
        TGAColor::Rgb(c) => Color { r: c.r, g: c.g, b: c.b, a: 0 },
    }
}

/// Relies on `tgaimage::TGAImage::flip_vertically`: it swaps row `y` with row
/// `h - 1 - y` for every row of the image.
#[verifier::external_body]
fn image_flip_vertically(img: &mut TGAImage)
    requires
        rgba_format(old(img)),
    ensures
        width_of(final(img)) == width_of(old(img)),
        height_of(final(img)) == height_of(old(img)),
        rgba_format(final(img)),
        pixels_of(final(img)) == flip_map(pixels_of(old(img)), height_of(old(img)) as int),
{
    let _ = img.flip_vertically();
}

/// An in-memory RGBA pixel buffer of fixed dimensions, with the origin of
/// drawing operations at the bottom-left corner.
pub struct Frame {
    img: TGAImage,
    width: usize,
    height: usize,
}

impl Frame {
    /// The pixel grid this frame holds.
    pub closed spec fn pix(self) -> Map<(int, int), (u8, u8, u8, u8)> {
        pixels_of(&self.img)
    }

    /// The width of the frame.
    pub closed spec fn w(self) -> int {
        self.width as int
    }

    /// The height of the frame.
    pub closed spec fn h(self) -> int {
        self.height as int
    }

    /// Well-formedness: the recorded dimensions are those of the underlying
    /// image, the image is RGBA, and its grid covers exactly the dimensions.
    pub closed spec fn wf(self) -> bool {
        &&& rgba_format(&self.img)
        &&& width_of(&self.img) == self.width
        &&& height_of(&self.img) == self.height
        &&& pixels_of(&self.img).dom() == grid(self.w(), self.h())
    }

    /// A well-formed frame has a pixel for exactly the coordinates of its
    /// grid.
    pub proof fn lemma_wf_dom(self)
        requires
            self.wf(),
        ensures
            self.pix().dom() == grid(self.w(), self.h()),
    {
    }

    /// A fresh frame, every pixel fully transparent black.
    pub fn new(width: usize, height: usize) -> (f: Frame)
        requires
            width * height * 4 <= usize::MAX,
        ensures
            f.wf(),
            f.w() == width,
            f.h() == height,
            f.pix() == blank_grid(width as int, height as int),
    {
        let img = image_new(width, height);
        proof {
            assert(blank_grid(width as int, height as int).dom() =~= grid(
                width as int,
                height as int,
            ));
        }
        Frame { img, width, height }
    }

    pub fn width(&self) -> (w: usize)
        ensures
            w == self.w(),
    {
        self.width
    }

    pub fn height(&self) -> (h: usize)
        ensures
            h == self.h(),
    {
        self.height
    }

    /// Overwrite the pixel at `(x, y)` with `c`; coordinates outside the
    /// grid are ignored.
    pub fn set(&mut self, x: usize, y: usize, c: Color)
        requires
            old(self).wf(),
        ensures
            final(self).wf(),
            final(self).w() == old(self).w(),
            final(self).h() == old(self).h(),
            x < old(self).w() && y < old(self).h() ==> final(self).pix() == old(self).pix().insert(
                (x as int, y as int),
                c@,
            ),
            !(x < old(self).w() && y < old(self).h()) ==> final(self).pix() == old(self).pix(),
    {
        let ghost pre = *self;
        image_set(&mut self.img, x, y, c);
        proof {
            if x < pre.width && y < pre.height {
                assert(pre.pix().dom().contains((x as int, y as int)));
                assert(self.pix().dom() =~= grid(self.w(), self.h()));
            }
        }
    }

    /// Read the pixel at `(x, y)`.
    pub fn get(&self, x: usize, y: usize) -> (c: Color)
        requires
            self.wf(),
            x < self.w(),
            y < self.h(),
        ensures
            c@ == self.pix()[(x as int, y as int)],
    {
        image_get(&self.img, x, y)
    }

    /// Mirror the frame about its horizontal midline, so that the
    /// bottom-left drawing origin becomes the top-left file origin.
    pub fn flip_vertically(&mut self)
        requires
            old(self).wf(),
        ensures
            final(self).wf(),
            final(self).w() == old(self).w(),
            final(self).h() == old(self).h(),
            final(self).pix() == flip_map(old(self).pix(), old(self).h()),
    {
        image_flip_vertically(&mut self.img);
        proof {
            assert(self.pix().dom() =~= grid(self.w(), self.h()));
        }
    }

    /// Hand the underlying image out, for the caller to persist.
    pub fn into_inner(self) -> (img: TGAImage)
        ensures
            pixels_of(&img) == self.pix(),
    {
        self.img
    }
}

} // verus!
