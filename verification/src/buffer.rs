//! The renderer's storage: construction, resizing, clearing and reading.

use vstd::prelude::*;
use crate::frame::Frame;
use crate::frame::Rgba;
use crate::frame::lemma_with_pixel;

verus! {

/// A renderer: a logical pixel grid and the RGBA bytes behind it.
///
/// The storage is owned by the renderer alone. It always holds at least the
/// four bytes per pixel that the grid needs, it grows when a larger grid asks
/// for more, and it is never given back.
pub struct Mandelbrot {
    render_width: usize,
    render_height: usize,
    colors: Vec<u8>,
}

impl View for Mandelbrot {
    type V = Frame;

    closed spec fn view(&self) -> Frame {
        Frame {
            width: self.render_width as nat,
            height: self.render_height as nat,
            bytes: self.colors@,
        }
    }
}

/// The product of two sizes is at most four times smaller than what bounds
/// four times their product.
proof fn lemma_pixels_fit(width: usize, height: usize, bound: int)
    requires
        4 * (width * height) <= bound,
    ensures
        0 <= width * height <= bound,
        width * height <= 4 * (width * height),
{
    assert(0 <= width * height) by (nonlinear_arith);
}

impl Mandelbrot {
    /// The invariant of a renderer: its storage holds its whole grid.
    pub open spec fn wf(&self) -> bool {
        self@.wf()
    }

    /// The storage of a renderer is a vector, so its length is a `usize`, and
    /// so is every offset into the grid.
    pub proof fn lemma_fits(&self)
        requires
            self.wf(),
        ensures
            self@.bytes.len() <= usize::MAX,
            self@.region_len() <= usize::MAX,
            self@.pixels() <= usize::MAX,
    {
        assert(self.colors@.len() == self.colors.len());
        lemma_pixels_fit(self.render_width, self.render_height, self.colors@.len() as int);
    }

    /// A renderer for a grid of `render_width` by `render_height` pixels, all
    /// bytes zero.
    pub fn new(render_width: usize, render_height: usize) -> (m: Mandelbrot)
        requires
            4 * (render_width * render_height) <= usize::MAX,
        ensures
            m.wf(),
            m@ == Frame::blank(render_width as nat, render_height as nat),
    {
        proof {
            lemma_pixels_fit(render_width, render_height, usize::MAX as int);
        }
        let pixels: usize = render_width * render_height;
        let colors: Vec<u8> = vec![0u8; 4 * pixels];
        let m = Mandelbrot { render_width, render_height, colors };
        assert(m@.bytes =~= Frame::blank(render_width as nat, render_height as nat).bytes);
        m
    }

    /// Pixels per row.
    pub fn render_width(&self) -> (w: usize)
        ensures
            w == self@.width,
    {
        self.render_width
    }

    /// Number of rows.
    pub fn render_height(&self) -> (h: usize)
        ensures
            h == self@.height,
    {
        self.render_height
    }

    /// Sets the logical size of the grid. The storage grows, zero-filled, if
    /// the new grid needs more bytes than it holds, and is otherwise left as
    /// it is: no byte that was there changes, and none is given back.
    pub fn set_render_size(&mut self, render_width: usize, render_height: usize)
        requires
            4 * (render_width * render_height) <= usize::MAX,
        ensures
            final(self).wf(),
            final(self)@ == old(self)@.resized(render_width as nat, render_height as nat),
    {
        proof {
            lemma_pixels_fit(render_width, render_height, usize::MAX as int);
        }
        self.render_width = render_width;
        self.render_height = render_height;

        let pixels: usize = render_width * render_height;

        if self.colors.len() < 4 * pixels {
            self.colors.resize(4 * pixels, 0);
        }
        assert(self@.bytes =~= old(self)@.resized(
            render_width as nat,
            render_height as nat,
        ).bytes);
    }

    /// Writes one opaque pixel at the flat index `idx`.
    pub(crate) fn put_opaque(&mut self, idx: usize, rgb: (u8, u8, u8))
        requires
            old(self).wf(),
            idx < old(self)@.pixels(),
        ensures
            final(self).wf(),
            final(self)@ == old(self)@.with_pixel(idx as int, Rgba::opaque(rgb)),
    {
        proof {
            self.lemma_fits();
            lemma_with_pixel(self@, idx as int, Rgba::opaque(rgb));
        }
        self.colors[4 * idx] = rgb.0;
        self.colors[4 * idx + 1] = rgb.1;
        self.colors[4 * idx + 2] = rgb.2;
        self.colors[4 * idx + 3] = 255;
    }

    /// The number of pixels in the grid.
    pub(crate) fn pixels(&self) -> (n: usize)
        requires
            self.wf(),
        ensures
            n == self@.pixels(),
    {
        proof {
            self.lemma_fits();
        }
        self.render_width * self.render_height
    }

    /// Sets every pixel of the grid to opaque black.
    pub fn clear(&mut self)
        requires
            old(self).wf(),
        ensures
            final(self).wf(),
            final(self)@ == old(self)@.cleared(),
    {
        let pixels: usize = self.pixels();
        let mut i: usize = 0;
        while i < pixels
            invariant
                self.wf(),
                i <= pixels == self@.pixels(),
                self@.width == old(self)@.width,
                self@.height == old(self)@.height,
                self@.bytes.len() == old(self)@.bytes.len(),
                forall|j: int|
                    0 <= j < 4 * i ==> #[trigger] self@.bytes[j] == Rgba::black().channel(j % 4),
                forall|j: int|
                    4 * i <= j < self@.bytes.len() ==> #[trigger] self@.bytes[j] == old(
                        self,
                    )@.bytes[j],
            decreases pixels - i,
        {
            self.put_opaque(i, (0, 0, 0));
            i += 1;
        }
        assert(self@.bytes =~= old(self)@.cleared().bytes);
    }

    /// The image: the first four bytes per pixel of the storage, row by row
    /// from the top-left corner.
    pub fn colors(&self) -> (region: &[u8])
        requires
            self.wf(),
        ensures
            region@ == self@.region(),
    {
        proof {
            self.lemma_fits();
        }
        let pixels: usize = self.pixels();
        vstd::slice::slice_subrange(self.colors.as_slice(), 0, 4 * pixels)
    }
}

} // verus!
