//! The mathematical model of a renderer: its logical size and its bytes.
//!
//! Every contract of the executable code is stated over [`Frame`], the view of
//! a [`crate::buffer::Mandelbrot`]. A frame is a pixel grid of `width` by
//! `height`, stored row by row from the top-left corner, four bytes per pixel
//! (red, green, blue, alpha). The backing bytes may be longer than the grid
//! needs: the storage grows and never shrinks.

use vstd::prelude::*;

verus! {

/// The four bytes of one pixel, in the order in which they are stored.
pub struct Rgba {
    pub red: u8,
    pub green: u8,
    pub blue: u8,
    pub alpha: u8,
}

impl Rgba {
    /// A fully opaque pixel of the given colour.
    pub open spec fn opaque(rgb: (u8, u8, u8)) -> Rgba {
        Rgba { red: rgb.0, green: rgb.1, blue: rgb.2, alpha: 255 }
    }

    /// Opaque black, the colour of a cleared pixel.
    pub open spec fn black() -> Rgba {
        Rgba { red: 0, green: 0, blue: 0, alpha: 255 }
    }

    /// The colour of this pixel, without its opacity.
    pub open spec fn rgb(self) -> (u8, u8, u8) {
        (self.red, self.green, self.blue)
    }

    /// The byte that this pixel stores at offset `channel` (0 to 3).
    pub open spec fn channel(self, channel: int) -> u8 {
        if channel == 0 {
            self.red
        } else if channel == 1 {
            self.green
        } else if channel == 2 {
            self.blue
        } else {
            self.alpha
        }
    }
}

/// The state of a renderer: the logical pixel grid and the backing bytes.
pub struct Frame {
    /// Pixels per row.
    pub width: nat,
    /// Number of rows.
    pub height: nat,
    /// The backing storage, of which the first `region_len()` bytes are the image.
    pub bytes: Seq<u8>,
}

impl Frame {
    /// The number of pixels in the grid.
    pub open spec fn pixels(self) -> nat {
        self.width * self.height
    }

    /// The number of bytes that the grid occupies at the start of the storage.
    pub open spec fn region_len(self) -> nat {
        4 * self.pixels()
    }

    /// The storage holds the whole grid.
    pub open spec fn wf(self) -> bool {
        self.region_len() <= self.bytes.len()
    }

    /// The image: the bytes that a host presents.
    pub open spec fn region(self) -> Seq<u8> {
        self.bytes.subrange(0, self.region_len() as int)
    }

    /// The row of the pixel at the flat index `idx`, counted from the top.
    pub open spec fn row_of(self, idx: int) -> int {
        idx / (self.width as int)
    }

    /// The column of the pixel at the flat index `idx`, counted from the left.
    pub open spec fn col_of(self, idx: int) -> int {
        idx % (self.width as int)
    }

    /// The pixel at the flat index `idx`.
    pub open spec fn pixel(self, idx: int) -> Rgba {
        Rgba {
            red: self.bytes[4 * idx],
            green: self.bytes[4 * idx + 1],
            blue: self.bytes[4 * idx + 2],
            alpha: self.bytes[4 * idx + 3],
        }
    }

    /// This frame with the pixel at `idx` replaced and every other byte kept.
    pub open spec fn with_pixel(self, idx: int, px: Rgba) -> Frame {
        Frame {
            bytes: self.bytes.update(4 * idx, px.red).update(4 * idx + 1, px.green).update(
                4 * idx + 2,
                px.blue,
            ).update(4 * idx + 3, px.alpha),
            ..self
        }
    }

    /// A fresh frame: exactly as many bytes as the grid needs, all zero.
    pub open spec fn blank(width: nat, height: nat) -> Frame {
        Frame { width, height, bytes: Seq::new(4 * (width * height), |i: int| 0u8) }
    }

    /// This frame after its logical size is set to `width` by `height`: the
    /// bytes that were there stay where they are, and the storage is extended
    /// with zero bytes if the new grid needs more than it holds.
    pub open spec fn resized(self, width: nat, height: nat) -> Frame {
        let needed = 4 * (width * height);
        Frame {
            width,
            height,
            bytes: if self.bytes.len() < needed {
                self.bytes + Seq::new((needed - self.bytes.len()) as nat, |i: int| 0u8)
            } else {
                self.bytes
            },
        }
    }

    /// This frame with every pixel of the grid set to opaque black. Bytes
    /// past the grid are kept.
    pub open spec fn cleared(self) -> Frame {
        Frame {
            bytes: Seq::new(
                self.bytes.len(),
                |i: int|
                    if i < self.region_len() {
                        Rgba::black().channel(i % 4)
                    } else {
                        self.bytes[i]
                    },
            ),
            ..self
        }
    }
}

/// Setting the pixel at `idx` changes that pixel and no other, and keeps the
/// size of the grid and of the storage.
pub proof fn lemma_with_pixel(f: Frame, idx: int, px: Rgba)
    requires
        0 <= idx < f.pixels(),
        f.wf(),
    ensures
        f.with_pixel(idx, px).wf(),
        f.with_pixel(idx, px).width == f.width,
        f.with_pixel(idx, px).height == f.height,
        f.with_pixel(idx, px).bytes.len() == f.bytes.len(),
        f.with_pixel(idx, px).pixel(idx) == px,
        forall|other: int|
            0 <= other < f.pixels() && other != idx ==> #[trigger] f.with_pixel(idx, px).pixel(
                other,
            ) == f.pixel(other),
        forall|i: int|
            f.region_len() <= i < f.bytes.len() ==> f.with_pixel(idx, px).bytes[i] == f.bytes[i],
{
    let g = f.with_pixel(idx, px);
    assert forall|other: int| 0 <= other < f.pixels() && other != idx implies #[trigger] g.pixel(
        other,
    ) == f.pixel(other) by {
        assert(g.bytes[4 * other] == f.bytes[4 * other]);
        assert(g.bytes[4 * other + 1] == f.bytes[4 * other + 1]);
        assert(g.bytes[4 * other + 2] == f.bytes[4 * other + 2]);
        assert(g.bytes[4 * other + 3] == f.bytes[4 * other + 3]);
    }
}

/// A fresh frame holds its grid exactly, and every byte of it is zero.
pub proof fn lemma_blank(width: nat, height: nat)
    ensures
        Frame::blank(width, height).wf(),
        Frame::blank(width, height).bytes.len() == Frame::blank(width, height).region_len(),
        forall|i: int|
            0 <= i < Frame::blank(width, height).bytes.len() ==> #[trigger] Frame::blank(
                width,
                height,
            ).bytes[i] == 0,
{
}

/// After a clear every pixel of the grid is opaque black, and the size of
/// the grid, the size of the storage and the bytes past the grid are what
/// they were.
pub proof fn lemma_cleared(f: Frame)
    requires
        f.wf(),
    ensures
        f.cleared().wf(),
        f.cleared().width == f.width,
        f.cleared().height == f.height,
        f.cleared().bytes.len() == f.bytes.len(),
        forall|idx: int| 0 <= idx < f.pixels() ==> #[trigger] f.cleared().pixel(idx) == Rgba::black(),
        forall|i: int| f.region_len() <= i < f.bytes.len() ==> f.cleared().bytes[i] == f.bytes[i],
{
}

/// Clearing a cleared frame changes nothing.
pub proof fn lemma_clear_idempotent(f: Frame)
    ensures
        f.cleared().cleared() == f.cleared(),
{
    assert(f.cleared().cleared().bytes =~= f.cleared().bytes);
}

/// A resize gives the grid its new size and a storage that holds it. The
/// storage never shrinks, and no byte that was there changes: it is what it
/// was, followed by zero bytes up to what the new grid needs.
pub proof fn lemma_resized(f: Frame, width: nat, height: nat)
    ensures
        f.resized(width, height).wf(),
        f.resized(width, height).width == width,
        f.resized(width, height).height == height,
        f.resized(width, height).bytes.len() >= f.bytes.len(),
        f.resized(width, height).bytes.len() == if f.bytes.len() < 4 * (width * height) {
            4 * (width * height)
        } else {
            f.bytes.len()
        },
        f.resized(width, height).bytes.subrange(0, f.bytes.len() as int) == f.bytes,
        forall|i: int|
            f.bytes.len() <= i < f.resized(width, height).bytes.len() ==> f.resized(
                width,
                height,
            ).bytes[i] == 0,
{
    assert(f.resized(width, height).bytes.subrange(0, f.bytes.len() as int) =~= f.bytes);
}

/// A resize to another size and back truncates nothing: the grid has its
/// first size again, the storage still holds it, and the image is byte for
/// byte what it was. So whatever could be rendered before can be rendered
/// after.
pub proof fn lemma_resize_round_trip(f: Frame, width: nat, height: nat)
    requires
        f.wf(),
    ensures
        f.resized(width, height).resized(f.width, f.height).wf(),
        f.resized(width, height).resized(f.width, f.height).width == f.width,
        f.resized(width, height).resized(f.width, f.height).height == f.height,
        f.resized(width, height).resized(f.width, f.height).region() == f.region(),
        f.resized(width, height).resized(f.width, f.height).bytes.subrange(
            0,
            f.bytes.len() as int,
        ) == f.bytes,
{
    let there = f.resized(width, height);
    let back = there.resized(f.width, f.height);
    lemma_resized(f, width, height);
    assert(back.bytes == there.bytes);
    assert(back.region() =~= f.region());
}

} // verus!
