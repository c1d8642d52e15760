//! The frame renderer: the per-pixel pipeline and the interlaced pass.
//!
//! A pixel gets its colour in five stages, each handed in as a function
//! value: the viewport maps the pixel's row and column to a point of the
//! plane; a transform maps that point to the point to classify; a classifier
//! says whether the point is known never to escape; an evaluator counts the
//! iterations until it escapes; a colour map turns the count into a colour.
//! A point that the classifier accepts is not evaluated: its count is zero,
//! the same count that the evaluator gives a point that stays bounded.
//!
//! The stages are ordinary Rust functions, so nothing is known of them but
//! their own contracts. The contracts below say which stage was called on
//! what, and where its result went.

use vstd::prelude::*;
use vstd::arithmetic::div_mod::lemma_mod_bound;
use crate::buffer::Mandelbrot;
use crate::frame::Frame;
use crate::frame::Rgba;
use crate::frame::lemma_with_pixel;
use crate::interlace::lemma_pass_starts_at_step;
use crate::interlace::lemma_selects_by_remainder;
use crate::interlace::lemma_stride;
use crate::interlace::lemma_whole_frame_pass;
use crate::interlace::selects;

verus! {

/// The five stages that give a pixel its colour. They work on points of the
/// plane, of whatever type the viewport returns.
pub struct Pipeline<L, T, B, E, C> {
    /// The viewport: the point of the plane at a row and a column of the grid.
    pub locate: L,
    /// The coordinate transform applied to a point before it is classified.
    pub transform: T,
    /// The classifier: whether a point is known never to escape.
    pub interior: B,
    /// The evaluator: the escape count of a point under an iteration cap,
    /// zero for a point that stays bounded.
    pub escape: E,
    /// The colour map: the colour of an escape count.
    pub colorize: C,
}

impl<P, L, T, B, E, C> Pipeline<L, T, B, E, C> where
    P: Copy,
    L: Fn(usize, usize) -> P,
    T: Fn(P) -> P,
    B: Fn(P) -> bool,
    E: Fn(P, u32) -> u32,
    C: Fn(u32) -> (u8, u8, u8),
 {
    /// `count` is an escape count of the point `q`: zero if the classifier
    /// accepts `q`, else what the evaluator returns for it.
    pub open spec fn counts(&self, iterations: u32, q: P, count: u32) -> bool {
        ||| self.interior.ensures((q,), true) && count == 0
        ||| self.interior.ensures((q,), false) && self.escape.ensures((q, iterations), count)
    }

    /// `rgb` is a colour of `point`: the colour map's result for an escape
    /// count of the transformed point.
    pub open spec fn shades(&self, iterations: u32, point: P, rgb: (u8, u8, u8)) -> bool {
        exists|q: P, count: u32|
            #![trigger self.transform.ensures((point,), q), self.colorize.ensures((count,), rgb)]
            self.transform.ensures((point,), q) && self.counts(iterations, q, count)
                && self.colorize.ensures((count,), rgb)
    }

    /// `rgb` is a colour of the pixel at `row` and `col`: a colour of the
    /// point at which the viewport puts that pixel.
    pub open spec fn renders(
        &self,
        iterations: u32,
        row: usize,
        col: usize,
        rgb: (u8, u8, u8),
    ) -> bool {
        exists|point: P| #[trigger]
            self.locate.ensures((row, col), point) && self.shades(iterations, point, rgb)
    }

    /// The stages after the viewport can run on `point`: each accepts what
    /// the one before it may hand over.
    pub open spec fn accepts(&self, iterations: u32, point: P) -> bool {
        &&& self.transform.requires((point,))
        &&& forall|q: P| #[trigger]
            self.transform.ensures((point,), q) ==> {
                &&& self.interior.requires((q,))
                &&& self.interior.ensures((q,), false) ==> self.escape.requires((q, iterations))
                &&& forall|count: u32| #[trigger]
                    self.counts(iterations, q, count) ==> self.colorize.requires((count,))
            }
    }

    /// The pipeline can run on every pixel of a grid of `width` by `height`.
    pub open spec fn covers(&self, iterations: u32, width: nat, height: nat) -> bool {
        forall|row: usize, col: usize|
            row < height && col < width ==> {
                &&& #[trigger] self.locate.requires((row, col))
                &&& forall|point: P| #[trigger]
                    self.locate.ensures((row, col), point) ==> self.accepts(iterations, point)
            }
    }

    /// The pixel at `idx` of `frame` is opaque and holds a colour that the
    /// pipeline gives to its row and column.
    pub open spec fn rendered_at(&self, iterations: u32, frame: Frame, idx: int) -> bool {
        &&& frame.pixel(idx).alpha == 255
        &&& self.renders(
            iterations,
            frame.row_of(idx) as usize,
            frame.col_of(idx) as usize,
            frame.pixel(idx).rgb(),
        )
    }

    /// `now` is `before` after the pass `step` of `count` has rendered its
    /// pixels below `bound`: those pixels are rendered, and every other byte
    /// is what it was.
    pub open spec fn drawn_upto(
        &self,
        iterations: u32,
        count: nat,
        step: nat,
        bound: int,
        before: Frame,
        now: Frame,
    ) -> bool {
        &&& now.width == before.width
        &&& now.height == before.height
        &&& now.bytes.len() == before.bytes.len()
        &&& forall|idx: int|
            #![trigger now.pixel(idx)]
            0 <= idx < before.pixels() ==> if idx < bound && selects(count, step, idx) {
                self.rendered_at(iterations, now, idx)
            } else {
                now.pixel(idx) == before.pixel(idx)
            }
        &&& forall|i: int|
            before.region_len() <= i < before.bytes.len() ==> #[trigger] now.bytes[i]
                == before.bytes[i]
    }

    /// `after` is `before` after the whole pass `step` of `count`.
    pub open spec fn drawn(
        &self,
        iterations: u32,
        count: nat,
        step: nat,
        before: Frame,
        after: Frame,
    ) -> bool {
        self.drawn_upto(iterations, count, step, before.pixels() as int, before, after)
    }

    /// Every stage is a function in the mathematical sense: called again on
    /// the same arguments, it returns the same result.
    pub open spec fn single_valued(&self) -> bool {
        &&& forall|row: usize, col: usize, a: P, b: P|
            #![trigger self.locate.ensures((row, col), a), self.locate.ensures((row, col), b)]
            self.locate.ensures((row, col), a) && self.locate.ensures((row, col), b) ==> a == b
        &&& forall|point: P, a: P, b: P|
            #![trigger self.transform.ensures((point,), a), self.transform.ensures((point,), b)]
            self.transform.ensures((point,), a) && self.transform.ensures((point,), b) ==> a == b
        &&& forall|q: P, a: bool, b: bool|
            #![trigger self.interior.ensures((q,), a), self.interior.ensures((q,), b)]
            self.interior.ensures((q,), a) && self.interior.ensures((q,), b) ==> a == b
        &&& forall|q: P, iterations: u32, a: u32, b: u32|
            #![trigger self.escape.ensures((q, iterations), a), self.escape.ensures((q, iterations), b)]
            self.escape.ensures((q, iterations), a) && self.escape.ensures((q, iterations), b)
                ==> a == b
        &&& forall|count: u32, a: (u8, u8, u8), b: (u8, u8, u8)|
            #![trigger self.colorize.ensures((count,), a), self.colorize.ensures((count,), b)]
            self.colorize.ensures((count,), a) && self.colorize.ensures((count,), b) ==> a == b
    }

    /// Runs the stages after the viewport on one point: transform, classify,
    /// evaluate unless the classifier accepts the point, colour.
    pub fn shade(&self, iterations: u32, point: P) -> (rgb: (u8, u8, u8))
        requires
            self.accepts(iterations, point),
        ensures
            self.shades(iterations, point, rgb),
    {
        let q = (self.transform)(point);
        let count: u32 = if (self.interior)(q) {
            0
        } else {
            (self.escape)(q, iterations)
        };
        assert(self.counts(iterations, q, count));
        (self.colorize)(count)
    }
}

impl Mandelbrot {
    /// Renders the pass `interlace_step` of `interlace_count`: every pixel
    /// whose flat index is `interlace_step` plus a multiple of
    /// `interlace_count` gets the colour that `pipeline` gives to its row and
    /// column, with full opacity. Every other byte is left as it was. A
    /// count of zero renders nothing, and so does a step past the last pixel.
    pub fn draw<P, L, T, B, E, C>(
        &mut self,
        iterations: u32,
        interlace_count: usize,
        interlace_step: usize,
        pipeline: &Pipeline<L, T, B, E, C>,
    ) where
        P: Copy,
        L: Fn(usize, usize) -> P,
        T: Fn(P) -> P,
        B: Fn(P) -> bool,
        E: Fn(P, u32) -> u32,
        C: Fn(u32) -> (u8, u8, u8),

        requires
            old(self).wf(),
            pipeline.covers(iterations, old(self)@.width, old(self)@.height),
        ensures
            final(self).wf(),
            pipeline.drawn(
                iterations,
                interlace_count as nat,
                interlace_step as nat,
                old(self)@,
                final(self)@,
            ),
    {
        if interlace_count == 0 {
            return ;
        }
        let width: usize = self.render_width();
        let pixels: usize = self.pixels();
        let ghost count = interlace_count as nat;
        let ghost step = interlace_step as nat;
        let mut idx: usize = interlace_step;
        proof {
            lemma_pass_starts_at_step(count, step, idx as int);
        }
        while idx < pixels
            invariant
                self.wf(),
                count == interlace_count > 0,
                step == interlace_step <= idx,
                self@.width == width,
                pixels == self@.pixels(),
                pipeline.covers(iterations, self@.width, self@.height),
                idx < pixels ==> selects(count, step, idx as int),
                pipeline.drawn_upto(iterations, count, step, idx as int, old(self)@, self@),
            decreases pixels - idx,
        {
            let ghost prev = self@;
            assert(width > 0 && idx / width < prev.height) by (nonlinear_arith)
                requires
                    idx < prev.width * prev.height,
                    prev.width == width,
            ;
            let row: usize = idx / width;
            let col: usize = idx % width;
            assert(row < prev.height && col < prev.width);
            assert(pipeline.locate.requires((row, col)));
            let point = (pipeline.locate)(row, col);
            let rgb = pipeline.shade(iterations, point);
            self.put_opaque(idx, rgb);
            let next: usize = if pixels - idx <= interlace_count {
                pixels
            } else {
                idx + interlace_count
            };
            proof {
                lemma_stride(count, step, idx as int);
                lemma_with_pixel(prev, idx as int, Rgba::opaque(rgb));
                assert(pipeline.rendered_at(iterations, self@, idx as int));
                assert forall|i: int|
                    #![trigger self@.pixel(i)]
                    0 <= i < old(self)@.pixels() implies if i < next && selects(count, step, i) {
                    pipeline.rendered_at(iterations, self@, i)
                } else {
                    self@.pixel(i) == old(self)@.pixel(i)
                } by {
                    if i != idx {
                        assert(self@.pixel(i) == prev.pixel(i));
                    }
                }
            }
            idx = next;
        }
    }
}

impl<P, L, T, B, E, C> Pipeline<L, T, B, E, C> where
    P: Copy,
    L: Fn(usize, usize) -> P,
    T: Fn(P) -> P,
    B: Fn(P) -> bool,
    E: Fn(P, u32) -> u32,
    C: Fn(u32) -> (u8, u8, u8),
 {
    /// A pipeline of single-valued stages gives a pixel one colour.
    pub proof fn lemma_one_colour(
        &self,
        iterations: u32,
        row: usize,
        col: usize,
        first: (u8, u8, u8),
        second: (u8, u8, u8),
    )
        requires
            self.single_valued(),
            self.renders(iterations, row, col, first),
            self.renders(iterations, row, col, second),
        ensures
            first == second,
    {
        let p1 = choose|point: P| #[trigger]
            self.locate.ensures((row, col), point) && self.shades(iterations, point, first);
        let p2 = choose|point: P| #[trigger]
            self.locate.ensures((row, col), point) && self.shades(iterations, point, second);
        assert(p1 == p2);
        let (q1, c1) = choose|q: P, count: u32|
            #![trigger self.transform.ensures((p1,), q), self.colorize.ensures((count,), first)]
            self.transform.ensures((p1,), q) && self.counts(iterations, q, count)
                && self.colorize.ensures((count,), first);
        let (q2, c2) = choose|q: P, count: u32|
            #![trigger self.transform.ensures((p1,), q), self.colorize.ensures((count,), second)]
            self.transform.ensures((p1,), q) && self.counts(iterations, q, count)
                && self.colorize.ensures((count,), second);
        assert(q1 == q2);
        assert(c1 == c2);
    }

    /// The passes `0, .., done - 1` of `count`, drawn one after the other,
    /// have rendered every pixel whose index leaves a remainder below `done`.
    proof fn lemma_sweep_upto(&self, iterations: u32, count: nat, frames: Seq<Frame>, done: nat)
        requires
            count >= 1,
            done <= count,
            frames.len() == count + 1,
            forall|step: int|
                0 <= step < count ==> self.drawn(
                    iterations,
                    count,
                    step as nat,
                    #[trigger] frames[step],
                    frames[step + 1],
                ),
        ensures
            frames[done as int].width == frames[0].width,
            frames[done as int].height == frames[0].height,
            frames[done as int].bytes.len() == frames[0].bytes.len(),
            forall|idx: int|
                0 <= idx < frames[0].pixels() && idx % (count as int) < done
                    ==> #[trigger] self.rendered_at(iterations, frames[done as int], idx),
            forall|i: int|
                frames[0].region_len() <= i < frames[0].bytes.len()
                    ==> #[trigger] frames[done as int].bytes[i] == frames[0].bytes[i],
        decreases done,
    {
        if done > 0 {
            let step = (done - 1) as nat;
            let before = frames[step as int];
            let after = frames[done as int];
            self.lemma_sweep_upto(iterations, count, frames, step);
            assert(self.drawn(iterations, count, step, before, after));
            assert forall|idx: int|
                0 <= idx < frames[0].pixels() && idx % (count as int)
                    < done implies #[trigger] self.rendered_at(iterations, after, idx) by {
                lemma_selects_by_remainder(count, step, idx);
                if !selects(count, step, idx) {
                    assert(self.rendered_at(iterations, before, idx));
                    assert(after.pixel(idx) == before.pixel(idx));
                }
            }
        } else {
            assert forall|idx: int|
                0 <= idx < frames[0].pixels() && idx % (count as int)
                    < done implies #[trigger] self.rendered_at(iterations, frames[0], idx) by {
                lemma_mod_bound(idx, count as int);
            }
        }
    }

    /// A full sweep renders the whole frame: after the passes
    /// `0, 1, .., count - 1` of `count`, drawn one after the other with the
    /// same stages, every pixel of the grid is opaque and holds a colour
    /// that the pipeline gives to its row and column.
    pub proof fn lemma_sweep_renders_all(&self, iterations: u32, count: nat, frames: Seq<Frame>)
        requires
            count >= 1,
            frames.len() == count + 1,
            forall|step: int|
                0 <= step < count ==> self.drawn(
                    iterations,
                    count,
                    step as nat,
                    #[trigger] frames[step],
                    frames[step + 1],
                ),
        ensures
            frames[count as int].width == frames[0].width,
            frames[count as int].height == frames[0].height,
            frames[count as int].bytes.len() == frames[0].bytes.len(),
            forall|idx: int|
                0 <= idx < frames[0].pixels() ==> #[trigger] self.rendered_at(
                    iterations,
                    frames[count as int],
                    idx,
                ),
            forall|i: int|
                frames[0].region_len() <= i < frames[0].bytes.len()
                    ==> #[trigger] frames[count as int].bytes[i] == frames[0].bytes[i],
    {
        self.lemma_sweep_upto(iterations, count, frames, count);
        assert forall|idx: int| 0 <= idx < frames[0].pixels() implies #[trigger] self.rendered_at(
            iterations,
            frames[count as int],
            idx,
        ) by {
            lemma_mod_bound(idx, count as int);
        }
    }

    /// Interlacing changes when a pixel is rendered, not what is rendered:
    /// with single-valued stages, the frame after the passes
    /// `0, 1, .., count - 1` of `count` is byte for byte the frame that the
    /// one pass of a count of one draws.
    pub proof fn lemma_sweep_is_whole_pass(
        &self,
        iterations: u32,
        count: nat,
        frames: Seq<Frame>,
        whole: Frame,
    )
        requires
            self.single_valued(),
            count >= 1,
            frames.len() == count + 1,
            forall|step: int|
                0 <= step < count ==> self.drawn(
                    iterations,
                    count,
                    step as nat,
                    #[trigger] frames[step],
                    frames[step + 1],
                ),
            self.drawn(iterations, 1, 0, frames[0], whole),
        ensures
            frames[count as int] == whole,
    {
        let swept = frames[count as int];
        self.lemma_sweep_renders_all(iterations, count, frames);
        assert forall|i: int| 0 <= i < whole.bytes.len() implies swept.bytes[i] == whole.bytes[i] by {
            if i < whole.region_len() {
                let idx = i / 4;
                assert(i == 4 * idx || i == 4 * idx + 1 || i == 4 * idx + 2 || i == 4 * idx + 3);
                lemma_whole_frame_pass(idx);
                assert(self.rendered_at(iterations, swept, idx));
                assert(self.rendered_at(iterations, whole, idx));
                self.lemma_one_colour(
                    iterations,
                    whole.row_of(idx) as usize,
                    whole.col_of(idx) as usize,
                    swept.pixel(idx).rgb(),
                    whole.pixel(idx).rgb(),
                );
                assert(swept.pixel(idx) == whole.pixel(idx));
            }
        }
        assert(swept.bytes =~= whole.bytes);
    }

    /// Idempotence: a pass drawn a second time, with the same stages and the
    /// same parameters and nothing done to the renderer in between, leaves
    /// every byte as the first time left it. The stages have to be
    /// single-valued: one that answers differently from call to call draws
    /// differently from call to call.
    pub proof fn lemma_draw_idempotent(
        &self,
        iterations: u32,
        count: nat,
        step: nat,
        before: Frame,
        once: Frame,
        twice: Frame,
    )
        requires
            self.single_valued(),
            self.drawn(iterations, count, step, before, once),
            self.drawn(iterations, count, step, once, twice),
        ensures
            twice == once,
    {
        assert forall|i: int| 0 <= i < once.bytes.len() implies twice.bytes[i] == once.bytes[i] by {
            if i < once.region_len() {
                let idx = i / 4;
                assert(0 <= idx < once.pixels());
                assert(i == 4 * idx || i == 4 * idx + 1 || i == 4 * idx + 2 || i == 4 * idx + 3);
                if selects(count, step, idx) {
                    assert(self.rendered_at(iterations, once, idx));
                    assert(self.rendered_at(iterations, twice, idx));
                    self.lemma_one_colour(
                        iterations,
                        once.row_of(idx) as usize,
                        once.col_of(idx) as usize,
                        once.pixel(idx).rgb(),
                        twice.pixel(idx).rgb(),
                    );
                }
                assert(twice.pixel(idx) == once.pixel(idx));
            }
        }
        assert(twice.bytes =~= once.bytes);
    }
}

} // verus!
