//! The canvas, its queue of figures, and the drawing of figures on it.

use crate::compose::{
    composite, composite_all, lemma_line_clipped, lemma_line_drawn, lemma_outside_unchanged,
    overlaps, overwritten,
};
use crate::error::CanvasError;
use crate::figure::{Figure, FigureInstruction};
use crate::point::Point;
use vstd::prelude::*;

verus! {

/// What a canvas holds, as mathematical values.
pub struct CanvasView {
    /// The cells, row after row from the top, each row from the left.
    pub cells: Seq<char>,
    /// The number of cells in a row.
    pub width: nat,
    /// The number of rows.
    pub height: nat,
    /// The figures that wait to be drawn, by their lines, each with the
    /// position of its top left corner, in the order in which they came.
    pub queue: Seq<(Seq<Seq<char>>, Point)>,
}

/// A grid of character cells of a fixed size, and the figures that wait to
/// be drawn on it. The top left cell is at column 0 of row 0.
pub struct Canvas<'a> {
    buffer: Vec<char>,
    width: u16,
    height: u16,
    queue: Vec<(&'a Figure, Point)>,
}

/// The lines and the position of each entry of a queue.
pub open spec fn queued(queue: Seq<(&Figure, Point)>) -> Seq<(Seq<Seq<char>>, Point)> {
    queue.map_values(|entry: (&Figure, Point)| (entry.0@, entry.1))
}

impl<'a> View for Canvas<'a> {
    type V = CanvasView;

    closed spec fn view(&self) -> CanvasView {
        CanvasView {
            cells: self.buffer@,
            width: self.width as nat,
            height: self.height as nat,
            queue: queued(self.queue@),
        }
    }
}

impl<'a> Canvas<'a> {
    /// Whether the canvas has one cell for each column of each row.
    pub open spec fn wf(&self) -> bool {
        self@.cells.len() == self@.width * self@.height
    }

    /// A canvas of `size.0` columns and `size.1` rows, with a space in
    /// every cell and no figure waiting.
    #[must_use]
    pub fn new(size: (u16, u16)) -> (canvas: Canvas<'a>)
        ensures
            canvas.wf(),
            canvas@.width == size.0,
            canvas@.height == size.1,
            canvas@.queue == Seq::<(Seq<Seq<char>>, Point)>::empty(),
            canvas@.cells == Seq::new((size.0 * size.1) as nat, |i: int| ' '),
    {
        assert(size.0 * size.1 <= u32::MAX) by (nonlinear_arith)
            requires
                size.0 <= u16::MAX,
                size.1 <= u16::MAX,
        ;
        let count: usize = size.0 as usize * size.1 as usize;
        let mut buffer: Vec<char> = Vec::new();
        let mut i: usize = 0;
        while i < count
            invariant
                i <= count,
                buffer@ == Seq::new(i as nat, |i: int| ' '),
            decreases count - i,
        {
            buffer.push(' ');
            i += 1;
        }
        Canvas { buffer, width: size.0, height: size.1, queue: Vec::new() }
    }

    /// The number of cells in a row.
    pub fn width(&self) -> (width: u16)
        ensures
            width == self@.width,
    {
        self.width
    }

    /// The number of rows.
    pub fn height(&self) -> (height: u16)
        ensures
            height == self@.height,
    {
        self.height
    }

    /// The number of figures that wait to be drawn.
    pub fn pending(&self) -> (count: usize)
        ensures
            count == self@.queue.len(),
    {
        self.queue.len()
    }

    /// The cells of row `y`, from the left; `None` where the canvas has no
    /// such row.
    pub fn row(&self, y: u16) -> (cells: Option<&[char]>)
        requires
            self.wf(),
        ensures
            cells is Some <==> y < self@.height,
            cells matches Some(row) ==> row@ == self@.cells.subrange(
                y * self@.width,
                (y + 1) * self@.width,
            ),
    {
        if y >= self.height {
            return None;
        }
        proof {
            let (w, h, r) = (self.width as int, self.height as int, y as int);
            assert(self.buffer.len() == w * h);
            assert(0 <= r * w && (r + 1) * w == r * w + w && (r + 1) * w <= w * h)
                by (nonlinear_arith)
                requires
                    0 <= r < h,
                    0 <= w,
            ;
        }
        let from: usize = y as usize * self.width as usize;
        let to: usize = from + self.width as usize;
        Some(vstd::slice::slice_subrange(self.buffer.as_slice(), from, to))
    }

    /// Puts `drawing` in the queue, to be drawn with its top left corner at
    /// `position`. The cells stay as they are until the queue is drawn.
    pub fn add_drawing(&mut self, drawing: &'a Figure, position: Point)
        ensures
            final(self)@.queue == old(self)@.queue.push((drawing@, position)),
            final(self)@.cells == old(self)@.cells,
            final(self)@.width == old(self)@.width,
            final(self)@.height == old(self)@.height,
    {
        self.queue.push((drawing, position));
    }

    /// Draws the figures of the queue in the order in which they came, each
    /// at its position, on the part of the plane whose top left corner is
    /// `offset`, and leaves the queue empty.
    pub fn draw(&mut self, offset: Point)
        requires
            old(self).wf(),
        ensures
            final(self).wf(),
            final(self)@.width == old(self)@.width,
            final(self)@.height == old(self)@.height,
            final(self)@.queue == Seq::<(Seq<Seq<char>>, Point)>::empty(),
            final(self)@.cells == composite_all(
                old(self)@.cells,
                old(self)@.width,
                old(self)@.queue,
                offset,
            ),
            old(self)@.queue.len() == 0 ==> final(self)@.cells == old(self)@.cells,
    {
        let mut queue: Vec<(&'a Figure, Point)> = Vec::new();
        std::mem::swap(&mut self.queue, &mut queue);
        let ghost waiting = old(self)@.queue;
        let mut i: usize = 0;
        while i < queue.len()
            invariant
                i <= queue.len(),
                self.wf(),
                self@.width == old(self)@.width,
                self@.height == old(self)@.height,
                self@.queue == Seq::<(Seq<Seq<char>>, Point)>::empty(),
                waiting == old(self)@.queue,
                waiting == queued(queue@),
                self@.cells == composite_all(
                    old(self)@.cells,
                    old(self)@.width,
                    waiting.take(i as int),
                    offset,
                ),
            decreases queue.len() - i,
        {
            let (figure, pos) = queue[i];
            figure.draw(pos, offset, self);
            proof {
                assert(waiting.take(i + 1).drop_last() == waiting.take(i as int));
            }
            i += 1;
        }
        assert(waiting.take(waiting.len() as int) == waiting);
    }

    /// Writes the characters of `span` from index `lower` up to `upper`
    /// over the cells from `index` on, where both ranges exist.
    fn copy_span(&mut self, index: usize, span: &[char], lower: usize, upper: usize)
        requires
            lower <= upper <= span@.len(),
            index + (upper - lower) <= old(self)@.cells.len(),
        ensures
            final(self)@.cells == overwritten(
                old(self)@.cells,
                index as int,
                span@.subrange(lower as int, upper as int),
            ),
            final(self)@.width == old(self)@.width,
            final(self)@.height == old(self)@.height,
            final(self)@.queue == old(self)@.queue,
    {
        let mut i: usize = lower;
        while i < upper
            invariant
                lower <= i <= upper <= span@.len(),
                self.buffer.len() == old(self)@.cells.len(),
                index + (upper - lower) <= old(self)@.cells.len(),
                self@.cells.len() == old(self)@.cells.len(),
                self@.cells == overwritten(
                    old(self)@.cells,
                    index as int,
                    span@.subrange(lower as int, i as int),
                ),
                self@.width == old(self)@.width,
                self@.height == old(self)@.height,
                self@.queue == old(self)@.queue,
            decreases upper - i,
        {
            self.buffer[index + (i - lower)] = span[i];
            i += 1;
        }
    }

    /// Writes the characters of `span` from index `lower` up to `upper`
    /// over the cells from `index` on.
    ///
    /// Where `span` has no such characters, or the canvas has not that many
    /// cells from `index` on, nothing is written and the answer is
    /// [`CanvasError::OutOfBounds`].
    pub fn write_span(
        &mut self,
        index: usize,
        span: &[char],
        lower: usize,
        upper: usize,
    ) -> (done: Result<(), CanvasError>)
        ensures
            done is Ok <==> ({
                &&& lower <= upper <= span@.len()
                &&& index + (upper - lower) <= old(self)@.cells.len()
            }),
            done matches Err(e) ==> e == CanvasError::OutOfBounds && final(self)@ == old(self)@,
            done is Ok ==> final(self)@.cells == overwritten(
                old(self)@.cells,
                index as int,
                span@.subrange(lower as int, upper as int),
            ),
            final(self)@.width == old(self)@.width,
            final(self)@.height == old(self)@.height,
            final(self)@.queue == old(self)@.queue,
    {
        if lower > upper || upper > span.len() {
            return Err(CanvasError::OutOfBounds);
        }
        if index > self.buffer.len() || upper - lower > self.buffer.len() - index {
            return Err(CanvasError::OutOfBounds);
        }
        self.copy_span(index, span, lower, upper);
        Ok(())
    }
}

/// A drawing that can be composited onto a canvas.
///
/// [`Figure`] is the drawing that a canvas takes into its queue. A drawing of
/// another kind draws itself by this method, and writes to the cells with
/// [`Canvas::write_span`], which refuses a span that lies beyond them.
pub trait Draw {
    /// Draws `self` on `canvas` with its top left corner at the point `pos`
    /// of the plane, of which the canvas shows the part whose top left
    /// corner is `offset`. What of the drawing lies outside that part is
    /// left out; the canvas keeps its size and its queue.
    fn draw<'a>(&self, pos: Point, offset: Point, canvas: &mut Canvas<'a>)
        requires
            old(canvas).wf(),
        ensures
            final(canvas).wf(),
            final(canvas)@.width == old(canvas)@.width,
            final(canvas)@.height == old(canvas)@.height,
            final(canvas)@.queue == old(canvas)@.queue,
    ;
}

/// Whether a box of the extent `dim` at `pos` shares a point with what a
/// canvas of `width` by `height` cells shows at `offset`.
fn in_view(pos: Point, dim: Point, offset: Point, width: u16, height: u16) -> (seen: bool)
    ensures
        seen == overlaps(pos, dim, offset, width as nat, height as nat),
{
    let (left, top) = (offset.x as i128, offset.y as i128);
    let (x, y) = (pos.x as i128, pos.y as i128);
    let (right, bottom) = (left + width as i128 - 1, top + height as i128 - 1);
    x + dim.x as i128 - 1 >= left && x <= right && y + dim.y as i128 - 1 >= top && y <= bottom
}

impl Draw for Figure {
    /// Draws the lines of the figure, each clipped against the left and
    /// the right edge of the canvas, in the rows in which they lie.
    #[verifier::loop_isolation(false)]
    fn draw<'a>(&self, pos: Point, offset: Point, canvas: &mut Canvas<'a>)
        ensures
            final(canvas)@.cells == composite(
                old(canvas)@.cells,
                old(canvas)@.width,
                self@,
                pos,
                offset,
            ),
    {
        if !in_view(pos, self.dim(), offset, canvas.width, canvas.height) {
            proof {
                lemma_outside_unchanged(
                    canvas@.cells,
                    canvas@.width,
                    canvas@.height,
                    self@,
                    pos,
                    offset,
                );
            }
            return;
        }
        let steps = self.instructions();
        let width = canvas.width as i128;
        let height = canvas.height as i128;
        let (left, top) = (offset.x as i128, offset.y as i128);
        let (x, y) = (pos.x as i128, pos.y as i128);
        let ghost lines = self@;
        let ghost cells = canvas@.cells;
        let mut cursor_x = x;
        let mut cursor_y = y;
        let mut i: usize = 0;
        while i < steps.len()
            invariant
                i <= steps.len(),
                canvas.wf(),
                canvas@.width == width,
                canvas@.height == height,
                canvas@.queue == old(canvas)@.queue,
                canvas.buffer.len() == cells.len(),
                cursor_x == x,
                cursor_y == y + i / 2,
                canvas@.cells == composite(
                    cells,
                    canvas@.width,
                    lines.take((i + 1) / 2),
                    pos,
                    offset,
                ),
            decreases steps.len() - i,
        {
            match &steps[i] {
                FigureInstruction::SkipTo(to) => {
                    cursor_x = x + to.x as i128;
                    cursor_y = y + to.y as i128;
                },
                FigureInstruction::Draw(span) => {
                    let ghost k = i as int / 2;
                    let len = span.len() as i128;
                    let lower = if cursor_x >= left {
                        0
                    } else {
                        left - cursor_x
                    };
                    let upper = if cursor_x + len <= left + width {
                        len
                    } else {
                        left + width - cursor_x
                    };
                    if top <= cursor_y && cursor_y < top + height && lower < upper {
                        proof {
                            lemma_line_drawn(
                                cells,
                                canvas@.width,
                                canvas@.height,
                                lines,
                                k,
                                pos,
                                offset,
                            );
                        }
                        let row = cursor_y - top;
                        assert(0 <= row * width <= u32::MAX) by (nonlinear_arith)
                            requires
                                0 <= row < height <= u16::MAX,
                                0 <= width <= u16::MAX,
                        ;
                        let index = (cursor_x + lower - left) + row * width;
                        canvas.copy_span(
                            index as usize,
                            span.as_slice(),
                            lower as usize,
                            upper as usize,
                        );
                    } else {
                        proof {
                            lemma_line_clipped(
                                cells,
                                canvas@.width,
                                canvas@.height,
                                lines,
                                k,
                                pos,
                                offset,
                            );
                        }
                    }
                },
            }
            i += 1;
        }
    }
}

} // verus!
