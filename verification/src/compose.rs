//! What drawing means: which character each cell of a canvas holds after
//! figures were drawn on it, and what follows from that.

use crate::figure::{lemma_widest, widest};
use crate::point::Point;
use vstd::arithmetic::div_mod::{
    lemma_fundamental_div_mod, lemma_fundamental_div_mod_converse, lemma_mod_pos_bound,
};
use vstd::prelude::*;

verus! {

/// The character that a figure of these `lines`, with its top left corner at
/// `pos`, shows at column `col` of row `row` of the plane, if it shows one.
pub open spec fn shown_at(lines: Seq<Seq<char>>, pos: Point, col: int, row: int) -> Option<char> {
    let k = row - pos.y;
    let j = col - pos.x;
    if 0 <= k < lines.len() && 0 <= j < lines[k].len() {
        Some(lines[k][j])
    } else {
        None
    }
}

/// The cells of a canvas `width` cells wide after a figure of these `lines`
/// was drawn at `pos`, where the top left cell of the canvas shows the
/// point `offset` of the plane: each cell at which the figure shows a
/// character holds that character, and every other cell is as in `cells`.
pub open spec fn composite(
    cells: Seq<char>,
    width: nat,
    lines: Seq<Seq<char>>,
    pos: Point,
    offset: Point,
) -> Seq<char> {
    Seq::new(
        cells.len(),
        |i: int|
            match shown_at(lines, pos, offset.x + i % (width as int), offset.y + i / (width as int)) {
                Some(c) => c,
                None => cells[i],
            },
    )
}

/// The cells after each figure of `queue` was drawn in turn, the first one
/// first, so that a later figure covers an earlier one.
pub open spec fn composite_all(
    cells: Seq<char>,
    width: nat,
    queue: Seq<(Seq<Seq<char>>, Point)>,
    offset: Point,
) -> Seq<char>
    decreases queue.len(),
{
    if queue.len() == 0 {
        cells
    } else {
        composite(
            composite_all(cells, width, queue.drop_last(), offset),
            width,
            queue.last().0,
            queue.last().1,
            offset,
        )
    }
}

/// The character that the last figure of `queue` to show one at column
/// `col` of row `row` of the plane shows there, if any figure shows one.
pub open spec fn top_at(queue: Seq<(Seq<Seq<char>>, Point)>, col: int, row: int) -> Option<char>
    decreases queue.len(),
{
    if queue.len() == 0 {
        None
    } else {
        match shown_at(queue.last().0, queue.last().1, col, row) {
            Some(c) => Some(c),
            None => top_at(queue.drop_last(), col, row),
        }
    }
}

/// `cells` with the characters of `span` written over those from `index` on.
pub open spec fn overwritten(cells: Seq<char>, index: int, span: Seq<char>) -> Seq<char> {
    Seq::new(
        cells.len(),
        |i: int|
            if index <= i < index + span.len() {
                span[i - index]
            } else {
                cells[i]
            },
    )
}

/// Whether a box of the extent `dim` at `pos` shares a point with the part
/// of the plane that a canvas of `width` by `height` cells shows at `offset`.
pub open spec fn overlaps(pos: Point, dim: Point, offset: Point, width: nat, height: nat) -> bool {
    &&& pos.x + dim.x - 1 >= offset.x
    &&& pos.x <= offset.x + width - 1
    &&& pos.y + dim.y - 1 >= offset.y
    &&& pos.y <= offset.y + height - 1
}

/// How many characters at the start of a line that begins at column
/// `cursor` lie left of a viewport whose first column is `left`.
pub open spec fn lower_bound(cursor: int, left: int) -> int {
    if cursor >= left {
        0
    } else {
        left - cursor
    }
}

/// How many characters of a line of `len` characters that begins at column
/// `cursor` lie before the right edge of a viewport of `width` columns
/// whose first column is `left`.
pub open spec fn upper_bound(cursor: int, len: int, left: int, width: int) -> int {
    if cursor + len <= left + width {
        len
    } else {
        left + width - cursor
    }
}

/// The index of the cell at column `col` of row `row` in a canvas `width`
/// cells wide.
pub open spec fn cell_index(col: int, row: int, width: int) -> int {
    row * width + col
}

/// A cell's index gives its row and its column back.
pub proof fn lemma_cell_index(col: int, row: int, width: int)
    requires
        0 <= col < width,
    ensures
        cell_index(col, row, width) / width == row,
        cell_index(col, row, width) % width == col,
{
    lemma_fundamental_div_mod_converse(row * width + col, width, row, col);
}

/// The cell at a column and a row that the canvas has is one of its cells.
pub proof fn lemma_cell_exists(col: int, row: int, width: int, height: int)
    requires
        0 <= col < width,
        0 <= row < height,
    ensures
        0 <= cell_index(col, row, width) < width * height,
{
    assert(0 <= row * width && row * width + width <= width * height) by (nonlinear_arith)
        requires
            0 <= row < height,
            0 <= width,
    ;
}

/// Every index below `width * height` is that of a cell in one of the
/// `height` rows.
pub proof fn lemma_index_cell(i: int, width: int, height: int)
    requires
        0 <= i < width * height,
        0 <= width,
        0 <= height,
    ensures
        0 < width,
        0 <= i % width < width,
        0 <= i / width < height,
        cell_index(i % width, i / width, width) == i,
{
    assert(width != 0) by (nonlinear_arith)
        requires
            0 <= i < width * height,
    ;
    lemma_fundamental_div_mod(i, width);
    lemma_mod_pos_bound(i, width);
    let (q, r) = (i / width, i % width);
    assert(width * q == q * width) by (nonlinear_arith);
    assert(0 <= q < height) by (nonlinear_arith)
        requires
            0 <= i < width * height,
            i == q * width + r,
            0 <= r < width,
            0 <= height,
    ;
}

/// A line that lies above or below what the canvas shows, or of which no
/// character lies between its left and its right edge, adds nothing to
/// what the lines before it have drawn.
pub proof fn lemma_line_clipped(
    cells: Seq<char>,
    width: nat,
    height: nat,
    lines: Seq<Seq<char>>,
    k: int,
    pos: Point,
    offset: Point,
)
    requires
        cells.len() == width * height,
        0 <= k < lines.len(),
        ({
            let lower = lower_bound(pos.x as int, offset.x as int);
            let upper = upper_bound(
                pos.x as int,
                lines[k].len() as int,
                offset.x as int,
                width as int,
            );
            pos.y + k < offset.y || pos.y + k >= offset.y + height || lower >= upper
        }),
    ensures
        composite(cells, width, lines.take(k + 1), pos, offset) == composite(
            cells,
            width,
            lines.take(k),
            pos,
            offset,
        ),
{
    let with = composite(cells, width, lines.take(k + 1), pos, offset);
    let without = composite(cells, width, lines.take(k), pos, offset);
    assert forall|i: int| 0 <= i < cells.len() implies with[i] == without[i] by {
        lemma_index_cell(i, width as int, height as int);
    }
}

/// A line that lies in a row that the canvas shows, with some of its
/// characters between the left and the right edge, adds those characters,
/// and no others, to what the lines before it have drawn: they are written
/// over cells of that row, which the canvas has.
pub proof fn lemma_line_drawn(
    cells: Seq<char>,
    width: nat,
    height: nat,
    lines: Seq<Seq<char>>,
    k: int,
    pos: Point,
    offset: Point,
)
    requires
        cells.len() == width * height,
        0 <= k < lines.len(),
        offset.y <= pos.y + k < offset.y + height,
        lower_bound(pos.x as int, offset.x as int) < upper_bound(
            pos.x as int,
            lines[k].len() as int,
            offset.x as int,
            width as int,
        ),
    ensures
        ({
            let lower = lower_bound(pos.x as int, offset.x as int);
            let upper = upper_bound(
                pos.x as int,
                lines[k].len() as int,
                offset.x as int,
                width as int,
            );
            let index = cell_index(pos.x + lower - offset.x, pos.y + k - offset.y, width as int);
            &&& 0 <= lower < upper <= lines[k].len()
            &&& 0 <= pos.x + lower - offset.x
            &&& pos.x + upper - offset.x <= width
            &&& 0 <= index
            &&& index + (upper - lower) <= cells.len()
            &&& composite(cells, width, lines.take(k + 1), pos, offset) == overwritten(
                composite(cells, width, lines.take(k), pos, offset),
                index,
                lines[k].subrange(lower, upper),
            )
        }),
{
    let (w, h) = (width as int, height as int);
    let lower = lower_bound(pos.x as int, offset.x as int);
    let upper = upper_bound(pos.x as int, lines[k].len() as int, offset.x as int, w);
    let row = pos.y + k - offset.y;
    let index = cell_index(pos.x + lower - offset.x, row, w);
    assert(0 <= row * w && row * w + w <= w * h) by (nonlinear_arith)
        requires
            0 <= row < h,
            0 <= w,
    ;
    let with = composite(cells, width, lines.take(k + 1), pos, offset);
    let before = composite(cells, width, lines.take(k), pos, offset);
    let after = overwritten(before, index, lines[k].subrange(lower, upper));
    assert forall|i: int| 0 <= i < cells.len() implies with[i] == after[i] by {
        lemma_index_cell(i, w, h);
        if index <= i < index + (upper - lower) {
            lemma_cell_index(i - row * w, row, w);
        }
    }
}

/// A figure that lies wholly outside of what the canvas shows, be it to the
/// left, to the right, above or below, leaves every cell as it was.
pub proof fn lemma_outside_unchanged(
    cells: Seq<char>,
    width: nat,
    height: nat,
    lines: Seq<Seq<char>>,
    pos: Point,
    offset: Point,
)
    requires
        cells.len() == width * height,
        ({
            ||| pos.x + widest(lines) <= offset.x
            ||| pos.x >= offset.x + width
            ||| pos.y + lines.len() <= offset.y
            ||| pos.y >= offset.y + height
        }),
    ensures
        composite(cells, width, lines, pos, offset) == cells,
{
    let drawn = composite(cells, width, lines, pos, offset);
    assert forall|i: int| 0 <= i < cells.len() implies drawn[i] == cells[i] by {
        lemma_index_cell(i, width as int, height as int);
        let k = offset.y + i / (width as int) - pos.y;
        if 0 <= k < lines.len() {
            lemma_widest(lines, k);
        }
    }
}

/// A figure that lies wholly inside of what the canvas shows is drawn in
/// full: each of its characters stands in the cell at its column and row,
/// and every cell at which the figure has no character is as it was.
pub proof fn lemma_inside_shown(
    cells: Seq<char>,
    width: nat,
    height: nat,
    lines: Seq<Seq<char>>,
    pos: Point,
    offset: Point,
)
    requires
        cells.len() == width * height,
        offset.x <= pos.x,
        pos.x + widest(lines) <= offset.x + width,
        offset.y <= pos.y,
        pos.y + lines.len() <= offset.y + height,
    ensures
        ({
            let drawn = composite(cells, width, lines, pos, offset);
            let (left, top) = (pos.x - offset.x, pos.y - offset.y);
            &&& forall|k: int, j: int|
                0 <= k < lines.len() && 0 <= j < lines[k].len() ==> drawn[cell_index(
                    left + j,
                    top + k,
                    width as int,
                )] == #[trigger] lines[k][j]
            &&& forall|col: int, row: int|
                0 <= col < width && 0 <= row < height && shown_at(
                    lines,
                    pos,
                    offset.x + col,
                    offset.y + row,
                ) is None ==> drawn[#[trigger] cell_index(col, row, width as int)]
                    == cells[cell_index(col, row, width as int)]
        }),
{
    let drawn = composite(cells, width, lines, pos, offset);
    let (w, h) = (width as int, height as int);
    let (left, top) = (pos.x - offset.x, pos.y - offset.y);
    assert forall|k: int, j: int| 0 <= k < lines.len() && 0 <= j < lines[k].len() implies drawn[cell_index(
        left + j,
        top + k,
        w,
    )] == #[trigger] lines[k][j] by {
        lemma_widest(lines, k);
        lemma_cell_exists(left + j, top + k, w, h);
        lemma_cell_index(left + j, top + k, w);
    }
    assert forall|col: int, row: int|
        0 <= col < w && 0 <= row < h && shown_at(lines, pos, offset.x + col, offset.y + row)
            is None implies drawn[#[trigger] cell_index(col, row, w)] == cells[cell_index(
        col,
        row,
        w,
    )] by {
        lemma_cell_exists(col, row, w, h);
        lemma_cell_index(col, row, w);
    }
}

/// A line that begins inside of what the canvas shows and runs beyond its
/// right edge is cut there: its characters up to the last column stand in
/// their cells, the cells to its left are as they were, and what was cut
/// off is dropped rather than wrapped, so that outside of the row of the
/// line every cell is as if the line were empty.
pub proof fn lemma_right_edge_clips(
    cells: Seq<char>,
    width: nat,
    height: nat,
    lines: Seq<Seq<char>>,
    k: int,
    pos: Point,
    offset: Point,
)
    requires
        cells.len() == width * height,
        0 <= k < lines.len(),
        offset.y <= pos.y + k < offset.y + height,
        offset.x <= pos.x < offset.x + width,
        pos.x + lines[k].len() > offset.x + width,
    ensures
        ({
            let drawn = composite(cells, width, lines, pos, offset);
            let without = composite(cells, width, lines.update(k, Seq::empty()), pos, offset);
            let (left, at) = (pos.x - offset.x, pos.y + k - offset.y);
            &&& forall|col: int|
                left <= col < width ==> drawn[#[trigger] cell_index(col, at, width as int)]
                    == lines[k][col - left]
            &&& forall|col: int|
                0 <= col < left ==> drawn[#[trigger] cell_index(col, at, width as int)]
                    == cells[cell_index(col, at, width as int)]
            &&& forall|col: int, row: int|
                0 <= col < width && 0 <= row < height && row != at ==> drawn[#[trigger] cell_index(
                    col,
                    row,
                    width as int,
                )] == without[cell_index(col, row, width as int)]
        }),
{
    let drawn = composite(cells, width, lines, pos, offset);
    let without = composite(cells, width, lines.update(k, Seq::empty()), pos, offset);
    let (w, h) = (width as int, height as int);
    let (left, at) = (pos.x - offset.x, pos.y + k - offset.y);
    assert forall|col: int| 0 <= col < w implies {
        &&& left <= col ==> drawn[#[trigger] cell_index(col, at, w)] == lines[k][col - left]
        &&& col < left ==> drawn[cell_index(col, at, w)] == cells[cell_index(col, at, w)]
    } by {
        lemma_cell_exists(col, at, w, h);
        lemma_cell_index(col, at, w);
    }
    assert forall|col: int, row: int|
        0 <= col < w && 0 <= row < h && row != at implies drawn[#[trigger] cell_index(col, row, w)]
        == without[cell_index(col, row, w)] by {
        lemma_cell_exists(col, row, w, h);
        lemma_cell_index(col, row, w);
    }
}

/// Drawing a figure a second time at the same position changes nothing.
pub proof fn lemma_composite_idempotent(
    cells: Seq<char>,
    width: nat,
    lines: Seq<Seq<char>>,
    pos: Point,
    offset: Point,
)
    ensures
        composite(composite(cells, width, lines, pos, offset), width, lines, pos, offset)
            == composite(cells, width, lines, pos, offset),
{
}

/// Drawing a queue of one figure is drawing that figure.
pub proof fn lemma_single_figure(
    cells: Seq<char>,
    width: nat,
    lines: Seq<Seq<char>>,
    pos: Point,
    offset: Point,
)
    ensures
        composite_all(cells, width, seq![(lines, pos)], offset) == composite(
            cells,
            width,
            lines,
            pos,
            offset,
        ),
{
    assert(composite_all(cells, width, seq![(lines, pos)].drop_last(), offset) == cells);
}

/// Drawing an empty queue changes nothing.
pub proof fn lemma_nothing_queued(cells: Seq<char>, width: nat, offset: Point)
    ensures
        composite_all(cells, width, Seq::empty(), offset) == cells,
{
}

/// After a queue was drawn, each cell holds what the last figure to show a
/// character there shows, and is as it was where no figure shows one.
pub proof fn lemma_composite_all_cells(
    cells: Seq<char>,
    width: nat,
    queue: Seq<(Seq<Seq<char>>, Point)>,
    offset: Point,
)
    ensures
        composite_all(cells, width, queue, offset) == Seq::new(
            cells.len(),
            |i: int|
                match top_at(queue, offset.x + i % (width as int), offset.y + i / (width as int)) {
                    Some(c) => c,
                    None => cells[i],
                },
        ),
    decreases queue.len(),
{
    if queue.len() > 0 {
        lemma_composite_all_cells(cells, width, queue.drop_last(), offset);
    }
}

/// Drawing the same queue of figures a second time, each at the same
/// position and with the same offset, changes nothing.
pub proof fn lemma_composite_all_idempotent(
    cells: Seq<char>,
    width: nat,
    queue: Seq<(Seq<Seq<char>>, Point)>,
    offset: Point,
)
    ensures
        composite_all(composite_all(cells, width, queue, offset), width, queue, offset)
            == composite_all(cells, width, queue, offset),
{
    lemma_composite_all_cells(cells, width, queue, offset);
    lemma_composite_all_cells(composite_all(cells, width, queue, offset), width, queue, offset);
}

} // verus!
