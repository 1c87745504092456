//! Figures: text that is split into lines once, and then drawn many times.

use crate::error::CanvasError;
use crate::point::Point;
use vstd::prelude::*;

verus! {

/// The number of characters that `text` holds before its first line break,
/// which is all of them where it has none.
pub open spec fn first_line_len(text: Seq<char>) -> nat
    decreases text.len(),
{
    if text.len() == 0 || text[0] == '\n' {
        0
    } else {
        1 + first_line_len(text.skip(1))
    }
}

/// `line` without the carriage return that it may end in.
pub open spec fn without_cr(line: Seq<char>) -> Seq<char> {
    if line.len() > 0 && line.last() == '\r' {
        line.drop_last()
    } else {
        line
    }
}

/// The lines of `text`. A line break is a line feed, alone or after a
/// carriage return; neither belongs to the line that it ends. A text that
/// ends in a line break has an empty last line.
pub open spec fn split_lines(text: Seq<char>) -> Seq<Seq<char>>
    decreases text.len(),
{
    let n = first_line_len(text);
    if n >= text.len() {
        seq![text]
    } else {
        seq![without_cr(text.take(n as int))] + split_lines(text.skip(n as int + 1))
    }
}

/// How many line breaks, that is line feeds, `text` holds.
pub open spec fn line_breaks(text: Seq<char>) -> nat
    decreases text.len(),
{
    if text.len() == 0 {
        0
    } else if text[0] == '\n' {
        1 + line_breaks(text.skip(1))
    } else {
        line_breaks(text.skip(1))
    }
}

/// The length of the longest of `lines`.
pub open spec fn widest(lines: Seq<Seq<char>>) -> nat
    decreases lines.len(),
{
    if lines.len() == 0 {
        0
    } else if lines.last().len() > widest(lines.drop_last()) {
        lines.last().len()
    } else {
        widest(lines.drop_last())
    }
}

/// The text of these `lines`, with a line feed between each two of them.
pub open spec fn join_lines(lines: Seq<Seq<char>>) -> Seq<char>
    decreases lines.len(),
{
    if lines.len() == 0 {
        Seq::empty()
    } else if lines.len() == 1 {
        lines[0]
    } else {
        lines[0] + seq!['\n'] + join_lines(lines.skip(1))
    }
}

/// One step of drawing a figure.
#[derive(PartialEq, Eq, Debug)]
pub enum FigureInstruction {
    /// Emit this span of text at the cursor.
    Draw(Vec<char>),
    /// Move the cursor to the figure's position plus this offset.
    SkipTo(Point),
}

/// Whether `instruction` is the one that stands at index `i` in the
/// instructions of a figure with these `lines`: the lines are drawn in
/// order, and between two of them the cursor moves to the start of the next.
pub open spec fn encodes(instruction: FigureInstruction, lines: Seq<Seq<char>>, i: int) -> bool {
    if i % 2 == 0 {
        instruction matches FigureInstruction::Draw(span) && span@ == lines[i / 2]
    } else {
        instruction == FigureInstruction::SkipTo(Point { x: 0, y: ((i + 1) / 2) as i64 })
    }
}

/// Whether `instructions` draw exactly `lines`.
pub open spec fn draws(instructions: Seq<FigureInstruction>, lines: Seq<Seq<char>>) -> bool {
    &&& instructions.len() == 2 * lines.len() - 1
    &&& forall|i: int|
        0 <= i < instructions.len() ==> encodes(#[trigger] instructions[i], lines, i)
}

/// The text that `instruction` emits.
pub open spec fn span_of(instruction: FigureInstruction) -> Seq<char> {
    match instruction {
        FigureInstruction::Draw(span) => span@,
        FigureInstruction::SkipTo(_) => Seq::empty(),
    }
}

/// The lines that `instructions` draw, where they alternate between drawing
/// and moving.
pub open spec fn drawn_by(instructions: Seq<FigureInstruction>) -> Seq<Seq<char>> {
    Seq::new(((instructions.len() + 1) / 2) as nat, |k: int| span_of(instructions[2 * k]))
}

/// A drawing of one or more lines of text, parsed once and then immutable.
#[derive(Debug)]
pub struct Figure {
    instructions: Vec<FigureInstruction>,
    dim: Point,
}

impl View for Figure {
    type V = Seq<Seq<char>>;

    /// The lines of the figure, from the top.
    closed spec fn view(&self) -> Seq<Seq<char>> {
        drawn_by(self.instructions@)
    }
}

impl Figure {
    #[verifier::type_invariant]
    spec fn inv(self) -> bool {
        &&& draws(self.instructions@, self@)
        &&& self.dim.x == widest(self@)
        &&& self.dim.y == self@.len()
    }

    /// The extent of the figure; see [`Figure::dim`].
    pub closed spec fn extent(&self) -> Point {
        self.dim
    }

    /// Parses `text` into a figure of the lines of `text`.
    ///
    /// A text without characters is refused with
    /// [`CanvasError::EmptyInput`], and no other. The extent of the figure
    /// is as wide as its longest line and one higher than the number of
    /// line breaks in `text`, so that a text of one line has the extent of
    /// its length by one. For that extent to be a point, `text` must hold
    /// fewer than `i64::MAX` characters.
    pub fn new(text: &str) -> (parsed: Result<Figure, CanvasError>)
        requires
            text@.len() < i64::MAX,
        ensures
            parsed is Err <==> text@.len() == 0,
            parsed matches Err(e) ==> e == CanvasError::EmptyInput,
            parsed matches Ok(figure) ==> ({
                &&& figure@ == split_lines(text@)
                &&& figure.extent().x == widest(figure@)
                &&& figure.extent().y == line_breaks(text@) + 1
                &&& line_breaks(text@) == 0 ==> figure.extent().x == text@.len()
            }),
    {
        let chars = to_chars(text);
        let n = chars.len();
        if n == 0 {
            return Err(CanvasError::EmptyInput);
        }
        let mut instructions: Vec<FigureInstruction> = Vec::new();
        let ghost mut done: Seq<Seq<char>> = Seq::empty();
        let mut width: usize = 0;
        let mut count: usize = 0;
        let mut start: usize = 0;
        let mut i: usize = 0;
        assert(chars@.skip(0) == chars@);
        while i < n
            invariant
                n == chars.len(),
                n < i64::MAX,
                start <= i <= n,
                count <= start,
                forall|j: int| start <= j < i ==> chars@[j] != '\n',
                done + split_lines(chars@.skip(start as int)) == split_lines(chars@),
                done.len() == count,
                width == widest(done),
                width <= n,
                instructions@.len() == 2 * count,
                forall|j: int|
                    0 <= j < instructions@.len() ==> encodes(#[trigger] instructions@[j], done, j),
            decreases n - i,
        {
            if chars[i] == '\n' {
                let end: usize = if i > start && chars[i - 1] == '\r' {
                    i - 1
                } else {
                    i
                };
                let line = copy_range(&chars, start, end);
                proof {
                    let rest = chars@.skip(start as int);
                    lemma_first_line_len(rest, i - start);
                    assert(rest.take(i - start) == chars@.subrange(start as int, i as int));
                    assert(rest.skip(i - start + 1) == chars@.skip(i + 1));
                    assert(line@ == without_cr(chars@.subrange(start as int, i as int)));
                    assert(done.push(line@).drop_last() == done);
                    done = done.push(line@);
                }
                if line.len() > width {
                    width = line.len();
                }
                instructions.push(FigureInstruction::Draw(line));
                count += 1;
                instructions.push(FigureInstruction::SkipTo(Point { x: 0, y: count as i64 }));
                start = i + 1;
            }
            i += 1;
        }
        let line = copy_range(&chars, start, n);
        proof {
            let rest = chars@.skip(start as int);
            lemma_first_line_len(rest, n - start);
            assert(done.push(line@).drop_last() == done);
            done = done.push(line@);
            lemma_line_count(text@);
        }
        if line.len() > width {
            width = line.len();
        }
        instructions.push(FigureInstruction::Draw(line));
        proof {
            assert(drawn_by(instructions@) == done);
            if line_breaks(text@) == 0 {
                lemma_no_breaks(text@);
            }
        }
        Ok(Figure { instructions, dim: Point { x: width as i64, y: count as i64 + 1 } })
    }

    /// The extent of the figure: as wide as its longest line, and as high
    /// as it has lines.
    pub fn dim(&self) -> (extent: Point)
        ensures
            extent == self.extent(),
            extent.x == widest(self@),
            extent.y == self@.len(),
    {
        proof {
            use_type_invariant(self);
        }
        self.dim
    }

    /// The steps that draw the figure: each line in turn, and between two
    /// lines a move to the start of the next.
    pub fn instructions(&self) -> (steps: &Vec<FigureInstruction>)
        ensures
            draws(steps@, self@),
    {
        proof {
            use_type_invariant(self);
        }
        &self.instructions
    }
}

/// A copy of the characters of `chars` from index `from` up to `to`.
fn copy_range(chars: &Vec<char>, from: usize, to: usize) -> (span: Vec<char>)
    requires
        from <= to <= chars.len(),
    ensures
        span@ == chars@.subrange(from as int, to as int),
{
    let mut span: Vec<char> = Vec::new();
    let mut i: usize = from;
    while i < to
        invariant
            from <= i <= to <= chars.len(),
            span@ == chars@.subrange(from as int, i as int),
        decreases to - i,
    {
        span.push(chars[i]);
        i += 1;
    }
    span
}

/// The characters of `text`, in order.
fn to_chars(text: &str) -> (chars: Vec<char>)
    ensures
        chars@ == text@,
{
    let mut chars: Vec<char> = Vec::new();
    for c in it: text.chars()
        invariant
            chars@ == it.seq().take(it.index() as int),
            it.seq() == text@,
    {
        chars.push(c);
    }
    chars
}

/// A text whose first `n` characters are no line breaks, and which ends
/// there or has a line break there, has a first line of length `n`.
pub proof fn lemma_first_line_len(text: Seq<char>, n: int)
    requires
        0 <= n <= text.len(),
        forall|j: int| 0 <= j < n ==> text[j] != '\n',
        n == text.len() || text[n] == '\n',
    ensures
        first_line_len(text) == n,
    decreases n,
{
    if n > 0 {
        lemma_first_line_len(text.skip(1), n - 1);
    }
}

/// No line is longer than the longest.
pub proof fn lemma_widest(lines: Seq<Seq<char>>, k: int)
    requires
        0 <= k < lines.len(),
    ensures
        lines[k].len() <= widest(lines),
    decreases lines.len(),
{
    if k < lines.len() - 1 {
        lemma_widest(lines.drop_last(), k);
    }
}

/// Some line is as long as the longest.
pub proof fn lemma_widest_is_reached(lines: Seq<Seq<char>>)
    requires
        lines.len() > 0,
    ensures
        exists|k: int| 0 <= k < lines.len() && #[trigger] lines[k].len() == widest(lines),
    decreases lines.len(),
{
    let rest = lines.drop_last();
    if lines.last().len() >= widest(rest) {
        assert(lines[lines.len() - 1].len() == widest(lines));
    } else {
        lemma_widest_is_reached(rest);
        let k = choose|k: int| 0 <= k < rest.len() && #[trigger] rest[k].len() == widest(rest);
        assert(lines[k].len() == widest(lines));
    }
}

/// The lines of a text without carriage returns, joined by line feeds,
/// are the text again: nothing but its line feeds is left out of its lines.
pub proof fn lemma_join_split(text: Seq<char>)
    requires
        forall|i: int| 0 <= i < text.len() ==> text[i] != '\r',
    ensures
        join_lines(split_lines(text)) == text,
    decreases text.len(),
{
    let n = first_line_len(text) as int;
    lemma_breaks_after_first_line(text);
    if n < text.len() {
        let rest = text.skip(n + 1);
        lemma_first_line_at_break(text);
        lemma_join_split(rest);
        lemma_line_count(rest);
        assert(split_lines(text).skip(1) == split_lines(rest));
    }
}

/// Where the first line of a text is not all of it, a line break follows it.
pub proof fn lemma_first_line_at_break(text: Seq<char>)
    requires
        first_line_len(text) < text.len(),
    ensures
        text[first_line_len(text) as int] == '\n',
    decreases text.len(),
{
    if text[0] != '\n' {
        lemma_first_line_at_break(text.skip(1));
    }
}

/// None of the first characters of a text, as many as its first line is
/// long, is a line break.
pub proof fn lemma_first_line_holds_no_break(text: Seq<char>, j: int)
    requires
        0 <= j < first_line_len(text),
    ensures
        j < text.len(),
        text[j] != '\n',
    decreases text.len(),
{
    if j > 0 {
        lemma_first_line_holds_no_break(text.skip(1), j - 1);
    }
}

/// No line of a text holds a line break.
pub proof fn lemma_lines_hold_no_break(text: Seq<char>, k: int, j: int)
    requires
        0 <= k < split_lines(text).len(),
        0 <= j < split_lines(text)[k].len(),
    ensures
        split_lines(text)[k][j] != '\n',
    decreases text.len(),
{
    let n = first_line_len(text);
    if n >= text.len() {
        lemma_first_line_holds_no_break(text, j);
    } else if k == 0 {
        lemma_first_line_holds_no_break(text, j);
    } else {
        lemma_lines_hold_no_break(text.skip(n as int + 1), k - 1, j);
    }
}

/// A text has one line more than it has line breaks.
pub proof fn lemma_line_count(text: Seq<char>)
    ensures
        split_lines(text).len() == line_breaks(text) + 1,
    decreases text.len(),
{
    let n = first_line_len(text);
    lemma_breaks_after_first_line(text);
    if n < text.len() {
        lemma_line_count(text.skip(n as int + 1));
    }
}

/// The first line of a text holds no line break: the text has as many as
/// what follows its first line has, the break that ends that line counted.
pub proof fn lemma_breaks_after_first_line(text: Seq<char>)
    ensures
        first_line_len(text) <= text.len(),
        first_line_len(text) == text.len() ==> line_breaks(text) == 0,
        first_line_len(text) < text.len() ==> line_breaks(text) == 1 + line_breaks(
            text.skip(first_line_len(text) as int + 1),
        ),
    decreases text.len(),
{
    if text.len() > 0 && text[0] != '\n' {
        let rest = text.skip(1);
        lemma_breaks_after_first_line(rest);
        let n = first_line_len(rest);
        if n < rest.len() {
            assert(rest.skip(n as int + 1) == text.skip(n as int + 2));
        }
    }
}

/// A text without a line break is its own and only line.
pub proof fn lemma_no_breaks(text: Seq<char>)
    requires
        line_breaks(text) == 0,
    ensures
        split_lines(text) == seq![text],
        widest(split_lines(text)) == text.len(),
{
    lemma_breaks_after_first_line(text);
    assert(widest(seq![text].drop_last()) == 0);
}

} // verus!
