use asciicanvas::{Canvas, CanvasError, Draw, Figure, Point};

fn rows_of(canvas: &Canvas) -> Vec<String> {
    let mut rows = Vec::new();
    let mut y = 0;
    while let Some(row) = canvas.row(y) {
        rows.push(row.iter().collect());
        y += 1;
    }
    rows
}

fn drawn(size: (u16, u16), text: &str, pos: (i64, i64), offset: (i64, i64)) -> Vec<String> {
    let figure = Figure::new(text).unwrap();
    let mut canvas = Canvas::new(size);
    canvas.add_drawing(&figure, Point::new(pos.0, pos.1));
    canvas.draw(Point::new(offset.0, offset.1));
    rows_of(&canvas)
}

#[test]
fn new_canvas_holds_a_space_in_every_cell() {
    let canvas = Canvas::new((3, 2));
    assert_eq!(canvas.width(), 3);
    assert_eq!(canvas.height(), 2);
    assert_eq!(canvas.pending(), 0);
    assert_eq!(rows_of(&canvas), vec!["   ", "   "]);
    assert_eq!(canvas.row(2), None);
}

#[test]
fn canvas_without_columns_or_rows_has_no_cells() {
    let flat = Canvas::new((5, 0));
    assert_eq!(flat.row(0), None);
    let thin = Canvas::new((0, 2));
    assert_eq!(rows_of(&thin), vec!["", ""]);
    assert_eq!(drawn((0, 2), "abc", (0, 0), (0, 0)), vec!["", ""]);
    assert_eq!(drawn((5, 0), "abc", (0, 0), (0, 0)), Vec::<String>::new());
}

#[test]
fn queuing_leaves_the_cells_as_they_are() {
    let figure = Figure::new("abc").unwrap();
    let mut canvas = Canvas::new((4, 1));
    canvas.add_drawing(&figure, Point::new(0, 0));
    canvas.add_drawing(&figure, Point::new(900, -900));
    assert_eq!(canvas.pending(), 2);
    assert_eq!(rows_of(&canvas), vec!["    "]);
}

#[test]
fn figure_inside_is_drawn_in_full() {
    assert_eq!(
        drawn((8, 4), "abc123\nhej", (1, 1), (0, 0)),
        vec!["        ", " abc123 ", " hej    ", "        "]
    );
}

#[test]
fn figure_that_fills_the_canvas_is_drawn_in_full() {
    assert_eq!(drawn((3, 2), "abc\ndef", (0, 0), (0, 0)), vec!["abc", "def"]);
}

#[test]
fn figure_outside_in_any_direction_leaves_the_cells_as_they_are() {
    let blank = vec!["    ", "    "];
    assert_eq!(drawn((4, 2), "ab\ncd", (-2, 0), (0, 0)), blank);
    assert_eq!(drawn((4, 2), "ab\ncd", (4, 0), (0, 0)), blank);
    assert_eq!(drawn((4, 2), "ab\ncd", (0, -2), (0, 0)), blank);
    assert_eq!(drawn((4, 2), "ab\ncd", (0, 2), (0, 0)), blank);
    assert_eq!(drawn((4, 2), "ab\ncd", (1, 0), (10, 0)), blank);
    assert_eq!(drawn((4, 2), "ab\ncd", (1, 0), (0, -10)), blank);
}

#[test]
fn figure_outside_leaves_earlier_drawings_as_they_are() {
    let near = Figure::new("ab\ncd").unwrap();
    let far = Figure::new("xyz").unwrap();
    let mut canvas = Canvas::new((3, 2));
    canvas.add_drawing(&near, Point::new(0, 0));
    canvas.draw(Point::new(0, 0));
    canvas.add_drawing(&far, Point::new(3, 0));
    canvas.draw(Point::new(0, 0));
    assert_eq!(rows_of(&canvas), vec!["ab ", "cd "]);
}

#[test]
fn figure_across_the_right_edge_is_cut_there() {
    assert_eq!(
        drawn((10, 2), "abc123\nhej", (8, 0), (0, 0)),
        vec!["        ab", "        he"]
    );
}

#[test]
fn what_is_cut_at_the_right_edge_does_not_wrap() {
    assert_eq!(
        drawn((4, 3), "abcdef", (2, 0), (0, 0)),
        vec!["  ab", "    ", "    "]
    );
    assert_eq!(
        drawn((4, 3), "abcdef\n\nxy", (2, 0), (0, 0)),
        vec!["  ab", "    ", "  xy"]
    );
}

#[test]
fn figure_across_the_left_edge_is_cut_there() {
    assert_eq!(
        drawn((4, 2), "abc123\nhej", (-2, 0), (0, 0)),
        vec!["c123", "j   "]
    );
}

#[test]
fn figure_across_both_edges_shows_its_middle() {
    assert_eq!(drawn((3, 1), "abcdefg", (-2, 0), (0, 0)), vec!["cde"]);
}

#[test]
fn figure_across_the_top_and_the_bottom_edge_loses_those_lines() {
    assert_eq!(drawn((2, 2), "ab\ncd\nef", (0, -1), (0, 0)), vec!["cd", "ef"]);
    assert_eq!(drawn((2, 2), "ab\ncd\nef", (0, 1), (0, 0)), vec!["  ", "ab"]);
    assert_eq!(drawn((2, 1), "ab\ncd\nef", (0, -1), (0, 0)), vec!["cd"]);
}

#[test]
fn offset_moves_what_the_canvas_shows() {
    assert_eq!(
        drawn((4, 2), "abc123\nhej", (10, 20), (10, 20)),
        vec!["abc1", "hej "]
    );
    assert_eq!(
        drawn((4, 2), "abc123\nhej", (10, 20), (12, 21)),
        vec!["j   ", "    "]
    );
    assert_eq!(
        drawn((4, 2), "abc123\nhej", (0, 0), (-1, -1)),
        vec!["    ", " abc"]
    );
}

#[test]
fn positions_at_the_ends_of_the_range_are_clipped_like_any_other() {
    let blank = vec!["   "];
    assert_eq!(drawn((3, 1), "abc", (i64::MAX, i64::MAX), (0, 0)), blank);
    assert_eq!(drawn((3, 1), "abc", (i64::MIN, i64::MIN), (0, 0)), blank);
    assert_eq!(drawn((3, 1), "abc", (0, 0), (i64::MAX, i64::MAX)), blank);
    assert_eq!(drawn((3, 1), "abc", (0, 0), (i64::MIN, i64::MIN)), blank);
    assert_eq!(
        drawn((3, 1), "abc", (i64::MAX, i64::MIN), (i64::MAX - 1, i64::MIN)),
        vec![" ab"]
    );
    assert_eq!(
        drawn((3, 1), "abc", (i64::MIN, i64::MAX), (i64::MIN, i64::MAX)),
        vec!["abc"]
    );
}

#[test]
fn later_figure_covers_an_earlier_one() {
    let first = Figure::new("aaaa\naaaa").unwrap();
    let second = Figure::new("bb").unwrap();
    let mut canvas = Canvas::new((4, 2));
    canvas.add_drawing(&first, Point::new(0, 0));
    canvas.add_drawing(&second, Point::new(1, 1));
    canvas.draw(Point::new(0, 0));
    assert_eq!(rows_of(&canvas), vec!["aaaa", "abba"]);
}

#[test]
fn shorter_line_leaves_the_cells_after_its_end() {
    let wide = Figure::new("xxxx\nxxxx").unwrap();
    let ragged = Figure::new("ab\n\ncd").unwrap();
    let mut canvas = Canvas::new((4, 3));
    canvas.add_drawing(&wide, Point::new(0, 0));
    canvas.add_drawing(&ragged, Point::new(1, 0));
    canvas.draw(Point::new(0, 0));
    assert_eq!(rows_of(&canvas), vec!["xabx", "xxxx", " cd "]);
}

#[test]
fn drawing_empties_the_queue() {
    let figure = Figure::new("ab").unwrap();
    let mut canvas = Canvas::new((2, 1));
    canvas.add_drawing(&figure, Point::new(0, 0));
    assert_eq!(canvas.pending(), 1);
    canvas.draw(Point::new(0, 0));
    assert_eq!(canvas.pending(), 0);
}

#[test]
fn drawing_an_empty_queue_changes_nothing() {
    let figure = Figure::new("ab").unwrap();
    let mut canvas = Canvas::new((3, 1));
    canvas.add_drawing(&figure, Point::new(0, 0));
    canvas.draw(Point::new(0, 0));
    let blanks = vec![' ', ' '];
    assert_eq!(canvas.write_span(0, &blanks, 0, 1), Ok(()));
    assert_eq!(rows_of(&canvas), vec![" b "]);
    canvas.draw(Point::new(0, 0));
    assert_eq!(rows_of(&canvas), vec![" b "]);
    canvas.draw(Point::new(7, 7));
    assert_eq!(rows_of(&canvas), vec![" b "]);
}

#[test]
fn drawing_the_same_figure_again_changes_nothing() {
    let figure = Figure::new("abc123\nhej").unwrap();
    let mut canvas = Canvas::new((10, 2));
    canvas.add_drawing(&figure, Point::new(8, 0));
    canvas.draw(Point::new(0, 0));
    let once = rows_of(&canvas);
    canvas.add_drawing(&figure, Point::new(8, 0));
    canvas.draw(Point::new(0, 0));
    assert_eq!(rows_of(&canvas), once);
    assert_eq!(once, vec!["        ab", "        he"]);
}

#[test]
fn drawing_the_same_queue_again_changes_nothing() {
    let first = Figure::new("aaa\naaa").unwrap();
    let second = Figure::new("bb").unwrap();
    let mut canvas = Canvas::new((4, 2));
    canvas.add_drawing(&first, Point::new(0, 0));
    canvas.add_drawing(&second, Point::new(2, 1));
    canvas.draw(Point::new(0, 0));
    let once = rows_of(&canvas);
    canvas.add_drawing(&first, Point::new(0, 0));
    canvas.add_drawing(&second, Point::new(2, 1));
    canvas.draw(Point::new(0, 0));
    assert_eq!(rows_of(&canvas), once);
    assert_eq!(once, vec!["aaa ", "aabb"]);
}

#[test]
fn figure_draws_itself_without_the_queue() {
    let figure = Figure::new("ab\ncd").unwrap();
    let waiting = Figure::new("zz").unwrap();
    let mut canvas = Canvas::new((3, 2));
    canvas.add_drawing(&waiting, Point::new(0, 0));
    figure.draw(Point::new(1, 0), Point::new(0, 0), &mut canvas);
    assert_eq!(rows_of(&canvas), vec![" ab", " cd"]);
    assert_eq!(canvas.pending(), 1);
}

#[test]
fn span_is_written_over_the_cells_from_the_index_on() {
    let mut canvas = Canvas::new((3, 2));
    let text = vec!['a', 'b', 'c', 'd'];
    assert_eq!(canvas.write_span(2, &text, 1, 4), Ok(()));
    assert_eq!(rows_of(&canvas), vec!["  b", "cd "]);
    assert_eq!(canvas.write_span(6, &text, 2, 2), Ok(()));
    assert_eq!(canvas.write_span(0, &text, 0, 0), Ok(()));
    assert_eq!(rows_of(&canvas), vec!["  b", "cd "]);
}

#[test]
fn span_beyond_the_last_cell_is_refused_and_nothing_is_written() {
    let mut canvas = Canvas::new((3, 2));
    let text = vec!['a', 'b', 'c', 'd'];
    assert_eq!(canvas.write_span(3, &text, 0, 4), Err(CanvasError::OutOfBounds));
    assert_eq!(canvas.write_span(6, &text, 0, 1), Err(CanvasError::OutOfBounds));
    assert_eq!(canvas.write_span(7, &text, 0, 0), Err(CanvasError::OutOfBounds));
    assert_eq!(canvas.write_span(usize::MAX, &text, 0, 2), Err(CanvasError::OutOfBounds));
    assert_eq!(rows_of(&canvas), vec!["   ", "   "]);
}

#[test]
fn span_beyond_the_text_is_refused_and_nothing_is_written() {
    let mut canvas = Canvas::new((3, 2));
    let text = vec!['a', 'b', 'c', 'd'];
    assert_eq!(canvas.write_span(0, &text, 0, 5), Err(CanvasError::OutOfBounds));
    assert_eq!(canvas.write_span(0, &text, 3, 2), Err(CanvasError::OutOfBounds));
    assert_eq!(canvas.write_span(0, &text, 5, 5), Err(CanvasError::OutOfBounds));
    assert_eq!(rows_of(&canvas), vec!["   ", "   "]);
}

struct Dot(char);

impl Draw for Dot {
    fn draw<'a>(&self, pos: Point, offset: Point, canvas: &mut Canvas<'a>) {
        let index = (pos.y - offset.y) * i64::from(canvas.width()) + (pos.x - offset.x);
        if let Ok(index) = usize::try_from(index) {
            let _ = canvas.write_span(index, &[self.0], 0, 1);
        }
    }
}

#[test]
fn drawing_of_another_kind_writes_through_the_canvas() {
    let mut canvas = Canvas::new((3, 2));
    Dot('x').draw(Point::new(5, 8), Point::new(4, 7), &mut canvas);
    Dot('y').draw(Point::new(9, 9), Point::new(4, 7), &mut canvas);
    assert_eq!(rows_of(&canvas), vec!["   ", " x "]);
}

#[test]
fn figure_at_a_corner_shows_what_lies_inside() {
    assert_eq!(drawn((3, 3), "ab\ncd", (-1, -1), (0, 0)), vec!["d  ", "   ", "   "]);
    assert_eq!(drawn((3, 3), "ab\ncd", (2, 2), (0, 0)), vec!["   ", "   ", "  a"]);
    assert_eq!(drawn((3, 3), "ab\ncd", (2, -1), (0, 0)), vec!["  c", "   ", "   "]);
    assert_eq!(drawn((3, 3), "ab\ncd", (-1, 2), (0, 0)), vec!["   ", "   ", "b  "]);
}

#[test]
fn figure_that_touches_an_edge_from_outside_is_not_drawn() {
    let blank = vec!["   ", "   ", "   "];
    assert_eq!(drawn((3, 3), "ab\ncd", (-2, 0), (0, 0)), blank);
    assert_eq!(drawn((3, 3), "ab\ncd", (3, 0), (0, 0)), blank);
    assert_eq!(drawn((3, 3), "ab\ncd", (0, -2), (0, 0)), blank);
    assert_eq!(drawn((3, 3), "ab\ncd", (0, 3), (0, 0)), blank);
}

#[test]
fn figure_of_empty_lines_draws_nothing() {
    assert_eq!(drawn((2, 2), "\n", (0, 0), (0, 0)), vec!["  ", "  "]);
}

#[test]
fn line_shorter_than_the_widest_is_clipped_by_its_own_length() {
    assert_eq!(
        drawn((3, 3), "a\nbcdef\ng", (-2, 0), (0, 0)),
        vec!["   ", "def", "   "]
    );
}
