use asciicanvas::{CanvasError, Figure, FigureInstruction, Point};

fn span(text: &str) -> FigureInstruction {
    FigureInstruction::Draw(text.chars().collect())
}

fn skip(y: i64) -> FigureInstruction {
    FigureInstruction::SkipTo(Point::new(0, y))
}

#[test]
fn empty_text_is_refused() {
    assert_eq!(Figure::new("").err(), Some(CanvasError::EmptyInput));
}

#[test]
fn single_line_has_its_length_and_height_one() {
    let figure = Figure::new("abc123").unwrap();
    assert_eq!(figure.dim(), Point::new(6, 1));
    assert_eq!(figure.instructions(), &vec![span("abc123")]);
}

#[test]
fn single_character_is_a_figure() {
    let figure = Figure::new("x").unwrap();
    assert_eq!(figure.dim(), Point::new(1, 1));
    assert_eq!(figure.instructions(), &vec![span("x")]);
}

#[test]
fn height_is_one_more_than_the_line_breaks() {
    assert_eq!(Figure::new("a\nb\nc").unwrap().dim().y, 3);
    assert_eq!(Figure::new("a\nb").unwrap().dim().y, 2);
    assert_eq!(Figure::new("a\n").unwrap().dim().y, 2);
    assert_eq!(Figure::new("\n\n\n").unwrap().dim().y, 4);
}

#[test]
fn width_is_that_of_the_longest_line() {
    assert_eq!(Figure::new("abc123\nhej").unwrap().dim(), Point::new(6, 2));
    assert_eq!(Figure::new("a\nbcd\nef").unwrap().dim(), Point::new(3, 3));
    assert_eq!(Figure::new("\n").unwrap().dim(), Point::new(0, 2));
}

#[test]
fn lines_are_drawn_in_turn_with_a_move_between_them() {
    let figure = Figure::new("abc123\nhej\n!").unwrap();
    assert_eq!(
        figure.instructions(),
        &vec![span("abc123"), skip(1), span("hej"), skip(2), span("!")]
    );
}

#[test]
fn text_that_ends_in_a_line_break_has_an_empty_last_line() {
    let figure = Figure::new("abc\n").unwrap();
    assert_eq!(figure.dim(), Point::new(3, 2));
    assert_eq!(figure.instructions(), &vec![span("abc"), skip(1), span("")]);
}

#[test]
fn text_that_begins_with_a_line_break_has_an_empty_first_line() {
    let figure = Figure::new("\n /\\_/\\\n( o.o ) \n > ^ < ").unwrap();
    assert_eq!(figure.dim(), Point::new(8, 4));
    assert_eq!(
        figure.instructions(),
        &vec![
            span(""),
            skip(1),
            span(" /\\_/\\"),
            skip(2),
            span("( o.o ) "),
            skip(3),
            span(" > ^ < "),
        ]
    );
}

#[test]
fn carriage_return_before_a_line_feed_belongs_to_the_line_break() {
    let figure = Figure::new("ab\r\ncde\r\n").unwrap();
    assert_eq!(figure.dim(), Point::new(3, 3));
    assert_eq!(
        figure.instructions(),
        &vec![span("ab"), skip(1), span("cde"), skip(2), span("")]
    );
}

#[test]
fn only_one_carriage_return_is_taken_from_a_line() {
    let figure = Figure::new("ab\r\r\nc").unwrap();
    assert_eq!(figure.instructions(), &vec![span("ab\r"), skip(1), span("c")]);
    assert_eq!(figure.dim(), Point::new(3, 2));
}

#[test]
fn carriage_return_without_a_line_feed_stays_in_the_line() {
    let figure = Figure::new("ab\rcd\r").unwrap();
    assert_eq!(figure.dim(), Point::new(6, 1));
    assert_eq!(figure.instructions(), &vec![span("ab\rcd\r")]);
}

#[test]
fn length_is_counted_in_characters() {
    let figure = Figure::new("äöü\n→").unwrap();
    assert_eq!(figure.dim(), Point::new(3, 2));
    assert_eq!(figure.instructions(), &vec![span("äöü"), skip(1), span("→")]);
}
