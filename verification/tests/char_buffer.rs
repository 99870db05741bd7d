use txm::style::Style;
use txm::terminal::{CharBuf, TerminalBackend};

fn row(buf: &CharBuf, y: usize) -> String {
    (0..buf.width()).map(|x| buf.get(x, y).0).collect()
}

#[test]
fn terminal_backend_is_constructible() {
    let _a = TerminalBackend::new();
    let _b = TerminalBackend::default();
}

#[test]
fn new_buffer_is_blank_and_plain() {
    let buf = CharBuf::new(3, 2);
    assert_eq!((buf.width(), buf.height()), (3, 2));
    assert_eq!(row(&buf, 0), "   ");
    assert_eq!(row(&buf, 1), "   ");
    assert!(buf.get(2, 1).1.is_empty());
}

#[test]
fn set_writes_one_cell() {
    let mut buf = CharBuf::new(3, 2);
    buf.set(1, 1, 'x', Style::new().fg(4));
    assert_eq!(row(&buf, 0), "   ");
    assert_eq!(row(&buf, 1), " x ");
    assert_eq!(buf.get(1, 1).1.fg, Some(4));
    assert!(buf.get(0, 1).1.is_empty());
}

#[test]
fn set_outside_the_grid_does_nothing() {
    let mut buf = CharBuf::new(2, 2);
    buf.set(2, 0, 'x', Style::new());
    buf.set(0, 2, 'x', Style::new());
    assert_eq!(row(&buf, 0), "  ");
    assert_eq!(row(&buf, 1), "  ");
}

#[test]
fn fill_row_stops_at_the_edge() {
    let mut buf = CharBuf::new(4, 2);
    buf.fill_row(1, 1, 10, '─', Style::new().fg(2));
    assert_eq!(row(&buf, 0), "    ");
    assert_eq!(row(&buf, 1), " ───");
    assert_eq!(buf.get(3, 1).1.fg, Some(2));
    buf.fill_row(0, 0, 2, '=', Style::new());
    assert_eq!(row(&buf, 0), "==  ");
    buf.fill_row(5, 0, 4, '#', Style::new());
    assert_eq!(row(&buf, 1), " ───");
    buf.fill_row(0, 3, 1, '#', Style::new());
    assert_eq!(row(&buf, 0), "==  ");
}

#[test]
fn style_helpers() {
    assert!(Style::new().is_empty());
    assert!(!Style::new().fg(1).is_empty());
    assert_eq!(Style::default().fg, None);
}

#[test]
fn to_text_writes_rows_with_newlines() {
    let mut buf = CharBuf::new(2, 2);
    buf.set(0, 0, 'a', Style::new());
    buf.set(1, 1, 'b', Style::new().fg(3));
    assert_eq!(buf.to_text(), "a \n \x1b[38;5;3mb\x1b[0m\n");
    assert_eq!(CharBuf::new(0, 0).to_text(), "");
}

#[test]
fn styled_cells_are_wrapped_in_escape_sequences() {
    let mut buf = CharBuf::new(3, 1);
    buf.set(0, 0, 'x', Style::new().fg(200));
    buf.set(1, 0, 'y', Style::new().fg(42));
    buf.set(2, 0, 'z', Style::new());
    assert_eq!(buf.to_text(), "\x1b[38;5;200mx\x1b[0m\x1b[38;5;42my\x1b[0mz\n");
    let mut one = CharBuf::new(1, 1);
    one.set(0, 0, 'q', Style::new().fg(0));
    assert_eq!(one.to_text(), "\x1b[38;5;0mq\x1b[0m\n");
}
