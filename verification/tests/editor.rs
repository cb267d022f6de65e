use osjeff_core::editor::{Editor, COLS, ROWS};
use osjeff_core::keymap::Key;

fn type_str(e: &mut Editor, s: &str) {
    for &b in s.as_bytes() {
        e.on_key(Key::Char(b));
    }
}

#[test]
fn starts_with_one_empty_line() {
    let e = Editor::new();
    assert_eq!(e.rows(), 1);
    assert_eq!(e.line(0), b"");
    assert_eq!(e.cursor(), (0, 0));
    assert!(!e.dirty());
}

#[test]
fn insert_advances_cursor_and_marks_dirty() {
    let mut e = Editor::new();
    type_str(&mut e, "hello");
    assert_eq!(e.line(0), b"hello");
    assert_eq!(e.cursor(), (5, 0));
    assert!(e.dirty());
}

#[test]
fn insert_in_middle() {
    let mut e = Editor::new();
    type_str(&mut e, "ac");
    e.on_key(Key::Left);
    e.on_key(Key::Char(b'b'));
    assert_eq!(e.line(0), b"abc");
    assert_eq!(e.cursor(), (2, 0));
}

#[test]
fn line_full_blocks_insert() {
    let mut e = Editor::new();
    for _ in 0..(COLS + 5) {
        e.on_key(Key::Char(b'x'));
    }
    assert_eq!(e.line(0).len(), COLS);
}

#[test]
fn newline_splits_line() {
    let mut e = Editor::new();
    type_str(&mut e, "abcdef");
    e.on_key(Key::Home);
    e.on_key(Key::Right);
    e.on_key(Key::Right);
    e.on_key(Key::Right); // caret after "abc"
    e.on_key(Key::Enter);
    assert_eq!(e.rows(), 2);
    assert_eq!(e.line(0), b"abc");
    assert_eq!(e.line(1), b"def");
    assert_eq!(e.cursor(), (0, 1));
}

#[test]
fn newline_at_end_creates_empty_line() {
    let mut e = Editor::new();
    type_str(&mut e, "hi");
    e.on_key(Key::Enter);
    assert_eq!(e.rows(), 2);
    assert_eq!(e.line(1), b"");
    assert_eq!(e.cursor(), (0, 1));
}

#[test]
fn newline_respects_row_cap() {
    let mut e = Editor::new();
    for _ in 0..(ROWS + 3) {
        e.on_key(Key::Enter);
    }
    assert_eq!(e.rows(), ROWS);
}

#[test]
fn backspace_within_line() {
    let mut e = Editor::new();
    type_str(&mut e, "abc");
    e.on_key(Key::Backspace);
    assert_eq!(e.line(0), b"ab");
    assert_eq!(e.cursor(), (2, 0));
}

#[test]
fn backspace_at_line_start_joins_previous() {
    let mut e = Editor::new();
    type_str(&mut e, "ab");
    e.on_key(Key::Enter);
    type_str(&mut e, "cd");
    e.on_key(Key::Home); // caret at start of line 1
    e.on_key(Key::Backspace);
    assert_eq!(e.rows(), 1);
    assert_eq!(e.line(0), b"abcd");
    assert_eq!(e.cursor(), (2, 0));
}

#[test]
fn backspace_at_origin_is_noop() {
    let mut e = Editor::new();
    e.on_key(Key::Backspace);
    assert_eq!(e.rows(), 1);
    assert_eq!(e.cursor(), (0, 0));
}

#[test]
fn delete_within_line() {
    let mut e = Editor::new();
    type_str(&mut e, "abc");
    e.on_key(Key::Home);
    e.on_key(Key::Delete);
    assert_eq!(e.line(0), b"bc");
    assert_eq!(e.cursor(), (0, 0));
}

#[test]
fn delete_at_line_end_joins_next() {
    let mut e = Editor::new();
    type_str(&mut e, "ab");
    e.on_key(Key::Enter);
    type_str(&mut e, "cd");
    e.on_key(Key::Up);
    e.on_key(Key::End); // end of line 0
    e.on_key(Key::Delete);
    assert_eq!(e.rows(), 1);
    assert_eq!(e.line(0), b"abcd");
}

#[test]
fn delete_at_buffer_end_is_noop() {
    let mut e = Editor::new();
    type_str(&mut e, "x");
    e.on_key(Key::Delete); // caret already at end, last line
    assert_eq!(e.line(0), b"x");
    assert_eq!(e.rows(), 1);
}

#[test]
fn left_wraps_to_previous_line_end() {
    let mut e = Editor::new();
    type_str(&mut e, "ab");
    e.on_key(Key::Enter);
    type_str(&mut e, "cd");
    e.on_key(Key::Home);
    e.on_key(Key::Left);
    assert_eq!(e.cursor(), (2, 0));
}

#[test]
fn right_wraps_to_next_line_start() {
    let mut e = Editor::new();
    type_str(&mut e, "ab");
    e.on_key(Key::Enter);
    type_str(&mut e, "cd");
    e.on_key(Key::Up);
    e.on_key(Key::End); // (2,0)
    e.on_key(Key::Right);
    assert_eq!(e.cursor(), (0, 1));
}

#[test]
fn up_down_clamp_column() {
    let mut e = Editor::new();
    type_str(&mut e, "longline");
    e.on_key(Key::Enter);
    type_str(&mut e, "x"); // line1 = "x"
    e.on_key(Key::End); // (1,1)
    e.on_key(Key::Up); // to line0, clamp col to ... line0 len 8, col was 1
    assert_eq!(e.cursor(), (1, 0));
}

#[test]
fn down_clamps_to_shorter_line() {
    let mut e = Editor::new();
    type_str(&mut e, "abcdef");
    e.on_key(Key::Enter);
    type_str(&mut e, "xy");
    e.on_key(Key::Up);
    e.on_key(Key::End); // (6,0)
    e.on_key(Key::Down); // clamp to len 2
    assert_eq!(e.cursor(), (2, 1));
}

#[test]
fn up_at_top_and_down_at_bottom_noop() {
    let mut e = Editor::new();
    e.on_key(Key::Up);
    assert_eq!(e.cursor(), (0, 0));
    e.on_key(Key::Down);
    assert_eq!(e.cursor(), (0, 0));
}

#[test]
fn tab_inserts_two_spaces() {
    let mut e = Editor::new();
    e.on_key(Key::Tab);
    assert_eq!(e.line(0), b"  ");
    assert_eq!(e.cursor(), (2, 0));
}

#[test]
fn esc_is_noop() {
    let mut e = Editor::new();
    e.on_key(Key::Esc);
    assert_eq!(e.cursor(), (0, 0));
    assert!(!e.dirty());
}

#[test]
fn join_caps_at_cols() {
    // Build line0 near full, line1 with content; backspace-join must cap.
    let mut e = Editor::new();
    for _ in 0..COLS {
        e.on_key(Key::Char(b'a'));
    }
    e.on_key(Key::Enter); // row cap fine
    type_str(&mut e, "bb");
    e.on_key(Key::Home);
    e.on_key(Key::Backspace); // join line1 into full line0
    assert_eq!(e.line(0).len(), COLS); // capped, not overflowed
}
