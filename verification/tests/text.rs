use text_editor::cursor::CursorState;
use text_editor::error::get_window_size;
use text_editor::error::Error;
use text_editor::terminal::parse_cursor_report;
use text_editor::text::bytes_of;
use text_editor::text::copy_range;
use text_editor::text::is_blank;
use text_editor::text::is_text;
use text_editor::text::push_bytes;
use text_editor::text::push_centered;
use text_editor::text::push_right_aligned;
use text_editor::text::push_spaces;
use text_editor::text::push_text;
use text_editor::text::same_bytes;
use text_editor::text::trimmed;
use text_editor::text::trimmed_end;
use text_editor::text::trimmed_start;

#[test]
fn trimming() {
    assert_eq!(trimmed(b"  a b \t\r\n"), b"a b");
    assert_eq!(trimmed(b"a"), b"a");
    assert_eq!(trimmed(b" \t "), b"");
    assert_eq!(trimmed(b""), b"");
    assert_eq!(trimmed_start(b"  a "), b"a ");
    assert_eq!(trimmed_end(b"  a "), b"  a");
    assert_eq!(trimmed(b"\x0b\x0ca\x0b"), b"a");
    assert_eq!(trimmed(b"\x00a\x00"), b"\x00a\x00");
}

#[test]
fn blanks_are_the_ascii_white_space() {
    for b in 0..=255u8 {
        assert_eq!(is_blank(b), (b as char).is_whitespace() && b < 0x80, "{}", b);
    }
}

#[test]
fn copying_and_comparing() {
    assert_eq!(copy_range(b"abcdef", 2, 4), b"cd");
    assert_eq!(copy_range(b"abcdef", 3, 3), b"");
    assert_eq!(copy_range(b"abcdef", 0, 6), b"abcdef");
    assert!(same_bytes(b"ab", b"ab"));
    assert!(!same_bytes(b"ab", b"ac"));
    assert!(!same_bytes(b"ab", b"abc"));
    assert!(same_bytes(b"", b""));
    assert!(is_text(b"tab_stop", "tab_stop"));
    assert!(!is_text(b"tab_stop ", "tab_stop"));
    assert!(is_text("\u{2502}".as_bytes(), "\u{2502}"));
}

#[test]
fn putting_together() {
    let mut out = b"a".to_vec();
    push_bytes(&mut out, b"bc");
    push_text(&mut out, "d\u{e9}");
    push_spaces(&mut out, 2);
    push_spaces(&mut out, 0);
    assert_eq!(out, "abcd\u{e9}  ".as_bytes());
    assert_eq!(bytes_of("xy"), b"xy");
}

#[test]
fn right_alignment() {
    let mut out = Vec::new();
    push_right_aligned(&mut out, b"12", 5);
    push_right_aligned(&mut out, b"345", 3);
    push_right_aligned(&mut out, b"6789", 2);
    push_right_aligned(&mut out, b"", 1);
    assert_eq!(out, b"   123456789 ");
}

#[test]
fn centring() {
    let mut out = Vec::new();
    push_centered(&mut out, b"ab", 6);
    assert_eq!(out, b"  ab  ");
    let mut out = Vec::new();
    push_centered(&mut out, b"ab", 5);
    assert_eq!(out, b" ab  ");
    assert_eq!(out, format!("{:^1$.1$}", "ab", 5).as_bytes());
    let mut out = Vec::new();
    push_centered(&mut out, b"abcdef", 4);
    assert_eq!(out, b"abcd");
    let mut out = Vec::new();
    push_centered(&mut out, b"abc", 0);
    assert_eq!(out, b"");
}

#[test]
fn scroll_keeps_the_cursor_in_the_window() {
    let mut cursor = CursorState { x: 0, y: 30, roff: 0, coff: 0 };
    cursor.scroll(100, 10, 20);
    assert_eq!(cursor, CursorState { x: 0, y: 30, roff: 21, coff: 81 });
    cursor.y = 5;
    cursor.scroll(3, 10, 20);
    assert_eq!(cursor, CursorState { x: 0, y: 5, roff: 5, coff: 3 });
}

#[test]
fn scroll_leaves_a_window_that_shows_the_cursor() {
    let mut cursor = CursorState { x: 2, y: 7, roff: 3, coff: 10 };
    cursor.scroll(15, 10, 20);
    assert_eq!(cursor, CursorState { x: 2, y: 7, roff: 3, coff: 10 });
}

#[test]
fn scroll_in_a_window_without_rows_or_columns() {
    let mut cursor = CursorState { x: 0, y: 7, roff: 3, coff: 10 };
    cursor.scroll(4, 0, 0);
    assert_eq!((cursor.roff, cursor.coff), (7, 4));
    let mut cursor = CursorState { x: 0, y: 7, roff: 9, coff: 1 };
    cursor.scroll(4, 1, 1);
    assert_eq!((cursor.roff, cursor.coff), (7, 4));
}

#[test]
fn move_to_next_line_goes_to_the_start() {
    let mut cursor = CursorState::new();
    cursor.x = 5;
    cursor.roff = 2;
    cursor.move_to_next_line();
    assert_eq!(cursor, CursorState { x: 0, y: 1, roff: 2, coff: 0 });
}

#[test]
fn window_size_must_have_rows_and_columns() {
    assert!(matches!(get_window_size(Some((24, 80))), Ok((24, 80))));
    assert!(matches!(get_window_size(Some((1, 1))), Ok((1, 1))));
    assert!(matches!(get_window_size(Some((0, 80))), Err(Error::InvalidWindowSize)));
    assert!(matches!(get_window_size(Some((24, 0))), Err(Error::InvalidWindowSize)));
    assert!(matches!(get_window_size(None), Err(Error::InvalidWindowSize)));
}

#[test]
fn io_errors_become_editor_errors() {
    let err = std::io::Error::new(std::io::ErrorKind::NotFound, "gone");
    match Error::from(err) {
        Error::Io(inner) => assert_eq!(inner.kind(), std::io::ErrorKind::NotFound),
        other => panic!("{:?}", other),
    }
}

#[test]
fn cursor_report_tells_row_and_column() {
    assert!(matches!(parse_cursor_report(b"\x1b[24;80R"), Ok((24, 80))));
    assert!(matches!(parse_cursor_report(b"\x1b[1;1R"), Ok((1, 1))));
    assert!(matches!(parse_cursor_report(b"\x1b[0;999R"), Ok((0, 999))));
}

#[test]
fn malformed_cursor_report_is_an_error() {
    for report in [
        &b""[..],
        b"\x1b",
        b"\x1b[",
        b"[24;80R",
        b"\x1bO24;80R",
        b"\x1b[24;80",
        b"\x1b[2480R",
        b"\x1b[24;R",
        b"\x1b[;80R",
        b"\x1b[24;80Rx",
        b"\x1b[24;8R0R",
        b"\x1b[2a;80R",
        b"\x1b[24;80;1R",
        b"\x1b[99999999999999999999999;1R",
    ] {
        assert!(matches!(parse_cursor_report(report), Err(Error::CursorPosition)), "{:?}", report);
    }
}
