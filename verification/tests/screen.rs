use text_editor::config::Config;
use text_editor::editor::Editor;
use text_editor::keys::AKey;

fn editor_with(content: &[u8], wsize: (usize, usize)) -> Editor {
    let mut editor = Editor::new(Config::default(), wsize, 0);
    editor.load(content);
    editor
}

fn screen(editor: &Editor) -> String {
    let mut buffer = Vec::new();
    editor.draw_rows(&mut buffer);
    String::from_utf8(buffer).unwrap()
}

const NUM: &str = "\x1b[38;5;240m";
const BAR: &str = " \u{2502}\x1b[m";

#[test]
fn left_padding_shows_the_line_number() {
    let editor = editor_with(b"a", (24, 80));
    let mut buffer = b"x".to_vec();
    editor.draw_left_padding(&mut buffer, Some(7));
    assert_eq!(String::from_utf8(buffer).unwrap(), format!("x{NUM}7{BAR}"));
    let mut buffer = Vec::new();
    editor.draw_left_padding(&mut buffer, None);
    assert_eq!(String::from_utf8(buffer).unwrap(), format!("{NUM}~{BAR}"));
}

#[test]
fn left_padding_is_right_aligned() {
    let mut editor = editor_with(b"a", (24, 80));
    editor.ln_pad = 5;
    let mut buffer = Vec::new();
    editor.draw_left_padding(&mut buffer, Some(42));
    assert_eq!(String::from_utf8(buffer).unwrap(), format!("{NUM} 42{BAR}"));
    let mut buffer = Vec::new();
    editor.draw_left_padding(&mut buffer, Some(12345));
    assert_eq!(String::from_utf8(buffer).unwrap(), format!("{NUM}12345{BAR}"));
}

#[test]
fn left_padding_is_empty_without_line_numbers() {
    let editor = editor_with(b"a", (24, 10));
    assert_eq!(editor.ln_pad, 0);
    let mut buffer = Vec::new();
    editor.draw_left_padding(&mut buffer, Some(1));
    assert!(buffer.is_empty());
}

#[test]
fn draw_rows_of_a_short_document() {
    let editor = editor_with(b"ab\ncd", (5, 80));
    let expected = format!(
        "\x1b[K{NUM}1{BAR}ab\x1b[m\r\n\x1b[K{NUM}2{BAR}cd\x1b[m\r\n\x1b[K{NUM}~{BAR}\r\n"
    );
    assert_eq!(screen(&editor), expected);
}

#[test]
fn draw_rows_follows_the_offsets() {
    let mut editor = editor_with(b"abcdef\nghijkl\nmnopqr", (4, 80));
    editor.cursor.roff = 1;
    editor.cursor.coff = 2;
    editor.screen_cols = 3;
    let expected = format!("\x1b[K{NUM}2{BAR}ijk\x1b[m\r\n\x1b[K{NUM}3{BAR}opq\x1b[m\r\n");
    assert_eq!(screen(&editor), expected);
}

#[test]
fn draw_rows_welcomes_on_an_empty_document() {
    let editor = editor_with(b"", (8, 40));
    let text = screen(&editor);
    let lines: Vec<&str> = text.split("\r\n").collect();
    assert_eq!(lines.len(), 7);
    assert_eq!(lines[0], format!("\x1b[K{NUM}1{BAR}\x1b[m"));
    assert_eq!(lines[1], format!("\x1b[K{NUM}~{BAR}"));
    assert_eq!(lines[2], format!("\x1b[K{NUM}~{BAR}{:^37}", "Rust Text Editor 0.1.0"));
    assert_eq!(lines[3], format!("\x1b[K{NUM}~{BAR}"));
    assert_eq!(lines[6], "");
}

#[test]
fn draw_rows_does_not_welcome_on_a_document_with_text() {
    let editor = editor_with(b"a", (8, 40));
    assert!(!screen(&editor).contains("Rust Text Editor"));
    let editor = editor_with(b"\n", (8, 40));
    assert!(!screen(&editor).contains("Rust Text Editor"));
}

#[test]
fn draw_rows_cuts_the_welcome_message_to_the_window() {
    let mut editor = editor_with(b"", (8, 40));
    editor.screen_cols = 9;
    let text = screen(&editor);
    let lines: Vec<&str> = text.split("\r\n").collect();
    assert_eq!(lines[2], format!("\x1b[K{NUM}~{BAR}Rust Text"));
}

#[test]
fn draw_rows_of_a_window_without_rows() {
    let editor = editor_with(b"ab", (2, 80));
    assert_eq!(screen(&editor), "");
}

#[test]
fn draw_rows_behind_a_far_offset() {
    let mut editor = editor_with(b"ab", (4, 80));
    editor.cursor.roff = usize::MAX;
    assert_eq!(screen(&editor), format!("\x1b[K{NUM}~{BAR}\r\n").repeat(2));
}

#[test]
fn scroll_after_moves_keeps_the_cursor_on_the_screen() {
    let mut editor = editor_with(b"1\n2\n3\n4\n5\n6\n7\n8", (5, 80));
    for _ in 0..6 {
        editor.move_cursor(&AKey::Down);
    }
    let rx = editor.rx();
    let (rows, cols) = (editor.screen_rows, editor.screen_cols);
    editor.cursor.scroll(rx, rows, cols);
    assert_eq!(editor.cursor.roff, 4);
    assert!(editor.cursor.roff <= editor.cursor.y && editor.cursor.y < editor.cursor.roff + rows);
    let text = screen(&editor);
    assert!(text.starts_with(&format!("\x1b[K{NUM}5{BAR}5")));
}
