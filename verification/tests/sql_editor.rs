use querybox::query::highlight::HighlightSpan;
use querybox::ui::sql_editor::{
    build_text_runs, offset_from_utf16, offset_to_utf16, selected_text, SqlEditor, TextRun,
};

fn span(start: usize, end: usize, color: u32) -> HighlightSpan {
    HighlightSpan { start, end, color }
}

#[test]
fn test_build_text_runs_empty_line() {
    let runs = build_text_runs("", 0, &[]);
    assert_eq!(runs.len(), 1);
    assert_eq!(runs[0].len, 0);
}

#[test]
fn test_build_text_runs_no_spans() {
    let runs = build_text_runs("hello", 0, &[]);
    assert_eq!(runs.len(), 1);
    assert_eq!(runs[0].len, 5);
    assert_eq!(runs[0].color, None);
}

#[test]
fn test_build_text_runs_single_span_full_line() {
    let blue = 0x89b4faff;
    let spans = vec![span(0, 5, blue)];
    let runs = build_text_runs("hello", 0, &spans);
    assert_eq!(runs.len(), 1);
    assert_eq!(runs[0].len, 5);
    assert_eq!(runs[0].color, Some(blue));
}

#[test]
fn test_build_text_runs_span_with_gap_before_and_after() {
    // line: "  hi  " (6 bytes), span covers bytes 2..4
    let blue = 0x89b4faff;
    let spans = vec![span(2, 4, blue)];
    let runs = build_text_runs("  hi  ", 0, &spans);
    assert_eq!(runs.len(), 3);
    assert_eq!(runs[0].len, 2); // gap before
    assert_eq!(runs[0].color, None);
    assert_eq!(runs[1].len, 2); // span
    assert_eq!(runs[1].color, Some(blue));
    assert_eq!(runs[2].len, 2); // gap after
    assert_eq!(runs[2].color, None);
    assert_eq!(runs.iter().map(|r| r.len).sum::<usize>(), 6);
}

#[test]
fn test_build_text_runs_span_on_second_line() {
    // Full content: "ab\ncd" — second line "cd" starts at byte 3
    let green = 0xa6e3a1ff;
    let spans = vec![span(3, 5, green)];
    let runs = build_text_runs("cd", 3, &spans);
    assert_eq!(runs.len(), 1);
    assert_eq!(runs[0].len, 2);
    assert_eq!(runs[0].color, Some(green));
}

#[test]
fn test_build_text_runs_span_clipped_to_line() {
    // Span covers bytes 0..10 but line is only 5 bytes
    let blue = 0x89b4faff;
    let spans = vec![span(0, 10, blue)];
    let runs = build_text_runs("hello", 0, &spans);
    assert_eq!(runs.len(), 1);
    assert_eq!(runs[0].len, 5);
    assert_eq!(runs.iter().map(|r| r.len).sum::<usize>(), 5);
}

#[test]
fn test_build_text_runs_lens_sum_to_line_len() {
    let blue = 0x89b4faff;
    let green = 0xa6e3a1ff;
    // "SELECT 42" — span 0..6 (keyword), span 7..9 (number)
    let spans = vec![span(0, 6, blue), span(7, 9, green)];
    let runs = build_text_runs("SELECT 42", 0, &spans);
    assert_eq!(runs.iter().map(|r| r.len).sum::<usize>(), 9);
    assert_eq!(
        runs,
        vec![
            TextRun { len: 6, color: Some(blue) },
            TextRun { len: 1, color: None },
            TextRun { len: 2, color: Some(green) },
        ]
    );
}

#[test]
fn test_selected_sql_no_selection() {
    assert_eq!(selected_text("SELECT 1", 0, 0), None);
}

#[test]
fn test_selected_sql_with_selection() {
    assert_eq!(selected_text("SELECT 1", 0, 6), Some("SELECT"));
}

fn buffer(text: &str, cursor: usize) -> SqlEditor {
    let mut b = SqlEditor::new();
    b.set_content(text.to_string());
    b.move_to(cursor);
    b
}

#[test]
fn test_editor_typing_and_backspace() {
    let mut b = SqlEditor::new();
    b.paste("SELEC");
    b.paste("T 1");
    assert_eq!(b.content, "SELECT 1");
    assert_eq!(b.cursor_offset(), 8);
    b.backspace();
    b.backspace();
    assert_eq!(b.content, "SELECT");
    b.enter();
    b.tab();
    assert_eq!(b.content, "SELECT\n  ");
    assert_eq!(b.cursor_offset(), 9);
}

#[test]
fn test_editor_backspace_removes_whole_grapheme() {
    // "e" followed by a combining acute accent is one grapheme cluster of 3 bytes
    let mut b = buffer("ae\u{301}", 4);
    b.backspace();
    assert_eq!(b.content, "a");
    b.backspace();
    assert_eq!(b.content, "");
    b.backspace();
    assert_eq!(b.content, "");
}

#[test]
fn test_editor_delete_and_arrows() {
    let mut b = buffer("héllo", 0);
    b.right();
    assert_eq!(b.cursor_offset(), 1);
    b.right();
    assert_eq!(b.cursor_offset(), 3);
    b.delete();
    assert_eq!(b.content, "hélo");
    b.left();
    b.left();
    assert_eq!(b.cursor_offset(), 0);
    b.left();
    assert_eq!(b.cursor_offset(), 0);
}

#[test]
fn test_editor_selection_and_cut() {
    let mut b = buffer("SELECT 1", 0);
    b.select_to(6);
    assert_eq!(b.selected_sql(), Some("SELECT"));
    assert_eq!(b.cut(), Some("SELECT".to_string()));
    assert_eq!(b.content, " 1");
    assert_eq!(b.cut(), None);
    let mut c = buffer("abc", 3);
    c.select_to(1);
    assert!(c.selection_reversed);
    assert_eq!(c.selected_range, (1, 3));
    c.select_all();
    assert_eq!(c.selected_range, (0, 3));
}

#[test]
fn test_editor_vertical_motion_and_line_edges() {
    let mut b = buffer("abcd\nxy\nlonger", 3);
    // The column is clamped to the line and snapped back to the start of the
    // last grapheme at or before it: column 2 of "xy" lands on "y".
    b.down();
    assert_eq!(b.cursor_offset(), 6);
    b.down();
    assert_eq!(b.cursor_offset(), 9); // column 1 of "longer"
    b.down();
    assert_eq!(b.cursor_offset(), 14); // last line: end of text
    b.up();
    assert_eq!(b.cursor_offset(), 6);
    b.home();
    assert_eq!(b.cursor_offset(), 5);
    b.end();
    assert_eq!(b.cursor_offset(), 7);
    b.up();
    b.up();
    assert_eq!(b.cursor_offset(), 0);
}

#[test]
fn test_editor_utf16_offsets() {
    let s = "a😀b";
    assert_eq!(offset_to_utf16(s, 1), 1);
    assert_eq!(offset_to_utf16(s, 5), 3);
    assert_eq!(offset_from_utf16(s, 3), 5);
    assert_eq!(offset_from_utf16(s, 4), 6);
    assert_eq!(offset_from_utf16(s, 10), 6);
}

#[test]
fn test_editor_replace_and_mark() {
    let mut b = buffer("ab", 1);
    b.replace_and_mark_text_in_range(None, "xy", Some((1, 1)));
    assert_eq!(b.content, "axyb");
    assert_eq!(b.marked_range, Some((1, 3)));
    assert_eq!(b.selected_range, (2, 2));
    b.replace_text_in_range(None, "Z");
    assert_eq!(b.content, "aZb");
    assert_eq!(b.marked_range, None);
}
