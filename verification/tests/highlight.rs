use querybox::query::highlight::{
    highlight, spans_of_tokens, SqlToken, TokenKind, COMMENT_COLOR, KEYWORD_COLOR, NUMBER_COLOR, OPERATOR_COLOR, STRING_COLOR,
};

#[test]
fn test_empty_returns_no_spans() {
    assert!(highlight("").is_empty());
}

#[test]
fn test_keyword_is_blue() {
    let spans = highlight("SELECT");
    assert_eq!(spans.len(), 1);
    assert_eq!(&"SELECT"[spans[0].start..spans[0].end], "SELECT");
    assert_eq!(spans[0].color, 0x89b4faff);
}

#[test]
fn test_string_is_green() {
    let spans = highlight("'hello'");
    assert_eq!(spans.len(), 1);
    assert_eq!(spans[0].color, 0xa6e3a1ff);
}

#[test]
fn test_number_is_peach() {
    let spans = highlight("42");
    assert_eq!(spans.len(), 1);
    assert_eq!(spans[0].color, 0xfab387ff);
}

#[test]
fn test_identifier_has_no_span() {
    let spans = highlight("users");
    assert!(spans.is_empty());
}

#[test]
fn test_single_line_comment_is_muted() {
    let spans = highlight("-- a comment");
    assert_eq!(spans.len(), 1);
    assert_eq!(spans[0].color, 0x6c7086ff);
}

#[test]
fn test_block_comment_is_muted() {
    let spans = highlight("/* block */");
    assert_eq!(spans.len(), 1);
    assert_eq!(spans[0].color, 0x6c7086ff);
}

#[test]
fn test_eq_operator_is_sky() {
    let spans = highlight("=");
    assert_eq!(spans.len(), 1);
    assert_eq!(spans[0].color, 0x89dcebff);
}

#[test]
fn test_multiline_keywords() {
    let sql = "SELECT id\nFROM users";
    let spans = highlight(sql);
    let has_select = spans
        .iter()
        .any(|s| &sql[s.start..s.end] == "SELECT" && s.color == KEYWORD_COLOR);
    let has_from = spans
        .iter()
        .any(|s| &sql[s.start..s.end] == "FROM" && s.color == KEYWORD_COLOR);
    assert!(has_select, "SELECT not found in spans");
    assert!(has_from, "FROM not found in spans");
}

#[test]
fn test_spans_within_bounds() {
    let sql = "SELECT id FROM users WHERE active = 1";
    let spans = highlight(sql);
    for s in &spans {
        assert!(s.end <= sql.len(), "span {}..{} out of bounds (sql len {})", s.start, s.end, sql.len());
        assert!(s.start <= s.end, "inverted span {}..{}", s.start, s.end);
    }
}

#[test]
fn test_malformed_sql_does_not_panic() {
    let _ = highlight("SELECT !!! @@@ ###");
}

#[test]
fn test_highlight_multibyte_text_positions() {
    let sql = "SELECT 'héllo' = 1";
    let spans = highlight(sql);
    let texts: Vec<(&str, u32)> = spans.iter().map(|s| (&sql[s.start..s.end], s.color)).collect();
    assert_eq!(texts[0], ("SELECT", KEYWORD_COLOR));
    assert!(texts.contains(&("'héllo'", STRING_COLOR)));
    assert!(texts.contains(&("=", OPERATOR_COLOR)));
    assert!(texts.contains(&("1", NUMBER_COLOR)));
    let _ = COMMENT_COLOR;
}

#[test]
fn test_spans_come_in_text_order() {
    let sql = "SELECT 'a', 42\nFROM t -- note\nWHERE x >= 1 /* c */";
    let spans = highlight(sql);
    assert!(!spans.is_empty());
    for w in spans.windows(2) {
        assert!(w[0].end <= w[1].start);
    }
    assert_eq!(spans[0].start, 0);
}

#[test]
fn test_spans_of_given_tokens() {
    let sql = "SELECT 1\n-- x";
    let toks = vec![
        SqlToken { kind: TokenKind::Word { keyword: true }, line: 1, column: 1 },
        SqlToken { kind: TokenKind::Other, line: 1, column: 7 },
        SqlToken { kind: TokenKind::Number, line: 1, column: 8 },
        SqlToken { kind: TokenKind::Other, line: 1, column: 9 },
        SqlToken { kind: TokenKind::SingleLineComment, line: 2, column: 1 },
    ];
    let spans = spans_of_tokens(sql, &toks);
    assert_eq!(spans.len(), 3);
    assert_eq!((spans[0].start, spans[0].end, spans[0].color), (0, 6, KEYWORD_COLOR));
    assert_eq!((spans[1].start, spans[1].end, spans[1].color), (7, 8, NUMBER_COLOR));
    assert_eq!((spans[2].start, spans[2].end, spans[2].color), (9, 13, COMMENT_COLOR));
}
