use querybox::text_motion::{line_end, line_start, next_word_end, prev_word_start};

#[test]
fn test_line_start() {
    assert_eq!(line_start("hello\nworld", 8), 6); // inside "world"
    assert_eq!(line_start("hello\nworld", 3), 0); // inside "hello"
    assert_eq!(line_start("hello\nworld", 6), 6); // at start of "world"
    assert_eq!(line_start("hello", 3), 0); // single line
    assert_eq!(line_start("hello\nworld", 0), 0); // at document start
}

#[test]
fn test_line_end() {
    assert_eq!(line_end("hello\nworld", 3), 5); // inside "hello"
    assert_eq!(line_end("hello\nworld", 8), 11); // inside "world"
    assert_eq!(line_end("hello\nworld", 5), 5); // at end of "hello"
    assert_eq!(line_end("hello", 3), 5); // single line
}

#[test]
fn test_prev_word_start() {
    assert_eq!(prev_word_start("hello world", 11), 6); // after "world"
    assert_eq!(prev_word_start("hello world", 5), 0); // after "hello"
    assert_eq!(prev_word_start("hello  world", 12), 7); // after "world" with double space
    assert_eq!(prev_word_start("hello world", 0), 0); // at start
    assert_eq!(prev_word_start("hello world", 6), 0); // at start of "world"
}

#[test]
fn test_next_word_end() {
    assert_eq!(next_word_end("hello world", 0), 5); // before "hello"
    assert_eq!(next_word_end("hello world", 5), 11); // at space before "world"
    assert_eq!(next_word_end("hello  world", 0), 5); // before "hello" with double space
    assert_eq!(next_word_end("hello world", 11), 11); // at document end
}

#[test]
fn test_word_motion_over_multibyte_text() {
    // "héllo wörld": é and ö take two bytes each
    let text = "héllo wörld";
    assert_eq!(text.len(), 13);
    assert_eq!(next_word_end(text, 0), 6);
    assert_eq!(prev_word_start(text, 13), 7);
    assert_eq!(next_word_end(text, 6), 13);
}

#[test]
fn test_word_motion_punctuation_runs() {
    assert_eq!(prev_word_start("a.b(c)", 6), 5);
    assert_eq!(next_word_end("foo.bar", 3), 4);
    assert_eq!(prev_word_start("x  ..", 5), 3);
    assert_eq!(prev_word_start("a  ..", 5), 3);
    assert_eq!(next_word_end("..  a", 0), 2);
    assert_eq!(next_word_end("a.  b", 1), 2);
}

#[test]
fn test_line_bounds_multiline() {
    let text = "ab\n\ncd";
    assert_eq!(line_start(text, 3), 3);
    assert_eq!(line_end(text, 3), 3);
    assert_eq!(line_start(text, 6), 4);
    assert_eq!(line_end(text, 0), 2);
}
