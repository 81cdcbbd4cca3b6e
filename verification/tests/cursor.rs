use olympus::cursor::{utf8_len, CodeCursor};

#[test]
fn test_pop_until_chr_found() {
    let mut cursor = CodeCursor::new("abc\ndef");
    let until_c = cursor.pop_until_chr('c').unwrap();
    assert_eq!(until_c.len(), 2);
    assert_eq!(until_c[1].value, 'b');
    assert_eq!(cursor.peek_chr(), Some('\n'));
}

#[test]
fn test_pop_until_chr_not_found() {
    let mut cursor = CodeCursor::new("abc\ndef");
    assert!(cursor.pop_until_chr('x').is_none());
    assert!(cursor.is_eof());
}

#[test]
fn test_skip_whitespace() {
    let mut cursor = CodeCursor::new("   abc");
    cursor.skip_whitespace();
    assert_eq!(cursor.peek_chr(), Some('a'));
}

#[test]
fn test_skip_while_predicate() {
    let mut cursor = CodeCursor::new("123abc");
    cursor.skip_while(char::is_numeric);
    assert_eq!(cursor.peek_chr(), Some('a'));
}

#[test]
fn test_is_eof() {
    let cursor = CodeCursor::new("");
    assert!(cursor.is_eof());
}

#[test]
fn test_peek_and_pop() {
    let mut cursor = CodeCursor::new("a");
    assert_eq!(cursor.peek_chr(), Some('a'));
    assert_eq!(cursor.pop().unwrap().value, 'a');
    assert!(cursor.is_eof());
}

#[test]
fn test_pop_if() {
    let mut cursor = CodeCursor::new("abc");
    assert_eq!(cursor.pop_if('a').unwrap().value, 'a');
    assert!(cursor.pop_if('a').is_none());
}

#[test]
fn points_know_their_place() {
    let cursor = CodeCursor::new("aé\nb✓c");
    let places: Vec<(char, usize, usize, usize)> =
        cursor.inner.iter().map(|p| (p.value, p.line, p.line_idx, p.file_idx)).collect();
    assert_eq!(
        places,
        vec![
            ('a', 0, 0, 0),
            ('é', 0, 1, 1),
            ('\n', 0, 2, 3),
            ('b', 1, 0, 4),
            ('✓', 1, 1, 5),
            ('c', 1, 2, 8),
        ]
    );
}

#[test]
fn characters_take_one_to_four_bytes() {
    assert_eq!(utf8_len('a'), 1);
    assert_eq!(utf8_len('é'), 2);
    assert_eq!(utf8_len('✓'), 3);
    assert_eq!(utf8_len('🦀'), 4);
    for c in ['\0', '\u{7f}', '\u{80}', '\u{7ff}', '\u{800}', '\u{ffff}', '\u{10000}', '\u{10ffff}'] {
        assert_eq!(utf8_len(c), c.len_utf8());
    }
}

#[test]
fn peeking_ahead() {
    let cursor = CodeCursor::new("ab");
    assert_eq!(cursor.peek_chr_n(0), Some('a'));
    assert_eq!(cursor.peek_chr_n(1), Some('b'));
    assert_eq!(cursor.peek_chr_n(2), None);
    assert_eq!(cursor.peek_chr_n(usize::MAX), None);
    assert_eq!(cursor.peek_n(1).unwrap().file_idx, 1);
    assert_eq!(cursor.peek().unwrap().value, 'a');
}

#[test]
fn a_line_feed_ends_the_search() {
    let mut cursor = CodeCursor::new("ab\ncd");
    assert!(cursor.pop_until_chr_or_break('d').is_none());
    assert_eq!(cursor.peek_chr(), Some('\n'));
    let mut cursor = CodeCursor::new("ab\ncd");
    let found = cursor.pop_until_chr_or_break('b').unwrap();
    assert_eq!(found.len(), 1);
    assert_eq!(found[0].value, 'a');
    assert_eq!(cursor.peek_chr(), Some('\n'));
    let mut cursor = CodeCursor::new("abc");
    assert!(cursor.pop_until_chr_or_break('x').is_none());
    assert!(cursor.is_eof());
}

#[test]
fn popping_while_a_predicate_holds() {
    let mut cursor = CodeCursor::new("123abc");
    let digits = cursor.pop_while(|c| c.is_ascii_digit());
    assert_eq!(digits.iter().map(|p| p.value).collect::<String>(), "123");
    assert_eq!(cursor.peek_chr(), Some('a'));
    let rest = cursor.pop_while(|_| true);
    assert_eq!(rest.len(), 3);
    assert!(cursor.is_eof());
    assert!(cursor.pop().is_none());
}

#[test]
fn unicode_white_space_is_skipped() {
    let mut cursor = CodeCursor::new("\u{2003}\t\n x");
    cursor.skip_whitespace();
    assert_eq!(cursor.peek_chr(), Some('x'));
}
