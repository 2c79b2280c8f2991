use resp_decoder::scanner::Scanner;

fn advance_by(scanner: &mut Scanner, steps: usize) {
    for _ in 0..steps {
        assert!(scanner.pop().is_some());
    }
}

#[test]
fn peek_at_various_positions() {
    let mut scanner = Scanner::new("lorem ipsum");
    assert_eq!(scanner.peek(), Some('l'));
    advance_by(&mut scanner, 5);
    assert_eq!(scanner.peek(), Some(' '));
    advance_by(&mut scanner, 5);
    assert_eq!(scanner.peek(), Some('m'));
    advance_by(&mut scanner, 1);
    assert_eq!(scanner.peek(), None);
    assert!(scanner.is_done());
}

#[test]
fn peek_never_moves_the_cursor() {
    let scanner = Scanner::new("abc");
    assert_eq!(scanner.cursor(), 0);
    assert_eq!(scanner.peek(), Some('a'));
    assert_eq!(scanner.peek(), Some('a'));
    assert_eq!(scanner.cursor(), 0);
}

#[test]
fn pop_advances_one_at_a_time() {
    let mut scanner = Scanner::new("ab");
    assert_eq!(scanner.pop(), Some('a'));
    assert_eq!(scanner.cursor(), 1);
    assert_eq!(scanner.pop(), Some('b'));
    assert_eq!(scanner.cursor(), 2);
    assert!(scanner.is_done());
    assert_eq!(scanner.pop(), None);
    assert_eq!(scanner.cursor(), 2);
}

#[test]
fn scan_matches_one_past_the_cursor() {
    let mut scanner = Scanner::new("lorem ipsum");
    assert!(scanner.scan("orem"));
    assert_eq!(scanner.cursor(), 5);
}

#[test]
fn scan_mismatch_leaves_cursor_unchanged() {
    let mut scanner = Scanner::new("lorem ipsum");
    assert!(!scanner.scan("oram"));
    assert_eq!(scanner.cursor(), 0);
}

#[test]
fn scan_after_advancing() {
    let mut scanner = Scanner::new("lorem ipsum");
    advance_by(&mut scanner, 5);
    assert!(scanner.scan("ipsum"));
    assert_eq!(scanner.cursor(), 11);
    assert!(scanner.is_done());
}

#[test]
fn scan_crlf_in_a_command() {
    let mut scanner = Scanner::new("*2\r\n$4\r\nLLEN\r\n$6\r\nmylist\r\n");
    advance_by(&mut scanner, 5);
    assert!(scanner.scan("\r\n"));
    assert_eq!(scanner.cursor(), 8);
}

#[test]
fn scan_past_the_end_fails() {
    let mut scanner = Scanner::new("ab");
    assert!(!scanner.scan("bc"));
    assert_eq!(scanner.cursor(), 0);
    advance_by(&mut scanner, 2);
    assert!(!scanner.scan(""));
    assert_eq!(scanner.cursor(), 2);
}

#[test]
fn cursor_is_non_decreasing() {
    let mut scanner = Scanner::new("*2\r\n$4\r\nLLEN\r\n$6\r\nmylist\r\n");
    let mut last = scanner.cursor();
    for _ in 0..40 {
        scanner.peek();
        assert!(scanner.cursor() >= last);
        last = scanner.cursor();
        scanner.scan("LL");
        assert!(scanner.cursor() >= last);
        last = scanner.cursor();
        scanner.pop();
        assert!(scanner.cursor() >= last);
        last = scanner.cursor();
    }
    assert!(scanner.is_done());
}
