use resp_decoder::parser::parse_array_command;
use resp_decoder::parser::parse_bulk_string;
use resp_decoder::parser::parse_length;
use resp_decoder::parser::Command;
use resp_decoder::parser::DecodeError;
use resp_decoder::parser::ErrorKind;
use resp_decoder::scanner::Scanner;

#[test]
fn bulk_string_hello() {
    let mut scanner = Scanner::new("$5\r\nhello\r\n");
    let decoded = parse_bulk_string(&mut scanner);
    assert_eq!(decoded, Ok(String::from("hello")));
    assert_eq!(scanner.cursor(), 11);
    assert!(scanner.is_done());
}

#[test]
fn bulk_string_sunlight() {
    let mut scanner = Scanner::new("$8\r\nsunlight\r\n");
    let decoded = parse_bulk_string(&mut scanner);
    assert_eq!(decoded, Ok(String::from("sunlight")));
    assert_eq!(scanner.cursor(), 14);
}

#[test]
fn bulk_string_single_character() {
    let mut scanner = Scanner::new("$1\r\nx\r\n");
    let decoded = parse_bulk_string(&mut scanner);
    assert_eq!(decoded, Ok(String::from("x")));
    assert_eq!(scanner.cursor(), 7);
}

#[test]
fn bulk_string_two_digit_length() {
    let mut scanner = Scanner::new("$11\r\nwhattheheck\r\n");
    let decoded = parse_bulk_string(&mut scanner);
    assert_eq!(decoded, Ok(String::from("whattheheck")));
    assert_eq!(scanner.cursor(), 18);
}

#[test]
fn bulk_string_zero_length_boundary() {
    let mut scanner = Scanner::new("$0\r\n\r\n");
    let decoded = parse_bulk_string(&mut scanner);
    assert_eq!(decoded, Ok(String::new()));
    assert_eq!(scanner.cursor(), 6);
    assert!(scanner.is_done());
}

#[test]
fn bulk_string_data_may_hold_any_characters() {
    let mut scanner = Scanner::new("$4\r\n1\r$*\r\n");
    let decoded = parse_bulk_string(&mut scanner);
    assert_eq!(decoded, Ok(String::from("1\r$*")));
    assert_eq!(scanner.cursor(), 10);
}

#[test]
fn bulk_string_declared_length_mismatch() {
    let mut scanner = Scanner::new("$3\r\nhaha\r\n");
    let decoded = parse_bulk_string(&mut scanner);
    assert_eq!(
        decoded,
        Err(DecodeError { kind: ErrorKind::MissingTerminator, at: 7 })
    );
}

#[test]
fn bulk_string_wrong_sigil() {
    let mut scanner = Scanner::new("x5\r\nhello\r\n");
    let decoded = parse_bulk_string(&mut scanner);
    assert_eq!(
        decoded,
        Err(DecodeError { kind: ErrorKind::WrongSigil { found: 'x' }, at: 1 })
    );
}

#[test]
fn bulk_string_empty_input() {
    let mut scanner = Scanner::new("");
    let decoded = parse_bulk_string(&mut scanner);
    assert_eq!(
        decoded,
        Err(DecodeError { kind: ErrorKind::UnexpectedEndOfInput, at: 0 })
    );
    assert_eq!(scanner.cursor(), 0);
}

#[test]
fn bulk_string_length_field_absent() {
    let mut scanner = Scanner::new("$");
    let decoded = parse_bulk_string(&mut scanner);
    assert_eq!(
        decoded,
        Err(DecodeError { kind: ErrorKind::InvalidLength, at: 1 })
    );
}

#[test]
fn bulk_string_length_field_empty() {
    let mut scanner = Scanner::new("$\r\nab\r\n");
    let decoded = parse_bulk_string(&mut scanner);
    assert_eq!(
        decoded,
        Err(DecodeError { kind: ErrorKind::InvalidLength, at: 3 })
    );
}

#[test]
fn bulk_string_length_without_terminator() {
    let mut scanner = Scanner::new("$5");
    let decoded = parse_bulk_string(&mut scanner);
    assert_eq!(
        decoded,
        Err(DecodeError { kind: ErrorKind::MissingTerminator, at: 2 })
    );
}

#[test]
fn bulk_string_length_overflows() {
    let mut scanner = Scanner::new("$999999999999999999999999999999999999999\r\nx\r\n");
    let decoded = parse_bulk_string(&mut scanner);
    assert_eq!(decoded.unwrap_err().kind, ErrorKind::InvalidLength);
}

#[test]
fn bulk_string_data_runs_out() {
    let mut scanner = Scanner::new("$5\r\nab");
    let decoded = parse_bulk_string(&mut scanner);
    assert_eq!(
        decoded,
        Err(DecodeError { kind: ErrorKind::UnexpectedEndOfInput, at: 6 })
    );
}

#[test]
fn array_command_llen_mylist() {
    let mut scanner = Scanner::new("*2\r\n$4\r\nLLEN\r\n$6\r\nmylist\r\n");
    let decoded = parse_array_command(&mut scanner);
    let expected: Command = vec![String::from("LLEN"), String::from("mylist")];
    assert_eq!(decoded, Ok(expected));
    assert!(scanner.is_done());
}

#[test]
fn array_command_empty_array() {
    let mut scanner = Scanner::new("*0\r\n");
    let decoded = parse_array_command(&mut scanner);
    assert_eq!(decoded, Ok(Vec::new()));
    assert!(scanner.is_done());
}

#[test]
fn array_command_bad_second_element() {
    let mut scanner = Scanner::new("*2\r\n$4\r\nLLEN\r\n$5\r\nmylist\r\n");
    let decoded = parse_array_command(&mut scanner);
    assert_eq!(decoded.unwrap_err().kind, ErrorKind::InvalidElement);
}

#[test]
fn array_command_trailing_input() {
    let mut scanner = Scanner::new("*1\r\n$2\r\nok\r\n!");
    let decoded = parse_array_command(&mut scanner);
    assert_eq!(
        decoded,
        Err(DecodeError { kind: ErrorKind::TrailingInput, at: 13 })
    );
}

#[test]
fn array_command_wrong_sigil() {
    let mut scanner = Scanner::new("$4\r\nLLEN\r\n");
    let decoded = parse_array_command(&mut scanner);
    assert_eq!(
        decoded,
        Err(DecodeError { kind: ErrorKind::WrongSigil { found: '$' }, at: 1 })
    );
}

#[test]
fn array_command_empty_input() {
    let mut scanner = Scanner::new("");
    let decoded = parse_array_command(&mut scanner);
    assert_eq!(
        decoded,
        Err(DecodeError { kind: ErrorKind::UnexpectedEndOfInput, at: 0 })
    );
}

#[test]
fn array_command_nested_array_is_rejected() {
    let mut scanner = Scanner::new("*1\r\n*1\r\n$2\r\nok\r\n");
    let decoded = parse_array_command(&mut scanner);
    assert_eq!(decoded.unwrap_err().kind, ErrorKind::InvalidElement);
}

#[test]
fn failure_is_the_same_on_a_fresh_scanner() {
    let inputs = [
        "$3\r\nhaha\r\n",
        "*2\r\n$4\r\nLLEN\r\n$5\r\nmylist\r\n",
        "*1\r\n$2\r\nok\r\n!",
        "",
        "x",
    ];
    for input in inputs {
        let mut first = Scanner::new(input);
        let mut second = Scanner::new(input);
        let once = parse_array_command(&mut first);
        let again = parse_array_command(&mut second);
        assert_eq!(once, again);
        assert_eq!(first.cursor(), second.cursor());
    }
}

#[test]
fn length_field_plain() {
    let mut scanner = Scanner::new("123\r\n");
    assert_eq!(parse_length(&mut scanner), Ok(123));
    assert_eq!(scanner.cursor(), 5);
}

#[test]
fn length_field_leading_zeros() {
    let mut scanner = Scanner::new("0042\r\nrest");
    assert_eq!(parse_length(&mut scanner), Ok(42));
    assert_eq!(scanner.cursor(), 6);
}

#[test]
fn length_field_stops_at_first_non_digit() {
    let mut scanner = Scanner::new("12x\r\n");
    assert_eq!(
        parse_length(&mut scanner),
        Err(DecodeError { kind: ErrorKind::MissingTerminator, at: 2 })
    );
    assert_eq!(scanner.cursor(), 2);
}

#[test]
fn error_messages_are_not_empty() {
    let kinds = [
        ErrorKind::WrongSigil { found: '?' },
        ErrorKind::InvalidLength,
        ErrorKind::MissingTerminator,
        ErrorKind::UnexpectedEndOfInput,
        ErrorKind::InvalidElement,
        ErrorKind::TrailingInput,
    ];
    for kind in kinds {
        let error = DecodeError { kind, at: 7 };
        assert!(!error.message().is_empty());
        assert_eq!(error.at, 7);
    }
}
