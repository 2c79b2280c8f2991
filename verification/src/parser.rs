//! The RESP command decoder: length-prefixed bulk strings
//! (`$<length>\r\n<data>\r\n`) and arrays of bulk strings
//! (`*<count>\r\n` followed by `count` bulk strings), decoded by recursive
//! descent over a [`Scanner`].
//!
//! The grammar is modelled by the spec functions [`spec_parse_length`],
//! [`spec_parse_bulk`], [`spec_parse_elements`] and [`spec_parse_array`]:
//! each maps the input sequence and a start position to the exact outcome,
//! either the decoded value together with the position one past what it
//! consumed, or the kind and position of the failure. The executable
//! functions are proved to return precisely that outcome and to leave the
//! scanner's cursor precisely where the model says; the cursor never moves
//! backward. Decoding is thereby a pure function of the buffered input:
//! repeating it on a fresh scanner gives the same result, success or error.

use vstd::prelude::*;
use vstd::arithmetic::div_mod::lemma_fundamental_div_mod;
use vstd::arithmetic::div_mod::lemma_mod_division_less_than_divisor;

use crate::scanner::Scanner;
use crate::scanner::scan_match_at;

verus! {

/// A decoded command: the arguments of one client request, in the order
/// they were declared in the array (the first is the command name).
pub type Command = Vec<String>;

/// Why a decode failed. Every failure aborts the whole decode; no partial
/// result is ever returned.
#[derive(Clone, Copy, Debug, PartialEq, Eq, Structural)]
pub enum ErrorKind {
    /// The first character of an element is not the expected `$` or `*`;
    /// carries the character that was found instead.
    WrongSigil { found: char },
    /// A length or count field is missing, contains no digits, or does not
    /// fit the integer type.
    InvalidLength,
    /// A required `\r\n` is absent after a length field or after the data
    /// of a bulk string.
    MissingTerminator,
    /// The input ran out before the declared number of data characters was
    /// consumed.
    UnexpectedEndOfInput,
    /// A bulk-string decode failed while decoding an array.
    InvalidElement,
    /// Bytes remain after the declared array elements were fully consumed.
    TrailingInput,
}

/// A decode failure: its kind and the cursor position at the point of
/// failure.
#[derive(Clone, Copy, Debug, PartialEq, Eq, Structural)]
pub struct DecodeError {
    pub kind: ErrorKind,
    pub at: usize,
}

impl DecodeError {
    /// A short human-readable description of the failure.
    pub fn message(&self) -> (text: String)
        ensures
            text@.len() > 0,
    {
        match self.kind {
            ErrorKind::WrongSigil { .. } => {
                proof {
                    reveal_strlit("unexpected sigil character");
                }
                "unexpected sigil character".to_owned()
            },
            ErrorKind::InvalidLength => {
                proof {
                    reveal_strlit("missing or malformed length field");
                }
                "missing or malformed length field".to_owned()
            },
            ErrorKind::MissingTerminator => {
                proof {
                    reveal_strlit("expected CRLF terminator");
                }
                "expected CRLF terminator".to_owned()
            },
            ErrorKind::UnexpectedEndOfInput => {
                proof {
                    reveal_strlit("unexpected end of input");
                }
                "unexpected end of input".to_owned()
            },
            ErrorKind::InvalidElement => {
                proof {
                    reveal_strlit("expected a bulk string element");
                }
                "expected a bulk string element".to_owned()
            },
            ErrorKind::TrailingInput => {
                proof {
                    reveal_strlit("trailing input after the array");
                }
                "trailing input after the array".to_owned()
            },
        }
    }
}

/// The outcome of parsing one element of the grammar at some position:
/// either the decoded value and the position one past what was consumed, or
/// the kind of failure and the cursor position at the point of failure.
pub enum Parsed<V> {
    Success { value: V, next: int },
    Failure { kind: ErrorKind, at: int },
}

/// An ASCII decimal digit, `'0'` through `'9'`.
pub open spec fn is_digit_char(c: char) -> bool {
    48 <= c as u32 && c as u32 <= 57
}

/// The numeric value of one ASCII digit.
pub open spec fn digit_value(c: char) -> int {
    c as u32 as int - 48
}

/// Every character of `digits` is an ASCII decimal digit.
pub open spec fn all_digits(digits: Seq<char>) -> bool {
    forall|j: int| 0 <= j < digits.len() ==> is_digit_char(#[trigger] digits[j])
}

/// The base-10 value of a sequence of ASCII digits, most significant first.
pub open spec fn digits_value(digits: Seq<char>) -> int
    decreases digits.len(),
{
    if digits.len() == 0 {
        0
    } else {
        10 * digits_value(digits.drop_last()) + digit_value(digits.last())
    }
}

/// The first position at or after `i` holding a non-digit, or the length of
/// `s` if digits run to the end.
pub open spec fn digits_end(s: Seq<char>, i: int) -> int
    decreases s.len() - i,
{
    if i < 0 || i >= s.len() {
        i
    } else if is_digit_char(s[i]) {
        digits_end(s, i + 1)
    } else {
        i
    }
}

/// A CRLF terminator stands at position `i`.
pub open spec fn crlf_at(s: Seq<char>, i: int) -> bool {
    &&& i + 2 <= s.len()
    &&& s[i] == '\r'
    &&& s[i + 1] == '\n'
}

/// The length field of the grammar, at position `i` of `s`: one or more
/// digits, terminated by CRLF. On success the value is the base-10 reading
/// of the digits and `next` stands one past the CRLF. Fails with
/// `InvalidLength` when the field is absent (the input is exhausted), empty
/// (no digit before the CRLF) or too large for `usize`, and with
/// `MissingTerminator` when the first non-digit is not the start of a CRLF.
pub open spec fn spec_parse_length(s: Seq<char>, i: int) -> Parsed<int> {
    if i >= s.len() {
        Parsed::Failure { kind: ErrorKind::InvalidLength, at: i }
    } else {
        let e = digits_end(s, i);
        if !crlf_at(s, e) {
            Parsed::Failure { kind: ErrorKind::MissingTerminator, at: e }
        } else if e == i {
            Parsed::Failure { kind: ErrorKind::InvalidLength, at: e + 2 }
        } else if digits_value(s.subrange(i, e)) > usize::MAX as int {
            Parsed::Failure { kind: ErrorKind::InvalidLength, at: e + 2 }
        } else {
            Parsed::Success { value: digits_value(s.subrange(i, e)), next: e + 2 }
        }
    }
}

/// A bulk string at position `i` of `s`: the sigil `$`, a length field,
/// exactly that many data characters, then CRLF. On success the value is
/// the data, which may hold any characters: the decoder trusts the declared
/// length and does not inspect the data.
pub open spec fn spec_parse_bulk(s: Seq<char>, i: int) -> Parsed<Seq<char>> {
    if i >= s.len() {
        Parsed::Failure { kind: ErrorKind::UnexpectedEndOfInput, at: i }
    } else if s[i] != '$' {
        Parsed::Failure { kind: ErrorKind::WrongSigil { found: s[i] }, at: i + 1 }
    } else {
        match spec_parse_length(s, i + 1) {
            Parsed::Failure { kind, at } => Parsed::Failure { kind, at },
            Parsed::Success { value: len, next } => {
                if next + len > s.len() {
                    Parsed::Failure {
                        kind: ErrorKind::UnexpectedEndOfInput,
                        at: s.len() as int,
                    }
                } else if !crlf_at(s, next + len) {
                    Parsed::Failure { kind: ErrorKind::MissingTerminator, at: next + len }
                } else {
                    Parsed::Success { value: s.subrange(next, next + len), next: next + len + 2 }
                }
            },
        }
    }
}

/// Exactly `n` bulk strings in sequence, starting at position `i` of `s`.
/// On success the value holds the `n` data strings in order. A failing
/// element fails the whole sequence with `InvalidElement`, at the position
/// where the element's decode failed.
pub open spec fn spec_parse_elements(s: Seq<char>, i: int, n: int) -> Parsed<Seq<Seq<char>>>
    decreases n,
{
    if n <= 0 {
        Parsed::Success { value: Seq::empty(), next: i }
    } else {
        match spec_parse_bulk(s, i) {
            Parsed::Failure { kind, at } => Parsed::Failure {
                kind: ErrorKind::InvalidElement,
                at,
            },
            Parsed::Success { value, next } => {
                match spec_parse_elements(s, next, n - 1) {
                    Parsed::Failure { kind, at } => Parsed::Failure { kind, at },
                    Parsed::Success { value: rest, next: end } => Parsed::Success {
                        value: seq![value] + rest,
                        next: end,
                    },
                }
            },
        }
    }
}

/// A whole command at position `i` of `s`: the sigil `*`, a count field,
/// exactly that many bulk strings, and nothing after them. On success the
/// value holds the decoded strings in declared order and `next` is the
/// length of `s`: a successful decode always consumes the entire input.
pub open spec fn spec_parse_array(s: Seq<char>, i: int) -> Parsed<Seq<Seq<char>>> {
    if i >= s.len() {
        Parsed::Failure { kind: ErrorKind::UnexpectedEndOfInput, at: i }
    } else if s[i] != '*' {
        Parsed::Failure { kind: ErrorKind::WrongSigil { found: s[i] }, at: i + 1 }
    } else {
        match spec_parse_length(s, i + 1) {
            Parsed::Failure { kind, at } => Parsed::Failure { kind, at },
            Parsed::Success { value: count, next } => {
                match spec_parse_elements(s, next, count) {
                    Parsed::Failure { kind, at } => Parsed::Failure { kind, at },
                    Parsed::Success { value: items, next: end } => {
                        if end < s.len() {
                            Parsed::Failure { kind: ErrorKind::TrailingInput, at: end + 1 }
                        } else {
                            Parsed::Success { value: items, next: end }
                        }
                    },
                }
            },
        }
    }
}

/// `digits_end` returns `e` exactly when digits fill `[i, e)` and `e` is
/// the end of the input or holds a non-digit.
pub proof fn lemma_digits_end_is(s: Seq<char>, i: int, e: int)
    requires
        0 <= i <= e <= s.len(),
        forall|j: int| i <= j < e ==> is_digit_char(s[j]),
        e < s.len() ==> !is_digit_char(s[e]),
    ensures
        digits_end(s, i) == e,
    decreases e - i,
{
    if i < e {
        lemma_digits_end_is(s, i + 1, e);
    }
}

/// What is known of `digits_end` at any position: it does not run past the
/// end, everything before it is a digit, and it stops only at the end of
/// the input or at a non-digit.
pub proof fn lemma_digits_end_props(s: Seq<char>, i: int)
    requires
        0 <= i <= s.len(),
    ensures
        i <= digits_end(s, i) <= s.len(),
        forall|j: int| i <= j < digits_end(s, i) ==> is_digit_char(s[j]),
        digits_end(s, i) < s.len() ==> !is_digit_char(s[digits_end(s, i)]),
    decreases s.len() - i,
{
    if i < s.len() && is_digit_char(s[i]) {
        lemma_digits_end_props(s, i + 1);
    }
}

/// The value of a digit sequence is never negative.
pub proof fn lemma_digits_value_nonneg(digits: Seq<char>)
    requires
        forall|j: int| 0 <= j < digits.len() ==> is_digit_char(digits[j]),
    ensures
        digits_value(digits) >= 0,
    decreases digits.len(),
{
    if digits.len() > 0 {
        lemma_digits_value_nonneg(digits.drop_last());
    }
}

/// A successful sequence of `n` element parses yields exactly `n` values.
pub proof fn lemma_elements_count(s: Seq<char>, i: int, n: int)
    requires
        n >= 0,
    ensures
        (match spec_parse_elements(s, i, n) {
            Parsed::Success { value, next } => value.len() == n && next >= i,
            Parsed::Failure { .. } => true,
        }),
    decreases n,
{
    if n > 0 {
        match spec_parse_bulk(s, i) {
            Parsed::Failure { .. } => {},
            Parsed::Success { value, next } => {
                lemma_elements_count(s, next, n - 1);
                lemma_bulk_consumes(s, i);
            },
        }
    }
}

/// A successful bulk-string parse never moves backward.
pub proof fn lemma_bulk_consumes(s: Seq<char>, i: int)
    ensures
        (match spec_parse_bulk(s, i) {
            Parsed::Success { value, next } => next >= i,
            Parsed::Failure { .. } => true,
        }),
{
    if i < s.len() && s[i] == '$' {
        match spec_parse_length(s, i + 1) {
            Parsed::Failure { .. } => {},
            Parsed::Success { value: len, next } => {
                if i + 1 < s.len() {
                    lemma_digits_end_props(s, i + 1);
                    let e = digits_end(s, i + 1);
                    if crlf_at(s, e) && e > i + 1 && digits_value(
                        s.subrange(i + 1, e),
                    ) <= usize::MAX as int {
                        lemma_digits_value_nonneg(s.subrange(i + 1, e));
                    }
                }
            },
        }
    }
}

/// A CRLF terminator at `i` is exactly what the decoder's two-step check
/// sees: `'\r'` at the cursor, then a successful `scan` of `"\n"`.
proof fn lemma_crlf_is_scan(s: Seq<char>, i: int)
    requires
        0 <= i,
    ensures
        crlf_at(s, i) <==> (i < s.len() && s[i] == '\r' && scan_match_at(s, i, "\n"@)),
{
    reveal_strlit("\n");
    if crlf_at(s, i) {
        assert(s.subrange(i + 1, i + 2) =~= "\n"@);
    }
    if i < s.len() && s[i] == '\r' && scan_match_at(s, i, "\n"@) {
        assert(s.subrange(i + 1, i + 2)[0] == s[i + 1]);
    }
}

/// Decodes an unsigned decimal length field terminated by CRLF: one or more
/// digits read through the scanner, then `\r\n`. Returns the value of the
/// digits, or the error the grammar model assigns; the cursor ends exactly
/// where the model says and never moves backward.
pub fn parse_length(scanner: &mut Scanner) -> (length: Result<usize, DecodeError>)
    requires
        old(scanner).wf(),
    ensures
        final(scanner).wf(),
        final(scanner).input() == old(scanner).input(),
        final(scanner).at() >= old(scanner).at(),
        (match spec_parse_length(old(scanner).input(), old(scanner).at()) {
            Parsed::Success { value, next } => {
                &&& length matches Ok(n) && n as int == value
                &&& final(scanner).at() == next
            },
            Parsed::Failure { kind, at } => {
                &&& length matches Err(e) && e.kind == kind && e.at as int == at
                &&& final(scanner).at() == at
            },
        }),
{
    let ghost s = old(scanner).input();
    let ghost i0 = old(scanner).at();
    let start = scanner.cursor();
    let mut value: usize = 0;
    let mut overflow = false;
    loop
        invariant
            scanner.input() == s,
            i0 <= scanner.at() <= s.len(),
            i0 == start as int,
            forall|j: int| i0 <= j < scanner.at() ==> is_digit_char(s[j]),
            !overflow ==> value as int == digits_value(s.subrange(i0, scanner.at())),
            overflow ==> digits_value(s.subrange(i0, scanner.at())) > usize::MAX as int,
        ensures
            scanner.input() == s,
            i0 <= scanner.at() <= s.len(),
            scanner.at() == s.len() || !is_digit_char(s[scanner.at()]),
            forall|j: int| i0 <= j < scanner.at() ==> is_digit_char(s[j]),
            !overflow ==> value as int == digits_value(s.subrange(i0, scanner.at())),
            overflow ==> digits_value(s.subrange(i0, scanner.at())) > usize::MAX as int,
        decreases s.len() - scanner.at(),
    {
        let next = match scanner.peek() {
            Some(c) => c,
            None => { break ; },
        };
        let code = next as u32;
        if code < 48 || code > 57 {
            break ;
        }
        let digit = (code - 48) as usize;
        let ghost at_before = scanner.at();
        let ghost run = s.subrange(i0, at_before);
        let ghost extended = s.subrange(i0, at_before + 1);
        proof {
            assert(extended.drop_last() =~= run);
            assert(extended.last() == s[at_before]);
            lemma_fundamental_div_mod(usize::MAX as int, 10);
            lemma_mod_division_less_than_divisor(usize::MAX as int, 10);
            if !overflow {
                lemma_digits_value_nonneg(run);
            }
        }
        proof {
            assert(digits_value(extended) == 10 * digits_value(run) + digit_value(s[at_before]));
            assert(digit_value(s[at_before]) == digit as int);
        }
        if !overflow {
            if value > usize::MAX / 10 || (value == usize::MAX / 10 && digit > usize::MAX % 10) {
                overflow = true;
                proof {
                    assert(digits_value(extended) > usize::MAX as int);
                }
            } else {
                proof {
                    assert(10 * (value as int) + (digit as int) <= usize::MAX as int);
                }
                value = value * 10 + digit;
                proof {
                    assert(value as int == digits_value(extended));
                }
            }
        } else {
            proof {
                assert(digits_value(extended) > usize::MAX as int);
            }
        }
        let _ = scanner.pop();
    }
    let digits_done = scanner.cursor();
    proof {
        lemma_digits_end_is(s, i0, scanner.at());
    }
    if digits_done == start && scanner.is_done() {
        return Err(DecodeError { kind: ErrorKind::InvalidLength, at: digits_done });
    }
    proof {
        lemma_crlf_is_scan(s, digits_done as int);
        reveal_strlit("\n");
    }
    let mut terminated = false;
    match scanner.peek() {
        Some(c) => {
            if c == '\r' {
                if scanner.scan("\n") {
                    terminated = true;
                }
            }
        },
        None => {},
    }
    if !terminated {
        return Err(DecodeError { kind: ErrorKind::MissingTerminator, at: digits_done });
    }
    if digits_done == start {
        return Err(DecodeError { kind: ErrorKind::InvalidLength, at: scanner.cursor() });
    }
    if overflow {
        return Err(DecodeError { kind: ErrorKind::InvalidLength, at: scanner.cursor() });
    }
    Ok(value)
}

/// Relies on `String::push`: appends exactly the one character at the end.
#[verifier::external_body]
fn push_char(text: &mut String, c: char)
    ensures
        final(text)@ == old(text)@.push(c),
{
    text.push(c);
}

/// Decodes one bulk string, `$<length>\r\n<data>\r\n`, from the scanner's
/// current position: the `$` sigil, a length field, exactly `length` data
/// characters (any characters; the declared length is trusted), and a CRLF
/// terminator. Returns exactly the data the grammar model assigns, or its
/// error; the cursor ends exactly where the model says — on success, one
/// past the final CRLF — and never moves backward.
pub fn parse_bulk_string(scanner: &mut Scanner) -> (parsed: Result<String, DecodeError>)
    requires
        old(scanner).wf(),
    ensures
        final(scanner).wf(),
        final(scanner).input() == old(scanner).input(),
        final(scanner).at() >= old(scanner).at(),
        (match spec_parse_bulk(old(scanner).input(), old(scanner).at()) {
            Parsed::Success { value, next } => {
                &&& parsed matches Ok(data) && data@ == value
                &&& final(scanner).at() == next
            },
            Parsed::Failure { kind, at } => {
                &&& parsed matches Err(e) && e.kind == kind && e.at as int == at
                &&& final(scanner).at() == at
            },
        }),
{
    let ghost s = old(scanner).input();
    let ghost i0 = old(scanner).at();
    let sigil = match scanner.pop() {
        Some(c) => c,
        None => {
            return Err(
                DecodeError { kind: ErrorKind::UnexpectedEndOfInput, at: scanner.cursor() },
            );
        },
    };
    if sigil != '$' {
        return Err(
            DecodeError { kind: ErrorKind::WrongSigil { found: sigil }, at: scanner.cursor() },
        );
    }
    let length = match parse_length(scanner) {
        Ok(n) => n,
        Err(error) => {
            return Err(error);
        },
    };
    let ghost body_start = scanner.at();
    let mut data = String::new();
    let mut taken: usize = 0;
    proof {
        assert(data@ =~= s.subrange(body_start, body_start));
    }
    while taken < length
        invariant
            s == old(scanner).input(),
            i0 == old(scanner).at(),
            scanner.wf(),
            scanner.input() == s,
            taken <= length,
            scanner.at() == body_start + taken,
            data@ == s.subrange(body_start, body_start + taken),
            0 <= i0 < s.len(),
            i0 < body_start,
            s[i0] == '$',
            spec_parse_length(s, i0 + 1) == (Parsed::Success {
                value: length as int,
                next: body_start,
            }),
        decreases length - taken,
    {
        let c = match scanner.pop() {
            Some(c) => c,
            None => {
                return Err(
                    DecodeError { kind: ErrorKind::UnexpectedEndOfInput, at: scanner.cursor() },
                );
            },
        };
        push_char(&mut data, c);
        taken += 1;
        proof {
            assert(data@ =~= s.subrange(body_start, body_start + taken));
        }
    }
    let data_end = scanner.cursor();
    proof {
        lemma_crlf_is_scan(s, data_end as int);
        reveal_strlit("\n");
    }
    let mut terminated = false;
    match scanner.peek() {
        Some(c) => {
            if c == '\r' {
                if scanner.scan("\n") {
                    terminated = true;
                }
            }
        },
        None => {},
    }
    if !terminated {
        return Err(DecodeError { kind: ErrorKind::MissingTerminator, at: data_end });
    }
    Ok(data)
}

/// Decodes one whole command, `*<count>\r\n` followed by exactly `count`
/// bulk strings with nothing after them. On success the returned command
/// holds the decoded strings in declared order and the whole input has
/// been consumed. A failing element surfaces as `InvalidElement`, input
/// left over after the declared elements as `TrailingInput`; no partial
/// command is ever returned. The cursor ends exactly where the grammar
/// model says and never moves backward.
pub fn parse_array_command(scanner: &mut Scanner) -> (parsed: Result<Command, DecodeError>)
    requires
        old(scanner).wf(),
    ensures
        final(scanner).wf(),
        final(scanner).input() == old(scanner).input(),
        final(scanner).at() >= old(scanner).at(),
        (match spec_parse_array(old(scanner).input(), old(scanner).at()) {
            Parsed::Success { value, next } => {
                &&& parsed matches Ok(command) && command.deep_view() == value
                &&& final(scanner).at() == next
            },
            Parsed::Failure { kind, at } => {
                &&& parsed matches Err(e) && e.kind == kind && e.at as int == at
                &&& final(scanner).at() == at
            },
        }),
{
    let ghost s = old(scanner).input();
    let ghost i0 = old(scanner).at();
    let sigil = match scanner.pop() {
        Some(c) => c,
        None => {
            return Err(
                DecodeError { kind: ErrorKind::UnexpectedEndOfInput, at: scanner.cursor() },
            );
        },
    };
    if sigil != '*' {
        return Err(
            DecodeError { kind: ErrorKind::WrongSigil { found: sigil }, at: scanner.cursor() },
        );
    }
    let count = match parse_length(scanner) {
        Ok(n) => n,
        Err(error) => {
            return Err(error);
        },
    };
    let ghost elems_start = scanner.at();
    let mut command: Command = Vec::new();
    let mut decoded: usize = 0;
    proof {
        lemma_elements_count(s, elems_start, count as int);
        match spec_parse_elements(s, elems_start, count as int) {
            Parsed::Success { value: items, next: end } => {
                assert(command.deep_view() =~= items.take(0));
                assert(items.skip(0) =~= items);
            },
            Parsed::Failure { .. } => {},
        }
    }
    while decoded < count
        invariant
            s == old(scanner).input(),
            i0 == old(scanner).at(),
            scanner.wf(),
            scanner.input() == s,
            decoded <= count,
            i0 <= scanner.at(),
            0 <= i0 < s.len(),
            s[i0] == '*',
            spec_parse_length(s, i0 + 1) == (Parsed::Success {
                value: count as int,
                next: elems_start,
            }),
            (match spec_parse_elements(s, elems_start, count as int) {
                Parsed::Success { value: items, next: end } => {
                    &&& items.len() == count
                    &&& command.deep_view() == items.take(decoded as int)
                    &&& spec_parse_elements(s, scanner.at(), count as int - decoded as int)
                        == (Parsed::Success { value: items.skip(decoded as int), next: end })
                },
                Parsed::Failure { kind, at } => spec_parse_elements(
                    s,
                    scanner.at(),
                    count as int - decoded as int,
                ) == (Parsed::<Seq<Seq<char>>>::Failure { kind, at }),
            }),
        decreases count - decoded,
    {
        let ghost k = decoded as int;
        let ghost at_before = scanner.at();
        let element = match parse_bulk_string(scanner) {
            Ok(text) => text,
            Err(error) => {
                return Err(DecodeError { kind: ErrorKind::InvalidElement, at: error.at });
            },
        };
        command.push(element);
        decoded += 1;
        proof {
            match spec_parse_elements(s, elems_start, count as int) {
                Parsed::Success { value: items, next: end } => {
                    match spec_parse_elements(s, scanner.at(), count as int - decoded as int) {
                        Parsed::Success { value: rest, next: tail_end } => {
                            assert(seq![element@] + rest == items.skip(k));
                            assert((seq![element@] + rest)[0] == element@);
                            assert(element@ == items[k]);
                            assert(0 <= k < items.len());
                            assert(items.skip(k).len() == items.len() - k);
                            assert(rest.len() == items.len() - k - 1);
                            assert forall|j: int| 0 <= j < rest.len() implies rest[j] == items[k
                                + 1 + j] by {
                                assert((seq![element@] + rest)[j + 1] == rest[j]);
                                assert(items.skip(k)[j + 1] == items[k + 1 + j]);
                            };
                            assert(rest =~= items.skip(k + 1));
                            assert(command.deep_view() =~= items.take(k).push(element@));
                            assert(items.take(k).push(element@) =~= items.take(k + 1));
                        },
                        Parsed::Failure { .. } => {
                            assert(false);
                        },
                    }
                },
                Parsed::Failure { kind, at } => {},
            }
        }
    }
    proof {
        match spec_parse_elements(s, elems_start, count as int) {
            Parsed::Success { value: items, next: end } => {
                assert(items.skip(count as int) =~= Seq::<Seq<char>>::empty());
                assert(items.take(count as int) =~= items);
            },
            Parsed::Failure { .. } => {
                assert(false);
            },
        }
    }
    match scanner.pop() {
        Some(_) => Err(DecodeError { kind: ErrorKind::TrailingInput, at: scanner.cursor() }),
        None => Ok(command),
    }
}

} // verus!
