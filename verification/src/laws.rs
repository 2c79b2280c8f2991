//! Laws of the decoder, stated against the grammar model in [`crate::parser`].
//!
//! The parsing functions' contracts pin every outcome to the model, so each
//! law proved of the model holds of the executable decoder as well: every
//! well-formed bulk-string encoding decodes to exactly its payload and
//! consumes the whole encoding, and every well-formed array of bulk strings
//! with no trailing input decodes to its payloads in declared order.

use vstd::prelude::*;

use crate::parser::Parsed;
use crate::parser::all_digits;
use crate::parser::crlf_at;
use crate::parser::digits_end;
use crate::parser::digits_value;
use crate::parser::is_digit_char;
use crate::parser::lemma_digits_end_is;
use crate::parser::lemma_digits_end_props;
use crate::parser::lemma_digits_value_nonneg;
use crate::parser::spec_parse_bulk;
use crate::parser::spec_parse_elements;
use crate::parser::spec_parse_array;

verus! {

/// `enc` is a complete encoding of the bulk string `data`: decoding it from
/// the start succeeds, yields `data`, and consumes all of `enc`.
pub open spec fn is_bulk_encoding(enc: Seq<char>, data: Seq<char>) -> bool {
    spec_parse_bulk(enc, 0) == (Parsed::<Seq<char>>::Success {
        value: data,
        next: enc.len() as int,
    })
}

/// The wire form of one bulk string: `$<length>\r\n<data>\r\n`.
pub open spec fn bulk_encoding(length_digits: Seq<char>, data: Seq<char>) -> Seq<char> {
    seq!['$'] + length_digits + seq!['\r', '\n'] + data + seq!['\r', '\n']
}

/// The wire form of one command: `*<count>\r\n` followed by the encodings
/// of its elements, with nothing after them.
pub open spec fn array_encoding(count_digits: Seq<char>, encodings: Seq<Seq<char>>) -> Seq<char> {
    seq!['*'] + count_digits + seq!['\r', '\n'] + encodings.flatten()
}

/// Law: every well-formed bulk-string encoding decodes to exactly its
/// payload and consumes the entire encoding, whatever characters the
/// payload holds. The digits may carry leading zeros; they must spell the
/// payload's length and fit the machine's integer type.
pub proof fn lemma_bulk_encoding_decodes(length_digits: Seq<char>, data: Seq<char>)
    requires
        length_digits.len() > 0,
        all_digits(length_digits),
        digits_value(length_digits) == data.len(),
        digits_value(length_digits) <= usize::MAX as int,
    ensures
        is_bulk_encoding(bulk_encoding(length_digits, data), data),
{
    let enc = bulk_encoding(length_digits, data);
    let dl = length_digits.len() as int;
    assert(enc.len() == 5 + dl + data.len());
    assert(enc[0] == '$');
    assert forall|j: int| 1 <= j < 1 + dl implies is_digit_char(enc[j]) by {
        assert(enc[j] == length_digits[j - 1]);
    };
    assert(enc[1 + dl] == '\r');
    assert(enc[2 + dl] == '\n');
    lemma_digits_end_is(enc, 1, 1 + dl);
    assert(enc.subrange(1, 1 + dl) =~= length_digits);
    assert(crlf_at(enc, 1 + dl));
    assert(enc.subrange(3 + dl, 3 + dl + data.len()) =~= data);
    assert(enc[3 + dl + data.len()] == '\r');
    assert(enc[4 + dl + data.len()] == '\n');
    assert(crlf_at(enc, 3 + dl + data.len()));
    assert(spec_parse_bulk(enc, 0) == (Parsed::<Seq<char>>::Success {
        value: data,
        next: enc.len() as int,
    }));
}

/// Law (boundary): a declared length of zero yields the empty string, and
/// the encoding consists of nothing but the sigil, the digits and the two
/// CRLF terminators, all of which decoding consumes.
pub proof fn lemma_zero_length_bulk_encoding(length_digits: Seq<char>)
    requires
        length_digits.len() > 0,
        all_digits(length_digits),
        digits_value(length_digits) == 0,
    ensures
        is_bulk_encoding(bulk_encoding(length_digits, Seq::empty()), Seq::empty()),
        bulk_encoding(length_digits, Seq::empty()).len() == 3 + length_digits.len() + 2,
{
    lemma_bulk_encoding_decodes(length_digits, Seq::empty());
}

/// Decoding a bulk string reads only the window it consumes: a complete
/// encoding embedded at position `i` decodes there to the same payload and
/// leaves the position one past the window, whatever surrounds it.
pub proof fn lemma_bulk_parse_at(s: Seq<char>, i: int, enc: Seq<char>, data: Seq<char>)
    requires
        0 <= i,
        i + enc.len() <= s.len(),
        s.subrange(i, i + enc.len() as int) == enc,
        is_bulk_encoding(enc, data),
    ensures
        spec_parse_bulk(s, i) == (Parsed::<Seq<char>>::Success {
            value: data,
            next: i + enc.len(),
        }),
{
    let n = enc.len() as int;
    assert forall|j: int| 0 <= j < n implies s[i + j] == #[trigger] enc[j] by {
        assert(s.subrange(i, i + n)[j] == s[i + j]);
    };
    assert(enc[0] == '$');
    assert(s[i] == enc[0]);
    lemma_digits_end_props(enc, 1);
    let e = digits_end(enc, 1);
    assert(crlf_at(enc, e));
    let v = digits_value(enc.subrange(1, e));
    lemma_digits_value_nonneg(enc.subrange(1, e));
    assert forall|j: int| i + 1 <= j < i + e implies is_digit_char(s[j]) by {
        assert(is_digit_char(enc[j - i]));
        assert(s[i + (j - i)] == enc[j - i]);
    };
    assert(s[i + e] == enc[e]);
    assert(s[i + e + 1] == enc[e + 1]);
    lemma_digits_end_is(s, i + 1, i + e);
    assert forall|j: int| 0 <= j < e - 1 implies s.subrange(i + 1, i + e)[j] == enc.subrange(
        1,
        e,
    )[j] by {
        assert(s[i + (1 + j)] == enc[1 + j]);
    };
    assert(s.subrange(i + 1, i + e) =~= enc.subrange(1, e));
    assert(crlf_at(s, i + e));
    assert forall|j: int| 0 <= j < v implies #[trigger] s.subrange(i + e + 2, i + e + 2 + v)[j]
        == enc.subrange(e + 2, e + 2 + v)[j] by {
        assert(s[i + (e + 2 + j)] == enc[e + 2 + j]);
    };
    assert(s.subrange(i + e + 2, i + e + 2 + v) =~= enc.subrange(e + 2, e + 2 + v));
    assert(s[i + (e + 2 + v)] == enc[e + 2 + v]);
    assert(s[i + (e + 2 + v + 1)] == enc[e + 2 + v + 1]);
    assert(crlf_at(s, i + e + 2 + v));
    assert(spec_parse_bulk(s, i) == (Parsed::<Seq<char>>::Success {
        value: data,
        next: i + n,
    }));
}

/// A run of complete bulk-string encodings that exactly fills the rest of
/// the input decodes, element by element, to their payloads in order, and
/// ends at the end of the input.
pub proof fn lemma_elements_decode(
    s: Seq<char>,
    i: int,
    encodings: Seq<Seq<char>>,
    datas: Seq<Seq<char>>,
)
    requires
        0 <= i <= s.len(),
        encodings.len() == datas.len(),
        forall|k: int| 0 <= k < encodings.len() ==> is_bulk_encoding(#[trigger] encodings[k], datas[k]),
        s.subrange(i, s.len() as int) == encodings.flatten(),
    ensures
        spec_parse_elements(s, i, encodings.len() as int) == (Parsed::<Seq<Seq<char>>>::Success {
            value: datas,
            next: s.len() as int,
        }),
    decreases encodings.len(),
{
    let flat = encodings.flatten();
    assert(s.subrange(i, s.len() as int).len() == s.len() - i);
    assert(s.len() - i == flat.len());
    assert forall|j: int| 0 <= j < s.len() - i implies s[i + j] == #[trigger] flat[j] by {
        assert(s.subrange(i, s.len() as int)[j] == s[i + j]);
    };
    if encodings.len() == 0 {
        assert(flat =~= Seq::<char>::empty());
        assert(i == s.len());
        assert(datas =~= Seq::<Seq<char>>::empty());
    } else {
        let h = encodings[0].len() as int;
        let rest_flat = encodings.drop_first().flatten();
        assert(flat == encodings[0] + rest_flat);
        assert(flat.len() == h + rest_flat.len());
        assert forall|j: int| 0 <= j < h implies s.subrange(i, i + h)[j] == encodings[0][j] by {
            assert(s[i + j] == flat[j]);
            assert(flat[j] == encodings[0][j]);
        };
        assert(s.subrange(i, i + h) =~= encodings[0]);
        assert(is_bulk_encoding(encodings[0], datas[0]));
        lemma_bulk_parse_at(s, i, encodings[0], datas[0]);
        assert forall|j: int| 0 <= j < rest_flat.len() implies s.subrange(
            i + h,
            s.len() as int,
        )[j] == rest_flat[j] by {
            assert(s[i + (h + j)] == flat[h + j]);
            assert(flat[h + j] == rest_flat[j]);
        };
        assert(s.subrange(i + h, s.len() as int) =~= rest_flat);
        assert forall|k: int| 0 <= k < encodings.drop_first().len() implies is_bulk_encoding(
            #[trigger] encodings.drop_first()[k],
            datas.drop_first()[k],
        ) by {
            assert(encodings.drop_first()[k] == encodings[k + 1]);
            assert(datas.drop_first()[k] == datas[k + 1]);
        };
        lemma_elements_decode(s, i + h, encodings.drop_first(), datas.drop_first());
        assert(seq![datas[0]] + datas.drop_first() =~= datas);
    }
}

/// Law: every well-formed array of `N` well-formed bulk strings with no
/// trailing input decodes to the `N` payloads in declared order and
/// consumes the entire input.
pub proof fn lemma_array_encoding_decodes(
    count_digits: Seq<char>,
    encodings: Seq<Seq<char>>,
    datas: Seq<Seq<char>>,
)
    requires
        count_digits.len() > 0,
        all_digits(count_digits),
        digits_value(count_digits) == encodings.len(),
        digits_value(count_digits) <= usize::MAX as int,
        encodings.len() == datas.len(),
        forall|k: int| 0 <= k < encodings.len() ==> is_bulk_encoding(#[trigger] encodings[k], datas[k]),
    ensures
        spec_parse_array(array_encoding(count_digits, encodings), 0) == (Parsed::<
            Seq<Seq<char>>,
        >::Success {
            value: datas,
            next: array_encoding(count_digits, encodings).len() as int,
        }),
{
    let enc = array_encoding(count_digits, encodings);
    let cd = count_digits.len() as int;
    let flat = encodings.flatten();
    assert(enc.len() == 3 + cd + flat.len());
    assert(enc[0] == '*');
    assert forall|j: int| 1 <= j < 1 + cd implies is_digit_char(enc[j]) by {
        assert(enc[j] == count_digits[j - 1]);
    };
    assert(enc[1 + cd] == '\r');
    assert(enc[2 + cd] == '\n');
    lemma_digits_end_is(enc, 1, 1 + cd);
    assert(enc.subrange(1, 1 + cd) =~= count_digits);
    assert(crlf_at(enc, 1 + cd));
    assert(enc.subrange(3 + cd, enc.len() as int) =~= flat);
    lemma_elements_decode(enc, 3 + cd, encodings, datas);
    assert(spec_parse_array(enc, 0) == (Parsed::<Seq<Seq<char>>>::Success {
        value: datas,
        next: enc.len() as int,
    }));
}

} // verus!
