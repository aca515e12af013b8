//! What is written is read back: strings with escapes, and objects with values of every kind.
use vstd::prelude::*;
use vstd::utf8::{
    char_u32_cast, decode_first_scalar, encode_utf8, encode_utf8_first_scalar,
    length_of_first_scalar,
};

use crate::gojson::spaces::lemma_ended_number;
use crate::gojson::{
    assigned, document, escape_value, first_misfit, fold_char, folded, hex_value, in_number, kind_of,
    leaf_of, members_of, misfit, number_text, parse, piece, quoted_byte, scan_from, scanned,
    string_text, text_without_escapes_is_read_as_it_is, word_letters, Document, DocumentView, Fault,
    FieldValue, Inside, JsonStruct, Kind, LeafView, MemberView, Mode, Scan, State, Step, SyntaxError,
    Word,
};
use crate::text::integer_value;

verus! {

// ---------------------------------------------------------------------------------------
// Escapes
// ---------------------------------------------------------------------------------------
/// A hexadecimal digit, with a large or a small letter.
pub open spec fn hex_byte(d: int, upper: bool) -> u8 {
    (if d < 10 {
        48 + d
    } else if upper {
        55 + d
    } else {
        87 + d
    }) as u8
}

/// A number of 16 bits in a `\u` escape.
pub open spec fn u_escape(v: int, upper: bool) -> Seq<u8> {
    seq![
        92u8,
        117u8,
        hex_byte(v / 4096, upper),
        hex_byte(v / 256 % 16, upper),
        hex_byte(v / 16 % 16, upper),
        hex_byte(v % 16, upper),
    ]
}

/// A character in one `\u` escape, or in two where it takes more than 16 bits.
pub open spec fn escaped_char(c: char, upper: bool) -> Seq<u8> {
    let v = c as u32 as int;
    if v < 0x10000 {
        u_escape(v, upper)
    } else {
        u_escape(0xd800 + (v - 0x10000) / 1024, upper) + u_escape(
            0xdc00 + (v - 0x10000) % 1024,
            upper,
        )
    }
}

/// A text in escapes only.
pub open spec fn escaped(text: Seq<char>, upper: bool) -> Seq<u8>
    decreases text.len(),
{
    if text.len() == 0 {
        Seq::empty()
    } else {
        escaped_char(text[0], upper) + escaped(text.skip(1), upper)
    }
}

proof fn lemma_hex_byte(d: int, upper: bool)
    requires
        0 <= d < 16,
    ensures
        hex_value(hex_byte(d, upper)) == Some(d),
{
}

proof fn lemma_four_digits(v: int)
    requires
        0 <= v < 0x10000,
    ensures
        0 <= v / 4096 < 16,
        4096 * (v / 4096) + 256 * (v / 256 % 16) + 16 * (v / 16 % 16) + v % 16 == v,
{
    assert(v / 256 / 16 == v / 4096);
    assert(v / 16 / 16 == v / 256);
}

proof fn lemma_u_escape(v: int, upper: bool, s: Seq<u8>, i: int)
    requires
        0 <= v < 0x10000,
        0 <= i,
        i + 6 <= s.len(),
        s.subrange(i, i + 6) == u_escape(v, upper),
    ensures
        escape_value(s, i) == Some(v),
{
    let e = u_escape(v, upper);
    assert forall|k: int| 0 <= k < 6 implies s[i + k] == #[trigger] e[k] by {
        assert(s.subrange(i, i + 6)[k] == s[i + k]);
    }
    assert(s[i] == e[0] && s[i + 1] == e[1] && s[i + 2] == e[2] && s[i + 3] == e[3] && s[i + 4]
        == e[4] && s[i + 5] == e[5]);
    lemma_four_digits(v);
    lemma_hex_byte(v / 4096, upper);
    lemma_hex_byte(v / 256 % 16, upper);
    lemma_hex_byte(v / 16 % 16, upper);
    lemma_hex_byte(v % 16, upper);
}

/// The first character of a text in escapes.
proof fn lemma_escaped_char(c: char, upper: bool, tail: Seq<u8>)
    ensures
        ({
            let e = escaped_char(c, upper);
            &&& e.len() > 0
            &&& (e + tail)[0] == 92
            &&& piece(e + tail) == (c, e.len() as int)
        }),
{
    let v = c as u32 as int;
    let e = escaped_char(c, upper);
    let s = e + tail;
    assert(s[0] == e[0]);
    if v < 0x10000 {
        assert(s.subrange(0, 6) =~= u_escape(v, upper));
        lemma_u_escape(v, upper, s, 0);
    } else {
        let hi = 0xd800 + (v - 0x10000) / 1024;
        let lo = 0xdc00 + (v - 0x10000) % 1024;
        assert(s.subrange(0, 6) =~= u_escape(hi, upper));
        assert(s.subrange(6, 12) =~= u_escape(lo, upper));
        lemma_u_escape(hi, upper, s, 0);
        lemma_u_escape(lo, upper, s, 6);
        assert(0x10000 + 1024 * (hi - 0xd800) + (lo - 0xdc00) == v);
    }
}

/// A text that is written in `\u` escapes, with large letters or small ones, is read as it is, and
/// what follows its closing quote does not matter. A character beyond 16 bits takes two escapes.
pub proof fn text_in_escapes_is_read_as_it_is(text: Seq<char>, upper: bool, rest: Seq<u8>)
    ensures
        string_text(escaped(text, upper).push(34) + rest) == text,
    decreases text.len(),
{
    let s = escaped(text, upper).push(34) + rest;
    if text.len() == 0 {
        assert(s[0] == 34);
        assert(text =~= Seq::<char>::empty());
    } else {
        let c = text[0];
        let v = c as u32 as int;
        let more = text.skip(1);
        let e = escaped_char(c, upper);
        let tail = escaped(more, upper).push(34) + rest;
        assert(s =~= e + tail);
        lemma_escaped_char(c, upper, tail);
        assert(s.skip(e.len() as int) =~= tail);
        text_in_escapes_is_read_as_it_is(more, upper, rest);
        assert(seq![c] + more =~= text);
    }
}

/// A letter behind a backslash stands for one character: a quote, a backslash and a slash for
/// themselves, and `b`, `f`, `n`, `r` and `t` for the control characters 8, 12, 10, 13 and 9.
pub proof fn a_short_escape_is_one_character(letter: u8, tail: Seq<u8>)
    requires
        letter == 0x22 || letter == 0x5c || letter == 0x2f || letter == 0x62 || letter == 0x66
            || letter == 0x6e || letter == 0x72 || letter == 0x74,
    ensures
        ({
            let c = if letter == 0x62 {
                8int
            } else if letter == 0x66 {
                12
            } else if letter == 0x6e {
                10
            } else if letter == 0x72 {
                13
            } else if letter == 0x74 {
                9
            } else {
                letter as int
            };
            string_text(seq![0x5cu8, letter] + tail) == seq![c as char] + string_text(tail)
        }),
{
    let s = seq![0x5cu8, letter] + tail;
    assert(s[0] == 92 && s[1] == letter);
    assert(escape_value(s, 0) is None);
    assert(s.skip(2) =~= tail);
}

/// Half of a pair that stands alone is one U+FFFD, and what follows it is read on its own.
pub proof fn a_lone_half_is_a_replacement(v: int, upper: bool, tail: Seq<u8>)
    requires
        0xd800 <= v < 0xe000,
        v < 0xdc00 ==> !(escape_value(tail, 0) matches Some(w) && 0xdc00 <= w < 0xe000),
    ensures
        string_text(u_escape(v, upper) + tail) == seq!['\u{fffd}'] + string_text(tail),
{
    let s = u_escape(v, upper) + tail;
    assert(s.subrange(0, 6) =~= u_escape(v, upper));
    lemma_u_escape(v, upper, s, 0);
    assert(s[0] == 92);
    assert(escape_value(s, 6) == escape_value(tail, 0)) by {
        assert(tail.len() >= 6 ==> s[6] == tail[0] && s[7] == tail[1] && s[8] == tail[2] && s[9]
            == tail[3] && s[10] == tail[4] && s[11] == tail[5]);
    }
    assert(s.skip(6) =~= tail);
}

// ---------------------------------------------------------------------------------------
// Values
// ---------------------------------------------------------------------------------------
/// Decimal digits.
pub open spec fn all_digits(s: Seq<u8>) -> bool {
    s.len() > 0 && forall|i: int| 0 <= i < s.len() ==> 0x30 <= #[trigger] s[i] <= 0x39
}

/// A number: its sign, the digits before the point, those behind it, and the exponent with its letter
/// and its sign.
pub struct Number {
    pub negative: bool,
    pub whole: Seq<u8>,
    pub fraction: Option<Seq<u8>>,
    pub exponent: Option<(u8, Option<u8>, Seq<u8>)>,
}

impl Number {
    /// There are digits wherever there may be, and no zero comes before another one.
    pub open spec fn valid(self) -> bool {
        &&& all_digits(self.whole)
        &&& self.whole.len() > 1 ==> self.whole[0] != 0x30
        &&& self.fraction matches Some(f) ==> all_digits(f)
        &&& self.exponent matches Some((letter, sign, digits)) ==> {
            &&& letter == 0x65 || letter == 0x45
            &&& sign matches Some(c) ==> c == 0x2b || c == 0x2d
            &&& all_digits(digits)
        }
    }

    /// The sign.
    pub open spec fn sign_bytes(self) -> Seq<u8> {
        if self.negative {
            seq![0x2du8]
        } else {
            Seq::empty()
        }
    }

    /// The part behind the point.
    pub open spec fn fraction_bytes(self) -> Seq<u8> {
        match self.fraction {
            Some(f) => seq![0x2eu8] + f,
            None => Seq::empty(),
        }
    }

    /// The exponent.
    pub open spec fn exponent_bytes(self) -> Seq<u8> {
        match self.exponent {
            Some((letter, sign, digits)) => seq![letter] + (match sign {
                Some(c) => seq![c],
                None => Seq::empty(),
            }) + digits,
            None => Seq::empty(),
        }
    }

    /// The number, as it is written.
    pub open spec fn bytes(self) -> Seq<u8> {
        self.sign_bytes() + (self.whole + (self.fraction_bytes() + self.exponent_bytes()))
    }
}

/// A value that can be written.
pub enum Written {
    Null,
    Bool(bool),
    Number(Number),
    Text(Seq<char>),
    EmptyArray,
    EmptyObject,
}

/// A text that needs no escape.
pub open spec fn is_plain(text: Seq<char>) -> bool {
    forall|i: int|
        0 <= i < text.len() ==> (#[trigger] text[i]) as u32 >= 0x20 && text[i] != '"' && text[i] != '\\'
}

/// A text between quotes.
pub open spec fn quoted_bytes(text: Seq<char>) -> Seq<u8> {
    seq![0x22u8] + encode_utf8(text) + seq![0x22u8]
}

impl Written {
    pub open spec fn valid(self) -> bool {
        match self {
            Written::Number(n) => n.valid(),
            Written::Text(t) => is_plain(t),
            _ => true,
        }
    }

    /// The value, as it is written.
    pub open spec fn bytes(self) -> Seq<u8> {
        match self {
            Written::Null => seq![0x6eu8, 0x75, 0x6c, 0x6c],
            Written::Bool(true) => seq![0x74u8, 0x72, 0x75, 0x65],
            Written::Bool(false) => seq![0x66u8, 0x61, 0x6c, 0x73, 0x65],
            Written::Number(n) => n.bytes(),
            Written::Text(t) => quoted_bytes(t),
            Written::EmptyArray => seq![0x5bu8, 0x5d],
            Written::EmptyObject => seq![0x7bu8, 0x7d],
        }
    }

    /// The value, as it is read.
    pub open spec fn leaf(self) -> LeafView {
        match self {
            Written::Null => LeafView::Null,
            Written::Bool(b) => LeafView::Bool(b),
            Written::Number(n) => LeafView::Number(
                Seq::new(n.bytes().len(), |i: int| n.bytes()[i] as char),
            ),
            Written::Text(t) => LeafView::Text(t),
            Written::EmptyArray => LeafView::Array,
            Written::EmptyObject => LeafView::Object,
        }
    }
}

/// Whether some bytes stand in an input at a position.
spec fn stand(data: Seq<u8>, p: int, bytes: Seq<u8>) -> bool {
    0 <= p && p + bytes.len() <= data.len() && data.subrange(p, p + bytes.len()) == bytes
}

proof fn lemma_stand(data: Seq<u8>, p: int, bytes: Seq<u8>)
    requires
        stand(data, p, bytes),
    ensures
        forall|k: int| 0 <= k < bytes.len() ==> data[p + k] == #[trigger] bytes[k],
{
    assert forall|k: int| 0 <= k < bytes.len() implies data[p + k] == #[trigger] bytes[k] by {
        assert(data.subrange(p, p + bytes.len())[k] == data[p + k]);
    }
}

proof fn lemma_stand_parts(data: Seq<u8>, p: int, a: Seq<u8>, b: Seq<u8>)
    requires
        stand(data, p, a + b),
    ensures
        stand(data, p, a),
        stand(data, p + a.len(), b),
{
    lemma_stand(data, p, a + b);
    assert(data.subrange(p, p + a.len()) =~= a) by {
        assert forall|k: int| 0 <= k < a.len() implies data[p + k] == #[trigger] a[k] by {
            assert((a + b)[k] == a[k]);
        }
    }
    assert(data.subrange(p + a.len(), p + a.len() + b.len()) =~= b) by {
        assert forall|k: int| 0 <= k < b.len() implies data[p + a.len() + k] == #[trigger] b[k] by {
            assert((a + b)[a.len() + k] == b[k]);
        }
    }
}

/// The bytes of a text that needs no escape need none either.
proof fn lemma_plain_bytes(text: Seq<char>)
    requires
        is_plain(text),
    ensures
        forall|i: int|
            0 <= i < encode_utf8(text).len() ==> #[trigger] encode_utf8(text)[i] >= 32 && encode_utf8(
                text,
            )[i] != 34 && encode_utf8(text)[i] != 92,
    decreases text.len(),
{
    let bytes = encode_utf8(text);
    if text.len() > 0 {
        let c = text[0];
        let more = text.drop_first();
        assert(c as u32 >= 32 && c != '"' && c != '\\');
        encode_utf8_first_scalar(text);
        char_u32_cast(c, decode_first_scalar(bytes));
        let n = length_of_first_scalar(bytes);
        let b = bytes[0];
        assert(b <= 127 ==> b & 0x7f == b) by (bit_vector);
        assert forall|i: int| 0 <= i < more.len() implies (#[trigger] more[i]) as u32 >= 0x20
            && more[i] != '"' && more[i] != '\\' by {
            assert(more[i] == text[i + 1]);
        }
        lemma_plain_bytes(more);
        let rest = encode_utf8(more);
        assert(bytes.skip(n) =~= rest);
        assert forall|i: int| 0 <= i < bytes.len() implies #[trigger] bytes[i] >= 32 && bytes[i] != 34
            && bytes[i] != 92 by {
            if i >= n {
                assert(bytes[i] == rest[i - n]);
            } else if i == 1 {
                assert(bytes[1] >= 0x80);
            } else if i == 2 {
                assert(bytes[2] >= 0x80);
            } else if i == 3 {
                assert(bytes[3] >= 0x80);
            }
        }
    }
}

/// A plain text is scanned to its closing quote.
proof fn lemma_scan_plain(data: Seq<u8>, p: int, n: int, st: State)
    requires
        0 <= p,
        0 <= n,
        p + n < data.len() <= usize::MAX,
        st.mode is Str,
        forall|k: int| p <= k < p + n ==> #[trigger] data[k] >= 32 && data[k] != 34 && data[k] != 92,
        data[p + n] == 34,
    ensures
        scan_from(data, p, st) == scan_from(data, p + n + 1, st.at(Mode::After)),
    decreases n,
{
    if n > 0 {
        assert(data[p] >= 32);
        lemma_scan_plain(data, p + 1, n - 1, st);
    }
}

/// A quoted text is scanned from behind its opening quote.
proof fn lemma_scan_quoted(data: Seq<u8>, p: int, text: Seq<char>, st: State)
    requires
        data.len() <= usize::MAX,
        is_plain(text),
        stand(data, p, quoted_bytes(text)),
        st.mode is Str,
    ensures
        scan_from(data, p + 1, st) == scan_from(
            data,
            p + quoted_bytes(text).len(),
            st.at(Mode::After),
        ),
{
    let bytes = encode_utf8(text);
    let q = quoted_bytes(text);
    lemma_plain_bytes(text);
    lemma_stand(data, p, q);
    assert forall|k: int| p + 1 <= k < p + 1 + bytes.len() implies #[trigger] data[k] >= 32 && data[k]
        != 34 && data[k] != 92 by {
        assert(q[k - p] == bytes[k - p - 1]);
        assert(data[p + (k - p)] == q[k - p]);
    }
    let n = bytes.len() as int;
    assert(q[n + 1] == 34);
    assert(data[p + (n + 1)] == 34);
    lemma_scan_plain(data, p + 1, bytes.len() as int, st);
}

/// Digits are scanned to their end.
proof fn lemma_scan_digits(data: Seq<u8>, p: int, digits: Seq<u8>, st: State)
    requires
        data.len() <= usize::MAX,
        stand(data, p, digits),
        forall|i: int| 0 <= i < digits.len() ==> 0x30 <= #[trigger] digits[i] <= 0x39,
        st.mode is Digits || st.mode is Fraction || st.mode is ExpDigits,
    ensures
        scan_from(data, p, st) == scan_from(data, p + digits.len(), st),
    decreases digits.len(),
{
    if digits.len() > 0 {
        lemma_stand(data, p, digits);
        assert(data[p + 0] == digits[0]);
        let more = digits.skip(1);
        assert(digits =~= seq![digits[0]] + more);
        lemma_stand_parts(data, p, seq![digits[0]], more);
        assert forall|i: int| 0 <= i < more.len() implies 0x30 <= #[trigger] more[i] <= 0x39 by {
            assert(more[i] == digits[i + 1]);
        }
        lemma_scan_digits(data, p + 1, more, st);
    }
}

/// The scanner behind the digits before a point, with what follows them to come.
proof fn lemma_scan_exponent(data: Seq<u8>, p: int, n: Number, st: State)
    requires
        data.len() <= usize::MAX,
        n.valid(),
        n.exponent is Some,
        stand(data, p, n.exponent_bytes()),
        st.mode is Zero || st.mode is Digits || st.mode is Fraction,
    ensures
        scan_from(data, p, st) == scan_from(
            data,
            p + n.exponent_bytes().len(),
            st.at(Mode::ExpDigits),
        ),
{
    let (letter, sign, digits) = n.exponent->0;
    let e = n.exponent_bytes();
    lemma_stand(data, p, e);
    assert(data[p + 0] == e[0]);
    assert(st.step(letter, p as usize) == Step::Go(st.at(Mode::Exp)));
    let x = st.at(Mode::Exp);
    assert(scan_from(data, p, st) == scan_from(data, p + 1, x));
    let signs = match sign {
        Some(c) => seq![c],
        None => Seq::empty(),
    };
    assert(e =~= seq![letter] + (signs + digits));
    lemma_stand_parts(data, p, seq![letter], signs + digits);
    lemma_stand_parts(data, p + 1, signs, digits);
    let q = p + 1 + signs.len();
    lemma_stand(data, q, digits);
    assert(data[q + 0] == digits[0]);
    let first = seq![digits[0]];
    let more = digits.skip(1);
    assert(digits =~= first + more);
    lemma_stand_parts(data, q, first, more);
    assert forall|i: int| 0 <= i < more.len() implies 0x30 <= #[trigger] more[i] <= 0x39 by {
        assert(more[i] == digits[i + 1]);
    }
    if sign is Some {
        lemma_stand(data, p + 1, signs);
        assert(data[p + 1 + 0] == signs[0]);
        assert(x.step(signs[0], (p + 1) as usize) == Step::Go(x.at(Mode::ExpSign)));
        assert(scan_from(data, p + 1, x) == scan_from(data, q, x.at(Mode::ExpSign)));
        assert(x.at(Mode::ExpSign).step(digits[0], q as usize) == Step::Go(x.at(Mode::ExpDigits)));
        assert(scan_from(data, q, x.at(Mode::ExpSign)) == scan_from(
            data,
            q + 1,
            x.at(Mode::ExpDigits),
        ));
    } else {
        assert(x.step(digits[0], q as usize) == Step::Go(x.at(Mode::ExpDigits)));
        assert(scan_from(data, q, x) == scan_from(data, q + 1, x.at(Mode::ExpDigits)));
    }
    assert(x.at(Mode::ExpDigits) == st.at(Mode::ExpDigits));
    lemma_scan_digits(data, q + 1, more, st.at(Mode::ExpDigits));
}

/// The modes in which a number may end.
spec fn in_end_of_number(st: State) -> bool {
    st.mode is Zero || st.mode is Digits || st.mode is Fraction || st.mode is ExpDigits
}

/// A number is scanned to its end.
proof fn lemma_scan_number(data: Seq<u8>, p: int, n: Number, st: State) -> (last: State)
    requires
        data.len() <= usize::MAX,
        n.valid(),
        stand(data, p, n.bytes()),
        st.mode is Value,
    ensures
        in_end_of_number(last),
        last.at(Mode::After) == st.marked(n.bytes()[0], p as usize).at(Mode::After),
        scan_from(data, p, st) == scan_from(data, p + n.bytes().len(), last),
{
    let bytes = n.bytes();
    let tail = n.fraction_bytes() + n.exponent_bytes();
    let m = st.marked(bytes[0], p as usize);
    lemma_stand(data, p, bytes);
    assert(data[p + 0] == bytes[0]);
    lemma_stand_parts(data, p, n.sign_bytes(), n.whole + tail);
    let q = p + n.sign_bytes().len();
    lemma_stand_parts(data, q, n.whole, tail);
    lemma_stand(data, q, n.whole);
    assert(data[q + 0] == n.whole[0]);
    let mode = if n.whole[0] == 0x30 {
        Mode::Zero
    } else {
        Mode::Digits
    };
    let w = m.at(mode);
    if n.negative {
        assert(bytes[0] == 0x2d);
        assert(st.step(data[p], p as usize) == Step::Go(m.at(Mode::Minus)));
        assert(m.at(Mode::Minus).step(data[q], q as usize) == Step::Go(w));
        assert(scan_from(data, p, st) == scan_from(data, q, m.at(Mode::Minus)));
        assert(scan_from(data, q, m.at(Mode::Minus)) == scan_from(data, q + 1, w));
    } else {
        assert(bytes[0] == n.whole[0]);
        assert(st.step(data[p], p as usize) == Step::Go(w));
        assert(scan_from(data, p, st) == scan_from(data, q + 1, w));
    }
    let more = n.whole.skip(1);
    assert(n.whole =~= seq![n.whole[0]] + more);
    lemma_stand_parts(data, q, seq![n.whole[0]], more);
    assert forall|i: int| 0 <= i < more.len() implies 0x30 <= #[trigger] more[i] <= 0x39 by {
        assert(more[i] == n.whole[i + 1]);
    }
    if mode is Digits {
        lemma_scan_digits(data, q + 1, more, w);
    }
    let r = q + n.whole.len();
    assert(scan_from(data, p, st) == scan_from(data, r, w));
    lemma_stand_parts(data, r, n.fraction_bytes(), n.exponent_bytes());
    let f = r + n.fraction_bytes().len();
    let x = if n.fraction is Some {
        m.at(Mode::Fraction)
    } else {
        w
    };
    if let Some(digits) = n.fraction {
        lemma_scan_fraction(data, r, n, w);
    }
    assert(scan_from(data, r, w) == scan_from(data, f, x));
    if n.exponent is Some {
        lemma_scan_exponent(data, f, n, x);
        assert(x.at(Mode::ExpDigits) == m.at(Mode::ExpDigits));
        m.at(Mode::ExpDigits)
    } else {
        assert(n.exponent_bytes().len() == 0);
        x
    }
}

proof fn lemma_scan_fraction(data: Seq<u8>, p: int, n: Number, st: State)
    requires
        data.len() <= usize::MAX,
        n.valid(),
        n.fraction is Some,
        stand(data, p, n.fraction_bytes()),
        st.mode is Zero || st.mode is Digits,
    ensures
        scan_from(data, p, st) == scan_from(
            data,
            p + n.fraction_bytes().len(),
            st.at(Mode::Fraction),
        ),
{
    let digits = n.fraction->0;
    let e = n.fraction_bytes();
    lemma_stand(data, p, e);
    assert(data[p + 0] == e[0]);
    assert(st.step(0x2e, p as usize) == Step::Go(st.at(Mode::Point)));
    assert(scan_from(data, p, st) == scan_from(data, p + 1, st.at(Mode::Point)));
    lemma_stand_parts(data, p, seq![0x2eu8], digits);
    lemma_stand(data, p + 1, digits);
    assert(data[p + 1 + 0] == digits[0]);
    let more = digits.skip(1);
    assert(digits =~= seq![digits[0]] + more);
    lemma_stand_parts(data, p + 1, seq![digits[0]], more);
    assert forall|i: int| 0 <= i < more.len() implies 0x30 <= #[trigger] more[i] <= 0x39 by {
        assert(more[i] == digits[i + 1]);
    }
    assert(st.at(Mode::Point).step(digits[0], (p + 1) as usize) == Step::Go(
        st.at(Mode::Point).at(Mode::Fraction),
    ));
    assert(st.at(Mode::Point).at(Mode::Fraction) == st.at(Mode::Fraction));
    assert(scan_from(data, p + 1, st.at(Mode::Point)) == scan_from(
        data,
        p + 2,
        st.at(Mode::Fraction),
    ));
    lemma_scan_digits(data, p + 2, more, st.at(Mode::Fraction));
}

/// A word is scanned to its end.
proof fn lemma_scan_word(data: Seq<u8>, p: int, w: Word, k: u8, st: State)
    requires
        data.len() <= usize::MAX,
        1 <= k < word_letters(w).len(),
        0 <= p,
        p + word_letters(w).len() - k <= data.len(),
        forall|i: int|
            k <= i < word_letters(w).len() ==> data[p + i - k] == #[trigger] word_letters(w)[i],
        st.mode == Mode::Word(w, k),
    ensures
        scan_from(data, p, st) == scan_from(
            data,
            p + word_letters(w).len() - k,
            st.at(Mode::After),
        ),
    decreases word_letters(w).len() - k,
{
    assert(data[p + k - k] == word_letters(w)[k as int]);
    if k + 1 < word_letters(w).len() {
        let next = st.at(Mode::Word(w, (k + 1) as u8));
        assert forall|i: int| k + 1 <= i < word_letters(w).len() implies data[p + 1 + i - (k + 1)]
            == #[trigger] word_letters(w)[i] by {
            assert(data[p + i - k] == word_letters(w)[i]);
        }
        lemma_scan_word(data, p + 1, w, (k + 1) as u8, next);
        assert(next.at(Mode::After) == st.at(Mode::After));
    }
}

/// A value is scanned to its end, where a structural character follows it.
proof fn lemma_scan_value(data: Seq<u8>, p: int, v: Written, st: State)
    requires
        data.len() <= usize::MAX,
        v.valid(),
        stand(data, p, v.bytes()),
        p + v.bytes().len() < data.len(),
        data[p + v.bytes().len()] == 0x2c || data[p + v.bytes().len()] == 0x7d,
        st.mode is Value,
        0 < st.stack.len() < 10000,
    ensures
        v.bytes().len() > 0,
        scan_from(data, p, st) == scan_from(
            data,
            p + v.bytes().len(),
            st.marked(v.bytes()[0], p as usize).at(Mode::After),
        ),
{
    let bytes = v.bytes();
    lemma_stand(data, p, bytes);
    let m = st.marked(bytes[0], p as usize);
    let end = p + bytes.len();
    match v {
        Written::Number(n) => {
            assert(bytes.len() > 0);
            let last = lemma_scan_number(data, p, n, st);
            assert(last.at(Mode::After).stack == last.stack);
            assert(m.at(Mode::After).stack == st.stack);
            lemma_ended_number(data, end, last);
        },
        Written::Text(t) => {
            assert(data[p + 0] == bytes[0]);
            assert(st.step(data[p], p as usize) == Step::Go(m.at(Mode::Str)));
            lemma_scan_quoted(data, p, t, m.at(Mode::Str));
            assert(m.at(Mode::Str).at(Mode::After) == m.at(Mode::After));
        },
        Written::Null => {
            lemma_scan_letters(data, p, Word::Null, st);
        },
        Written::Bool(b) => {
            lemma_scan_letters(
                data,
                p,
                if b {
                    Word::True
                } else {
                    Word::False
                },
                st,
            );
        },
        Written::EmptyArray => {
            assert(data[p + 0] == bytes[0]);
            assert(data[p + 1] == bytes[1]);
            let inner = State {
                mode: Mode::FirstElement,
                stack: m.stack.push(Inside::Element),
                ..m
            };
            assert(st.step(data[p], p as usize) == Step::Go(inner));
            assert(inner.stack.drop_last() =~= m.stack);
            assert(inner.step(data[p + 1], (p + 1) as usize) == Step::Go(m.at(Mode::After)));
            assert(scan_from(data, p + 1, inner) == scan_from(data, p + 2, m.at(Mode::After)));
        },
        Written::EmptyObject => {
            assert(data[p + 0] == bytes[0]);
            assert(data[p + 1] == bytes[1]);
            let inner = State { mode: Mode::FirstKey, stack: m.stack.push(Inside::Key), ..m };
            assert(st.step(data[p], p as usize) == Step::Go(inner));
            assert(inner.stack.drop_last() =~= m.stack);
            assert(inner.step(data[p + 1], (p + 1) as usize) == Step::Go(m.at(Mode::After)));
            assert(scan_from(data, p + 1, inner) == scan_from(data, p + 2, m.at(Mode::After)));
        },
    }
}

proof fn lemma_scan_letters(data: Seq<u8>, p: int, w: Word, st: State)
    requires
        data.len() <= usize::MAX,
        stand(data, p, word_letters(w)),
        st.mode is Value,
    ensures
        scan_from(data, p, st) == scan_from(
            data,
            p + word_letters(w).len(),
            st.marked(word_letters(w)[0], p as usize).at(Mode::After),
        ),
{
    let letters = word_letters(w);
    lemma_stand(data, p, letters);
    assert(data[p + 0] == letters[0]);
    let m = st.marked(letters[0], p as usize).at(Mode::Word(w, 1));
    assert(st.step(data[p], p as usize) == Step::Go(m));
    assert forall|i: int| 1 <= i < letters.len() implies data[p + 1 + i - 1] == #[trigger] letters[i] by {
        assert(data[p + i] == letters[i]);
    }
    lemma_scan_word(data, p + 1, w, 1, m);
}

// ---------------------------------------------------------------------------------------
// Objects
// ---------------------------------------------------------------------------------------
/// A key and its value.
pub struct Pair {
    pub key: Seq<char>,
    pub value: Written,
}

/// A key, a colon and a value.
pub open spec fn pair_bytes(m: Pair) -> Seq<u8> {
    quoted_bytes(m.key) + (seq![0x3au8] + m.value.bytes())
}

/// Some keys with their values, commas between them, and the closing brace.
pub open spec fn pairs_bytes(ms: Seq<Pair>) -> Seq<u8>
    decreases ms.len(),
{
    if ms.len() == 0 {
        seq![0x7du8]
    } else if ms.len() == 1 {
        pair_bytes(ms[0]) + seq![0x7du8]
    } else {
        pair_bytes(ms[0]) + (seq![0x2cu8] + pairs_bytes(ms.skip(1)))
    }
}

/// An object.
pub open spec fn object_bytes(ms: Seq<Pair>) -> Seq<u8> {
    seq![0x7bu8] + pairs_bytes(ms)
}

/// Keys and texts that need no escape, and numbers that are numbers.
pub open spec fn can_be_written(ms: Seq<Pair>) -> bool {
    forall|i: int| 0 <= i < ms.len() ==> is_plain((#[trigger] ms[i]).key) && ms[i].value.valid()
}

/// Where a key and its value stand.
spec fn placed(data: Seq<u8>, e: int, at: (usize, usize), m: Pair) -> bool {
    &&& stand(data, at.0 as int, quoted_bytes(m.key))
    &&& at.0 + quoted_bytes(m.key).len() <= e
    &&& stand(data, at.1 as int, m.value.bytes())
    &&& at.1 + m.value.bytes().len() < e
    &&& {
        let c = data[at.1 + m.value.bytes().len()];
        c == 0x2c || c == 0x7d
    }
}

/// A key and its value are scanned to the end of the value.
proof fn lemma_scan_pair(data: Seq<u8>, p: int, m: Pair, st: State) -> (next: State)
    requires
        data.len() <= usize::MAX,
        is_plain(m.key),
        m.value.valid(),
        stand(data, p, pair_bytes(m)),
        p + pair_bytes(m).len() < data.len(),
        data[p + pair_bytes(m).len()] == 0x2c || data[p + pair_bytes(m).len()] == 0x7d,
        st.mode is Key || st.mode is FirstKey,
        st.stack == seq![Inside::Key],
        st.first is Some,
    ensures
        scan_from(data, p, st) == scan_from(data, p + pair_bytes(m).len(), next),
        next.mode is After,
        next.stack == seq![Inside::Value],
        next.first == st.first,
        next.starts == st.starts,
        placed(data, p + pair_bytes(m).len() + 1, (next.key_at, next.value_at), m),
{
    let q = quoted_bytes(m.key);
    let v = m.value.bytes();
    lemma_stand_parts(data, p, q, seq![0x3au8] + v);
    lemma_stand_parts(data, p + q.len(), seq![0x3au8], v);
    lemma_stand(data, p, q);
    assert(data[p + 0] == q[0]);
    assert(q[0] == 34);
    let a = State { mode: Mode::Str, key_at: p as usize, ..st };
    assert(st.step(data[p], p as usize) == Step::Go(a));
    lemma_scan_quoted(data, p, m.key, a);
    let b = a.at(Mode::After);
    let c = p + q.len();
    lemma_stand(data, c, seq![0x3au8]);
    assert(data[c + 0] == seq![0x3au8][0]);
    let d = State { mode: Mode::Value, stack: seq![Inside::Value], ..b };
    assert(b.stack.drop_last().push(Inside::Value) =~= seq![Inside::Value]);
    assert(b.stack.last() == Inside::Key);
    assert(b.step(data[c], c as usize) == Step::Go(d));
    assert(scan_from(data, c, b) == scan_from(data, c + 1, d));
    assert(pair_bytes(m).len() == q.len() + 1 + v.len());
    lemma_scan_value(data, c + 1, m.value, d);
    d.marked(v[0], (c + 1) as usize).at(Mode::After)
}

/// The rest of an object is scanned to its end, and every key and value of it is noted.
proof fn lemma_scan_pairs(data: Seq<u8>, p: int, ms: Seq<Pair>, st: State) -> (last: State)
    requires
        data.len() <= usize::MAX,
        can_be_written(ms),
        stand(data, p, pairs_bytes(ms)),
        st.mode is FirstKey || (st.mode is Key && ms.len() > 0),
        st.stack == seq![Inside::Key],
        st.first is Some,
    ensures
        scan_from(data, p, st) == Scan::Complete(last, p + pairs_bytes(ms).len()),
        last.first == st.first,
        last.starts.len() == st.starts.len() + ms.len(),
        forall|k: int| 0 <= k < st.starts.len() ==> #[trigger] last.starts[k] == st.starts[k],
        forall|k: int|
            0 <= k < ms.len() ==> placed(
                data,
                p + pairs_bytes(ms).len(),
                last.starts[st.starts.len() + k],
                #[trigger] ms[k],
            ),
    decreases ms.len(),
{
    let all = pairs_bytes(ms);
    lemma_stand(data, p, all);
    if ms.len() == 0 {
        assert(data[p + 0] == all[0]);
        let last = st.closed();
        assert(st.step(data[p], p as usize) == Step::Go(last));
        assert(scan_from(data, p + 1, last) == Scan::Complete(last, p + 1));
        last
    } else {
        let m = ms[0];
        let b = pair_bytes(m);
        let tail = if ms.len() == 1 {
            seq![0x7du8]
        } else {
            seq![0x2cu8] + pairs_bytes(ms.skip(1))
        };
        assert(all == b + tail);
        lemma_stand_parts(data, p, b, tail);
        let q = p + b.len();
        lemma_stand(data, q, tail);
        assert(data[q + 0] == tail[0]);
        let next = lemma_scan_pair(data, p, m, st);
        let r = next.recorded();
        assert(r.starts == st.starts.push((next.key_at, next.value_at)));
        if ms.len() == 1 {
            let last = r.closed();
            assert(next.step(data[q], q as usize) == Step::Go(last));
            assert(scan_from(data, q + 1, last) == Scan::Complete(last, q + 1));
            assert(last.starts[st.starts.len() as int] == (next.key_at, next.value_at));
            last
        } else {
            let more = ms.skip(1);
            let k = State { mode: Mode::Key, stack: seq![Inside::Key], ..r };
            assert(r.stack.drop_last().push(Inside::Key) =~= seq![Inside::Key]);
            assert(next.step(data[q], q as usize) == Step::Go(k));
            assert(scan_from(data, q, next) == scan_from(data, q + 1, k));
            lemma_stand_parts(data, q, seq![0x2cu8], pairs_bytes(more));
            assert forall|i: int| 0 <= i < more.len() implies is_plain((#[trigger] more[i]).key)
                && more[i].value.valid() by {
                assert(more[i] == ms[i + 1]);
            }
            let last = lemma_scan_pairs(data, q + 1, more, k);
            let e = p + all.len();
            assert(e == q + 1 + pairs_bytes(more).len());
            assert forall|i: int| 0 <= i < ms.len() implies placed(
                data,
                e,
                last.starts[st.starts.len() + i],
                #[trigger] ms[i],
            ) by {
                if i == 0 {
                    assert(last.starts[st.starts.len() as int] == k.starts[st.starts.len() as int]);
                } else {
                    assert(more[i - 1] == ms[i]);
                    assert(last.starts[k.starts.len() + (i - 1)] == last.starts[st.starts.len() + i]);
                }
            }
            assert forall|i: int| 0 <= i < st.starts.len() implies #[trigger] last.starts[i]
                == st.starts[i] by {
                assert(last.starts[i] == k.starts[i]);
            }
            last
        }
    }
}

/// What stands at a place is read as it was written.
proof fn lemma_read_text(data: Seq<u8>, e: int, p: int, text: Seq<char>)
    requires
        is_plain(text),
        stand(data, p, quoted_bytes(text)),
        p + quoted_bytes(text).len() <= e <= data.len(),
    ensures
        string_text(data.take(e).skip(p + 1)) == text,
{
    let bytes = encode_utf8(text);
    let q = quoted_bytes(text);
    lemma_stand(data, p, q);
    let s = data.take(e).skip(p + 1);
    let rest = s.skip(bytes.len() as int + 1);
    assert(s =~= bytes.push(34) + rest) by {
        assert forall|k: int| 0 <= k < bytes.len() + 1 implies s[k] == bytes.push(34)[k] by {
            assert(q[k + 1] == bytes.push(34)[k]);
            assert(data[p + (k + 1)] == q[k + 1]);
        }
    }
    assert(!text.contains('"') && !text.contains('\\'));
    text_without_escapes_is_read_as_it_is(text, rest);
}

proof fn lemma_read_digits(s: Seq<u8>, n: int)
    requires
        0 <= n < s.len(),
        forall|k: int| 0 <= k < n ==> in_number(#[trigger] s[k]),
        !in_number(s[n]),
    ensures
        number_text(s) == Seq::new(n as nat, |i: int| s[i] as char),
    decreases n,
{
    if n > 0 {
        assert(in_number(s[0]));
        let t = s.skip(1);
        assert forall|k: int| 0 <= k < n - 1 implies in_number(#[trigger] t[k]) by {
            assert(t[k] == s[k + 1]);
        }
        lemma_read_digits(t, n - 1);
        assert(number_text(s) =~= Seq::new(n as nat, |i: int| s[i] as char));
    } else {
        assert(number_text(s) =~= Seq::new(n as nat, |i: int| s[i] as char));
    }
}

proof fn lemma_number_bytes(n: Number)
    requires
        n.valid(),
    ensures
        n.bytes().len() > 0,
        n.bytes()[0] == 0x2d || 0x30 <= n.bytes()[0] <= 0x39,
        forall|k: int| 0 <= k < n.bytes().len() ==> in_number(#[trigger] n.bytes()[k]),
{
    let b = n.bytes();
    let s = n.sign_bytes();
    let w = n.whole;
    let f = n.fraction_bytes();
    let e = n.exponent_bytes();
    assert forall|k: int| 0 <= k < f.len() implies in_number(#[trigger] f[k]) by {
        if k > 0 {
            assert(f[k] == n.fraction->0[k - 1]);
        }
    }
    assert forall|k: int| 0 <= k < e.len() implies in_number(#[trigger] e[k]) by {
        let (letter, sign, digits) = n.exponent->0;
        let d = e.len() - digits.len();
        if k >= d {
            assert(e[k] == digits[k - d]);
        }
    }
    assert forall|k: int| 0 <= k < b.len() implies in_number(#[trigger] b[k]) by {
        if k < s.len() {
            assert(b[k] == s[k]);
        } else if k < s.len() + w.len() {
            assert(b[k] == w[k - s.len()]);
        } else if k < s.len() + w.len() + f.len() {
            assert(b[k] == f[k - s.len() - w.len()]);
        } else {
            assert(b[k] == e[k - s.len() - w.len() - f.len()]);
        }
    }
    assert(!n.negative ==> b[0] == w[0]);
}

proof fn lemma_read_value(data: Seq<u8>, e: int, p: int, v: Written)
    requires
        v.valid(),
        stand(data, p, v.bytes()),
        p + v.bytes().len() < e <= data.len(),
        data[p + v.bytes().len()] == 0x2c || data[p + v.bytes().len()] == 0x7d,
    ensures
        leaf_of(data.take(e), p) == v.leaf(),
{
    let bytes = v.bytes();
    lemma_stand(data, p, bytes);
    let t = data.take(e);
    match v {
        Written::Number(n) => {
            lemma_number_bytes(n);
            let s = t.skip(p);
            let len = bytes.len() as int;
            assert(data[p + 0] == bytes[0]);
            assert forall|k: int| 0 <= k < len implies in_number(#[trigger] s[k]) by {
                assert(data[p + k] == bytes[k]);
            }
            assert(s[len] == data[p + len]);
            lemma_read_digits(s, len);
            assert(number_text(s) =~= Seq::new(bytes.len(), |i: int| bytes[i] as char)) by {
                assert forall|k: int| 0 <= k < len implies s[k] == bytes[k] by {
                    assert(data[p + k] == bytes[k]);
                }
            }
        },
        Written::Text(text) => {
            assert(data[p + 0] == bytes[0]);
            lemma_read_text(data, e, p, text);
        },
        _ => {
            assert(data[p + 0] == bytes[0]);
        },
    }
}

/// An object is read as it was written: every key with its value, in order, whatever follows the
/// object. Keys and texts may hold any character that needs no escape, and the values are `null`, the
/// truth values, numbers of every form, texts, and empty arrays and objects.
pub proof fn an_object_is_read_as_it_was_written(
    ms: Seq<Pair>,
    rest: Seq<u8>,
    x: &[u8],
    r: Result<Document, SyntaxError>,
)
    requires
        can_be_written(ms),
        x@ == object_bytes(ms) + rest,
        x@.len() <= usize::MAX,
        call_ensures(parse, (x,), r),
    ensures
        r is Ok,
        r->Ok_0@.kind == Kind::Object,
        r->Ok_0@.members.len() == ms.len(),
        forall|i: int|
            0 <= i < ms.len() ==> r->Ok_0@.members[i] == (MemberView {
                key: (#[trigger] ms[i]).key,
                leaf: ms[i].value.leaf(),
            }),
{
    let data = x@;
    let all = object_bytes(ms);
    assert(data.subrange(0, all.len() as int) =~= all);
    assert(stand(data, 0, all));
    lemma_stand_parts(data, 0, seq![0x7bu8], pairs_bytes(ms));
    lemma_stand(data, 0, all);
    assert(data[0int + 0int] == all[0]);
    let start = State::start();
    let m = start.marked(123, 0);
    let st = State { mode: Mode::FirstKey, stack: seq![Inside::Key], ..m };
    assert(m.stack.push(Inside::Key) =~= seq![Inside::Key]);
    assert(start.step(data[0], 0) == Step::Go(st));
    let last = lemma_scan_pairs(data, 1, ms, st);
    let e: int = 1int + pairs_bytes(ms).len();
    assert(scanned(data) == Scan::Complete(last, e));
    let found = members_of(data.take(e), last.starts);
    assert forall|i: int| 0 <= i < ms.len() implies found[i] == (MemberView {
        key: (#[trigger] ms[i]).key,
        leaf: ms[i].value.leaf(),
    }) by {
        let (k, v) = last.starts[i];
        assert(placed(data, e, last.starts[st.starts.len() + i], ms[i]));
        lemma_read_text(data, e, k as int, ms[i].key);
        lemma_read_value(data, e, v as int, ms[i].value);
    }
    assert(kind_of(last.first) == Kind::Object);
}

// ---------------------------------------------------------------------------------------
// Nesting, keys and fields
// ---------------------------------------------------------------------------------------
/// So many opening brackets.
pub open spec fn brackets(n: nat) -> Seq<u8> {
    Seq::new(n, |i: int| 0x5bu8)
}

proof fn lemma_brackets(n: nat, p: nat, st: State)
    requires
        p <= n <= usize::MAX,
        st.stack.len() == p,
        p <= 10000,
        st.mode is FirstElement || (p == 0 && st.mode is Value),
        p > 0 ==> st.first is Some,
        n > 0,
    ensures
        scan_from(brackets(n), p as int, st) == Scan::Bad(
            if n <= 10000 {
                Fault::UnexpectedEof
            } else {
                Fault::MaxDepth
            },
        ),
    decreases n - p,
{
    let data = brackets(n);
    if p < n {
        assert(data[p as int] == 0x5b);
        let m = st.marked(0x5b, p as usize);
        if p < 10000 {
            let next = State {
                mode: Mode::FirstElement,
                stack: m.stack.push(Inside::Element),
                ..m
            };
            assert(st.step(0x5b, p as usize) == Step::Go(next));
            lemma_brackets(n, p + 1, next);
        } else {
            assert(st.step(0x5b, p as usize) == Step::TooDeep);
        }
    }
}

/// Nesting is followed 10000 deep and no deeper: so many brackets are an array that is not complete,
/// and one more is refused.
pub proof fn nesting_is_followed_10000_deep(n: nat)
    requires
        0 < n <= usize::MAX,
    ensures
        n <= 10000 ==> document(brackets(n)) == Err::<DocumentView, Fault>(Fault::UnexpectedEof),
        n > 10000 ==> document(brackets(n)) == Err::<DocumentView, Fault>(Fault::MaxDepth),
{
    lemma_brackets(n, 0, State::start());
}

/// Whether two characters differ in case only: the letters of ASCII, and the two other characters
/// that fold onto one of them, the long s and the sign for Kelvin.
pub open spec fn same_but_for_case(c: char, d: char) -> bool {
    let x = c as u32;
    let y = d as u32;
    ||| x == y
    ||| 0x41 <= x <= 0x5a && y == x + 32
    ||| 0x41 <= y <= 0x5a && x == y + 32
    ||| x == 0x17f && (y == 0x73 || y == 0x53)
    ||| y == 0x17f && (x == 0x73 || x == 0x53)
    ||| x == 0x212a && (y == 0x6b || y == 0x4b)
    ||| y == 0x212a && (x == 0x6b || x == 0x4b)
}

/// The case of a key does not matter, and nothing else is taken for the same key.
pub proof fn the_case_of_a_key_does_not_matter(a: Seq<char>, b: Seq<char>)
    ensures
        folded(a) == folded(b) <==> a.len() == b.len() && forall|i: int|
            0 <= i < a.len() ==> same_but_for_case(#[trigger] a[i], b[i]),
{
    if a.len() == b.len() && (forall|i: int|
        0 <= i < a.len() ==> same_but_for_case(#[trigger] a[i], b[i])) {
        assert forall|i: int| 0 <= i < a.len() implies folded(a)[i] == folded(b)[i] by {
            assert(same_but_for_case(a[i], b[i]));
        }
        assert(folded(a) =~= folded(b));
    }
    if folded(a) == folded(b) {
        assert(folded(a).len() == folded(b).len());
        assert forall|i: int| 0 <= i < a.len() implies same_but_for_case(#[trigger] a[i], b[i]) by {
            assert(folded(a)[i] == folded(b)[i]);
            lemma_folds(a[i], b[i]);
        }
    }
}

proof fn lemma_folds(c: char, d: char)
    requires
        fold_char(c) == fold_char(d),
    ensures
        same_but_for_case(c, d),
{
    assert(fold_char(c) as u32 == (if 'A' <= c <= 'Z' {
        c as u32 + 32
    } else if c as u32 == 0x17f {
        0x73
    } else if c as u32 == 0x212a {
        0x6b
    } else {
        c as u32 as int
    }));
    assert(fold_char(d) as u32 == (if 'A' <= d <= 'Z' {
        d as u32 + 32
    } else if d as u32 == 0x17f {
        0x73
    } else if d as u32 == 0x212a {
        0x6b
    } else {
        d as u32 as int
    }));
}

/// A value fits a field of its own kind: a text a text, a truth value a flag, and an integer that fits
/// in 64 bits a number. A `null` fits every field and leaves it alone; nothing else fits.
pub proof fn a_value_fits_a_field_of_its_kind(field: FieldValue, leaf: LeafView)
    ensures
        match assigned(field, leaf) {
            Ok(v) => {
                ||| leaf is Null && v == field
                ||| field is Text && (leaf matches LeafView::Text(s) && v == FieldValue::Text(s))
                ||| field is Flag && (leaf matches LeafView::Bool(b) && v == FieldValue::Flag(b))
                ||| field is Int && (leaf matches LeafView::Number(t) && integer_value(t) is Some && v
                    == FieldValue::Int(integer_value(t)->0))
            },
            Err(_) => {
                &&& !(leaf is Null)
                &&& !(leaf is Text && field is Text)
                &&& !(leaf is Bool && field is Flag)
                &&& field is Int ==> (leaf matches LeafView::Number(t) ==> integer_value(t) is None)
            },
        },
{
}

/// A byte that is refused is shown between single quotes: as it is where it can be, and in an escape
/// where it is a single quote, a backslash or a control character.
pub proof fn a_refused_byte_is_shown(c: u8)
    ensures
        ({
            let s = quoted_byte(c);
            &&& s.len() >= 3
            &&& s[0] == '\'' && s.last() == '\''
            &&& 0x20 <= c <= 0x7e && c != 0x27 && c != 0x5c ==> s == seq!['\'', c as char, '\'']
            &&& c == 0x27 ==> s == seq!['\'', '\\', '\'', '\'']
            &&& c == 0x5c ==> s == seq!['\'', '\\', '\\', '\'']
            &&& c == 0x0a ==> s == seq!['\'', '\\', 'n', '\'']
            &&& c == 0x09 ==> s == seq!['\'', '\\', 't', '\'']
            &&& c == 0x0d ==> s == seq!['\'', '\\', 'r', '\'']
            &&& c < 0x20 || c == 0x7f ==> s[1] == '\\'
        }),
{
    let s = quoted_byte(c);
    if 0x20 <= c <= 0x7e && c != 0x27 && c != 0x5c {
        assert(s =~= seq!['\'', c as char, '\'']);
    } else if c == 0x27 {
        assert(s =~= seq!['\'', '\\', '\'', '\'']);
    } else if c == 0x5c {
        assert(s =~= seq!['\'', '\\', '\\', '\'']);
    } else if c == 0x0a {
        assert(s =~= seq!['\'', '\\', 'n', '\'']);
    } else if c == 0x09 {
        assert(s =~= seq!['\'', '\\', 't', '\'']);
    } else if c == 0x0d {
        assert(s =~= seq!['\'', '\\', 'r', '\'']);
    }
}

/// Of several values that do not fit, the first in the document is reported; where all fit, none is.
pub proof fn the_first_misfit_is_reported<C: JsonStruct>(
    config: C,
    members: Seq<MemberView>,
    k: int,
)
    requires
        0 <= k <= members.len(),
        forall|j: int| 0 <= j < k ==> misfit(config, #[trigger] members[j]) is None,
        k < members.len() ==> misfit(config, members[k]) is Some,
    ensures
        first_misfit(config, members) == (if k < members.len() {
            misfit(config, members[k])
        } else {
            None
        }),
    decreases members.len(),
{
    if members.len() > 0 {
        let before = members.drop_last();
        assert forall|j: int| 0 <= j < k && j < before.len() implies misfit(
            config,
            #[trigger] before[j],
        ) is None by {
            assert(before[j] == members[j]);
        }
        if k < before.len() {
            assert(before[k] == members[k]);
            the_first_misfit_is_reported(config, before, k);
        } else {
            the_first_misfit_is_reported(config, before, before.len() as int);
        }
    }
}

} // verus!
