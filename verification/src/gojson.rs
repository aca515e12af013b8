//! Reading a JSON document into a struct of named fields.
//!
//! Only the first value of the input is read. A document with a syntax error changes nothing; a
//! value that does not fit its field is passed over, and the first one is reported when the rest
//! has been read. Nesting is followed with a stack of its own, so no document can exhaust the
//! program's.
pub mod spaces;
pub mod written;

use vstd::prelude::*;
use vstd::string::*;
use vstd::slice::slice_subrange;
use vstd::utf8::{
    char_u32_cast, decode_first_scalar, encode_utf8, encode_utf8_first_scalar,
    length_of_first_scalar, valid_first_scalar,
};

use crate::cli::quote::{push_quoted, quoted_char};
use crate::text::{
    a_decimal_reads_back, char_of, chars_of, integer_value, parse_int, push_char, signed_decimal,
};

verus! {

/// The deepest nesting of arrays and objects that is followed.
pub const MAX_NESTING_DEPTH: usize = 10000;

/// The name that errors give to the struct.
pub const STRUCT_NAME: &'static str = "Config";

/// The name that errors give to the type of the struct.
pub const TYPE_NAME: &'static str = "main.Config";

// ---------------------------------------------------------------------------------------
// Syntax
// ---------------------------------------------------------------------------------------
/// A word of the grammar.
#[derive(Clone, Copy, Debug, PartialEq, Eq, Structural)]
pub enum Word {
    True,
    False,
    Null,
}

/// What surrounds a value.
#[derive(Clone, Copy, Debug, PartialEq, Eq, Structural)]
pub enum Inside {
    /// An object, in the place of a key.
    Key,
    /// An object, in the place of a value.
    Value,
    /// An array.
    Element,
}

/// Where in the grammar the scanner stands.
#[derive(Clone, Copy, Debug, PartialEq, Eq, Structural)]
pub enum Mode {
    /// Before a value.
    Value,
    /// Behind `[`.
    FirstElement,
    /// Behind `{`.
    FirstKey,
    /// Before a key.
    Key,
    /// Behind a value or a key.
    After,
    /// In a string.
    Str,
    /// Behind a backslash in a string.
    Escape,
    /// In `\u`, behind so many digits.
    Hex(u8),
    /// Behind the minus of a number.
    Minus,
    /// Behind a leading zero.
    Zero,
    /// In the digits of a number.
    Digits,
    /// Behind a decimal point.
    Point,
    /// In the digits behind a decimal point.
    Fraction,
    /// Behind the `e` of an exponent.
    Exp,
    /// Behind the sign of an exponent.
    ExpSign,
    /// In the digits of an exponent.
    ExpDigits,
    /// In a word, behind so many of its letters.
    Word(Word, u8),
    /// Behind the array or object that is the whole document.
    Done,
}

/// The place at which a character is refused.
#[derive(Clone, Copy, Debug, PartialEq, Eq, Structural)]
pub enum Place {
    Value,
    Key,
    AfterKey,
    AfterPair,
    AfterElement,
    Str,
    Escape,
    Hex,
    Number,
    Point,
    Exponent,
    Word(Word, u8),
}

/// Where the scanner stands, and what it has seen of the document.
pub struct State {
    pub mode: Mode,
    /// What surrounds the value, outermost first.
    pub stack: Seq<Inside>,
    /// The first byte of the document.
    pub first: Option<u8>,
    /// Where the keys of the document, and their values, start.
    pub starts: Seq<(usize, usize)>,
    /// Where the last key of the document starts.
    pub key_at: usize,
    /// Where the last value of the document starts.
    pub value_at: usize,
}

/// What comes of one more byte.
pub enum Step {
    /// The scanner stands somewhere else.
    Go(State),
    /// The value had ended before the byte.
    End,
    /// The byte is refused.
    Refused(Place),
    /// The nesting is too deep.
    TooDeep,
}

/// Whether a byte is white space.
pub open spec fn is_space(c: u8) -> bool {
    c == 32 || c == 9 || c == 10 || c == 13
}

/// Whether a byte is a decimal digit.
pub open spec fn is_digit(c: u8) -> bool {
    48 <= c <= 57
}

/// The value of a hexadecimal digit.
pub open spec fn hex_value(c: u8) -> Option<int> {
    if 48 <= c <= 57 {
        Some(c - 48)
    } else if 97 <= c <= 102 {
        Some(c - 87)
    } else if 65 <= c <= 70 {
        Some(c - 55)
    } else {
        None
    }
}

/// The letters of a word.
pub open spec fn word_letters(w: Word) -> Seq<u8> {
    match w {
        Word::True => seq![116u8, 114u8, 117u8, 101u8],
        Word::False => seq![102u8, 97u8, 108u8, 115u8, 101u8],
        Word::Null => seq![110u8, 117u8, 108u8, 108u8],
    }
}

impl State {
    /// The scanner before the first byte.
    pub open spec fn start() -> State {
        State {
            mode: Mode::Value,
            stack: Seq::empty(),
            first: None,
            starts: Seq::empty(),
            key_at: 0,
            value_at: 0,
        }
    }

    /// The same scanner elsewhere in the grammar.
    pub open spec fn at(self, mode: Mode) -> State {
        State { mode, ..self }
    }

    /// A value starts with `c` at position `i`.
    pub open spec fn marked(self, c: u8, i: usize) -> State {
        State {
            first: if self.first is None {
                Some(c)
            } else {
                self.first
            },
            value_at: if self.stack == seq![Inside::Value] {
                i
            } else {
                self.value_at
            },
            ..self
        }
    }

    /// A key and its value have ended.
    pub open spec fn recorded(self) -> State {
        if self.stack.len() == 1 {
            State { starts: self.starts.push((self.key_at, self.value_at)), ..self }
        } else {
            self
        }
    }

    /// An array or object opens.
    pub open spec fn opened(self, inside: Inside, mode: Mode) -> Step {
        if self.stack.len() >= MAX_NESTING_DEPTH {
            Step::TooDeep
        } else {
            Step::Go(State { mode, stack: self.stack.push(inside), ..self })
        }
    }

    /// The innermost array or object closes.
    pub open spec fn closed(self) -> State {
        State {
            mode: if self.stack.len() <= 1 {
                Mode::Done
            } else {
                Mode::After
            },
            stack: self.stack.drop_last(),
            ..self
        }
    }

    /// The same scanner in another part of the innermost object.
    pub open spec fn turned(self, inside: Inside, mode: Mode) -> State {
        State { mode, stack: self.stack.drop_last().push(inside), ..self }
    }

    /// A value starts.
    pub open spec fn begin_value(self, c: u8, i: usize) -> Step {
        let m = self.marked(c, i);
        if c == 123 {
            m.opened(Inside::Key, Mode::FirstKey)
        } else if c == 91 {
            m.opened(Inside::Element, Mode::FirstElement)
        } else if c == 34 {
            Step::Go(m.at(Mode::Str))
        } else if c == 45 {
            Step::Go(m.at(Mode::Minus))
        } else if c == 48 {
            Step::Go(m.at(Mode::Zero))
        } else if is_digit(c) {
            Step::Go(m.at(Mode::Digits))
        } else if c == 116 {
            Step::Go(m.at(Mode::Word(Word::True, 1)))
        } else if c == 102 {
            Step::Go(m.at(Mode::Word(Word::False, 1)))
        } else if c == 110 {
            Step::Go(m.at(Mode::Word(Word::Null, 1)))
        } else {
            Step::Refused(Place::Value)
        }
    }

    /// A key starts.
    pub open spec fn begin_key(self, c: u8, i: usize) -> Step {
        if c == 34 {
            Step::Go(
                State {
                    mode: Mode::Str,
                    key_at: if self.stack.len() == 1 {
                        i
                    } else {
                        self.key_at
                    },
                    ..self
                },
            )
        } else {
            Step::Refused(Place::Key)
        }
    }

    /// What follows a value or a key.
    pub open spec fn end_value(self, c: u8) -> Step {
        if self.stack.len() == 0 {
            Step::End
        } else if is_space(c) {
            Step::Go(self.at(Mode::After))
        } else {
            match self.stack.last() {
                Inside::Key => if c == 58 {
                    Step::Go(self.turned(Inside::Value, Mode::Value))
                } else {
                    Step::Refused(Place::AfterKey)
                },
                Inside::Value => if c == 44 {
                    Step::Go(self.recorded().turned(Inside::Key, Mode::Key))
                } else if c == 125 {
                    Step::Go(self.recorded().closed())
                } else {
                    Step::Refused(Place::AfterPair)
                },
                Inside::Element => if c == 44 {
                    Step::Go(self.at(Mode::Value))
                } else if c == 93 {
                    Step::Go(self.closed())
                } else {
                    Step::Refused(Place::AfterElement)
                },
            }
        }
    }

    /// What follows the integer part of a number.
    pub open spec fn end_integer(self, c: u8) -> Step {
        if c == 46 {
            Step::Go(self.at(Mode::Point))
        } else if c == 101 || c == 69 {
            Step::Go(self.at(Mode::Exp))
        } else {
            self.end_value(c)
        }
    }

    /// What comes of the byte `c` at position `i`.
    pub open spec fn step(self, c: u8, i: usize) -> Step {
        match self.mode {
            Mode::Value => if is_space(c) {
                Step::Go(self)
            } else {
                self.begin_value(c, i)
            },
            Mode::FirstElement => if is_space(c) {
                Step::Go(self)
            } else if c == 93 {
                Step::Go(self.closed())
            } else {
                self.begin_value(c, i)
            },
            Mode::FirstKey => if is_space(c) {
                Step::Go(self)
            } else if c == 125 {
                Step::Go(self.closed())
            } else {
                self.begin_key(c, i)
            },
            Mode::Key => if is_space(c) {
                Step::Go(self)
            } else {
                self.begin_key(c, i)
            },
            Mode::After => self.end_value(c),
            Mode::Str => if c == 34 {
                Step::Go(self.at(Mode::After))
            } else if c == 92 {
                Step::Go(self.at(Mode::Escape))
            } else if c < 32 {
                Step::Refused(Place::Str)
            } else {
                Step::Go(self)
            },
            Mode::Escape => if unescaped(c) is Some {
                Step::Go(self.at(Mode::Str))
            } else if c == 117 {
                Step::Go(self.at(Mode::Hex(0)))
            } else {
                Step::Refused(Place::Escape)
            },
            Mode::Hex(k) => if hex_value(c) is None {
                Step::Refused(Place::Hex)
            } else if k >= 3 {
                Step::Go(self.at(Mode::Str))
            } else {
                Step::Go(self.at(Mode::Hex((k + 1) as u8)))
            },
            Mode::Minus => if c == 48 {
                Step::Go(self.at(Mode::Zero))
            } else if is_digit(c) {
                Step::Go(self.at(Mode::Digits))
            } else {
                Step::Refused(Place::Number)
            },
            Mode::Zero => self.end_integer(c),
            Mode::Digits => if is_digit(c) {
                Step::Go(self)
            } else {
                self.end_integer(c)
            },
            Mode::Point => if is_digit(c) {
                Step::Go(self.at(Mode::Fraction))
            } else {
                Step::Refused(Place::Point)
            },
            Mode::Fraction => if is_digit(c) {
                Step::Go(self)
            } else if c == 101 || c == 69 {
                Step::Go(self.at(Mode::Exp))
            } else {
                self.end_value(c)
            },
            Mode::Exp => if c == 43 || c == 45 {
                Step::Go(self.at(Mode::ExpSign))
            } else if is_digit(c) {
                Step::Go(self.at(Mode::ExpDigits))
            } else {
                Step::Refused(Place::Exponent)
            },
            Mode::ExpSign => if is_digit(c) {
                Step::Go(self.at(Mode::ExpDigits))
            } else {
                Step::Refused(Place::Exponent)
            },
            Mode::ExpDigits => if is_digit(c) {
                Step::Go(self)
            } else {
                self.end_value(c)
            },
            Mode::Word(w, k) => if k >= word_letters(w).len() || c != word_letters(w)[k as int] {
                Step::Refused(Place::Word(w, k))
            } else if k + 1 == word_letters(w).len() {
                Step::Go(self.at(Mode::After))
            } else {
                Step::Go(self.at(Mode::Word(w, (k + 1) as u8)))
            },
            Mode::Done => Step::End,
        }
    }
}

/// Why there is no first value.
pub enum Fault {
    /// There is nothing but white space.
    Eof,
    /// The input ends within the value.
    UnexpectedEof,
    /// The nesting is too deep.
    MaxDepth,
    /// A byte is refused.
    Invalid(u8, Place),
}

/// What the input holds.
pub enum Scan {
    /// A first value, and where it ends.
    Complete(State, int),
    /// None.
    Bad(Fault),
}

/// What the input holds from position `i` on.
pub open spec fn scan_from(data: Seq<u8>, i: int, st: State) -> Scan
    decreases data.len() - i,
{
    if st.mode is Done {
        Scan::Complete(st, i)
    } else if i >= data.len() {
        // What ends with white space ends with the input.
        if st.step(32, 0) is End {
            Scan::Complete(st, i)
        } else if st.first is None {
            Scan::Bad(Fault::Eof)
        } else {
            Scan::Bad(Fault::UnexpectedEof)
        }
    } else {
        match st.step(data[i], i as usize) {
            Step::Go(next) => scan_from(data, i + 1, next),
            Step::End => Scan::Complete(st, i),
            Step::Refused(place) => Scan::Bad(Fault::Invalid(data[i], place)),
            Step::TooDeep => Scan::Bad(Fault::MaxDepth),
        }
    }
}

/// What the input holds.
pub open spec fn scanned(data: Seq<u8>) -> Scan {
    scan_from(data, 0, State::start())
}

// ---------------------------------------------------------------------------------------
// Errors
// ---------------------------------------------------------------------------------------
/// The input holds no first value.
#[derive(Debug, Clone, PartialEq, Eq)]
pub enum SyntaxError {
    /// There is nothing but white space.
    Eof,
    /// The input ends within the value.
    UnexpectedEof,
    /// The nesting is deeper than [`MAX_NESTING_DEPTH`].
    MaxDepth,
    /// A character is refused: the message.
    Invalid(String),
}

/// The name of a word.
pub open spec fn word_name(w: Word) -> Seq<char> {
    match w {
        Word::True => "true"@,
        Word::False => "false"@,
        Word::Null => "null"@,
    }
}

/// Where a character is refused, in words.
pub open spec fn place_text(place: Place) -> Seq<char> {
    match place {
        Place::Value => "looking for beginning of value"@,
        Place::Key => "looking for beginning of object key string"@,
        Place::AfterKey => "after object key"@,
        Place::AfterPair => "after object key:value pair"@,
        Place::AfterElement => "after array element"@,
        Place::Str => "in string literal"@,
        Place::Escape => "in string escape code"@,
        Place::Hex => "in \\u hexadecimal character escape"@,
        Place::Number => "in numeric literal"@,
        Place::Point => "after decimal point in numeric literal"@,
        Place::Exponent => "in exponent of numeric literal"@,
        Place::Word(w, k) => "in literal "@ + word_name(w) + " (expecting '"@ + seq![
            word_letters(w)[k as int] as char,
        ] + "')"@,
    }
}

/// A byte between single quotes.
pub open spec fn quoted_byte(c: u8) -> Seq<char> {
    seq!['\''] + (if c == 39 {
        seq!['\\', '\'']
    } else if c == 34 {
        seq!['"']
    } else {
        quoted_char(c as char)
    }).push('\'')
}

/// The message for a character that is refused.
pub open spec fn refusal_text(c: u8, place: Place) -> Seq<char> {
    "invalid character "@ + quoted_byte(c) + " "@ + place_text(place)
}

impl SyntaxError {
    /// Whether this is the error for `fault`.
    pub open spec fn is_for(self, fault: Fault) -> bool {
        match fault {
            Fault::Eof => self is Eof,
            Fault::UnexpectedEof => self is UnexpectedEof,
            Fault::MaxDepth => self is MaxDepth,
            Fault::Invalid(c, place) => self is Invalid && self->Invalid_0@ == refusal_text(
                c,
                place,
            ),
        }
    }

    /// The text of the error.
    pub open spec fn text(self) -> Seq<char> {
        match self {
            SyntaxError::Eof => "EOF"@,
            SyntaxError::UnexpectedEof => "unexpected end of JSON input"@,
            SyntaxError::MaxDepth => "exceeded max depth"@,
            SyntaxError::Invalid(m) => m@,
        }
    }

    /// The text of the error.
    pub fn message(&self) -> (s: String)
        ensures
            s@ == self.text(),
    {
        match self {
            SyntaxError::Eof => "EOF".to_owned(),
            SyntaxError::UnexpectedEof => "unexpected end of JSON input".to_owned(),
            SyntaxError::MaxDepth => "exceeded max depth".to_owned(),
            SyntaxError::Invalid(m) => m.clone(),
        }
    }

    /// Whether more input may still complete the value.
    pub fn is_truncation(&self) -> (r: bool)
        ensures
            r == (self is Eof || self is UnexpectedEof),
    {
        match self {
            SyntaxError::Eof | SyntaxError::UnexpectedEof => true,
            _ => false,
        }
    }
}

// ---------------------------------------------------------------------------------------
// Strings and numbers
// ---------------------------------------------------------------------------------------
/// The character that a letter behind a backslash stands for.
pub open spec fn unescaped(c: u8) -> Option<char> {
    if c == 34 || c == 92 || c == 47 {
        Some(c as char)
    } else if c == 98 {
        Some('\x08')
    } else if c == 102 {
        Some('\x0c')
    } else if c == 110 {
        Some('\n')
    } else if c == 114 {
        Some('\r')
    } else if c == 116 {
        Some('\t')
    } else {
        None
    }
}

/// The value of a `\u` escape at position `i`.
pub open spec fn escape_value(s: Seq<u8>, i: int) -> Option<int> {
    if i + 6 <= s.len() && s[i] == 92 && s[i + 1] == 117 {
        match (
            hex_value(s[i + 2]),
            hex_value(s[i + 3]),
            hex_value(s[i + 4]),
            hex_value(s[i + 5]),
        ) {
            (Some(a), Some(b), Some(c), Some(d)) => Some(4096 * a + 256 * b + 16 * c + d),
            _ => None,
        }
    } else {
        None
    }
}

/// The first character of the rest of a string, and how many bytes it takes. A `\u` escape for one
/// half of a pair needs the other half; it, and each byte that is not UTF-8, counts as U+FFFD.
pub open spec fn piece(s: Seq<u8>) -> (char, int) {
    if s[0] == 92 {
        match escape_value(s, 0) {
            Some(v) => if 0xd800 <= v < 0xdc00 {
                match escape_value(s, 6) {
                    Some(w) => if 0xdc00 <= w < 0xe000 {
                        ((0x10000 + 1024 * (v - 0xd800) + (w - 0xdc00)) as char, 12)
                    } else {
                        ('\u{fffd}', 6)
                    },
                    None => ('\u{fffd}', 6),
                }
            } else if 0xdc00 <= v < 0xe000 {
                ('\u{fffd}', 6)
            } else {
                (v as char, 6)
            },
            None => if s.len() >= 2 && unescaped(s[1]) is Some {
                (unescaped(s[1])->0, 2)
            } else {
                ('\u{fffd}', 1)
            },
        }
    } else if valid_first_scalar(s) {
        (decode_first_scalar(s) as char, length_of_first_scalar(s))
    } else {
        ('\u{fffd}', 1)
    }
}

/// A piece takes at least one byte, and no more than there are.
proof fn lemma_piece(s: Seq<u8>)
    requires
        s.len() > 0,
    ensures
        1 <= piece(s).1 <= s.len(),
{
}

/// The text of the string whose bytes, behind the opening quote, are `s`.
pub open spec fn string_text(s: Seq<u8>) -> Seq<char>
    decreases s.len(),
{
    if s.len() == 0 || s[0] == 34 {
        Seq::empty()
    } else {
        let p = piece(s);
        if 1 <= p.1 <= s.len() {
            seq![p.0] + string_text(s.skip(p.1))
        } else {
            Seq::empty()
        }
    }
}

/// Whether a byte can stand in a number.
pub open spec fn in_number(c: u8) -> bool {
    is_digit(c) || c == 43 || c == 45 || c == 46 || c == 69 || c == 101
}

/// The text of the number that stands at the start of `s`.
pub open spec fn number_text(s: Seq<u8>) -> Seq<char>
    decreases s.len(),
{
    if s.len() == 0 || !in_number(s[0]) {
        Seq::empty()
    } else {
        seq![s[0] as char] + number_text(s.skip(1))
    }
}

// ---------------------------------------------------------------------------------------
// The scanner
// ---------------------------------------------------------------------------------------
/// What comes of one more byte.
#[derive(Clone, Copy, Debug, PartialEq, Eq, Structural)]
enum Move {
    Go,
    End,
    Refused(Place),
    TooDeep,
}

/// Follows the grammar through a document.
struct Scanner {
    mode: Mode,
    stack: Vec<Inside>,
    first: Option<u8>,
    starts: Vec<(usize, usize)>,
    key_at: usize,
    value_at: usize,
}

/// Whether a byte is white space.
fn space(c: u8) -> (r: bool)
    ensures
        r == is_space(c),
{
    c == 32 || c == 9 || c == 10 || c == 13
}

/// Whether a byte is a decimal digit.
fn digit(c: u8) -> (r: bool)
    ensures
        r == is_digit(c),
{
    48 <= c && c <= 57
}

/// The value of a hexadecimal digit.
fn hex_of(c: u8) -> (r: Option<u32>)
    ensures
        r is Some <==> hex_value(c) is Some,
        r is Some ==> r->0 == hex_value(c)->0 && r->0 < 16,
{
    if 48 <= c && c <= 57 {
        Some((c - 48) as u32)
    } else if 97 <= c && c <= 102 {
        Some((c - 87) as u32)
    } else if 65 <= c && c <= 70 {
        Some((c - 55) as u32)
    } else {
        None
    }
}

/// The letter of a word.
fn letter(w: Word, k: u8) -> (r: Option<u8>)
    ensures
        r is Some <==> k < word_letters(w).len(),
        r is Some ==> r->0 == word_letters(w)[k as int],
{
    match (w, k) {
        (Word::True, 0) => Some(116),
        (Word::True, 1) => Some(114),
        (Word::True, 2) => Some(117),
        (Word::True, 3) => Some(101),
        (Word::False, 0) => Some(102),
        (Word::False, 1) => Some(97),
        (Word::False, 2) => Some(108),
        (Word::False, 3) => Some(115),
        (Word::False, 4) => Some(101),
        (Word::Null, 0) => Some(110),
        (Word::Null, 1) => Some(117),
        (Word::Null, 2) => Some(108),
        (Word::Null, 3) => Some(108),
        _ => None,
    }
}

/// The character that a letter behind a backslash stands for.
fn unescape(c: u8) -> (r: Option<char>)
    ensures
        r == unescaped(c),
{
    if c == 34 || c == 92 || c == 47 {
        Some(c as char)
    } else if c == 98 {
        Some('\x08')
    } else if c == 102 {
        Some('\x0c')
    } else if c == 110 {
        Some('\n')
    } else if c == 114 {
        Some('\r')
    } else if c == 116 {
        Some('\t')
    } else {
        None
    }
}

impl Scanner {
    /// Where the scanner stands.
    spec fn state(self) -> State {
        State {
            mode: self.mode,
            stack: self.stack@,
            first: self.first,
            starts: self.starts@,
            key_at: self.key_at,
            value_at: self.value_at,
        }
    }

    /// Whether a move is what the grammar says of a byte.
    spec fn moved(before: State, step: Step, r: Move, after: State) -> bool {
        match step {
            Step::Go(next) => r is Go && after == next,
            Step::End => r is End && after == before,
            Step::Refused(place) => r == Move::Refused(place),
            Step::TooDeep => r is TooDeep,
        }
    }

    /// The scanner before the first byte.
    fn new() -> (s: Scanner)
        ensures
            s.state() == State::start(),
    {
        let s = Scanner {
            mode: Mode::Value,
            stack: Vec::new(),
            first: None,
            starts: Vec::new(),
            key_at: 0,
            value_at: 0,
        };
        assert(s.stack@ =~= Seq::<Inside>::empty());
        assert(s.starts@ =~= Seq::<(usize, usize)>::empty());
        s
    }

    /// Goes elsewhere in the grammar.
    fn go(&mut self, mode: Mode) -> (r: Move)
        ensures
            r is Go,
            final(self).state() == old(self).state().at(mode),
    {
        self.mode = mode;
        Move::Go
    }

    /// An array or object opens.
    fn open(&mut self, inside: Inside, mode: Mode) -> (r: Move)
        ensures
            Scanner::moved(
                old(self).state(),
                old(self).state().opened(inside, mode),
                r,
                final(self).state(),
            ),
    {
        if self.stack.len() >= MAX_NESTING_DEPTH {
            return Move::TooDeep;
        }
        self.stack.push(inside);
        self.mode = mode;
        Move::Go
    }

    /// The innermost array or object closes.
    fn close(&mut self) -> (r: Move)
        requires
            old(self).state().stack.len() > 0,
        ensures
            r is Go,
            final(self).state() == old(self).state().closed(),
    {
        self.mode = if self.stack.len() <= 1 {
            Mode::Done
        } else {
            Mode::After
        };
        let _ = self.stack.pop();
        assert(self.stack@ =~= old(self).stack@.drop_last());
        Move::Go
    }

    /// Goes to another part of the innermost object.
    fn turn(&mut self, inside: Inside, mode: Mode) -> (r: Move)
        requires
            old(self).state().stack.len() > 0,
        ensures
            r is Go,
            final(self).state() == old(self).state().turned(inside, mode),
    {
        let _ = self.stack.pop();
        self.stack.push(inside);
        self.mode = mode;
        assert(self.stack@ =~= old(self).stack@.drop_last().push(inside));
        Move::Go
    }

    /// A key and its value have ended.
    fn record(&mut self)
        ensures
            final(self).state() == old(self).state().recorded(),
    {
        if self.stack.len() == 1 {
            self.starts.push((self.key_at, self.value_at));
        }
    }

    /// A value starts.
    fn begin_value(&mut self, c: u8, i: usize) -> (r: Move)
        ensures
            Scanner::moved(
                old(self).state(),
                old(self).state().begin_value(c, i),
                r,
                final(self).state(),
            ),
    {
        if self.first.is_none() {
            self.first = Some(c);
        }
        if self.stack.len() == 1 {
            match self.stack[0] {
                Inside::Value => {
                    assert(self.stack@ =~= seq![Inside::Value]);
                    self.value_at = i;
                },
                _ => {
                    assert(self.stack@ != seq![Inside::Value]) by {
                        if self.stack@ == seq![Inside::Value] {
                            assert(self.stack@[0] == Inside::Value);
                        }
                    }
                },
            }
        }
        assert(self.state() == old(self).state().marked(c, i));
        if c == 123 {
            self.open(Inside::Key, Mode::FirstKey)
        } else if c == 91 {
            self.open(Inside::Element, Mode::FirstElement)
        } else if c == 34 {
            self.go(Mode::Str)
        } else if c == 45 {
            self.go(Mode::Minus)
        } else if c == 48 {
            self.go(Mode::Zero)
        } else if digit(c) {
            self.go(Mode::Digits)
        } else if c == 116 {
            self.go(Mode::Word(Word::True, 1))
        } else if c == 102 {
            self.go(Mode::Word(Word::False, 1))
        } else if c == 110 {
            self.go(Mode::Word(Word::Null, 1))
        } else {
            Move::Refused(Place::Value)
        }
    }

    /// A key starts.
    fn begin_key(&mut self, c: u8, i: usize) -> (r: Move)
        ensures
            Scanner::moved(
                old(self).state(),
                old(self).state().begin_key(c, i),
                r,
                final(self).state(),
            ),
    {
        if c != 34 {
            return Move::Refused(Place::Key);
        }
        if self.stack.len() == 1 {
            self.key_at = i;
        }
        self.go(Mode::Str)
    }

    /// What follows a value or a key.
    fn end_value(&mut self, c: u8) -> (r: Move)
        ensures
            Scanner::moved(
                old(self).state(),
                old(self).state().end_value(c),
                r,
                final(self).state(),
            ),
    {
        let n = self.stack.len();
        if n == 0 {
            return Move::End;
        }
        if space(c) {
            return self.go(Mode::After);
        }
        match self.stack[n - 1] {
            Inside::Key => if c == 58 {
                self.turn(Inside::Value, Mode::Value)
            } else {
                Move::Refused(Place::AfterKey)
            },
            Inside::Value => if c == 44 {
                self.record();
                self.turn(Inside::Key, Mode::Key)
            } else if c == 125 {
                self.record();
                self.close()
            } else {
                Move::Refused(Place::AfterPair)
            },
            Inside::Element => if c == 44 {
                self.go(Mode::Value)
            } else if c == 93 {
                self.close()
            } else {
                Move::Refused(Place::AfterElement)
            },
        }
    }

    /// What follows the integer part of a number.
    fn end_integer(&mut self, c: u8) -> (r: Move)
        ensures
            Scanner::moved(
                old(self).state(),
                old(self).state().end_integer(c),
                r,
                final(self).state(),
            ),
    {
        if c == 46 {
            self.go(Mode::Point)
        } else if c == 101 || c == 69 {
            self.go(Mode::Exp)
        } else {
            self.end_value(c)
        }
    }

    /// The byte `c` at position `i`.
    fn step(&mut self, c: u8, i: usize) -> (r: Move)
        requires
            old(self).state().sound(),
        ensures
            Scanner::moved(
                old(self).state(),
                old(self).state().step(c, i),
                r,
                final(self).state(),
            ),
    {
        match self.mode {
            Mode::Value => if space(c) {
                Move::Go
            } else {
                self.begin_value(c, i)
            },
            Mode::FirstElement => if space(c) {
                Move::Go
            } else if c == 93 {
                self.close()
            } else {
                self.begin_value(c, i)
            },
            Mode::FirstKey => if space(c) {
                Move::Go
            } else if c == 125 {
                self.close()
            } else {
                self.begin_key(c, i)
            },
            Mode::Key => if space(c) {
                Move::Go
            } else {
                self.begin_key(c, i)
            },
            Mode::After => self.end_value(c),
            Mode::Str => if c == 34 {
                self.go(Mode::After)
            } else if c == 92 {
                self.go(Mode::Escape)
            } else if c < 32 {
                Move::Refused(Place::Str)
            } else {
                Move::Go
            },
            Mode::Escape => if unescape(c).is_some() {
                self.go(Mode::Str)
            } else if c == 117 {
                self.go(Mode::Hex(0))
            } else {
                Move::Refused(Place::Escape)
            },
            Mode::Hex(k) => if hex_of(c).is_none() {
                Move::Refused(Place::Hex)
            } else if k >= 3 {
                self.go(Mode::Str)
            } else {
                self.go(Mode::Hex(k + 1))
            },
            Mode::Minus => if c == 48 {
                self.go(Mode::Zero)
            } else if digit(c) {
                self.go(Mode::Digits)
            } else {
                Move::Refused(Place::Number)
            },
            Mode::Zero => self.end_integer(c),
            Mode::Digits => if digit(c) {
                Move::Go
            } else {
                self.end_integer(c)
            },
            Mode::Point => if digit(c) {
                self.go(Mode::Fraction)
            } else {
                Move::Refused(Place::Point)
            },
            Mode::Fraction => if digit(c) {
                Move::Go
            } else if c == 101 || c == 69 {
                self.go(Mode::Exp)
            } else {
                self.end_value(c)
            },
            Mode::Exp => if c == 43 || c == 45 {
                self.go(Mode::ExpSign)
            } else if digit(c) {
                self.go(Mode::ExpDigits)
            } else {
                Move::Refused(Place::Exponent)
            },
            Mode::ExpSign => if digit(c) {
                self.go(Mode::ExpDigits)
            } else {
                Move::Refused(Place::Exponent)
            },
            Mode::ExpDigits => if digit(c) {
                Move::Go
            } else {
                self.end_value(c)
            },
            Mode::Word(w, k) => match letter(w, k) {
                Some(l) => if c != l {
                    Move::Refused(Place::Word(w, k))
                } else if letter(w, k + 1).is_none() {
                    self.go(Mode::After)
                } else {
                    self.go(Mode::Word(w, k + 1))
                },
                None => Move::Refused(Place::Word(w, k)),
            },
            Mode::Done => Move::End,
        }
    }
}

impl State {
    /// An array or object that has just opened is on the stack, and a word has not ended yet.
    pub open spec fn sound(self) -> bool {
        &&& self.mode is FirstElement || self.mode is FirstKey ==> self.stack.len() > 0
        &&& self.mode matches Mode::Word(w, k) ==> k < word_letters(w).len()
    }

    /// What has been seen lies before position `i`.
    pub open spec fn before(self, i: int) -> bool {
        &&& self.key_at <= i
        &&& self.value_at <= i
        &&& forall|k: int|
            0 <= k < self.starts.len() ==> (#[trigger] self.starts[k]).0 < i && self.starts[k].1 < i
    }
}

/// A step keeps the scanner sound.
proof fn lemma_step(st: State, c: u8, i: usize, next: State)
    requires
        st.sound(),
        st.before(i as int),
        st.step(c, i) == Step::Go(next),
    ensures
        next.sound(),
        next.before(i + 1),
{
    assert forall|k: int| 0 <= k < next.starts.len() implies (#[trigger] next.starts[k]).0 < i + 1
        && next.starts[k].1 < i + 1 by {
        if k < st.starts.len() {
            assert(next.starts[k] == st.starts[k]);
        }
    }
}

/// The text of the refusal of a byte.
fn refusal(c: u8, place: Place) -> (s: String)
    requires
        place matches Place::Word(w, k) ==> k < word_letters(w).len(),
    ensures
        s@ == refusal_text(c, place),
{
    let mut s = "invalid character ".to_owned();
    push_char(&mut s, '\'');
    if c == 39 {
        push_char(&mut s, '\\');
        push_char(&mut s, '\'');
    } else if c == 34 {
        push_char(&mut s, '"');
    } else {
        push_quoted(&mut s, c as char);
    }
    push_char(&mut s, '\'');
    s.append(" ");
    let ghost head = s@;
    assert(head =~= "invalid character "@ + quoted_byte(c) + " "@);
    match place {
        Place::Value => s.append("looking for beginning of value"),
        Place::Key => s.append("looking for beginning of object key string"),
        Place::AfterKey => s.append("after object key"),
        Place::AfterPair => s.append("after object key:value pair"),
        Place::AfterElement => s.append("after array element"),
        Place::Str => s.append("in string literal"),
        Place::Escape => s.append("in string escape code"),
        Place::Hex => s.append("in \\u hexadecimal character escape"),
        Place::Number => s.append("in numeric literal"),
        Place::Point => s.append("after decimal point in numeric literal"),
        Place::Exponent => s.append("in exponent of numeric literal"),
        Place::Word(w, k) => {
            s.append("in literal ");
            match w {
                Word::True => s.append("true"),
                Word::False => s.append("false"),
                Word::Null => s.append("null"),
            }
            s.append(" (expecting '");
            let l: u8 = match letter(w, k) {
                Some(l) => l,
                None => 0,
            };
            push_char(&mut s, l as char);
            s.append("')");
            assert(s@ =~= head + place_text(place));
        },
    }
    s
}

/// Looks for the first value of the input.
fn scan(data: &[u8]) -> (r: Result<(Scanner, usize), SyntaxError>)
    ensures
        match scanned(data@) {
            Scan::Complete(st, end) => {
                &&& r matches Ok((s, n)) && s.state() == st && n == end
                &&& st.before(end)
                &&& 0 <= end <= data@.len()
            },
            Scan::Bad(fault) => r matches Err(e) && e.is_for(fault),
        },
{
    let mut s = Scanner::new();
    let mut i: usize = 0;
    while i < data.len()
        invariant
            i <= data.len(),
            s.state().sound(),
            s.state().before(i as int),
            scanned(data@) == scan_from(data@, i as int, s.state()),
        decreases data.len() - i,
    {
        let ghost st = s.state();
        match s.mode {
            Mode::Done => {
                return Ok((s, i));
            },
            _ => {},
        }
        match s.step(data[i], i) {
            Move::Go => {
                proof {
                    lemma_step(st, data@[i as int], i, s.state());
                }
            },
            Move::End => {
                return Ok((s, i));
            },
            Move::Refused(place) => {
                return Err(SyntaxError::Invalid(refusal(data[i], place)));
            },
            Move::TooDeep => {
                return Err(SyntaxError::MaxDepth);
            },
        }
        i = i + 1;
    }
    match s.mode {
        Mode::Done => {
            return Ok((s, i));
        },
        _ => {},
    }
    let empty = s.first.is_none();
    match s.step(32, 0) {
        Move::End => Ok((s, i)),
        _ => if empty {
            Err(SyntaxError::Eof)
        } else {
            Err(SyntaxError::UnexpectedEof)
        },
    }
}

// ---------------------------------------------------------------------------------------
// Values
// ---------------------------------------------------------------------------------------
/// The value of a `\u` escape at position `i`.
fn escape_of(s: &[u8], from: usize, i: usize) -> (r: Option<u32>)
    requires
        from <= s.len(),
        i <= 6,
    ensures
        r is Some <==> escape_value(s@.skip(from as int), i as int) is Some,
        r is Some ==> r->0 == escape_value(s@.skip(from as int), i as int)->0 && r->0 < 65536,
{
    let ghost t = s@.skip(from as int);
    if s.len() - from < i + 6 {
        return None;
    }
    let at: usize = from + i;
    assert(forall|k: int| 0 <= k < 6 ==> #[trigger] t[i + k] == s@[at + k]);
    assert(t[i + 0] == s@[at + 0] && t[i + 1] == s@[at + 1]);
    if s[at] != 92 || s[at + 1] != 117 {
        return None;
    }
    match (hex_of(s[at + 2]), hex_of(s[at + 3]), hex_of(s[at + 4]), hex_of(s[at + 5])) {
        (Some(a), Some(b), Some(c), Some(d)) => Some(4096 * a + 256 * b + 16 * c + d),
        _ => None,
    }
}

/// The character with a number, U+FFFD where there is none.
fn char_or_replacement(v: u32) -> (c: char)
    ensures
        v < 0xd800 || 0xe000 <= v <= 0x10ffff ==> c == v as char,
{
    match char_of(v) {
        Some(c) => {
            proof {
                char_u32_cast(c, v);
            }
            c
        },
        None => '\u{fffd}',
    }
}

/// The first character of the rest of a string behind an escape.
fn escaped_piece(s: &[u8], i: usize) -> (r: (char, usize))
    requires
        i < s.len(),
        s@[i as int] == 92,
    ensures
        (r.0, r.1 as int) == piece(s@.skip(i as int)),
{
    let ghost t = s@.skip(i as int);
    assert(t[0] == 92);
    match escape_of(s, i, 0) {
        Some(v) => {
            if 0xd800 <= v && v < 0xdc00 {
                match escape_of(s, i, 6) {
                    Some(w) => if 0xdc00 <= w && w < 0xe000 {
                        (char_or_replacement(0x10000 + 1024 * (v - 0xd800) + (w - 0xdc00)), 12)
                    } else {
                        ('\u{fffd}', 6)
                    },
                    None => ('\u{fffd}', 6),
                }
            } else if 0xdc00 <= v && v < 0xe000 {
                ('\u{fffd}', 6)
            } else {
                (char_or_replacement(v), 6)
            }
        },
        None => {
            if s.len() - i >= 2 {
                assert(t[1] == s@[i + 1]);
                match unescape(s[i + 1]) {
                    Some(c) => (c, 2),
                    None => ('\u{fffd}', 1),
                }
            } else {
                ('\u{fffd}', 1)
            }
        },
    }
}

/// The first character of the rest of a string that is not an escape.
fn plain_piece(s: &[u8], i: usize) -> (r: (char, usize))
    requires
        i < s.len(),
        s@[i as int] != 92,
    ensures
        (r.0, r.1 as int) == piece(s@.skip(i as int)),
{
    let ghost t = s@.skip(i as int);
    let n: usize = s.len() - i;
    let a: u8 = s[i];
    assert(t[0] == a);
    if a <= 0x7f {
        let v: u32 = (a & 0x7f) as u32;
        assert(v < 0x80) by (bit_vector)
            requires
                v == (a & 0x7fu8) as u32,
        ;
        return (char_or_replacement(v), 1);
    }
    if 0xc0 <= a && a <= 0xdf && n >= 2 {
        let b: u8 = s[i + 1];
        assert(t[1] == b);
        if 0x80 <= b && b <= 0xbf {
            let v: u32 = (((a & 0x1F) as u32) << 6) | (b & 0x3f) as u32;
            assert(v < 0x800) by (bit_vector)
                requires
                    v == (((a & 0x1Fu8) as u32) << 6) | (b & 0x3fu8) as u32,
            ;
            if v >= 0x80 {
                return (char_or_replacement(v), 2);
            }
        }
    } else if 0xe0 <= a && a <= 0xef && n >= 3 {
        let b: u8 = s[i + 1];
        let c: u8 = s[i + 2];
        assert(t[1] == b && t[2] == c);
        if 0x80 <= b && b <= 0xbf && 0x80 <= c && c <= 0xbf {
            let v: u32 = (((a & 0x0F) as u32) << 12) | (((b & 0x3f) as u32) << 6) | (c
                & 0x3f) as u32;
            assert(v < 0x10000) by (bit_vector)
                requires
                    v == (((a & 0x0Fu8) as u32) << 12) | (((b & 0x3fu8) as u32) << 6) | (c
                        & 0x3fu8) as u32,
            ;
            if v >= 0x800 && (v < 0xd800 || v > 0xdfff) {
                return (char_or_replacement(v), 3);
            }
        }
    } else if 0xf0 <= a && a <= 0xf7 && n >= 4 {
        let b: u8 = s[i + 1];
        let c: u8 = s[i + 2];
        let d: u8 = s[i + 3];
        assert(t[1] == b && t[2] == c && t[3] == d);
        if 0x80 <= b && b <= 0xbf && 0x80 <= c && c <= 0xbf && 0x80 <= d && d <= 0xbf {
            let v: u32 = (((a & 0x07) as u32) << 18) | (((b & 0x3f) as u32) << 12) | (((c
                & 0x3f) as u32) << 6) | (d & 0x3f) as u32;
            if v >= 0x10000 && v <= 0x10ffff {
                return (char_or_replacement(v), 4);
            }
        }
    }
    ('\u{fffd}', 1)
}

/// The text of the string whose bytes, behind the opening quote, start at `start`.
fn string_at(s: &[u8], start: usize) -> (out: String)
    requires
        start <= s.len(),
    ensures
        out@ == string_text(s@.skip(start as int)),
{
    let mut out = String::new();
    let mut i: usize = start;
    let ghost whole = string_text(s@.skip(start as int));
    proof {
        reveal_strlit("");
    }
    assert(out@ + string_text(s@.skip(i as int)) =~= whole);
    while i < s.len() && s[i] != 34
        invariant
            start <= i <= s.len(),
            out@ + string_text(s@.skip(i as int)) == whole,
        decreases s.len() - i,
    {
        let ghost t = s@.skip(i as int);
        let (c, n) = if s[i] == 92 {
            escaped_piece(s, i)
        } else {
            plain_piece(s, i)
        };
        proof {
            lemma_piece(t);
            assert(t.skip(n as int) =~= s@.skip(i + n));
            assert(out@ + string_text(t) =~= out@.push(c) + string_text(s@.skip(i + n)));
        }
        push_char(&mut out, c);
        i = i + n;
    }
    assert(string_text(s@.skip(i as int)) =~= Seq::<char>::empty());
    assert(out@ =~= whole);
    out
}

/// The text of the number that stands at `start`.
fn number_at(s: &[u8], start: usize) -> (out: String)
    requires
        start <= s.len(),
    ensures
        out@ == number_text(s@.skip(start as int)),
{
    let mut out = String::new();
    let mut i: usize = start;
    let ghost whole = number_text(s@.skip(start as int));
    proof {
        reveal_strlit("");
    }
    assert(out@ + number_text(s@.skip(i as int)) =~= whole);
    while i < s.len() && (digit(s[i]) || s[i] == 43 || s[i] == 45 || s[i] == 46 || s[i] == 69
        || s[i] == 101)
        invariant
            start <= i <= s.len(),
            out@ + number_text(s@.skip(i as int)) == whole,
        decreases s.len() - i,
    {
        let ghost t = s@.skip(i as int);
        assert(t.skip(1) =~= s@.skip(i + 1));
        assert(out@ + number_text(t) =~= out@.push(t[0] as char) + number_text(s@.skip(i + 1)));
        push_char(&mut out, s[i] as char);
        i = i + 1;
    }
    assert(number_text(s@.skip(i as int)) =~= Seq::<char>::empty());
    assert(out@ =~= whole);
    out
}

/// The value of a member.
#[derive(Debug, Clone, PartialEq, Eq)]
pub enum Leaf {
    Null,
    Bool(bool),
    /// A number, as it is written.
    Number(String),
    Text(String),
    Array,
    Object,
}

/// What a member's value is.
pub enum LeafView {
    Null,
    Bool(bool),
    Number(Seq<char>),
    Text(Seq<char>),
    Array,
    Object,
}

impl View for Leaf {
    type V = LeafView;

    open spec fn view(&self) -> LeafView {
        match *self {
            Leaf::Null => LeafView::Null,
            Leaf::Bool(b) => LeafView::Bool(b),
            Leaf::Number(s) => LeafView::Number(s@),
            Leaf::Text(s) => LeafView::Text(s@),
            Leaf::Array => LeafView::Array,
            Leaf::Object => LeafView::Object,
        }
    }
}

/// The value that stands at position `i`.
pub open spec fn leaf_of(data: Seq<u8>, i: int) -> LeafView {
    let c = data[i];
    if c == 34 {
        LeafView::Text(string_text(data.skip(i + 1)))
    } else if c == 123 {
        LeafView::Object
    } else if c == 91 {
        LeafView::Array
    } else if c == 116 {
        LeafView::Bool(true)
    } else if c == 102 {
        LeafView::Bool(false)
    } else if c == 110 {
        LeafView::Null
    } else {
        LeafView::Number(number_text(data.skip(i)))
    }
}

/// The value that stands at position `i`.
fn leaf_at(data: &[u8], i: usize) -> (leaf: Leaf)
    requires
        i < data.len(),
    ensures
        leaf@ == leaf_of(data@, i as int),
{
    let c: u8 = data[i];
    if c == 34 {
        Leaf::Text(string_at(data, i + 1))
    } else if c == 123 {
        Leaf::Object
    } else if c == 91 {
        Leaf::Array
    } else if c == 116 {
        Leaf::Bool(true)
    } else if c == 102 {
        Leaf::Bool(false)
    } else if c == 110 {
        Leaf::Null
    } else {
        Leaf::Number(number_at(data, i))
    }
}

/// A key of the document and its value.
#[derive(Debug, Clone, PartialEq, Eq)]
pub struct Member {
    pub key: String,
    pub leaf: Leaf,
}

/// A key of a document and its value.
pub struct MemberView {
    pub key: Seq<char>,
    pub leaf: LeafView,
}

impl View for Member {
    type V = MemberView;

    open spec fn view(&self) -> MemberView {
        MemberView { key: self.key@, leaf: self.leaf@ }
    }
}

/// Some keys and their values.
pub open spec fn members_view(v: Seq<Member>) -> Seq<MemberView> {
    Seq::new(v.len(), |i: int| v[i]@)
}

/// The keys of a document, and their values, given where they start.
pub open spec fn members_of(data: Seq<u8>, starts: Seq<(usize, usize)>) -> Seq<MemberView> {
    Seq::new(
        starts.len(),
        |i: int|
            MemberView {
                key: string_text(data.skip(starts[i].0 + 1)),
                leaf: leaf_of(data, starts[i].1 as int),
            },
    )
}

/// What a document is.
#[derive(Debug, Clone, Copy, PartialEq, Eq, Structural)]
pub enum Kind {
    Null,
    Bool,
    Number,
    Text,
    Array,
    Object,
}

/// What the document is that starts with a byte.
pub open spec fn kind_of(first: Option<u8>) -> Kind {
    match first {
        Some(c) => if c == 34 {
            Kind::Text
        } else if c == 123 {
            Kind::Object
        } else if c == 91 {
            Kind::Array
        } else if c == 116 || c == 102 {
            Kind::Bool
        } else if c == 110 {
            Kind::Null
        } else {
            Kind::Number
        },
        None => Kind::Null,
    }
}

/// The first value of an input: what it is, and its keys and their values where it is an object.
#[derive(Debug, Clone, PartialEq, Eq)]
pub struct Document {
    pub kind: Kind,
    pub members: Vec<Member>,
}

/// What a document is.
pub struct DocumentView {
    pub kind: Kind,
    pub members: Seq<MemberView>,
}

impl View for Document {
    type V = DocumentView;

    open spec fn view(&self) -> DocumentView {
        DocumentView { kind: self.kind, members: members_view(self.members@) }
    }
}

/// The first value of an input, or why there is none. Only the bytes of the value count.
pub open spec fn document(data: Seq<u8>) -> Result<DocumentView, Fault> {
    match scanned(data) {
        Scan::Complete(st, end) => Ok(
            DocumentView {
                kind: kind_of(st.first),
                members: members_of(data.take(end), st.starts),
            },
        ),
        Scan::Bad(fault) => Err(fault),
    }
}

/// Reads the first value of the input. What follows it is not looked at.
pub fn parse(data: &[u8]) -> (r: Result<Document, SyntaxError>)
    ensures
        match document(data@) {
            Ok(d) => r is Ok && r->Ok_0@ == d,
            Err(fault) => r is Err && r->Err_0.is_for(fault),
        },
{
    match scan(data) {
        Err(e) => Err(e),
        Ok((s, end)) => {
            let ghost whole = data@;
            let data = slice_subrange(data, 0, end);
            assert(data@ =~= whole.take(end as int));
            let ghost starts = s.starts@;
            assert(s.state().before(data@.len() as int));
            assert(starts == s.state().starts);
            let mut members: Vec<Member> = Vec::new();
            let mut i: usize = 0;
            assert(members_view(members@) =~= members_of(data@, starts.take(0)));
            while i < s.starts.len()
                invariant
                    i <= s.starts.len(),
                    starts == s.starts@,
                    forall|k: int|
                        0 <= k < starts.len() ==> (#[trigger] starts[k]).0 < data@.len()
                            && starts[k].1 < data@.len(),
                    members_view(members@) == members_of(data@, starts.take(i as int)),
                decreases s.starts.len() - i,
            {
                let (k, v) = s.starts[i];
                assert(starts[i as int] == (k, v));
                assert(k < data.len());
                let ghost before = members@;
                members.push(Member { key: string_at(data, k + 1), leaf: leaf_at(data, v) });
                assert(members_view(members@) =~= members_view(before).push(members@[i as int]@));
                assert(members_view(members@) =~= members_of(data@, starts.take(i + 1)));
                i = i + 1;
            }
            assert(starts.take(i as int) =~= starts);
            let kind = match s.first {
                Some(c) => if c == 34 {
                    Kind::Text
                } else if c == 123 {
                    Kind::Object
                } else if c == 91 {
                    Kind::Array
                } else if c == 116 || c == 102 {
                    Kind::Bool
                } else if c == 110 {
                    Kind::Null
                } else {
                    Kind::Number
                },
                None => Kind::Null,
            };
            Ok(Document { kind, members })
        },
    }
}

// ---------------------------------------------------------------------------------------
// Fields
// ---------------------------------------------------------------------------------------
/// What kind of value a field holds.
#[derive(Debug, Clone, Copy, PartialEq, Eq, Structural)]
pub enum FieldKind {
    Text,
    Int,
    Flag,
}

/// The value of a field.
pub enum FieldValue {
    Text(Seq<char>),
    Int(int),
    Flag(bool),
}

impl FieldValue {
    /// What kind of value it is.
    pub open spec fn kind(self) -> FieldKind {
        match self {
            FieldValue::Text(_) => FieldKind::Text,
            FieldValue::Int(_) => FieldKind::Int,
            FieldValue::Flag(_) => FieldKind::Flag,
        }
    }
}

/// A new value for a field.
#[derive(Debug)]
pub enum Setting {
    Text(String),
    Int(i64),
    Flag(bool),
}

impl View for Setting {
    type V = FieldValue;

    open spec fn view(&self) -> FieldValue {
        match *self {
            Setting::Text(s) => FieldValue::Text(s@),
            Setting::Int(n) => FieldValue::Int(n as int),
            Setting::Flag(b) => FieldValue::Flag(b),
        }
    }
}

/// A struct whose fields have names. The names are in lower case.
pub trait JsonStruct {
    /// The value of the field with a name.
    spec fn field(&self, name: Seq<char>) -> Option<FieldValue>;

    /// The kind of the field with a name.
    fn kind(&self, name: &str) -> (k: Option<FieldKind>)
        ensures
            k is Some <==> self.field(name@) is Some,
            k is Some ==> k->0 == self.field(name@)->0.kind(),
    ;

    /// Sets the field with a name, and no other.
    fn set(&mut self, name: &str, value: Setting)
        requires
            old(self).field(name@) is Some,
            old(self).field(name@)->0.kind() == value@.kind(),
        ensures
            final(self).field(name@) == Some(value@),
            forall|n: Seq<char>|
                n != name@ ==> #[trigger] final(self).field(n) == old(self).field(n),
    ;
}

/// A character with its case folded: the letters of ASCII, and the two other characters that fold
/// onto one of them.
pub open spec fn fold_char(c: char) -> char {
    if 'A' <= c <= 'Z' {
        (c as u32 + 32) as char
    } else if c as u32 == 0x17f {
        's'
    } else if c as u32 == 0x212a {
        'k'
    } else {
        c
    }
}

/// A key with its case folded.
pub open spec fn folded(s: Seq<char>) -> Seq<char> {
    Seq::new(s.len(), |i: int| fold_char(s[i]))
}

/// A key with its case folded.
fn fold(key: &str) -> (out: String)
    ensures
        out@ == folded(key@),
{
    let v = chars_of(key);
    let mut out = String::new();
    let mut i: usize = 0;
    proof {
        reveal_strlit("");
    }
    assert(out@ =~= folded(v@).take(0));
    while i < v.len()
        invariant
            i <= v.len(),
            out@ == folded(v@).take(i as int),
        decreases v.len() - i,
    {
        let c = v[i];
        let n: u32 = c as u32;
        let f: char = if 'A' <= c && c <= 'Z' {
            (n as u8 + 32) as char
        } else if n == 0x17f {
            's'
        } else if n == 0x212a {
            'k'
        } else {
            c
        };
        assert(f == fold_char(c));
        push_char(&mut out, f);
        assert(out@ =~= folded(v@).take(i + 1));
        i = i + 1;
    }
    assert(folded(v@).take(i as int) =~= folded(v@));
    out
}

/// What becomes of a field that a value is assigned to: a `null` leaves it alone. A value that does
/// not fit is described.
pub open spec fn assigned(field: FieldValue, leaf: LeafView) -> Result<FieldValue, Seq<char>> {
    match leaf {
        LeafView::Null => Ok(field),
        LeafView::Text(s) => if field is Text {
            Ok(FieldValue::Text(s))
        } else {
            Err("string"@)
        },
        LeafView::Bool(b) => if field is Flag {
            Ok(FieldValue::Flag(b))
        } else {
            Err("bool"@)
        },
        LeafView::Number(t) => if field is Int {
            match integer_value(t) {
                Some(n) => Ok(FieldValue::Int(n)),
                None => Err("number "@ + t),
            }
        } else {
            Err("number"@)
        },
        LeafView::Array => Err("array"@),
        LeafView::Object => Err("object"@),
    }
}

/// A field after some keys and their values have been assigned in order.
pub open spec fn overlaid(members: Seq<MemberView>, name: Seq<char>, field: FieldValue) -> FieldValue
    decreases members.len(),
{
    if members.len() == 0 {
        field
    } else {
        let before = overlaid(members.drop_last(), name, field);
        if folded(members.last().key) == name {
            match assigned(before, members.last().leaf) {
                Ok(v) => v,
                Err(_) => before,
            }
        } else {
            before
        }
    }
}

/// A value that does not fit its field.
pub struct Misfit {
    /// The key, as the document spells it.
    pub key: Seq<char>,
    /// What the value is.
    pub value: Seq<char>,
    /// The kind of the field.
    pub kind: FieldKind,
}

/// Whether the value of a key fits the field with its name, if there is one.
pub open spec fn misfit<C: JsonStruct>(config: C, member: MemberView) -> Option<Misfit> {
    match config.field(folded(member.key)) {
        Some(field) => match assigned(field, member.leaf) {
            Ok(_) => None,
            Err(value) => Some(Misfit { key: member.key, value, kind: field.kind() }),
        },
        None => None,
    }
}

/// The first value that does not fit.
pub open spec fn first_misfit<C: JsonStruct>(config: C, members: Seq<MemberView>) -> Option<Misfit>
    decreases members.len(),
{
    if members.len() == 0 {
        None
    } else {
        match first_misfit(config, members.drop_last()) {
            Some(m) => Some(m),
            None => misfit(config, members.last()),
        }
    }
}

/// A value does not fit.
#[derive(Debug, Clone, PartialEq, Eq)]
pub enum UnmarshalError {
    /// A value that does not fit its field.
    Field {
        /// What the value is.
        value: String,
        /// The name of the struct.
        struct_name: &'static str,
        /// The key, as the document spells it.
        field: String,
        /// The type of the field.
        go_type: &'static str,
    },
    /// A document that is not an object.
    TopLevel {
        /// What the document is.
        value: String,
        /// The type of the struct.
        go_type: &'static str,
    },
}

/// The name that errors give to a kind of field.
pub open spec fn type_text(kind: FieldKind) -> Seq<char> {
    match kind {
        FieldKind::Text => "string"@,
        FieldKind::Int => "int"@,
        FieldKind::Flag => "bool"@,
    }
}

/// The name that errors give to a kind of document.
pub open spec fn kind_text(kind: Kind) -> Seq<char> {
    match kind {
        Kind::Null => "null"@,
        Kind::Bool => "bool"@,
        Kind::Number => "number"@,
        Kind::Text => "string"@,
        Kind::Array => "array"@,
        Kind::Object => "object"@,
    }
}

impl UnmarshalError {
    /// Whether this is the error for a value that does not fit its field.
    pub open spec fn is_for(self, m: Misfit) -> bool {
        &&& self is Field
        &&& self->Field_value@ == m.value
        &&& self->struct_name@ == STRUCT_NAME@
        &&& self->field@ == m.key
        &&& self->Field_go_type@ == type_text(m.kind)
    }

    /// Whether this is the error for a document that is not an object.
    pub open spec fn is_for_document(self, kind: Kind) -> bool {
        &&& self is TopLevel
        &&& self->TopLevel_value@ == kind_text(kind)
        &&& self->TopLevel_go_type@ == TYPE_NAME@
    }

    /// The text of the error.
    pub open spec fn text(self) -> Seq<char> {
        match self {
            UnmarshalError::Field { value, struct_name, field, go_type } => {
                "json: cannot unmarshal "@ + value@ + " into Go struct field "@ + struct_name@
                    + "."@ + field@ + " of type "@ + go_type@
            },
            UnmarshalError::TopLevel { value, go_type } => {
                "json: cannot unmarshal "@ + value@ + " into Go value of type "@ + go_type@
            },
        }
    }

    /// The text of the error.
    pub fn message(&self) -> (s: String)
        ensures
            s@ == self.text(),
    {
        let mut s = "json: cannot unmarshal ".to_owned();
        match self {
            UnmarshalError::Field { value, struct_name, field, go_type } => {
                s.append(value.as_str());
                s.append(" into Go struct field ");
                s.append(*struct_name);
                s.append(".");
                s.append(field.as_str());
                s.append(" of type ");
                s.append(*go_type);
            },
            UnmarshalError::TopLevel { value, go_type } => {
                s.append(value.as_str());
                s.append(" into Go value of type ");
                s.append(*go_type);
            },
        }
        s
    }
}

/// What a value becomes in a field of some kind.
enum Fit {
    Leave,
    Take(Setting),
    Not(String),
}

/// Fits a value to a field of some kind.
fn fit(kind: FieldKind, leaf: &Leaf) -> (r: Fit)
    ensures
        forall|field: FieldValue|
            field.kind() == kind ==> (match #[trigger] assigned(field, leaf@) {
                Ok(v) => match r {
                    Fit::Leave => v == field,
                    Fit::Take(s) => v == s@ && v.kind() == kind,
                    Fit::Not(_) => false,
                },
                Err(t) => r matches Fit::Not(s) && s@ == t,
            }),
        r matches Fit::Take(s) ==> s@.kind() == kind,
{
    match leaf {
        Leaf::Null => Fit::Leave,
        Leaf::Text(s) => match kind {
            FieldKind::Text => Fit::Take(Setting::Text(s.clone())),
            _ => Fit::Not("string".to_owned()),
        },
        Leaf::Bool(b) => match kind {
            FieldKind::Flag => Fit::Take(Setting::Flag(*b)),
            _ => Fit::Not("bool".to_owned()),
        },
        Leaf::Number(t) => match kind {
            FieldKind::Int => match parse_int(chars_of(t.as_str()).as_slice()) {
                Some(n) => Fit::Take(Setting::Int(n)),
                None => {
                    let mut s = "number ".to_owned();
                    s.append(t.as_str());
                    Fit::Not(s)
                },
            },
            _ => Fit::Not("number".to_owned()),
        },
        Leaf::Array => Fit::Not("array".to_owned()),
        Leaf::Object => Fit::Not("object".to_owned()),
    }
}

/// The name that errors give to a kind of field.
fn field_type(kind: FieldKind) -> (s: &'static str)
    ensures
        s@ == type_text(kind),
{
    match kind {
        FieldKind::Text => "string",
        FieldKind::Int => "int",
        FieldKind::Flag => "bool",
    }
}

/// The name that errors give to a kind of document.
fn kind_name(kind: Kind) -> (s: &'static str)
    ensures
        s@ == kind_text(kind),
{
    match kind {
        Kind::Null => "null",
        Kind::Bool => "bool",
        Kind::Number => "number",
        Kind::Text => "string",
        Kind::Array => "array",
        Kind::Object => "object",
    }
}

/// Assigning keeps the kind of a field.
proof fn lemma_overlaid_kind(members: Seq<MemberView>, name: Seq<char>, field: FieldValue)
    ensures
        overlaid(members, name, field).kind() == field.kind(),
    decreases members.len(),
{
    if members.len() > 0 {
        lemma_overlaid_kind(members.drop_last(), name, field);
    }
}

/// The fields of one struct are those of another after some keys have been assigned.
pub open spec fn is_overlaid<C: JsonStruct>(new: C, old: C, members: Seq<MemberView>) -> bool {
    forall|name: Seq<char>|
        #![trigger new.field(name)]
        #![trigger old.field(name)]
        match old.field(name) {
            Some(field) => new.field(name) == Some(overlaid(members, name, field)),
            None => new.field(name) is None,
        }
}

/// Assigns the keys of an object to the fields with their names, in order. Keys are matched without
/// regard to case, and one that is not the name of a field is ignored.
fn assign_all<C: JsonStruct>(config: &mut C, members: &Vec<Member>) -> (r: Option<UnmarshalError>)
    ensures
        is_overlaid(*final(config), *old(config), members_view(members@)),
        match first_misfit(*old(config), members_view(members@)) {
            Some(m) => r matches Some(e) && e.is_for(m),
            None => r is None,
        },
{
    let mut error: Option<UnmarshalError> = None;
    let ghost all = members_view(members@);
    let ghost start = *config;
    let mut i: usize = 0;
    assert(all.take(0) =~= Seq::<MemberView>::empty());
    while i < members.len()
        invariant
            i <= members.len(),
            all == members_view(members@),
            is_overlaid(*config, start, all.take(i as int)),
            match first_misfit(start, all.take(i as int)) {
                Some(m) => error matches Some(e) && e.is_for(m),
                None => error is None,
            },
        decreases members.len() - i,
    {
        let name = fold(members[i].key.as_str());
        let ghost before = *config;
        let ghost done = all.take(i as int);
        let ghost more = all.take(i + 1);
        proof {
            assert(more.drop_last() =~= done);
            assert(more.last() == members@[i as int]@);
            assert(more.last().key == members@[i as int].key@);
            if start.field(name@) is Some {
                lemma_overlaid_kind(done, name@, start.field(name@)->0);
            }
            assert(before.field(name@) is Some <==> start.field(name@) is Some);
        }
        if let Some(kind) = config.kind(name.as_str()) {
            let ghost now = before.field(name@)->0;
            let ghost first = start.field(name@)->0;
            let r = fit(kind, &members[i].leaf);
            proof {
                let a = assigned(now, more.last().leaf);
                let b = assigned(first, more.last().leaf);
                assert(a is Err <==> b is Err);
            }
            match r {
                Fit::Leave => {},
                Fit::Take(value) => {
                    config.set(name.as_str(), value);
                },
                Fit::Not(value) => {
                    if error.is_none() {
                        error = Some(
                            UnmarshalError::Field {
                                value,
                                struct_name: STRUCT_NAME,
                                field: members[i].key.clone(),
                                go_type: field_type(kind),
                            },
                        );
                    }
                },
            }
        }
        proof {
            assert forall|n: Seq<char>|
                #![trigger config.field(n)]
                #![trigger start.field(n)]
                match start.field(n) {
                    Some(field) => config.field(n) == Some(overlaid(more, n, field)),
                    None => config.field(n) is None,
                } by {
                assert(before.field(n) is Some <==> start.field(n) is Some);
                if n != name@ {
                    assert(config.field(n) == before.field(n));
                }
            }
        }
        i = i + 1;
    }
    assert(all.take(i as int) =~= all);
    error
}

/// Reads a document into a struct. Nothing is changed by a document that is not an object, and a
/// `null` is no error.
pub fn decode_struct<C: JsonStruct>(config: &mut C, document: &Document) -> (r: Result<
    (),
    UnmarshalError,
>)
    ensures
        if document.kind == Kind::Object {
            &&& is_overlaid(*final(config), *old(config), members_view(document.members@))
            &&& match first_misfit(*old(config), members_view(document.members@)) {
                Some(m) => r matches Err(e) && e.is_for(m),
                None => r is Ok,
            }
        } else {
            &&& *final(config) == *old(config)
            &&& if document.kind == Kind::Null {
                r is Ok
            } else {
                r matches Err(e) && e.is_for_document(document.kind)
            }
        },
{
    match document.kind {
        Kind::Object => match assign_all(config, &document.members) {
            Some(e) => Err(e),
            None => Ok(()),
        },
        Kind::Null => Ok(()),
        _ => Err(
            UnmarshalError::TopLevel {
                value: kind_name(document.kind).to_owned(),
                go_type: TYPE_NAME,
            },
        ),
    }
}

// ---------------------------------------------------------------------------------------
// Laws
// ---------------------------------------------------------------------------------------
/// A field whose name is not among the keys keeps its value.
pub proof fn an_absent_key_changes_nothing(
    members: Seq<MemberView>,
    name: Seq<char>,
    field: FieldValue,
)
    requires
        forall|i: int| 0 <= i < members.len() ==> folded((#[trigger] members[i]).key) != name,
    ensures
        overlaid(members, name, field) == field,
    decreases members.len(),
{
    if members.len() > 0 {
        assert(folded(members[members.len() - 1].key) != name);
        assert forall|i: int| 0 <= i < members.drop_last().len() implies folded(
            (#[trigger] members.drop_last()[i]).key,
        ) != name by {
            assert(folded(members[i].key) != name);
        }
        an_absent_key_changes_nothing(members.drop_last(), name, field);
    }
}

/// The last value that fits counts: an earlier one, and a later one that is `null` or does not fit,
/// leaves nothing behind.
pub proof fn the_last_fitting_value_counts(
    members: Seq<MemberView>,
    i: int,
    name: Seq<char>,
    field: FieldValue,
)
    requires
        0 <= i < members.len(),
        folded(members[i].key) == name,
        assigned(field, members[i].leaf) is Ok,
        !(members[i].leaf is Null),
        forall|k: int|
            i < k < members.len() ==> folded((#[trigger] members[k]).key) != name
                || members[k].leaf is Null || assigned(field, members[k].leaf) is Err,
    ensures
        Ok::<FieldValue, Seq<char>>(overlaid(members, name, field)) == assigned(
            field,
            members[i].leaf,
        ),
    decreases members.len(),
{
    let before = members.drop_last();
    lemma_overlaid_kind(before, name, field);
    if i < members.len() - 1 {
        assert forall|k: int| i < k < before.len() implies folded((#[trigger] before[k]).key)
            != name || before[k].leaf is Null || assigned(field, before[k].leaf) is Err by {
            assert(before[k] == members[k]);
        }
        the_last_fitting_value_counts(before, i, name, field);
        let last = members[members.len() - 1];
        assert(folded(last.key) != name || last.leaf is Null || assigned(field, last.leaf) is Err);
    }
}

/// Folding a key twice is folding it once, and a key of lower-case ASCII is its own fold.
pub proof fn folding_is_done_once(s: Seq<char>)
    ensures
        folded(folded(s)) == folded(s),
        (forall|i: int| 0 <= i < s.len() ==> (#[trigger] s[i] as u32) < 0x80 && !('A' <= s[i] <= 'Z'))
            ==> folded(s) == s,
{
    assert(folded(folded(s)) =~= folded(s));
    if forall|i: int| 0 <= i < s.len() ==> (#[trigger] s[i] as u32) < 0x80 && !('A' <= s[i] <= 'Z') {
        assert(folded(s) =~= s);
    }
}

/// An integer that is written in decimal is assigned as it is.
pub proof fn a_written_integer_is_assigned(n: i64, old: int)
    ensures
        assigned(FieldValue::Int(old), LeafView::Number(signed_decimal(n as int))) == Ok::<
            FieldValue,
            Seq<char>,
        >(FieldValue::Int(n as int)),
{
    a_decimal_reads_back(n as int);
}

/// What follows the object or array that is the document is not read, and neither is what follows a
/// character that is refused or a nesting that is too deep: the same document, or the same fault, is
/// found however the input goes on.
pub proof fn what_follows_the_document_is_not_read(data: Seq<u8>, rest: Seq<u8>)
    requires
        match scanned(data) {
            Scan::Complete(st, _) => st.mode is Done,
            Scan::Bad(fault) => fault is Invalid || fault is MaxDepth,
        },
    ensures
        document(data + rest) == document(data),
{
    lemma_scan_extended(data, rest, 0, State::start());
    if let Scan::Complete(st, end) = scanned(data) {
        assert((data + rest).take(end) =~= data.take(end));
    }
}

proof fn lemma_scan_extended(data: Seq<u8>, rest: Seq<u8>, i: int, st: State)
    requires
        0 <= i <= data.len(),
        match scan_from(data, i, st) {
            Scan::Complete(last, _) => last.mode is Done,
            Scan::Bad(fault) => fault is Invalid || fault is MaxDepth,
        },
    ensures
        scan_from(data + rest, i, st) == scan_from(data, i, st),
        scan_from(data, i, st) matches Scan::Complete(_, end) ==> i <= end <= data.len(),
    decreases data.len() - i,
{
    if !(st.mode is Done) && i < data.len() {
        assert((data + rest)[i] == data[i]);
        match st.step(data[i], i as usize) {
            Step::Go(next) => {
                lemma_scan_extended(data, rest, i + 1, next);
            },
            _ => {},
        }
    }
}

/// A text that needs no escape is read as it was written, and what follows its closing quote does
/// not matter.
pub proof fn text_without_escapes_is_read_as_it_is(text: Seq<char>, rest: Seq<u8>)
    requires
        !text.contains('"'),
        !text.contains('\\'),
    ensures
        string_text(encode_utf8(text).push(34) + rest) == text,
    decreases text.len(),
{
    let tail = seq![34u8] + rest;
    let bytes = encode_utf8(text);
    assert(bytes.push(34) + rest =~= bytes + tail);
    if text.len() == 0 {
        assert(bytes + tail =~= tail);
        assert(text =~= Seq::<char>::empty());
    } else {
        let c = text[0];
        let more = text.drop_first();
        assert(c != '"' && c != '\\');
        encode_utf8_first_scalar(text);
        lemma_first_scalar_extended(bytes, tail);
        char_u32_cast(c, decode_first_scalar(bytes));
        let s = bytes + tail;
        assert(s[0] == bytes[0]);
        assert(34u8 & 0x7f == 34 && 92u8 & 0x7f == 92) by (bit_vector);
        assert(s[0] != 34 && s[0] != 92);
        let n = length_of_first_scalar(bytes);
        assert(bytes.skip(n) =~= encode_utf8(more));
        assert(s.skip(n) =~= encode_utf8(more).push(34) + rest);
        assert(!more.contains('"') && !more.contains('\\')) by {
            assert forall|i: int| 0 <= i < more.len() implies more[i] != '"' && more[i] != '\\' by {
                assert(more[i] == text[i + 1]);
            }
        }
        text_without_escapes_is_read_as_it_is(more, rest);
        assert(seq![c] + more =~= text);
    }
}

/// The first character of some bytes does not depend on what follows them.
proof fn lemma_first_scalar_extended(bytes: Seq<u8>, tail: Seq<u8>)
    requires
        valid_first_scalar(bytes),
    ensures
        valid_first_scalar(bytes + tail),
        decode_first_scalar(bytes + tail) == decode_first_scalar(bytes),
        length_of_first_scalar(bytes + tail) == length_of_first_scalar(bytes),
        length_of_first_scalar(bytes) <= bytes.len(),
{
    let s = bytes + tail;
    assert forall|i: int| 0 <= i < bytes.len() implies s[i] == bytes[i] by {}
    assert(s[0] == bytes[0]);
    if bytes.len() > 1 {
        assert(s[1] == bytes[1]);
    }
    if bytes.len() > 2 {
        assert(s[2] == bytes[2]);
    }
    if bytes.len() > 3 {
        assert(s[3] == bytes[3]);
    }
}

/// A scanner that has begun an array or an object stands in it until the end of it.
spec fn stands_in(st: State) -> bool {
    (st.first == Some(123u8) || st.first == Some(91u8)) && !(st.mode is Done) ==> st.stack.len() > 0
}

proof fn lemma_stands_in(data: Seq<u8>, i: int, st: State)
    requires
        0 <= i <= data.len(),
        stands_in(st),
        st.first is None ==> st.mode is Value && st.stack.len() == 0,
    ensures
        scan_from(data, i, st) matches Scan::Complete(last, _) ==> (kind_of(last.first) is Array
            || kind_of(last.first) is Object ==> last.mode is Done),
    decreases data.len() - i,
{
    if !(st.mode is Done) {
        if i < data.len() {
            if let Step::Go(next) = st.step(data[i], i as usize) {
                lemma_stands_in(data, i + 1, next);
            }
        }
    }
}

/// What is found by reading on, piece by piece, while the value may still be incomplete.
pub open spec fn found_in_pieces(done: Seq<u8>, pieces: Seq<Seq<u8>>) -> Result<DocumentView, Fault>
    decreases pieces.len(),
{
    match document(done) {
        Err(Fault::Eof) | Err(Fault::UnexpectedEof) => if pieces.len() > 0 {
            found_in_pieces(done + pieces[0], pieces.skip(1))
        } else {
            document(done)
        },
        found => found,
    }
}

/// Some pieces, one after the other.
pub open spec fn put_together(done: Seq<u8>, pieces: Seq<Seq<u8>>) -> Seq<u8>
    decreases pieces.len(),
{
    if pieces.len() == 0 {
        done
    } else {
        put_together(done + pieces[0], pieces.skip(1))
    }
}

proof fn lemma_put_together(done: Seq<u8>, pieces: Seq<Seq<u8>>)
    ensures
        done.is_prefix_of(put_together(done, pieces)),
    decreases pieces.len(),
{
    if pieces.len() > 0 {
        let more = done + pieces[0];
        lemma_put_together(more, pieces.skip(1));
        let whole = put_together(more, pieces.skip(1));
        assert(done =~= whole.subrange(0, done.len() as int)) by {
            assert(more == whole.subrange(0, more.len() as int));
            assert forall|k: int| 0 <= k < done.len() implies done[k] == whole[k] by {
                assert(more[k] == whole.subrange(0, more.len() as int)[k]);
            }
        }
    } else {
        assert(done =~= done.subrange(0, done.len() as int));
    }
}

/// A file that is read in pieces, and no further than needed, gives what the whole of it gives, unless
/// its document is a lone number, string or word, which a piece may cut short.
pub proof fn reading_in_pieces_finds_the_same(done: Seq<u8>, pieces: Seq<Seq<u8>>)
    requires
        found_in_pieces(done, pieces) matches Ok(d) ==> d.kind is Object || d.kind is Array,
    ensures
        found_in_pieces(done, pieces) == document(put_together(done, pieces)),
    decreases pieces.len(),
{
    let found = document(done);
    if pieces.len() > 0 {
        if found matches Err(Fault::Eof) || found matches Err(Fault::UnexpectedEof) {
            reading_in_pieces_finds_the_same(done + pieces[0], pieces.skip(1));
        } else {
            let whole = put_together(done, pieces);
            lemma_put_together(done, pieces);
            let rest = whole.skip(done.len() as int);
            assert(whole =~= done + rest);
            lemma_stands_in(done, 0, State::start());
            what_follows_the_document_is_not_read(done, rest);
        }
    }
}

} // verus!
