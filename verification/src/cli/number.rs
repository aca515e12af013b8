//! Numbers and truth values as the command line spells them.
use vstd::prelude::*;
use vstd::string::*;

use crate::text::{chars_of, decimal, digit_char, signed_decimal, str_eq};

verus! {

/// Why a text is not a number.
#[derive(Debug, Clone, Copy, PartialEq, Eq, Structural)]
pub enum NumError {
    Syntax,
    Range,
}

// ---------------------------------------------------------------------------------------
// What the texts mean
// ---------------------------------------------------------------------------------------
/// Whether `c` is the ASCII letter `lower`, in either case.
pub open spec fn is_letter(c: char, lower: char) -> bool {
    c == lower || c as int == lower as int - 32
}

/// The value of a digit, letters in either case counting from ten; none for anything else.
pub open spec fn digit_value(c: char) -> Option<int> {
    if '0' <= c <= '9' {
        Some(c as int - 48)
    } else if 'a' <= c <= 'z' {
        Some(c as int - 97 + 10)
    } else if 'A' <= c <= 'Z' {
        Some(c as int - 65 + 10)
    } else {
        None
    }
}

/// Whether a number begins with one of the prefixes `0b`, `0o` and `0x`.
pub open spec fn has_prefix(s: Seq<char>) -> bool {
    s.len() >= 2 && s[0] == '0' && (is_letter(s[1], 'b') || is_letter(s[1], 'o') || is_letter(
        s[1],
        'x',
    ))
}

/// The base of a number: that of its prefix if a digit may follow it, octal after any other
/// leading zero, and ten otherwise.
pub open spec fn base_of(s: Seq<char>) -> int {
    if s.len() >= 3 && has_prefix(s) {
        if is_letter(s[1], 'b') {
            2
        } else if is_letter(s[1], 'o') {
            8
        } else {
            16
        }
    } else if s[0] == '0' {
        8
    } else {
        10
    }
}

/// The digits of a number, after its prefix or its leading zero.
pub open spec fn digits_of(s: Seq<char>) -> Seq<char> {
    if s.len() >= 3 && has_prefix(s) {
        s.skip(2)
    } else if s[0] == '0' {
        s.skip(1)
    } else {
        s
    }
}

/// Reads digits from left to right onto `n`, passing over underscores. The first thing that is
/// wrong decides the error.
pub open spec fn scanned(digits: Seq<char>, base: int, n: int) -> Result<int, NumError>
    decreases digits.len(),
{
    if digits.len() == 0 {
        Ok(n)
    } else if digits[0] == '_' {
        scanned(digits.skip(1), base, n)
    } else {
        match digit_value(digits[0]) {
            None => Err(NumError::Syntax),
            Some(d) => if d >= base {
                Err(NumError::Syntax)
            } else if n * base + d > u64::MAX {
                Err(NumError::Range)
            } else {
                scanned(digits.skip(1), base, n * base + d)
            },
        }
    }
}

/// Whether `c` is a digit of a number, as far as underscores are concerned.
pub open spec fn is_place(c: char, hex: bool) -> bool {
    '0' <= c <= '9' || hex && ('a' <= c <= 'f' || 'A' <= c <= 'F')
}

/// A number without its sign.
pub open spec fn unsigned_part(s: Seq<char>) -> Seq<char> {
    if s.len() > 0 && (s[0] == '-' || s[0] == '+') {
        s.skip(1)
    } else {
        s
    }
}

/// Every underscore stands between digits, or between a base prefix and a digit.
pub open spec fn underscores_fit(s: Seq<char>) -> bool {
    let b = unsigned_part(s);
    let prefixed = has_prefix(b);
    let hex = prefixed && is_letter(b[1], 'x');
    forall|i: int|
        0 <= i < b.len() && #[trigger] b[i] == '_' ==> {
            &&& i >= 1
            &&& (prefixed && i == 2) || ((prefixed ==> i > 2) && is_place(b[i - 1], hex))
            &&& i + 1 < b.len()
            &&& is_place(b[i + 1], hex)
        }
}

/// The number that `s` spells without a sign.
pub open spec fn uint_of(s: Seq<char>) -> Result<int, NumError> {
    if s.len() == 0 {
        Err(NumError::Syntax)
    } else {
        match scanned(digits_of(s), base_of(s), 0) {
            Err(e) => Err(e),
            Ok(n) => if digits_of(s).contains('_') && !underscores_fit(s) {
                Err(NumError::Syntax)
            } else {
                Ok(n)
            },
        }
    }
}

/// The number that `s` spells, with an optional sign, if it fits in 64 bits.
pub open spec fn int_of(s: Seq<char>) -> Result<int, NumError> {
    if s.len() == 0 {
        Err(NumError::Syntax)
    } else {
        match uint_of(unsigned_part(s)) {
            Err(e) => Err(e),
            Ok(n) => if s[0] == '-' {
                if n > 0x8000_0000_0000_0000 {
                    Err(NumError::Range)
                } else {
                    Ok(-n)
                }
            } else {
                if n >= 0x8000_0000_0000_0000 {
                    Err(NumError::Range)
                } else {
                    Ok(n)
                }
            },
        }
    }
}

/// The truth value that `s` spells.
pub open spec fn bool_of(s: Seq<char>) -> Result<bool, NumError> {
    if s == "1"@ || s == "t"@ || s == "T"@ || s == "true"@ || s == "TRUE"@ || s == "True"@ {
        Ok(true)
    } else if s == "0"@ || s == "f"@ || s == "F"@ || s == "false"@ || s == "FALSE"@ || s
        == "False"@ {
        Ok(false)
    } else {
        Err(NumError::Syntax)
    }
}

// ---------------------------------------------------------------------------------------
// Reading them
// ---------------------------------------------------------------------------------------
/// ASCII lower-casing of letters by setting one bit, whatever the byte is.
pub fn lower(c: u8) -> (r: u8)
    ensures
        r == c | 0x20,
        65 <= c <= 90 ==> r == c + 32,
        97 <= c <= 122 ==> r == c,
        97 <= r <= 122 ==> (65 <= c <= 90 || 97 <= c <= 122),
{
    assert((65 <= c && c <= 90 ==> (c | 0x20) == c + 32) && (97 <= c && c <= 122 ==> (c | 0x20)
        == c) && (97 <= (c | 0x20) && (c | 0x20) <= 122 ==> (65 <= c && c <= 90 || 97 <= c && c
        <= 122))) by (bit_vector);
    c | 0x20
}

/// Whether `c` is the ASCII letter `l` (given in lower case), in either case.
fn letter_is(c: char, l: char) -> (r: bool)
    requires
        'a' <= l <= 'z',
    ensures
        r == is_letter(c, l),
{
    (c as u32) < 128 && lower(c as u8) == l as u8
}

/// The value of a digit, letters counting from ten.
fn digit(c: char) -> (d: Option<u64>)
    ensures
        d is Some <==> digit_value(c) is Some,
        d is Some ==> d->0 == digit_value(c)->0 && d->0 < 36,
{
    let v: u32 = c as u32;
    if v >= 128 {
        return None;
    }
    let l = lower(v as u8);
    if 48 <= v && v <= 57 {
        Some((v - 48) as u64)
    } else if 97 <= l && l <= 122 {
        Some((l - 97) as u64 + 10)
    } else {
        None
    }
}

/// Whether a number begins with one of the prefixes `0b`, `0o` and `0x`.
fn prefixed(s: &[char]) -> (r: bool)
    ensures
        r == has_prefix(s@),
{
    s.len() >= 2 && s[0] == '0' && (letter_is(s[1], 'b') || letter_is(s[1], 'o') || letter_is(
        s[1],
        'x',
    ))
}

/// The number that `s` spells without a sign: the base is taken from the `0b`/`0o`/`0x` prefix
/// or a leading zero (octal), and underscores are allowed between digits.
fn uint_base0(s: &[char]) -> (r: Result<u64, NumError>)
    ensures
        r matches Ok(n) ==> uint_of(s@) == Ok::<int, NumError>(n as int),
        r matches Err(e) ==> uint_of(s@) == Err::<int, NumError>(e),
{
    if s.len() == 0 {
        return Err(NumError::Syntax);
    }
    let mut base: u64 = 10;
    let mut start: usize = 0;
    if s.len() >= 3 && prefixed(s) {
        start = 2;
        base = if letter_is(s[1], 'b') {
            2
        } else if letter_is(s[1], 'o') {
            8
        } else {
            16
        };
    } else if s[0] == '0' {
        start = 1;
        base = 8;
    }
    let ghost digits = s@.skip(start as int);
    assert(start == 0 ==> digits =~= s@);
    assert(digits == digits_of(s@));
    // The smallest number whose product with the base is too large.
    let cutoff: u64 = u64::MAX / base + 1;
    let mut underscores = false;
    let mut n: u64 = 0;
    let mut i: usize = start;
    while i < s.len()
        invariant
            start <= i <= s.len(),
            digits == s@.skip(start as int),
            digits == digits_of(s@),
            s.len() > 0,
            base == base_of(s@),
            2 <= base <= 16,
            cutoff == u64::MAX / base + 1,
            scanned(s@.skip(i as int), base as int, n as int) == scanned(digits, base as int, 0),
            underscores == digits.take(i - start).contains('_'),
        decreases s.len() - i,
    {
        let c = s[i];
        proof {
            let rest = s@.skip(i as int);
            assert(rest[0] == c);
            assert(rest.skip(1) =~= s@.skip(i + 1));
            assert(digits.take(i + 1 - start) =~= digits.take(i - start).push(c));
            assert(digits.take(i + 1 - start).contains('_') == (underscores || c == '_')) by {
                let t = digits.take(i - start);
                if underscores {
                    let k = choose|k: int| 0 <= k < t.len() && t[k] == '_';
                    assert(t.push(c)[k] == '_');
                }
                if c == '_' {
                    assert(t.push(c)[t.len() as int] == '_');
                }
                if t.push(c).contains('_') && c != '_' {
                    let k = choose|k: int| 0 <= k < t.push(c).len() && t.push(c)[k] == '_';
                    assert(t[k] == '_');
                }
            }
        }
        i = i + 1;
        if c == '_' {
            underscores = true;
            continue;
        }
        let d: u64 = match digit(c) {
            Some(d) => d,
            None => {
                return Err(NumError::Syntax);
            },
        };
        if d >= base {
            return Err(NumError::Syntax);
        }
        if n >= cutoff {
            proof {
                assert(n * base > u64::MAX) by (nonlinear_arith)
                    requires
                        n >= u64::MAX / base + 1,
                        2 <= base <= 16,
                ;
            }
            return Err(NumError::Range);
        }
        assert(n * base <= u64::MAX) by (nonlinear_arith)
            requires
                n <= u64::MAX / base,
                2 <= base <= 16,
        ;
        n = n * base;
        match n.checked_add(d) {
            None => {
                return Err(NumError::Range);
            },
            Some(m) => {
                n = m;
            },
        }
    }
    assert(digits.take(digits.len() as int) =~= digits);
    if underscores && !underscores_ok(s) {
        return Err(NumError::Syntax);
    }
    Ok(n)
}

/// [`uint_base0`] of a string.
pub fn parse_uint_base0(s: &str) -> (r: Result<u64, NumError>)
    ensures
        r matches Ok(n) ==> uint_of(s@) == Ok::<int, NumError>(n as int),
        r matches Err(e) ==> uint_of(s@) == Err::<int, NumError>(e),
{
    let v = chars_of(s);
    uint_base0(v.as_slice())
}

/// What stood before the next character.
#[derive(Clone, Copy, PartialEq, Eq, Structural)]
enum Saw {
    /// Nothing yet.
    Start,
    /// A digit or the base prefix.
    Digit,
    Underscore,
    Other,
}

/// Whether `c` is a digit of a number, as far as underscores are concerned.
fn place(c: char, hex: bool) -> (r: bool)
    ensures
        r == is_place(c, hex),
{
    ('0' <= c && c <= '9') || (hex && (('a' <= c && c <= 'f') || ('A' <= c && c <= 'F')))
}

fn underscores_ok(s: &[char]) -> (r: bool)
    ensures
        r == underscores_fit(s@),
{
    let start: usize = if s.len() > 0 && (s[0] == '-' || s[0] == '+') {
        1
    } else {
        0
    };
    let b = vstd::slice::slice_subrange(s, start, s.len());
    assert(b@ =~= unsigned_part(s@));
    let mut saw = Saw::Start;
    let mut i: usize = 0;
    let mut hex = false;
    let pre = prefixed(b);
    if pre {
        i = 2;
        saw = Saw::Digit;
        hex = letter_is(b[1], 'x');
    }
    while i < b.len()
        invariant
            b@ == unsigned_part(s@),
            pre == has_prefix(b@),
            hex == (pre && is_letter(b@[1], 'x')),
            0 <= i <= b.len(),
            pre ==> i >= 2,
            saw == Saw::Start <==> i == 0,
            saw == Saw::Digit <==> (pre && i == 2 || (pre ==> i > 2) && i > 0 && is_place(
                b@[i - 1],
                hex,
            )),
            saw == Saw::Underscore <==> (pre ==> i > 2) && i > 0 && b@[i - 1] == '_',
            forall|k: int|
                0 <= k < i && #[trigger] b@[k] == '_' ==> {
                    &&& k >= 1
                    &&& (pre && k == 2) || ((pre ==> k > 2) && is_place(b@[k - 1], hex))
                    &&& k + 1 < i ==> is_place(b@[k + 1], hex)
                },
        decreases b.len() - i,
    {
        let c = b[i];
        if place(c, hex) {
            saw = Saw::Digit;
        } else if c == '_' {
            if saw != Saw::Digit {
                assert(b@[i as int] == '_');
                return false;
            }
            saw = Saw::Underscore;
        } else {
            if saw == Saw::Underscore {
                assert(b@[i - 1] == '_');
                return false;
            }
            saw = Saw::Other;
        }
        i = i + 1;
    }
    if saw == Saw::Underscore {
        assert(b@[i - 1] == '_');
    }
    saw != Saw::Underscore
}

/// Whether the underscores in `s` are in positions that a number may have them in: between
/// digits, or between a base prefix and the first digit.
pub fn underscore_ok(s: &str) -> (r: bool)
    ensures
        r == underscores_fit(s@),
{
    let v = chars_of(s);
    underscores_ok(v.as_slice())
}

/// The number that `s` spells, with an optional sign, if it fits in 64 bits.
pub fn parse_int_base0(s: &str) -> (r: Result<i64, NumError>)
    ensures
        r matches Ok(n) ==> int_of(s@) == Ok::<int, NumError>(n as int),
        r matches Err(e) ==> int_of(s@) == Err::<int, NumError>(e),
{
    let v = chars_of(s);
    if v.len() == 0 {
        return Err(NumError::Syntax);
    }
    let neg = v[0] == '-';
    let start: usize = if neg || v[0] == '+' {
        1
    } else {
        0
    };
    let rest = vstd::slice::slice_subrange(v.as_slice(), start, v.len());
    assert(rest@ =~= unsigned_part(s@));
    let un = match uint_base0(rest) {
        Ok(n) => n,
        Err(e) => {
            return Err(e);
        },
    };
    let cutoff: u64 = 0x8000_0000_0000_0000;
    if !neg && un >= cutoff {
        return Err(NumError::Range);
    }
    if neg && un > cutoff {
        return Err(NumError::Range);
    }
    if neg && un == cutoff {
        Ok(i64::MIN)
    } else if neg {
        Ok(-(un as i64))
    } else {
        Ok(un as i64)
    }
}

/// The truth value that `s` spells.
pub fn parse_bool(s: &str) -> (r: Result<bool, NumError>)
    ensures
        r == bool_of(s@),
{
    if str_eq(s, "1") || str_eq(s, "t") || str_eq(s, "T") || str_eq(s, "true") || str_eq(s, "TRUE")
        || str_eq(s, "True") {
        Ok(true)
    } else if str_eq(s, "0") || str_eq(s, "f") || str_eq(s, "F") || str_eq(s, "false") || str_eq(
        s,
        "FALSE",
    ) || str_eq(s, "False") {
        Ok(false)
    } else {
        Err(NumError::Syntax)
    }
}

// ---------------------------------------------------------------------------------------
// Laws
// ---------------------------------------------------------------------------------------
/// Reading one more digit.
proof fn lemma_scanned_push(digits: Seq<char>, c: char, base: int, n: int)
    ensures
        scanned(digits.push(c), base, n) == (match scanned(digits, base, n) {
            Ok(m) => scanned(seq![c], base, m),
            Err(e) => Err(e),
        }),
    decreases digits.len(),
{
    let all = digits.push(c);
    if digits.len() == 0 {
        assert(all =~= seq![c]);
    } else {
        assert(all.skip(1) =~= digits.skip(1).push(c));
        assert(all[0] == digits[0]);
        if digits[0] == '_' {
            lemma_scanned_push(digits.skip(1), c, base, n);
        } else if digit_value(digits[0]) is Some {
            lemma_scanned_push(digits.skip(1), c, base, n * base + digit_value(digits[0])->0);
        }
    }
}

/// A number printed in decimal has digits only, and no leading zero unless it is zero.
proof fn lemma_decimal_shape(n: nat)
    ensures
        decimal(n).len() >= 1,
        n > 0 ==> '1' <= decimal(n)[0] <= '9',
        forall|i: int| 0 <= i < decimal(n).len() ==> '0' <= #[trigger] decimal(n)[i] <= '9',
    decreases n,
{
    if n >= 10 {
        lemma_decimal_shape(n / 10);
    }
}

proof fn lemma_decimal_scanned(n: nat)
    requires
        n <= u64::MAX,
    ensures
        scanned(decimal(n), 10, 0) == Ok::<int, NumError>(n as int),
    decreases n,
{
    reveal_with_fuel(scanned, 3);
    if n < 10 {
        assert(decimal(n).skip(1) =~= Seq::<char>::empty());
    } else {
        lemma_decimal_scanned(n / 10);
        let c = digit_char(n % 10);
        lemma_scanned_push(decimal(n / 10), c, 10, 0);
        assert(seq![c].skip(1) =~= Seq::<char>::empty());
        assert((n / 10) * 10 + n % 10 == n);
    }
}

/// A number that fits in 64 bits, printed in decimal, is read back as the same number.
pub proof fn a_printed_number_reads_back(n: i64)
    ensures
        int_of(signed_decimal(n as int)) == Ok::<int, NumError>(n as int),
{
    let m = (if n < 0 {
        -n
    } else {
        n as int
    }) as nat;
    let d = decimal(m);
    lemma_decimal_shape(m);
    lemma_decimal_scanned(m);
    let s = signed_decimal(n as int);
    assert(unsigned_part(s) =~= d);
    if m == 0 {
        assert(d =~= seq!['0']);
        assert(digits_of(d) =~= Seq::<char>::empty());
    } else {
        assert(digits_of(d) == d);
    }
    assert(!digits_of(d).contains('_'));
}

/// A printed truth value is read back as the same value.
pub proof fn a_printed_bool_reads_back()
    ensures
        bool_of("true"@) == Ok::<bool, NumError>(true),
        bool_of("false"@) == Ok::<bool, NumError>(false),
{
    reveal_strlit("true");
    reveal_strlit("false");
    reveal_strlit("1");
    reveal_strlit("t");
    reveal_strlit("T");
    reveal_strlit("TRUE");
    reveal_strlit("True");
    assert("false"@[0] == 'f');
}

/// A digit of a base up to sixteen, in one case or the other.
pub open spec fn digit_in(d: nat, upper: bool) -> char {
    if d < 10 {
        (48 + d) as char
    } else if upper {
        (55 + d) as char
    } else {
        (87 + d) as char
    }
}

/// `n` written in a base.
pub open spec fn written_in(n: nat, base: nat, upper: bool) -> Seq<char>
    decreases n,
{
    if base < 2 || n < base {
        seq![digit_in(n, upper)]
    } else {
        proof {
            assert(n / base < n) by (nonlinear_arith)
                requires
                    base >= 2,
                    n >= base,
            ;
        }
        written_in(n / base, base, upper).push(digit_in(n % base, upper))
    }
}

proof fn lemma_written(n: nat, base: nat, upper: bool)
    requires
        2 <= base <= 16,
    ensures
        written_in(n, base, upper).len() >= 1,
        !written_in(n, base, upper).contains('_'),
        scanned(written_in(n, base, upper), base as int, 0) == (if n <= u64::MAX {
            Ok::<int, NumError>(n as int)
        } else {
            Err(NumError::Range)
        }),
    decreases n,
{
    let s = written_in(n, base, upper);
    let d = n % base;
    reveal_with_fuel(scanned, 3);
    if n < base {
        assert(s.skip(1) =~= Seq::<char>::empty());
        assert(digit_value(s[0]) == Some(n as int));
    } else {
        let q = n / base;
        assert(q < n) by (nonlinear_arith)
            requires
                q == n / base,
                base >= 2,
                n >= base,
        ;
        lemma_written(q, base, upper);
        let head = written_in(q, base, upper);
        let c = digit_in(d, upper);
        assert(0 <= d < base) by {
            vstd::arithmetic::div_mod::lemma_mod_bound(n as int, base as int);
        }
        assert(digit_value(c) == Some(d as int));
        lemma_scanned_push(head, c, base as int, 0);
        assert(seq![c].skip(1) =~= Seq::<char>::empty());
        assert(q * base + d == n) by {
            vstd::arithmetic::div_mod::lemma_fundamental_div_mod(n as int, base as int);
            vstd::arithmetic::mul::lemma_mul_is_commutative(q as int, base as int);
        }
        assert(n <= u64::MAX ==> q <= u64::MAX);
        assert(!s.contains('_')) by {
            assert forall|k: int| 0 <= k < s.len() implies s[k] != '_' by {
                if k < head.len() {
                    assert(head.contains(head[k]));
                }
            }
        }
    }
}

/// A number reads back in every base, with a sign or without, and whether letters are large or small:
/// behind `0b`, `0o` and `0x` in base 2, 8 and 16, behind a lone zero in base 8, and otherwise in base
/// 10. It is refused as out of range below -9223372036854775808 and above 9223372036854775807.
pub proof fn a_number_reads_back_in_every_base(n: nat, large: bool, upper: bool)
    ensures
        ({
            let value = if n <= 9223372036854775807 {
                Ok::<int, NumError>(n as int)
            } else {
                Err(NumError::Range)
            };
            let negative = if n <= 9223372036854775808 {
                Ok::<int, NumError>(-(n as int))
            } else {
                Err(NumError::Range)
            };
            let b = seq!['0', if large { 'B' } else { 'b' }] + written_in(n, 2, upper);
            let o = seq!['0', if large { 'O' } else { 'o' }] + written_in(n, 8, upper);
            let x = seq!['0', if large { 'X' } else { 'x' }] + written_in(n, 16, upper);
            let z = seq!['0'] + written_in(n, 8, upper);
            let d = written_in(n, 10, upper);
            &&& int_of(b) == value
            &&& int_of(o) == value
            &&& int_of(x) == value
            &&& int_of(z) == value
            &&& int_of(d) == value
            &&& int_of(seq!['+'] + b) == value
            &&& int_of(seq!['+'] + o) == value
            &&& int_of(seq!['+'] + x) == value
            &&& int_of(seq!['+'] + z) == value
            &&& int_of(seq!['+'] + d) == value
            &&& int_of(seq!['-'] + b) == negative
            &&& int_of(seq!['-'] + o) == negative
            &&& int_of(seq!['-'] + x) == negative
            &&& int_of(seq!['-'] + z) == negative
            &&& int_of(seq!['-'] + d) == negative
        }),
{
    lemma_prefixed(n, 2, if large { 'B' } else { 'b' }, upper);
    lemma_prefixed(n, 8, if large { 'O' } else { 'o' }, upper);
    lemma_prefixed(n, 16, if large { 'X' } else { 'x' }, upper);
    lemma_unprefixed(n, upper);
    let b = seq!['0', if large { 'B' } else { 'b' }] + written_in(n, 2, upper);
    let o = seq!['0', if large { 'O' } else { 'o' }] + written_in(n, 8, upper);
    let x = seq!['0', if large { 'X' } else { 'x' }] + written_in(n, 16, upper);
    let z = seq!['0'] + written_in(n, 8, upper);
    let d = written_in(n, 10, upper);
    lemma_written_first(n, 10, upper);
    lemma_signs(b);
    lemma_signs(o);
    lemma_signs(x);
    lemma_signs(z);
    lemma_signs(d);
}

/// What a sign does.
proof fn lemma_signs(s: Seq<char>)
    requires
        s.len() > 0,
        s[0] != '+' && s[0] != '-',
    ensures
        unsigned_part(s) == s,
        unsigned_part(seq!['+'] + s) == s,
        unsigned_part(seq!['-'] + s) == s,
{
    assert((seq!['+'] + s).skip(1) =~= s);
    assert((seq!['-'] + s).skip(1) =~= s);
}

/// The first digit of a number.
proof fn lemma_written_first(n: nat, base: nat, upper: bool)
    requires
        2 <= base <= 16,
    ensures
        written_in(n, base, upper).len() >= 1,
        digit_value(written_in(n, base, upper)[0]) matches Some(d) && d < base,
        base <= 10 ==> '0' <= written_in(n, base, upper)[0] <= '9',
        n > 0 ==> written_in(n, base, upper)[0] != '0',
        n == 0 ==> written_in(n, base, upper) == seq!['0'],
    decreases n,
{
    if n >= base {
        let q = n / base;
        assert(0 < q < n) by (nonlinear_arith)
            requires
                q == n / base,
                base >= 2,
                n >= base,
        ;
        lemma_written_first(q, base, upper);
        assert(written_in(n, base, upper)[0] == written_in(q, base, upper)[0]);
    }
}

proof fn lemma_prefixed(n: nat, base: nat, letter: char, upper: bool)
    requires
        base == 2 && is_letter(letter, 'b') || base == 8 && is_letter(letter, 'o') || base == 16
            && is_letter(letter, 'x'),
    ensures
        uint_of(seq!['0', letter] + written_in(n, base, upper)) == (if n <= u64::MAX {
            Ok::<int, NumError>(n as int)
        } else {
            Err(NumError::Range)
        }),
{
    lemma_written(n, base, upper);
    let w = written_in(n, base, upper);
    let s = seq!['0', letter] + w;
    assert(s[0] == '0' && s[1] == letter && s.len() >= 3);
    assert(s.skip(2) =~= w);
}

proof fn lemma_unprefixed(n: nat, upper: bool)
    ensures
        ({
            let value = if n <= u64::MAX {
                Ok::<int, NumError>(n as int)
            } else {
                Err(NumError::Range)
            };
            &&& uint_of(written_in(n, 10, upper)) == value
            &&& uint_of(seq!['0'] + written_in(n, 8, upper)) == value
        }),
{
    lemma_written(n, 10, upper);
    lemma_written(n, 8, upper);
    lemma_written_first(n, 10, upper);
    lemma_written_first(n, 8, upper);
    let d = written_in(n, 10, upper);
    let w = written_in(n, 8, upper);
    let z = seq!['0'] + w;
    assert(z[1] == w[0]);
    assert(z.skip(1) =~= w);
    if n == 0 {
        assert(d.skip(1) =~= Seq::<char>::empty());
    }
}

/// An underscore between two digits of a decimal number does not count.
pub proof fn an_underscore_between_digits_does_not_count(a: Seq<char>, b: Seq<char>)
    requires
        a.len() > 0,
        b.len() > 0,
        a[0] != '0',
        forall|i: int| 0 <= i < a.len() ==> '0' <= #[trigger] a[i] <= '9',
        forall|i: int| 0 <= i < b.len() ==> '0' <= #[trigger] b[i] <= '9',
    ensures
        uint_of(a + seq!['_'] + b) == uint_of(a + b),
        int_of(a + seq!['_'] + b) == int_of(a + b),
{
    let s = a + seq!['_'] + b;
    let t = a + b;
    assert(s[0] == a[0] && t[0] == a[0]);
    lemma_underscore(a, b, 10, 0);
    assert(!t.contains('_'));
    assert(underscores_fit(s)) by {
        assert(unsigned_part(s) == s);
        assert forall|i: int| 0 <= i < s.len() && #[trigger] s[i] == '_' implies {
            &&& i >= 1
            &&& is_place(s[i - 1], false)
            &&& i + 1 < s.len()
            &&& is_place(s[i + 1], false)
        } by {
            if i < a.len() {
                assert(s[i] == a[i]);
            } else if i > a.len() {
                assert(s[i] == b[i - a.len() - 1]);
            } else {
                assert(s[i - 1] == a[i - 1]);
                assert(s[i + 1] == b[0]);
            }
        }
    }
    assert(unsigned_part(t) == t);
}

proof fn lemma_underscore(a: Seq<char>, b: Seq<char>, base: int, n: int)
    ensures
        scanned(a + seq!['_'] + b, base, n) == scanned(a + b, base, n),
    decreases a.len(),
{
    let s = a + seq!['_'] + b;
    let t = a + b;
    if a.len() == 0 {
        assert(s.skip(1) =~= t);
        assert(s[0] == '_');
    } else {
        assert(s[0] == a[0] && t[0] == a[0]);
        assert(s.skip(1) =~= a.skip(1) + seq!['_'] + b);
        assert(t.skip(1) =~= a.skip(1) + b);
        if a[0] == '_' {
            lemma_underscore(a.skip(1), b, base, n);
        } else if let Some(d) = digit_value(a[0]) {
            lemma_underscore(a.skip(1), b, base, n * base + d);
        }
    }
}

/// A truth value is spelled in one of twelve ways, and nothing else is one.
pub proof fn the_spellings_of_a_truth_value(s: &str, r: Result<bool, NumError>)
    requires
        call_ensures(parse_bool, (s,), r),
    ensures
        r == Ok::<bool, NumError>(true) <==> s@ == seq!['1'] || s@ == seq!['t'] || s@ == seq!['T']
            || s@ == seq!['t', 'r', 'u', 'e'] || s@ == seq!['T', 'R', 'U', 'E'] || s@ == seq![
            'T',
            'r',
            'u',
            'e',
        ],
        r == Ok::<bool, NumError>(false) <==> s@ == seq!['0'] || s@ == seq!['f'] || s@ == seq!['F']
            || s@ == seq!['f', 'a', 'l', 's', 'e'] || s@ == seq!['F', 'A', 'L', 'S', 'E'] || s@
            == seq!['F', 'a', 'l', 's', 'e'],
        r matches Err(e) ==> e == NumError::Syntax,
{
    reveal_strlit("1");
    reveal_strlit("t");
    reveal_strlit("T");
    reveal_strlit("true");
    reveal_strlit("TRUE");
    reveal_strlit("True");
    reveal_strlit("0");
    reveal_strlit("f");
    reveal_strlit("F");
    reveal_strlit("false");
    reveal_strlit("FALSE");
    reveal_strlit("False");
    assert("1"@ =~= seq!['1']);
    assert("t"@ =~= seq!['t']);
    assert("T"@ =~= seq!['T']);
    assert("true"@ =~= seq!['t', 'r', 'u', 'e']);
    assert("TRUE"@ =~= seq!['T', 'R', 'U', 'E']);
    assert("True"@ =~= seq!['T', 'r', 'u', 'e']);
    assert("0"@ =~= seq!['0']);
    assert("f"@ =~= seq!['f']);
    assert("F"@ =~= seq!['F']);
    assert("false"@ =~= seq!['f', 'a', 'l', 's', 'e']);
    assert("FALSE"@ =~= seq!['F', 'A', 'L', 'S', 'E']);
    assert("False"@ =~= seq!['F', 'a', 'l', 's', 'e']);
    if bool_of(s@) == Ok::<bool, NumError>(true) {
        assert(s@[0] == '1' || s@[0] == 't' || s@[0] == 'T');
    }
}

} // verus!
