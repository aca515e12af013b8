//! Text helpers: strings seen as sequences of characters.
use vstd::prelude::*;
use vstd::string::*;
use vstd::utf8::{decode_utf8, valid_utf8};

verus! {

/// The character for a decimal digit.
pub open spec fn digit_char(d: nat) -> char {
    (48 + d) as char
}

/// `n` written in decimal, without leading zeros.
pub open spec fn decimal(n: nat) -> Seq<char>
    decreases n,
{
    if n < 10 {
        seq![digit_char(n)]
    } else {
        decimal(n / 10).push(digit_char(n % 10))
    }
}

/// `n` written in decimal, with a minus sign when it is negative.
pub open spec fn signed_decimal(n: int) -> Seq<char> {
    if n < 0 {
        seq!['-'] + decimal((-n) as nat)
    } else {
        decimal(n as nat)
    }
}

/// `String::push`: appends one character.
#[verifier::external_body]
pub(crate) fn push_char(s: &mut String, c: char)
    ensures
        final(s)@ == old(s)@.push(c),
{
    s.push(c)
}

/// `String::from_utf8`: the text that some bytes encode, or none when they are not UTF-8.
#[verifier::external_body]
pub(crate) fn text_of_utf8(bytes: Vec<u8>) -> (r: Option<String>)
    ensures
        r is Some <==> valid_utf8(bytes@),
        r is Some ==> r->0@ == decode_utf8(bytes@),
{
    String::from_utf8(bytes).ok()
}

/// `char::from_u32`: the character with a number, or none when the number is not that of a Unicode
/// scalar.
#[verifier::external_body]
pub(crate) fn char_of(v: u32) -> (r: Option<char>)
    ensures
        r is Some <==> (v < 0xd800 || 0xe000 <= v <= 0x10ffff),
        r is Some ==> r->0 as u32 == v,
{
    char::from_u32(v)
}

/// The characters of `s`, in order.
pub(crate) fn chars_of(s: &str) -> (v: Vec<char>)
    ensures
        v@ == s@,
{
    let mut v: Vec<char> = Vec::new();
    for c in it: s.chars()
        invariant
            it.seq() == s@,
            v@ == s@.take(it.index()),
    {
        v.push(c);
        assert(v@ == s@.take(it.index() + 1));
    }
    assert(s@.take(s@.len() as int) == s@);
    v
}

/// The string made of the characters of `v`.
pub(crate) fn string_of(v: &[char]) -> (s: String)
    ensures
        s@ == v@,
{
    let mut s = String::new();
    let mut i: usize = 0;
    while i < v.len()
        invariant
            i <= v.len(),
            s@ == v@.take(i as int),
        decreases v.len() - i,
    {
        push_char(&mut s, v[i]);
        i = i + 1;
        assert(v@.take(i as int) == v@.take(i - 1).push(v@[i - 1]));
    }
    assert(v@.take(v@.len() as int) == v@);
    s
}

/// Whether two strings hold the same characters.
pub(crate) fn str_eq(a: &str, b: &str) -> (r: bool)
    ensures
        r == (a@ == b@),
{
    let x = a.to_owned();
    let y = b.to_owned();
    x == y
}

/// Appends `n` in decimal.
pub(crate) fn push_decimal(out: &mut String, n: u64)
    ensures
        final(out)@ == old(out)@ + decimal(n as nat),
    decreases n,
{
    if n >= 10 {
        push_decimal(out, n / 10);
    }
    let d: u8 = (n % 10) as u8;
    push_char(out, (48 + d) as char);
    assert(final(out)@ =~= old(out)@ + decimal(n as nat));
}

/// `n` in decimal, as a list of characters.
pub(crate) fn decimal_text(n: u64) -> (v: Vec<char>)
    ensures
        v@ == decimal(n as nat),
    decreases n,
{
    let mut v: Vec<char> = if n >= 10 {
        decimal_text(n / 10)
    } else {
        Vec::new()
    };
    let d: u8 = (n % 10) as u8;
    v.push((48 + d) as char);
    assert(v@ =~= decimal(n as nat));
    v
}

/// Appends the characters of `v` from `from` up to `to`.
pub(crate) fn push_slice(out: &mut String, v: &[char], from: usize, to: usize)
    requires
        from <= to <= v.len(),
    ensures
        final(out)@ == old(out)@ + v@.subrange(from as int, to as int),
{
    let mut i: usize = from;
    while i < to
        invariant
            from <= i <= to <= v.len(),
            out@ == old(out)@ + v@.subrange(from as int, i as int),
        decreases to - i,
    {
        push_char(out, v[i]);
        i = i + 1;
        assert(out@ =~= old(out)@ + v@.subrange(from as int, i as int));
    }
    assert(out@ =~= old(out)@ + v@.subrange(from as int, to as int));
}

/// Appends `n` in decimal, with a minus sign when it is negative.
pub(crate) fn push_signed(out: &mut String, n: i64)
    ensures
        final(out)@ == old(out)@ + signed_decimal(n as int),
{
    if n < 0 {
        push_char(out, '-');
        let u: u64 = if n == i64::MIN {
            9223372036854775808
        } else {
            (-n) as u64
        };
        push_decimal(out, u);
        assert(final(out)@ =~= old(out)@ + signed_decimal(n as int));
    } else {
        push_decimal(out, n as u64);
    }
}

// ---------------------------------------------------------------------------------------
// Reading numbers
// ---------------------------------------------------------------------------------------
/// The number that some decimal digits stand for; none when there is another character among them.
pub open spec fn digits_value(s: Seq<char>) -> Option<nat>
    decreases s.len(),
{
    if s.len() == 0 {
        Some(0)
    } else {
        match digits_value(s.drop_last()) {
            Some(n) => if '0' <= s.last() <= '9' {
                Some((10 * n + (s.last() as int - '0' as int)) as nat)
            } else {
                None
            },
            None => None,
        }
    }
}

/// The integer that a text stands for: an optional sign and one or more decimal digits, within the
/// range of an `i64`.
pub open spec fn integer_value(s: Seq<char>) -> Option<int> {
    let signed = s.len() > 0 && (s[0] == '+' || s[0] == '-');
    let digits = if signed {
        s.skip(1)
    } else {
        s
    };
    if digits.len() == 0 {
        None
    } else {
        match digits_value(digits) {
            Some(n) => {
                let v = if s[0] == '-' {
                    -(n as int)
                } else {
                    n as int
                };
                if i64::MIN <= v <= i64::MAX {
                    Some(v)
                } else {
                    None
                }
            },
            None => None,
        }
    }
}

/// A larger number of digits never makes the value smaller, and a character that is no digit
/// spoils all of them.
proof fn lemma_digits_prefix(s: Seq<char>, n: int)
    requires
        0 <= n <= s.len(),
    ensures
        digits_value(s) is Some ==> digits_value(s.take(n)) is Some,
        digits_value(s) is Some ==> digits_value(s.take(n))->0 <= digits_value(s)->0,
    decreases s.len(),
{
    if n == s.len() {
        assert(s.take(n) =~= s);
    } else {
        lemma_digits_prefix(s.drop_last(), n);
        assert(s.drop_last().take(n) =~= s.take(n));
    }
}

/// Reads a signed decimal integer.
pub(crate) fn parse_int(s: &[char]) -> (r: Option<i64>)
    ensures
        r is Some <==> integer_value(s@) is Some,
        r is Some ==> r->0 == integer_value(s@)->0,
{
    let signed = s.len() > 0 && (s[0] == '+' || s[0] == '-');
    let neg = s.len() > 0 && s[0] == '-';
    let start: usize = if signed {
        1
    } else {
        0
    };
    if start >= s.len() {
        return None;
    }
    let ghost digits = s@.skip(start as int);
    assert(signed ==> digits == s@.skip(1));
    assert(!signed ==> digits =~= s@);
    let limit: u64 = if neg {
        9223372036854775808
    } else {
        9223372036854775807
    };
    let mut n: u64 = 0;
    let mut i: usize = start;
    assert(digits.take(0) =~= Seq::<char>::empty());
    while i < s.len()
        invariant
            start <= i <= s.len(),
            start < s.len(),
            digits == s@.skip(start as int),
            limit <= 9223372036854775808,
            n <= limit,
            digits_value(digits.take(i - start)) == Some(n as nat),
            integer_value(s@) is Some ==> digits_value(digits) is Some && digits_value(digits)->0
                <= limit,
        decreases s.len() - i,
    {
        let c = s[i];
        let ghost d = digits.take(i - start + 1);
        proof {
            assert(d.drop_last() =~= digits.take(i - start));
            assert(d.last() == c);
            lemma_digits_prefix(digits, i - start + 1);
        }
        if c < '0' || c > '9' {
            return None;
        }
        let v: u64 = (c as u32 - 48) as u64;
        if n > 922337203685477580 || 10 * n + v > limit {
            return None;
        }
        n = 10 * n + v;
        i = i + 1;
    }
    assert(digits.take(i - start) =~= digits);
    if neg {
        if n == 9223372036854775808 {
            Some(i64::MIN)
        } else {
            Some(-(n as i64))
        }
    } else {
        Some(n as i64)
    }
}

/// An integer that is written in decimal reads back.
pub proof fn a_decimal_reads_back(n: int)
    requires
        i64::MIN <= n <= i64::MAX,
    ensures
        integer_value(signed_decimal(n)) == Some(n),
{
    let d = decimal((if n < 0 { -n } else { n }) as nat);
    lemma_decimal_reads_back((if n < 0 { -n } else { n }) as nat);
    if n < 0 {
        assert(signed_decimal(n).skip(1) =~= d);
    }
}

proof fn lemma_decimal_reads_back(n: nat)
    ensures
        decimal(n).len() > 0,
        decimal(n)[0] != '+' && decimal(n)[0] != '-',
        digits_value(decimal(n)) == Some(n),
    decreases n,
{
    reveal_with_fuel(digits_value, 2);
    if n < 10 {
        assert(decimal(n).drop_last() =~= Seq::<char>::empty());
    } else {
        lemma_decimal_reads_back(n / 10);
        assert(decimal(n).drop_last() =~= decimal(n / 10));
    }
}

// ---------------------------------------------------------------------------------------
// Splitting and trimming
// ---------------------------------------------------------------------------------------
/// The pieces of `s` between the occurrences of `sep`; always at least one.
pub open spec fn split(s: Seq<char>, sep: char) -> Seq<Seq<char>>
    decreases s.len(),
{
    if s.len() == 0 {
        seq![Seq::empty()]
    } else {
        let r = split(s.drop_last(), sep);
        if s.last() == sep {
            r.push(Seq::empty())
        } else {
            r.drop_last().push(r.last().push(s.last()))
        }
    }
}

/// The contents of some strings.
pub open spec fn strings(v: Seq<String>) -> Seq<Seq<char>> {
    Seq::new(v.len(), |i: int| v[i]@)
}

/// The contents of some lists of characters.
pub open spec fn texts(v: Seq<Vec<char>>) -> Seq<Seq<char>> {
    Seq::new(v.len(), |i: int| v[i]@)
}

/// Splitting gives at least one piece.
pub(crate) proof fn lemma_split_nonempty(s: Seq<char>, sep: char)
    ensures
        split(s, sep).len() >= 1,
    decreases s.len(),
{
    if s.len() > 0 {
        lemma_split_nonempty(s.drop_last(), sep);
    }
}

/// The pieces of `s` between the occurrences of `sep`.
pub(crate) fn split_at_char(s: &[char], sep: char) -> (v: Vec<Vec<char>>)
    ensures
        texts(v@) == split(s@, sep),
        v.len() >= 1,
{
    let mut v: Vec<Vec<char>> = Vec::new();
    let mut cur: Vec<char> = Vec::new();
    let mut i: usize = 0;
    assert(s@.take(0) =~= Seq::<char>::empty());
    assert(texts(v@).push(cur@) =~= split(s@.take(0), sep));
    while i < s.len()
        invariant
            i <= s.len(),
            texts(v@).push(cur@) == split(s@.take(i as int), sep),
        decreases s.len() - i,
    {
        let ghost done = texts(v@);
        assert(s@.take(i + 1).drop_last() =~= s@.take(i as int));
        if s[i] == sep {
            v.push(cur);
            assert(texts(v@) =~= done.push(v@.last()@));
            cur = Vec::new();
            assert(texts(v@).push(cur@) =~= split(s@.take(i + 1), sep));
        } else {
            let ghost before = cur@;
            cur.push(s[i]);
            assert(done.push(before).drop_last() =~= done);
            assert(texts(v@).push(cur@) =~= split(s@.take(i + 1), sep));
        }
        i = i + 1;
    }
    let ghost done = texts(v@);
    v.push(cur);
    assert(texts(v@) =~= done.push(cur@));
    assert(s@.take(i as int) =~= s@);
    v
}

/// `s` without the characters `c` at its end.
pub open spec fn trim_end_char(s: Seq<char>, c: char) -> Seq<char>
    decreases s.len(),
{
    if s.len() > 0 && s.last() == c {
        trim_end_char(s.drop_last(), c)
    } else {
        s
    }
}

/// `s` without the characters `c` at its start.
pub open spec fn trim_start_char(s: Seq<char>, c: char) -> Seq<char>
    decreases s.len(),
{
    if s.len() > 0 && s[0] == c {
        trim_start_char(s.skip(1), c)
    } else {
        s
    }
}

/// `s` without the characters `c` at its ends.
pub open spec fn trim_char(s: Seq<char>, c: char) -> Seq<char> {
    trim_end_char(trim_start_char(s, c), c)
}

/// `s` without the characters `c` at its ends.
pub(crate) fn trimmed_of_char(s: &[char], c: char) -> (v: &[char])
    ensures
        v@ == trim_char(s@, c),
{
    let mut i: usize = 0;
    assert(s@.skip(0) =~= s@);
    while i < s.len() && s[i] == c
        invariant
            i <= s.len(),
            trim_start_char(s@.skip(i as int), c) == trim_start_char(s@, c),
        decreases s.len() - i,
    {
        assert(s@.skip(i as int).skip(1) =~= s@.skip(i + 1));
        i = i + 1;
    }
    let mut j: usize = s.len();
    let ghost left = s@.skip(i as int);
    assert(s@.subrange(i as int, j as int) =~= left);
    while j > i && s[j - 1] == c
        invariant
            i <= j <= s.len(),
            trim_end_char(s@.subrange(i as int, j as int), c) == trim_end_char(left, c),
        decreases j,
    {
        assert(s@.subrange(i as int, j as int).drop_last() =~= s@.subrange(i as int, j - 1));
        j = j - 1;
    }
    vstd::slice::slice_subrange(s, i, j)
}

/// The first position from `from` on at which `c` stands in `s`; the length when it does not.
pub open spec fn find_char(s: Seq<char>, c: char, from: int) -> int
    decreases s.len() - from,
{
    if from >= s.len() || s[from] == c {
        from
    } else {
        find_char(s, c, from + 1)
    }
}

/// The first position from `from` on at which `c` stands in `s`; the length when it does not.
pub(crate) fn position_of(s: &[char], c: char, from: usize) -> (i: usize)
    requires
        from <= s.len(),
    ensures
        i == find_char(s@, c, from as int),
        from <= i <= s.len(),
        i < s.len() ==> s@[i as int] == c,
        forall|k: int| from <= k < i ==> s@[k] != c,
{
    let mut i: usize = from;
    while i < s.len() && s[i] != c
        invariant
            from <= i <= s.len(),
            find_char(s@, c, i as int) == find_char(s@, c, from as int),
            forall|k: int| from <= k < i ==> s@[k] != c,
        decreases s.len() - i,
    {
        i = i + 1;
    }
    i
}

/// The string made of the characters of `v` from `from` up to `to`.
pub(crate) fn substring(v: &[char], from: usize, to: usize) -> (s: String)
    requires
        from <= to <= v.len(),
    ensures
        s@ == v@.subrange(from as int, to as int),
{
    let mut s = String::new();
    push_slice(&mut s, v, from, to);
    assert(s@ =~= v@.subrange(from as int, to as int));
    s
}

/// A text that holds no separator is one piece.
pub(crate) proof fn lemma_split_whole(s: Seq<char>, sep: char)
    requires
        !s.contains(sep),
    ensures
        split(s, sep) == seq![s],
    decreases s.len(),
{
    if s.len() == 0 {
        assert(s =~= Seq::<char>::empty());
    } else {
        assert(s[s.len() - 1] != sep);
        assert(!s.drop_last().contains(sep)) by {
            if s.drop_last().contains(sep) {
                let k = choose|k: int| 0 <= k < s.drop_last().len() && s.drop_last()[k] == sep;
                assert(s[k] == sep);
            }
        }
        lemma_split_whole(s.drop_last(), sep);
        assert(s.drop_last().push(s.last()) =~= s);
        assert(split(s, sep) =~= seq![s]);
    }
}

/// A text with one separator is two pieces.
pub(crate) proof fn lemma_split_two(a: Seq<char>, b: Seq<char>, sep: char)
    requires
        !a.contains(sep),
        !b.contains(sep),
    ensures
        split(a.push(sep) + b, sep) == seq![a, b],
    decreases b.len(),
{
    let s = a.push(sep) + b;
    if b.len() == 0 {
        assert(s.drop_last() =~= a);
        lemma_split_whole(a, sep);
        assert(b =~= Seq::<char>::empty());
        assert(split(s, sep) =~= seq![a, b]);
    } else {
        assert(b[b.len() - 1] != sep);
        assert(!b.drop_last().contains(sep)) by {
            if b.drop_last().contains(sep) {
                let k = choose|k: int| 0 <= k < b.drop_last().len() && b.drop_last()[k] == sep;
                assert(b[k] == sep);
            }
        }
        assert(s.drop_last() =~= a.push(sep) + b.drop_last());
        lemma_split_two(a, b.drop_last(), sep);
        assert(b.drop_last().push(b.last()) =~= b);
        assert(split(s, sep) =~= seq![a, b]);
    }
}

/// Some texts with a separator between each two of them.
pub open spec fn joined_by(parts: Seq<Seq<char>>, sep: char) -> Seq<char>
    decreases parts.len(),
{
    if parts.len() == 0 {
        Seq::empty()
    } else if parts.len() == 1 {
        parts[0]
    } else {
        joined_by(parts.drop_last(), sep).push(sep) + parts.last()
    }
}

/// Splitting loses nothing: the pieces, none of which holds the separator, are the text again when
/// they are put together with the separator in between.
pub proof fn splitting_loses_nothing(s: Seq<char>, sep: char)
    ensures
        joined_by(split(s, sep), sep) == s,
        split(s, sep).len() >= 1,
        forall|i: int| 0 <= i < split(s, sep).len() ==> !(#[trigger] split(s, sep)[i]).contains(sep),
    decreases s.len(),
{
    let parts = split(s, sep);
    if s.len() == 0 {
        assert(joined_by(parts, sep) =~= s);
    } else {
        let head = s.drop_last();
        let before = split(head, sep);
        splitting_loses_nothing(head, sep);
        assert(head.push(s.last()) =~= s);
        if s.last() == sep {
            assert(parts.drop_last() =~= before);
            assert(joined_by(parts, sep) =~= s);
        } else {
            assert(parts.drop_last() =~= before.drop_last());
            assert(parts.last() == before.last().push(s.last()));
            if before.len() > 1 {
                assert(joined_by(parts, sep) =~= joined_by(before, sep).push(s.last()));
            }
            assert forall|i: int| 0 <= i < parts.len() implies !(#[trigger] parts[i]).contains(
                sep,
            ) by {
                if i < before.len() - 1 {
                    assert(parts[i] == before[i]);
                } else {
                    assert(!before[i].contains(sep));
                    assert forall|k: int| 0 <= k < parts[i].len() implies parts[i][k] != sep by {
                        if k < before[i].len() {
                            assert(before[i].contains(before[i][k]));
                        }
                    }
                }
            }
        }
    }
}

/// The text that comes first in `a` followed by a separator is the first piece, and the rest is split
/// on its own.
pub(crate) proof fn lemma_split_first(a: Seq<char>, b: Seq<char>, sep: char)
    requires
        !a.contains(sep),
    ensures
        split(a.push(sep) + b, sep) == seq![a] + split(b, sep),
    decreases b.len(),
{
    let s = a.push(sep) + b;
    if b.len() == 0 {
        assert(s.drop_last() =~= a);
        lemma_split_whole(a, sep);
        assert(split(s, sep) =~= seq![a] + split(b, sep));
    } else {
        let c = b.drop_last();
        assert(s.drop_last() =~= a.push(sep) + c);
        lemma_split_first(a, c, sep);
        lemma_split_nonempty(c, sep);
        let before = split(c, sep);
        assert((seq![a] + before).drop_last() =~= seq![a] + before.drop_last());
        assert((seq![a] + before).last() == before.last());
        assert(split(s, sep) =~= seq![a] + split(b, sep));
    }
}

/// So many zeros.
pub open spec fn zeros(n: nat) -> Seq<char> {
    Seq::new(n, |i: int| '0')
}

proof fn lemma_leading_zeros(k: nat, s: Seq<char>, n: nat)
    requires
        digits_value(s) == Some(n),
    ensures
        digits_value(zeros(k) + s) == Some(n),
    decreases s.len(),
{
    let t = zeros(k) + s;
    if s.len() == 0 {
        assert(t =~= zeros(k));
        lemma_only_zeros(k);
    } else {
        assert(t.drop_last() =~= zeros(k) + s.drop_last());
        assert(t.last() == s.last());
        lemma_leading_zeros(k, s.drop_last(), digits_value(s.drop_last())->0);
    }
}

proof fn lemma_only_zeros(k: nat)
    ensures
        digits_value(zeros(k)) == Some(0nat),
    decreases k,
{
    if k > 0 {
        assert(zeros(k).drop_last() =~= zeros((k - 1) as nat));
        lemma_only_zeros((k - 1) as nat);
    }
}

/// How an integer may be written: in decimal, with or without a sign, and with any number of leading
/// zeros. Each way stands for the number itself, from -9223372036854775808 to 9223372036854775807, and
/// a number beyond stands for nothing.
pub proof fn every_way_to_write_an_integer(n: nat, leading: nat)
    ensures
        ({
            let digits = zeros(leading) + decimal(n);
            &&& integer_value(digits) == (if n <= 9223372036854775807 {
                Some(n as int)
            } else {
                None
            })
            &&& integer_value(seq!['+'] + digits) == integer_value(digits)
            &&& integer_value(seq!['-'] + digits) == (if n <= 9223372036854775808 {
                Some(-(n as int))
            } else {
                None
            })
        }),
{
    let digits = zeros(leading) + decimal(n);
    lemma_decimal_reads_back(n);
    lemma_leading_zeros(leading, decimal(n), n);
    assert((seq!['+'] + digits).skip(1) =~= digits);
    assert((seq!['-'] + digits).skip(1) =~= digits);
    assert(digits.len() > 0);
    assert('0' <= digits[0] <= '9') by {
        if leading == 0 {
            assert(digits =~= decimal(n));
            lemma_decimal_digits(n);
        }
    }
}

/// What a number looks like in decimal: digits only, the first of them not a zero, but for zero itself.
proof fn lemma_decimal_digits(n: nat)
    ensures
        decimal(n).len() > 0,
        forall|i: int| 0 <= i < decimal(n).len() ==> '0' <= #[trigger] decimal(n)[i] <= '9',
        n > 0 ==> decimal(n)[0] != '0',
    decreases n,
{
    if n >= 10 {
        lemma_decimal_digits(n / 10);
        let d = decimal(n / 10);
        assert forall|i: int| 0 <= i < decimal(n).len() implies '0' <= #[trigger] decimal(n)[i]
            <= '9' by {
            if i < d.len() {
                assert(decimal(n)[i] == d[i]);
            }
        }
        assert(decimal(n)[0] == d[0]);
    }
}

/// A text with a character that is neither a digit nor a sign in front stands for no integer, and
/// neither does one without a digit.
pub proof fn anything_else_is_no_integer(s: Seq<char>, i: int)
    requires
        0 <= i < s.len(),
        s[i] < '0' || s[i] > '9',
        i > 0 || s.len() == 1 || (s[0] != '+' && s[0] != '-'),
    ensures
        integer_value(s) is None,
{
    let signed = s[0] == '+' || s[0] == '-';
    let digits = if signed {
        s.skip(1)
    } else {
        s
    };
    let k = if signed {
        i - 1
    } else {
        i
    };
    if digits.len() > 0 && 0 <= k {
        assert(digits[k] == s[i]);
        lemma_not_digits(digits, k);
    }
}

proof fn lemma_not_digits(s: Seq<char>, i: int)
    requires
        0 <= i < s.len(),
        s[i] < '0' || s[i] > '9',
    ensures
        digits_value(s) is None,
    decreases s.len(),
{
    if i < s.len() - 1 {
        lemma_not_digits(s.drop_last(), i);
    }
}

/// So many times a character.
pub open spec fn repeated(c: char, n: nat) -> Seq<char> {
    Seq::new(n, |i: int| c)
}

/// Trimming takes away the character at both ends, however often it stands there, and nothing else.
pub proof fn trimming_takes_the_ends(s: Seq<char>, c: char, a: nat, b: nat)
    requires
        s.len() > 0 ==> s[0] != c && s.last() != c,
    ensures
        trim_char(repeated(c, a) + s + repeated(c, b), c) == s,
{
    let t = repeated(c, a) + s + repeated(c, b);
    if s.len() > 0 {
        assert(t =~= repeated(c, a) + (s + repeated(c, b)));
        lemma_trim_start(c, a, s + repeated(c, b));
        lemma_trim_end(c, s, b);
    } else {
        assert(t =~= repeated(c, a + b) + s);
        lemma_trim_start(c, a + b, s);
    }
}

proof fn lemma_trim_start(c: char, a: nat, s: Seq<char>)
    requires
        s.len() > 0 ==> s[0] != c,
    ensures
        trim_start_char(repeated(c, a) + s, c) == s,
    decreases a,
{
    if a > 0 {
        let b = (a - 1) as nat;
        assert((repeated(c, a) + s).skip(1) =~= repeated(c, b) + s);
        lemma_trim_start(c, b, s);
    } else {
        assert(repeated(c, a) + s =~= s);
    }
}

proof fn lemma_trim_end(c: char, s: Seq<char>, b: nat)
    requires
        s.len() > 0 ==> s.last() != c,
    ensures
        trim_end_char(s + repeated(c, b), c) == s,
    decreases b,
{
    if b > 0 {
        let a = (b - 1) as nat;
        assert((s + repeated(c, b)).drop_last() =~= s + repeated(c, a));
        lemma_trim_end(c, s, a);
    } else {
        assert(s + repeated(c, b) =~= s);
    }
}

} // verus!
