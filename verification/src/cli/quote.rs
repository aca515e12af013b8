//! Quoting of text in messages.
use vstd::prelude::*;
use vstd::string::*;

use crate::text::{chars_of, push_char};

verus! {

/// Unicode's control characters (general category Cc).
pub open spec fn is_control(c: char) -> bool {
    c as u32 <= 0x1f || 0x7f <= c as u32 <= 0x9f
}

/// Unicode's `White_Space` property.
pub open spec fn is_white_space(c: char) -> bool {
    let v = c as u32;
    0x9 <= v <= 0xd || v == 0x20 || v == 0x85 || v == 0xa0 || v == 0x1680 || 0x2000 <= v <= 0x200a
        || v == 0x2028 || v == 0x2029 || v == 0x202f || v == 0x205f || v == 0x3000
}

/// Unicode's format (Cf) and private-use (Co) code points.
pub open spec fn format_or_private(c: char) -> bool {
    let v = c as u32;
    ||| v == 0x00ad
    ||| 0x0600 <= v <= 0x0605
    ||| v == 0x061c
    ||| v == 0x06dd
    ||| v == 0x070f
    ||| 0x0890 <= v <= 0x0891
    ||| v == 0x08e2
    ||| v == 0x180e
    ||| 0x200b <= v <= 0x200f
    ||| 0x202a <= v <= 0x202e
    ||| 0x2060 <= v <= 0x2064
    ||| 0x2066 <= v <= 0x206f
    ||| v == 0xfeff
    ||| 0xfff9 <= v <= 0xfffb
    ||| v == 0x110bd
    ||| v == 0x110cd
    ||| 0x13430 <= v <= 0x1343f
    ||| 0x1bca0 <= v <= 0x1bca3
    ||| 0x1d173 <= v <= 0x1d17a
    ||| v == 0xe0001
    ||| 0xe0020 <= v <= 0xe007f
    ||| 0xe000 <= v <= 0xf8ff
    ||| 0xf0000 <= v <= 0xffffd
    ||| 0x100000 <= v <= 0x10fffd
}

/// Whether a quoted text shows `c` as itself. Unassigned code points count as printable.
pub open spec fn is_print(c: char) -> bool {
    if (c as u32) < 128 {
        ' ' <= c <= '~'
    } else {
        !is_control(c) && !is_white_space(c) && !format_or_private(c)
    }
}

/// A hexadecimal digit, in lower case.
pub open spec fn hex_digit(d: int) -> char {
    if d < 10 {
        (48 + d) as char
    } else {
        (97 + d - 10) as char
    }
}

/// The last `width` hexadecimal digits of `v`.
pub open spec fn hex(v: int, width: nat) -> Seq<char>
    decreases width,
{
    if width == 0 {
        Seq::empty()
    } else {
        hex(v / 16, (width - 1) as nat).push(hex_digit(v % 16))
    }
}

/// How a quoted text shows `c`.
pub open spec fn quoted_char(c: char) -> Seq<char> {
    let v = c as u32;
    if c == '"' {
        seq!['\\', '"']
    } else if c == '\\' {
        seq!['\\', '\\']
    } else if v == 7 {
        seq!['\\', 'a']
    } else if v == 8 {
        seq!['\\', 'b']
    } else if v == 0xc {
        seq!['\\', 'f']
    } else if v == 0xa {
        seq!['\\', 'n']
    } else if v == 0xd {
        seq!['\\', 'r']
    } else if v == 9 {
        seq!['\\', 't']
    } else if v == 0xb {
        seq!['\\', 'v']
    } else if is_print(c) {
        seq![c]
    } else if v < 0x20 || v == 0x7f {
        seq!['\\', 'x'] + hex(v as int, 2)
    } else if v < 0x10000 {
        seq!['\\', 'u'] + hex(v as int, 4)
    } else {
        seq!['\\', 'U'] + hex(v as int, 8)
    }
}

/// The characters of `s`, each as a quoted text shows it.
pub open spec fn quoted_chars(s: Seq<char>) -> Seq<char>
    decreases s.len(),
{
    if s.len() == 0 {
        Seq::empty()
    } else {
        quoted_chars(s.drop_last()) + quoted_char(s.last())
    }
}

/// `s` as a double-quoted string literal.
pub open spec fn quoted(s: Seq<char>) -> Seq<char> {
    seq!['"'] + quoted_chars(s) + seq!['"']
}

/// Whether `c` is white space.
pub(crate) fn white_space(c: char) -> (r: bool)
    ensures
        r == is_white_space(c),
{
    let v: u32 = c as u32;
    (0x9 <= v && v <= 0xd) || v == 0x20 || v == 0x85 || v == 0xa0 || v == 0x1680 || (0x2000 <= v
        && v <= 0x200a) || v == 0x2028 || v == 0x2029 || v == 0x202f || v == 0x205f || v == 0x3000
}

/// Unicode's format (Cf) and private-use (Co) code points.
fn is_format_or_private(c: char) -> (r: bool)
    ensures
        r == format_or_private(c),
{
    let v: u32 = c as u32;
    v == 0x00ad
        || (0x0600 <= v && v <= 0x0605)
        || v == 0x061c
        || v == 0x06dd
        || v == 0x070f
        || (0x0890 <= v && v <= 0x0891)
        || v == 0x08e2
        || v == 0x180e
        || (0x200b <= v && v <= 0x200f)
        || (0x202a <= v && v <= 0x202e)
        || (0x2060 <= v && v <= 0x2064)
        || (0x2066 <= v && v <= 0x206f)
        || v == 0xfeff
        || (0xfff9 <= v && v <= 0xfffb)
        || v == 0x110bd
        || v == 0x110cd
        || (0x13430 <= v && v <= 0x1343f)
        || (0x1bca0 <= v && v <= 0x1bca3)
        || (0x1d173 <= v && v <= 0x1d17a)
        || v == 0xe0001
        || (0xe0020 <= v && v <= 0xe007f)
        || (0xe000 <= v && v <= 0xf8ff)
        || (0xf0000 <= v && v <= 0xffffd)
        || (0x100000 <= v && v <= 0x10fffd)
}

/// Whether a quoted text shows `c` as itself.
pub fn go_is_print(c: char) -> (r: bool)
    ensures
        r == is_print(c),
{
    let v: u32 = c as u32;
    if v < 128 {
        return 32 <= v && v <= 126;
    }
    !(v <= 0x9f) && !white_space(c) && !is_format_or_private(c)
}

/// Appends the last `width` hexadecimal digits of `v`.
fn push_hex(out: &mut String, v: u32, width: usize)
    ensures
        final(out)@ == old(out)@ + hex(v as int, width as nat),
    decreases width,
{
    if width > 0 {
        push_hex(out, v / 16, width - 1);
        let d: u8 = (v % 16) as u8;
        push_char(
            out,
            if d < 10 {
                (48 + d) as char
            } else {
                (87 + d) as char
            },
        );
    }
    assert(out@ =~= old(out)@ + hex(v as int, width as nat));
}

/// Appends `c` as a quoted text shows it.
pub(crate) fn push_quoted(out: &mut String, c: char)
    ensures
        final(out)@ == old(out)@ + quoted_char(c),
{
    let v: u32 = c as u32;
    let short: Option<char> = if c == '"' || c == '\\' {
        Some(c)
    } else if v == 7 {
        Some('a')
    } else if v == 8 {
        Some('b')
    } else if v == 0xc {
        Some('f')
    } else if v == 0xa {
        Some('n')
    } else if v == 0xd {
        Some('r')
    } else if v == 9 {
        Some('t')
    } else if v == 0xb {
        Some('v')
    } else {
        None
    };
    if let Some(l) = short {
        push_char(out, '\\');
        push_char(out, l);
    } else if go_is_print(c) {
        push_char(out, c);
    } else {
        push_char(out, '\\');
        if v < 0x20 || v == 0x7f {
            push_char(out, 'x');
            push_hex(out, v, 2);
        } else if v < 0x10000 {
            push_char(out, 'u');
            push_hex(out, v, 4);
        } else {
            push_char(out, 'U');
            push_hex(out, v, 8);
        }
    }
    assert(out@ =~= old(out)@ + quoted_char(c));
}

/// `s` as a double-quoted string literal.
pub fn go_quote(s: &str) -> (out: String)
    ensures
        out@ == quoted(s@),
{
    let v = chars_of(s);
    let mut out = String::new();
    push_char(&mut out, '"');
    let mut i: usize = 0;
    assert(out@ =~= seq!['"'] + quoted_chars(v@.take(0)));
    while i < v.len()
        invariant
            i <= v.len(),
            out@ == seq!['"'] + quoted_chars(v@.take(i as int)),
        decreases v.len() - i,
    {
        push_quoted(&mut out, v[i]);
        assert(v@.take(i + 1).drop_last() =~= v@.take(i as int));
        i = i + 1;
        assert(out@ =~= seq!['"'] + quoted_chars(v@.take(i as int)));
    }
    assert(v@.take(i as int) =~= s@);
    push_char(&mut out, '"');
    assert(out@ =~= quoted(s@));
    out
}

/// A quoted text shows nothing but printable characters.
pub proof fn quoted_text_is_printable(s: Seq<char>)
    ensures
        forall|i: int| 0 <= i < quoted(s).len() ==> is_print(#[trigger] quoted(s)[i]),
    decreases s.len(),
{
    if s.len() > 0 {
        quoted_text_is_printable(s.drop_last());
        let c = s.last();
        lemma_hex_printable(c as u32 as int, 2);
        lemma_hex_printable(c as u32 as int, 4);
        lemma_hex_printable(c as u32 as int, 8);
        let head = quoted(s.drop_last());
        assert(quoted(s) =~= head.drop_last() + quoted_char(c) + seq!['"']);
        assert forall|i: int| 0 <= i < quoted(s).len() implies is_print(
            #[trigger] quoted(s)[i],
        ) by {
            if i < head.len() - 1 {
                assert(quoted(s)[i] == head[i]);
            }
        }
    }
}

proof fn lemma_hex_printable(v: int, width: nat)
    requires
        v >= 0,
    ensures
        forall|i: int| 0 <= i < hex(v, width).len() ==> is_print(#[trigger] hex(v, width)[i]),
    decreases width,
{
    if width > 0 {
        lemma_hex_printable(v / 16, (width - 1) as nat);
        let d = v % 16;
        assert(hex_digit(d) as u32 == if d < 10 { 48 + d } else { 87 + d });
        let init = hex(v / 16, (width - 1) as nat);
        assert forall|i: int| 0 <= i < hex(v, width).len() implies is_print(
            #[trigger] hex(v, width)[i],
        ) by {
            if i < init.len() {
                assert(hex(v, width)[i] == init[i]);
            }
        }
    }
}

/// The number that some hexadecimal digits with small letters stand for.
pub open spec fn hex_number(s: Seq<char>) -> int
    decreases s.len(),
{
    if s.len() == 0 {
        0
    } else {
        let d = s.last() as u32 as int;
        16 * hex_number(s.drop_last()) + (if d < 58 {
            d - 48
        } else {
            d - 87
        })
    }
}

/// The first character of a quoted text, and how many characters show it.
pub open spec fn read_quoted_char(s: Seq<char>) -> (char, int) {
    if s[0] != '\\' {
        (s[0], 1)
    } else if s[1] == 'x' {
        (hex_number(s.subrange(2, 4)) as char, 4)
    } else if s[1] == 'u' {
        (hex_number(s.subrange(2, 6)) as char, 6)
    } else if s[1] == 'U' {
        (hex_number(s.subrange(2, 10)) as char, 10)
    } else if s[1] == 'a' {
        (7int as char, 2)
    } else if s[1] == 'b' {
        (8int as char, 2)
    } else if s[1] == 't' {
        (9int as char, 2)
    } else if s[1] == 'n' {
        (10int as char, 2)
    } else if s[1] == 'v' {
        (11int as char, 2)
    } else if s[1] == 'f' {
        (12int as char, 2)
    } else if s[1] == 'r' {
        (13int as char, 2)
    } else {
        (s[1], 2)
    }
}

/// The text between the opening quote, behind which `s` begins, and the closing one.
pub open spec fn read_quoted_text(s: Seq<char>) -> Seq<char>
    decreases s.len(),
{
    if s.len() == 0 || s[0] == '"' {
        Seq::empty()
    } else {
        let (c, n) = read_quoted_char(s);
        if 1 <= n <= s.len() {
            seq![c] + read_quoted_text(s.skip(n))
        } else {
            Seq::empty()
        }
    }
}

proof fn lemma_hex_number(v: int, width: nat)
    requires
        v >= 0,
    ensures
        hex(v, width).len() == width,
        width == 2 && v < 0x100 ==> hex_number(hex(v, width)) == v,
        width == 4 && v < 0x1_0000 ==> hex_number(hex(v, width)) == v,
        width == 8 && v < 0x1_0000_0000 ==> hex_number(hex(v, width)) == v,
{
    lemma_hex_value(v, width);
    reveal_with_fuel(pow16, 9);
}

spec fn pow16(k: nat) -> int
    decreases k,
{
    if k == 0 {
        1
    } else {
        16 * pow16((k - 1) as nat)
    }
}

proof fn lemma_hex_value(v: int, width: nat)
    requires
        v >= 0,
    ensures
        hex(v, width).len() == width,
        v < pow16(width) ==> hex_number(hex(v, width)) == v,
    decreases width,
{
    if width > 0 {
        lemma_hex_value(v / 16, (width - 1) as nat);
        let d = v % 16;
        assert(hex(v, width).drop_last() =~= hex(v / 16, (width - 1) as nat));
        assert(hex_digit(d) as u32 == if d < 10 {
            48 + d
        } else {
            87 + d
        });
    }
}

/// A character is read back from the way it is shown.
proof fn lemma_quoted_char_reads_back(c: char, tail: Seq<char>)
    ensures
        quoted_char(c).len() > 0,
        quoted_char(c)[0] != '"',
        read_quoted_char(quoted_char(c) + tail) == (c, quoted_char(c).len() as int),
{
    let q = quoted_char(c);
    let s = q + tail;
    let v = c as u32 as int;
    lemma_hex_number(v, 2);
    lemma_hex_number(v, 4);
    lemma_hex_number(v, 8);
    assert(s[0] == q[0]);
    if q.len() > 1 {
        assert(s[1] == q[1]);
    }
    if q.len() == 4 {
        assert(s.subrange(2, 4) =~= hex(v, 2));
    } else if q.len() == 6 {
        assert(s.subrange(2, 6) =~= hex(v, 4));
    } else if q.len() == 10 {
        assert(s.subrange(2, 10) =~= hex(v, 8));
    }
}

proof fn lemma_quoted_first(s: Seq<char>)
    requires
        s.len() > 0,
    ensures
        quoted_chars(s) == quoted_char(s[0]) + quoted_chars(s.skip(1)),
    decreases s.len(),
{
    if s.len() == 1 {
        assert(s.drop_last() =~= Seq::<char>::empty());
        assert(s.skip(1) =~= Seq::<char>::empty());
        assert(quoted_chars(s) =~= quoted_char(s[0]) + quoted_chars(s.skip(1)));
    } else {
        lemma_quoted_first(s.drop_last());
        assert(s.drop_last().skip(1) =~= s.skip(1).drop_last());
        assert(s.skip(1).last() == s.last());
        assert(quoted_chars(s) =~= quoted_char(s[0]) + quoted_chars(s.skip(1)));
    }
}

proof fn lemma_quoted_text(s: Seq<char>, rest: Seq<char>)
    ensures
        read_quoted_text(quoted_chars(s) + seq!['"'] + rest) == s,
    decreases s.len(),
{
    let t = quoted_chars(s) + seq!['"'] + rest;
    if s.len() == 0 {
        assert(t[0] == '"');
        assert(s =~= Seq::<char>::empty());
    } else {
        let q = quoted_char(s[0]);
        let more = s.skip(1);
        let tail = quoted_chars(more) + seq!['"'] + rest;
        lemma_quoted_first(s);
        assert(t =~= q + tail);
        lemma_quoted_char_reads_back(s[0], tail);
        assert(t[0] == q[0]);
        assert(t.skip(q.len() as int) =~= tail);
        lemma_quoted_text(more, rest);
        assert(seq![s[0]] + more =~= s);
    }
}

/// A quoted text stands between quotes and reads back: every character is shown as itself, or in an
/// escape that tells it.
pub proof fn a_quoted_text_reads_back(s: &str, out: String)
    requires
        call_ensures(go_quote, (s,), out),
    ensures
        out@.len() >= 2,
        out@[0] == '"',
        out@.last() == '"',
        read_quoted_text(out@.skip(1)) == s@,
{
    let rest = Seq::<char>::empty();
    lemma_quoted_text(s@, rest);
    assert(out@.skip(1) =~= quoted_chars(s@) + seq!['"'] + rest);
}

/// Which characters are shown as themselves: those of ASCII from the blank to the tilde, and beyond
/// ASCII all but the control characters, white space, and those for formatting and for private use.
pub proof fn which_characters_are_shown(c: char, r: bool)
    requires
        call_ensures(go_is_print, (c,), r),
    ensures
        ({
            let v = c as u32;
            let hidden = v <= 0x1f || 0x7f <= v <= 0xa0 || v == 0xad || v == 0x1680 || 0x2000 <= v
                <= 0x200f || 0x2028 <= v <= 0x202f || 0x205f <= v <= 0x2064 || 0x2066 <= v <= 0x206f
                || v == 0x3000 || 0x600 <= v <= 0x605 || v == 0x61c || v == 0x6dd || v == 0x70f
                || v == 0x890 || v == 0x891 || v == 0x8e2 || v == 0x180e || 0xe000 <= v <= 0xf8ff
                || v == 0xfeff || 0xfff9 <= v <= 0xfffb || v == 0x110bd || v == 0x110cd || 0x13430
                <= v <= 0x1343f || 0x1bca0 <= v <= 0x1bca3 || 0x1d173 <= v <= 0x1d17a || v
                == 0xe0001 || 0xe0020 <= v <= 0xe007f || 0xf0000 <= v <= 0xffffd || 0x100000 <= v
                <= 0x10fffd;
            r <==> !hidden
        }),
{
}

} // verus!
