//! White space between the tokens of a document.
use vstd::prelude::*;

use crate::gojson::{
    document, escape_value, hex_value, in_number, leaf_of, members_of, number_text, parse, piece,
    scan_from, scanned, string_text, unescaped, Document, Inside, Mode, Scan, State, Step,
    SyntaxError,
};

verus! {

// ---------------------------------------------------------------------------------------
// Where a token ends
// ---------------------------------------------------------------------------------------
/// The position of the quote that closes the string whose bytes, behind the opening quote, are `s`;
/// the length, or more, when none does.
spec fn closing(s: Seq<u8>) -> int
    decreases s.len(),
{
    if s.len() == 0 || s[0] == 34 {
        0
    } else if s[0] == 92 {
        if s.len() < 2 {
            s.len() as int
        } else {
            2 + closing(s.skip(2))
        }
    } else {
        1 + closing(s.skip(1))
    }
}

proof fn lemma_closing(s: Seq<u8>)
    ensures
        0 <= closing(s) <= s.len(),
        closing(s) < s.len() ==> s[closing(s)] == 34,
    decreases s.len(),
{
    if s.len() == 0 || s[0] == 34 {
    } else if s[0] == 92 {
        if s.len() >= 2 {
            lemma_closing(s.skip(2));
        }
    } else {
        lemma_closing(s.skip(1));
    }
}

/// Some bytes that neither close a string nor escape in it.
proof fn lemma_plain_bytes(s: Seq<u8>, n: int)
    requires
        0 <= n <= s.len(),
        forall|k: int| 0 <= k < n ==> #[trigger] s[k] != 34 && s[k] != 92,
    ensures
        closing(s) == n + closing(s.skip(n)),
    decreases n,
{
    if n == 0 {
        assert(s.skip(0) =~= s);
    } else {
        let t = s.skip(1);
        assert forall|k: int| 0 <= k < n - 1 implies #[trigger] t[k] != 34 && t[k] != 92 by {
            assert(t[k] == s[k + 1]);
        }
        lemma_plain_bytes(t, n - 1);
        assert(t.skip(n - 1) =~= s.skip(n));
        assert(s[0] != 34 && s[0] != 92);
    }
}

/// An escape is inside the string, or is none.
proof fn lemma_escape(s: Seq<u8>, i: int, n: int)
    requires
        0 <= i <= n < s.len(),
        s[n] == 34,
        closing(s.skip(i)) == n - i,
    ensures
        escape_value(s, i) == escape_value(s.take(n + 1), i),
        escape_value(s, i) is Some ==> i + 6 <= n && closing(s.skip(i + 6)) == n - i - 6,
{
    let t = s.take(n + 1);
    let r = s.skip(i);
    if s[i] == 92 && i + 1 < s.len() && s[i + 1] == 117 {
        assert(r[0] == 92);
        assert(r.skip(2) =~= s.skip(i + 2));
        let u = s.skip(i + 2);
        assert(i + 2 <= n) by {
            lemma_closing(u);
        }
        if i + 6 <= s.len() {
            assert(u[0] == s[i + 2] && u[1] == s[i + 3] && u[2] == s[i + 4] && u[3] == s[i + 5]);
            if escape_value(s, i) is Some {
                assert forall|k: int| 0 <= k < 4 implies #[trigger] u[k] != 34 && u[k] != 92 by {}
                lemma_plain_bytes(u, 4);
                assert(u.skip(4) =~= s.skip(i + 6));
                lemma_closing(s.skip(i + 6));
            }
        }
        if n == i + 2 {
            assert(hex_value(s[i + 2]) is None);
        } else if n == i + 3 {
            assert(hex_value(s[i + 3]) is None);
        } else if n == i + 4 {
            assert(hex_value(s[i + 4]) is None);
        } else if n == i + 5 {
            assert(hex_value(s[i + 5]) is None);
        }
    }
}

/// A character of a string takes none of what follows the closing quote.
proof fn lemma_piece_inside(s: Seq<u8>, n: int)
    requires
        0 < n < s.len(),
        closing(s) == n,
    ensures
        piece(s) == piece(s.take(n + 1)),
        1 <= piece(s).1 <= n,
        closing(s.skip(piece(s).1)) == n - piece(s).1,
{
    lemma_closing(s);
    let t = s.take(n + 1);
    assert(s.skip(0) =~= s);
    assert forall|k: int| 0 <= k <= n implies #[trigger] t[k] == s[k] by {}
    assert(s[0] != 34);
    if s[0] == 92 {
        lemma_escape(s, 0, n);
        if escape_value(s, 0) is Some {
            lemma_escape(s, 6, n);
            assert(escape_value(s, 6) == escape_value(t, 6));
        } else {
            assert(t[1] == s[1]);
            let u = s.skip(2);
            lemma_closing(u);
            if unescaped(s[1]) is None {
                let v = s.skip(1);
                assert(v[0] == s[1]);
                assert(v.skip(1) =~= u);
            }
        }
    } else {
        let m = piece(s).1;
        assert(t[0] == s[0]);
        if n >= 1 {
            assert(t[1] == s[1]);
        }
        if n >= 2 {
            assert(t[2] == s[2]);
        }
        if n >= 3 {
            assert(t[3] == s[3]);
        }
        assert(s[n] == 34);
        assert(piece(s) == piece(t));
        assert forall|k: int| 0 <= k < m implies #[trigger] s[k] != 34 && s[k] != 92 by {}
        lemma_plain_bytes(s, m);
        lemma_closing(s.skip(m));
    }
}

/// The text of a string does not depend on what follows its closing quote.
proof fn lemma_text_inside(s: Seq<u8>, n: int)
    requires
        0 <= n < s.len(),
        closing(s) == n,
    ensures
        string_text(s) == string_text(s.take(n + 1)),
    decreases n,
{
    lemma_closing(s);
    let t = s.take(n + 1);
    assert(t[0] == s[0]);
    if n > 0 {
        lemma_piece_inside(s, n);
        let m = piece(s).1;
        lemma_text_inside(s.skip(m), n - m);
        assert(s.skip(m).take(n - m + 1) =~= t.skip(m));
    }
}

/// Two strings that are the same up to and with a closing quote have the same text.
proof fn lemma_same_text(a: Seq<u8>, b: Seq<u8>, n: int)
    requires
        0 <= n < a.len(),
        n < b.len(),
        closing(a) == n,
        a.take(n + 1) == b.take(n + 1),
    ensures
        string_text(a) == string_text(b),
{
    lemma_text_inside(a, n);
    lemma_same_closing(a, b, n);
    lemma_text_inside(b, n);
}

proof fn lemma_same_closing(a: Seq<u8>, b: Seq<u8>, n: int)
    requires
        0 <= n < a.len(),
        n < b.len(),
        closing(a) == n,
        a.take(n + 1) == b.take(n + 1),
    ensures
        closing(b) == n,
    decreases n,
{
    lemma_closing(a);
    assert forall|k: int| 0 <= k <= n implies #[trigger] a[k] == b[k] by {
        assert(a.take(n + 1)[k] == a[k]);
        assert(b.take(n + 1)[k] == b[k]);
    }
    assert(a[0] == b[0]);
    if n > 0 {
        let m: int = if a[0] == 92 {
            2
        } else {
            1
        };
        lemma_closing(a.skip(m));
        assert(a.skip(m).take(n - m + 1) =~= b.skip(m).take(n - m + 1));
        lemma_same_closing(a.skip(m), b.skip(m), n - m);
    }
}

/// Two numbers that are the same up to a byte that cannot stand in one are the same.
proof fn lemma_same_number(a: Seq<u8>, b: Seq<u8>, n: int)
    requires
        0 <= n <= a.len(),
        n <= b.len(),
        forall|k: int| 0 <= k < n ==> #[trigger] a[k] == b[k],
        n == a.len() || !in_number(a[n]) || (n > 0 && !in_number(a[n - 1])),
        n == b.len() || !in_number(b[n]) || (n > 0 && !in_number(b[n - 1])),
    ensures
        number_text(a) == number_text(b),
    decreases n,
{
    if n > 0 {
        assert(a[0] == b[0]);
        if in_number(a[0]) {
            let c = a.skip(1);
            let d = b.skip(1);
            assert forall|k: int| 0 <= k < n - 1 implies #[trigger] c[k] == d[k] by {
                assert(a[k + 1] == b[k + 1]);
            }
            assert(n > 1 ==> c[n - 2] == a[n - 1] && d[n - 2] == b[n - 1]);
            assert(n < a.len() ==> c[n - 1] == a[n]);
            assert(n < b.len() ==> d[n - 1] == b[n]);
            lemma_same_number(c, d, n - 1);
        }
    }
}

// ---------------------------------------------------------------------------------------
// Inside and outside strings
// ---------------------------------------------------------------------------------------
/// Where a position of an input is, by the quotes before it.
pub enum Part {
    /// Outside the strings.
    Outside,
    /// In a string.
    Text,
    /// Behind a backslash in a string.
    Escape,
}

/// Where position `n` is.
pub open spec fn part_at(data: Seq<u8>, n: int) -> Part
    decreases n,
{
    if n <= 0 {
        Part::Outside
    } else {
        let c = data[n - 1];
        match part_at(data, n - 1) {
            Part::Outside => if c == 0x22 {
                Part::Text
            } else {
                Part::Outside
            },
            Part::Text => if c == 0x22 {
                Part::Outside
            } else if c == 0x5c {
                Part::Escape
            } else {
                Part::Text
            },
            Part::Escape => Part::Text,
        }
    }
}

/// Whether a byte is one of `{`, `}`, `[`, `]`, `:` and `,`.
pub open spec fn is_structural(c: u8) -> bool {
    c == 0x7b || c == 0x7d || c == 0x5b || c == 0x5d || c == 0x3a || c == 0x2c
}

proof fn lemma_same_part(a: Seq<u8>, b: Seq<u8>, n: int)
    requires
        0 <= n <= a.len(),
        n <= b.len(),
        forall|k: int| 0 <= k < n ==> #[trigger] a[k] == b[k],
    ensures
        part_at(a, n) == part_at(b, n),
    decreases n,
{
    if n > 0 {
        lemma_same_part(a, b, n - 1);
        assert(a[n - 1] == b[n - 1]);
    }
}

/// A string that is open at `a` and over at `b` is closed in between.
proof fn lemma_closes(data: Seq<u8>, a: int, b: int)
    requires
        0 <= a < b <= data.len(),
        part_at(data, a) is Text,
        part_at(data, b) is Outside,
    ensures
        0 <= closing(data.skip(a)) < b - a,
    decreases b - a,
{
    let s = data.skip(a);
    assert(s[0] == data[a]);
    if s[0] != 34 {
        assert(a + 1 < b) by {
            assert(!(part_at(data, a + 1) is Outside));
        }
        if s[0] == 92 {
            assert(part_at(data, a + 1) is Escape);
            assert(part_at(data, a + 2) is Text);
            assert(a + 2 < b);
            lemma_closes(data, a + 2, b);
            assert(s.skip(2) =~= data.skip(a + 2));
        } else {
            assert(part_at(data, a + 1) is Text);
            lemma_closes(data, a + 1, b);
            assert(s.skip(1) =~= data.skip(a + 1));
        }
    }
}

// ---------------------------------------------------------------------------------------
// What the scanner knows
// ---------------------------------------------------------------------------------------
/// Where a mode is.
spec fn part_of(mode: Mode) -> Part {
    match mode {
        Mode::Str | Mode::Hex(_) => Part::Text,
        Mode::Escape => Part::Escape,
        _ => Part::Outside,
    }
}

/// Only the innermost object is in the place of a key, and a value does not stand there.
spec fn shaped(st: State) -> bool {
    &&& forall|k: int| 0 <= k < st.stack.len() - 1 ==> #[trigger] st.stack[k] != Inside::Key
    &&& match st.mode {
        Mode::FirstKey | Mode::Key => st.stack.len() > 0 && st.stack.last() == Inside::Key,
        Mode::FirstElement => st.stack.len() > 0 && st.stack.last() != Inside::Key,
        Mode::Str | Mode::Escape | Mode::Hex(_) | Mode::After | Mode::Done => true,
        _ => st.stack.len() == 0 || st.stack.last() != Inside::Key,
    }
}

/// Whether a key of the document has begun whose value has not ended.
spec fn keyed(st: State) -> bool {
    st.stack.len() > 0 && (st.stack[0] == Inside::Value || (st.stack.len() == 1 && st.stack[0]
        == Inside::Key && (st.mode is Str || st.mode is Escape || st.mode is Hex
        || st.mode is After)))
}

/// Whether its value has begun.
spec fn valued(st: State) -> bool {
    st.stack.len() > 0 && st.stack[0] == Inside::Value && (st.stack.len() > 1 || !(st.mode is Value))
}

/// A value or a key begins at `x`, before `i`.
spec fn begins(data: Seq<u8>, x: int, i: int) -> bool {
    0 <= x < i && part_at(data, x) is Outside
}

/// What the scanner has noted by position `i` are places where keys and values begin.
spec fn noted(data: Seq<u8>, st: State, i: int) -> bool {
    &&& shaped(st)
    &&& part_of(st.mode) == part_at(data, i)
    &&& keyed(st) ==> begins(data, st.key_at as int, i) && data[st.key_at as int] == 34
    &&& valued(st) ==> begins(data, st.value_at as int, i)
    &&& forall|k: int|
        0 <= k < st.starts.len() ==> {
            &&& begins(data, (#[trigger] st.starts[k]).0 as int, i)
            &&& data[st.starts[k].0 as int] == 34
            &&& begins(data, st.starts[k].1 as int, i)
        }
}

proof fn lemma_noted(data: Seq<u8>, st: State, i: int, next: State)
    requires
        0 <= i < data.len() <= usize::MAX,
        noted(data, st, i),
        st.step(data[i], i as usize) == Step::Go(next),
    ensures
        noted(data, next, i + 1),
{
    let c = data[i];
    assert(part_at(data, i + 1) == part_of(next.mode));
    assert(shaped(next)) by {
        assert forall|k: int| 0 <= k < next.stack.len() - 1 implies #[trigger] next.stack[k]
            != Inside::Key by {
            if k < st.stack.len() - 1 {
                assert(st.stack[k] != Inside::Key);
            } else {
                assert(st.stack.last() == st.stack[k]);
            }
        }
    }
    if st.stack.len() == 1 && st.stack[0] == Inside::Value {
        assert(st.stack =~= seq![Inside::Value]);
    }
    if st.stack.len() > 1 {
        assert(st.stack[0] != Inside::Key);
        assert(next.stack.len() > 0 ==> next.stack[0] == st.stack[0]);
    }
    if st.stack.len() == 1 {
        assert(st.stack.last() == st.stack[0]);
    }
    assert forall|k: int| 0 <= k < next.starts.len() implies {
        &&& begins(data, (#[trigger] next.starts[k]).0 as int, i + 1)
        &&& data[next.starts[k].0 as int] == 34
        &&& begins(data, next.starts[k].1 as int, i + 1)
    } by {
        if k < st.starts.len() {
            assert(next.starts[k] == st.starts[k]);
        }
    }
}

// ---------------------------------------------------------------------------------------
// Two inputs with different white space
// ---------------------------------------------------------------------------------------
/// The scanner at position `i`, if it gets there.
spec fn reached(data: Seq<u8>, p: int, st: State, i: int) -> Option<State>
    decreases i - p,
{
    if p >= i {
        Some(st)
    } else if st.mode is Done {
        None
    } else {
        match st.step(data[p], p as usize) {
            Step::Go(next) => reached(data, p + 1, next, i),
            _ => None,
        }
    }
}

/// A scanner that stands between two tokens.
spec fn is_between(st: State) -> bool {
    ||| st.mode is Value
    ||| st.mode is FirstElement
    ||| st.mode is FirstKey
    ||| st.mode is Key
    ||| st.mode is Done
    ||| st.mode is After && st.stack.len() > 0
}

/// What two inputs that begin alike come to where they begin alike.
proof fn lemma_reached(a: Seq<u8>, b: Seq<u8>, p: int, st: State, i: int)
    requires
        0 <= p <= i <= a.len() <= usize::MAX,
        i <= b.len() <= usize::MAX,
        forall|k: int| 0 <= k < i ==> #[trigger] a[k] == b[k],
        noted(a, st, p),
        p == i && i > 0 && is_structural(a[i - 1]) && part_at(a, i) is Outside ==> is_between(st),
    ensures
        reached(a, p, st, i) == reached(b, p, st, i),
        match reached(a, p, st, i) {
            Some(s) => {
                &&& scan_from(a, p, st) == scan_from(a, i, s)
                &&& scan_from(b, p, st) == scan_from(b, i, s)
                &&& noted(a, s, i)
                &&& i > 0 && is_structural(a[i - 1]) && part_at(a, i) is Outside ==> is_between(s)
            },
            None => {
                &&& scan_from(a, p, st) == scan_from(b, p, st)
                &&& scan_from(a, p, st) matches Scan::Complete(_, end) ==> 0 <= end <= i
            },
        },
    decreases i - p,
{
    if p < i && !(st.mode is Done) {
        assert(a[p] == b[p]);
        if let Step::Go(next) = st.step(a[p], p as usize) {
            lemma_noted(a, st, p, next);
            lemma_reached(a, b, p + 1, next, i);
        }
    }
}

/// Whether white space keeps the scanner going.
spec fn passes(st: State) -> bool {
    match st.mode {
        Mode::Value | Mode::FirstElement | Mode::FirstKey | Mode::Key => true,
        Mode::After | Mode::Zero | Mode::Digits | Mode::Fraction | Mode::ExpDigits => st.stack.len()
            > 0,
        _ => false,
    }
}

/// The scanner behind a number that has ended.
spec fn settled(st: State) -> State {
    match st.mode {
        Mode::Zero | Mode::Digits | Mode::Fraction | Mode::ExpDigits => st.at(Mode::After),
        _ => st,
    }
}

/// White space is passed over.
proof fn lemma_passed(data: Seq<u8>, p: int, n: int, st: State)
    requires
        0 <= p < n <= data.len(),
        forall|k: int|
            p <= k < n ==> #[trigger] data[k] == 0x20 || data[k] == 0x09 || data[k] == 0x0a
                || data[k] == 0x0d,
        passes(st),
    ensures
        scan_from(data, p, st) == scan_from(data, n, settled(st)),
    decreases n - p,
{
    let c = data[p];
    assert(c == 0x20 || c == 0x09 || c == 0x0a || c == 0x0d);
    assert(st.step(c, p as usize) == Step::Go(settled(st))) by {
        assert(settled(st).stack == st.stack);
    }
    if p + 1 < n {
        lemma_passed(data, p + 1, n, settled(st));
    }
}

/// A place in one input is the same place in another one that is `d` bytes longer in the middle: before
/// `i`, or from `lo` on.
spec fn moved(x: int, y: int, i: int, lo: int, d: int) -> bool {
    (x < i && y == x) || (x >= lo && y == x + d)
}

/// Two scanners have seen the same.
spec fn alike(s: State, t: State, i: int, lo: int, d: int) -> bool {
    &&& s.mode == t.mode
    &&& s.stack == t.stack
    &&& s.first == t.first
    &&& s.starts.len() == t.starts.len()
    &&& keyed(s) ==> moved(s.key_at as int, t.key_at as int, i, lo, d)
    &&& valued(s) ==> moved(s.value_at as int, t.value_at as int, i, lo, d)
    &&& forall|k: int|
        0 <= k < s.starts.len() ==> {
            &&& moved((#[trigger] s.starts[k]).0 as int, t.starts[k].0 as int, i, lo, d)
            &&& moved(s.starts[k].1 as int, t.starts[k].1 as int, i, lo, d)
        }
}

/// Two scanners that have seen the same see the same of the next byte.
proof fn lemma_alike(s: State, t: State, c: u8, p: int, i: int, lo: int, d: int)
    requires
        shaped(s),
        alike(s, t, i, lo, d),
        0 <= i <= lo <= p <= usize::MAX,
        0 <= p + d <= usize::MAX,
    ensures
        match (s.step(c, p as usize), t.step(c, (p + d) as usize)) {
            (Step::Go(u), Step::Go(v)) => alike(u, v, i, lo, d),
            (Step::End, Step::End) => true,
            (Step::Refused(x), Step::Refused(y)) => x == y,
            (Step::TooDeep, Step::TooDeep) => true,
            _ => false,
        },
{
    if s.stack.len() == 1 && s.stack[0] == Inside::Value {
        assert(s.stack =~= seq![Inside::Value]);
    }
    if s.stack.len() > 1 {
        assert(s.stack[0] != Inside::Key);
    }
    if s.stack.len() == 1 {
        assert(s.stack.last() == s.stack[0]);
    }
    if let Step::Go(u) = s.step(c, p as usize) {
        if let Step::Go(v) = t.step(c, (p + d) as usize) {
            if s.stack.len() > 1 {
                assert(u.stack.len() > 0 ==> u.stack[0] == s.stack[0]);
            }
            assert forall|k: int| 0 <= k < u.starts.len() implies {
                &&& moved((#[trigger] u.starts[k]).0 as int, v.starts[k].0 as int, i, lo, d)
                &&& moved(u.starts[k].1 as int, v.starts[k].1 as int, i, lo, d)
            } by {
                if k < s.starts.len() {
                    assert(u.starts[k] == s.starts[k]);
                    assert(v.starts[k] == t.starts[k]);
                }
            }
        }
    }
}

/// What two scanners that have seen the same find in the same rest.
spec fn found_alike(x: Scan, y: Scan, a: Seq<u8>, i: int, lo: int, d: int) -> bool {
    match (x, y) {
        (Scan::Complete(u, e), Scan::Complete(v, f)) => {
            &&& alike(u, v, i, lo, d)
            &&& noted(a, u, e)
            &&& lo <= e <= a.len()
            &&& f == e + d
        },
        (Scan::Bad(_), Scan::Bad(_)) => true,
        _ => false,
    }
}

proof fn lemma_found_alike(
    a: Seq<u8>,
    b: Seq<u8>,
    p: int,
    s: State,
    t: State,
    i: int,
    lo: int,
    d: int,
)
    requires
        alike(s, t, i, lo, d),
        noted(a, s, p),
        0 <= i <= lo <= p <= a.len() <= usize::MAX,
        i <= lo + d,
        b.len() == a.len() + d,
        b.len() <= usize::MAX,
        forall|k: int| lo <= k < a.len() ==> #[trigger] a[k] == b[k + d],
    ensures
        found_alike(scan_from(a, p, s), scan_from(b, p + d, t), a, i, lo, d),
    decreases a.len() - p,
{
    if !(s.mode is Done) {
        if p < a.len() {
            assert(a[p] == b[p + d]);
            lemma_alike(s, t, a[p], p, i, lo, d);
            if let Step::Go(u) = s.step(a[p], p as usize) {
                if let Step::Go(v) = t.step(a[p], (p + d) as usize) {
                    lemma_noted(a, s, p, u);
                    lemma_found_alike(a, b, p + 1, u, v, i, lo, d);
                }
            }
        } else {
            lemma_alike_end(s, t);
        }
    }
}

/// Whether the end of the input ends the value does not depend on what was noted.
proof fn lemma_alike_end(s: State, t: State)
    requires
        s.mode == t.mode,
        s.stack == t.stack,
    ensures
        s.step(32, 0) is End == t.step(32, 0) is End,
{
}

/// Two inputs that differ in the white space between positions `i` and `lo` of the first, with the
/// second `d` bytes longer there. What ends a number before it is no part of a number in either.
spec fn differ(a: Seq<u8>, b: Seq<u8>, i: int, lo: int, d: int) -> bool {
    &&& 0 <= i <= lo <= a.len() <= usize::MAX
    &&& i <= lo + d
    &&& b.len() == a.len() + d
    &&& b.len() <= usize::MAX
    &&& part_at(a, i) is Outside
    &&& forall|k: int| 0 <= k < i ==> #[trigger] a[k] == b[k]
    &&& forall|k: int| lo <= k < a.len() ==> #[trigger] a[k] == b[k + d]
    &&& i == a.len() || !in_number(a[i]) || (i > 0 && !in_number(a[i - 1])) || i == 0
    &&& i == b.len() || !in_number(b[i]) || (i > 0 && !in_number(b[i - 1])) || i == 0
}

/// A string has the same text in both.
proof fn lemma_string_alike(
    a: Seq<u8>,
    b: Seq<u8>,
    i: int,
    lo: int,
    d: int,
    e: int,
    x: int,
    y: int,
)
    requires
        differ(a, b, i, lo, d),
        lo <= e <= a.len(),
        begins(a, x, e),
        a[x] == 34,
        moved(x, y, i, lo, d),
    ensures
        string_text(a.take(e).skip(x + 1)) == string_text(b.take(e + d).skip(y + 1)),
{
    let s = a.take(e).skip(x + 1);
    let t = b.take(e + d).skip(y + 1);
    if x < i {
        assert(part_at(a, x + 1) is Text);
        assert(x + 1 < i);
        lemma_closes(a, x + 1, i);
        let n = closing(a.skip(x + 1));
        let whole = a.skip(x + 1);
        assert(whole.take(n + 1) =~= s.take(n + 1));
        lemma_same_closing(whole, s, n);
        assert(s.take(n + 1) =~= t.take(n + 1)) by {
            assert forall|k: int| 0 <= k < n + 1 implies #[trigger] s.take(n + 1)[k] == t.take(n + 1)[k] by {
                assert(a[x + 1 + k] == b[x + 1 + k]);
            }
        }
        lemma_same_text(s, t, n);
    } else {
        assert(s =~= t) by {
            assert forall|k: int| 0 <= k < s.len() implies #[trigger] s[k] == t[k] by {
                assert(a[x + 1 + k] == b[x + 1 + k + d]);
            }
        }
    }
}

/// A value is the same in both.
proof fn lemma_leaf_alike(
    a: Seq<u8>,
    b: Seq<u8>,
    i: int,
    lo: int,
    d: int,
    e: int,
    x: int,
    y: int,
)
    requires
        differ(a, b, i, lo, d),
        lo <= e <= a.len(),
        begins(a, x, e),
        moved(x, y, i, lo, d),
    ensures
        leaf_of(a.take(e), x) == leaf_of(b.take(e + d), y),
{
    let s = a.take(e);
    let t = b.take(e + d);
    assert(s[x] == t[y]) by {
        if x < i {
            assert(a[x] == b[x]);
        } else {
            assert(a[x] == b[x + d]);
        }
    }
    if s[x] == 34 {
        lemma_string_alike(a, b, i, lo, d, e, x, y);
    } else if x < i {
        let u = s.skip(x);
        let v = t.skip(y);
        assert forall|k: int| 0 <= k < i - x implies #[trigger] u[k] == v[k] by {
            assert(a[x + k] == b[x + k]);
        }
        assert(u[i - x - 1] == a[i - 1]);
        assert(v[i - x - 1] == b[i - 1]);
        assert(i < e ==> u[i - x] == a[i]);
        assert(i < e + d ==> v[i - x] == b[i]);
        lemma_same_number(u, v, i - x);
    } else {
        assert(s.skip(x) =~= t.skip(y)) by {
            assert forall|k: int| 0 <= k < s.skip(x).len() implies #[trigger] s.skip(x)[k] == t.skip(y)[k] by {
                assert(a[x + k] == b[x + k + d]);
            }
        }
    }
}

/// Two scanners that have seen the same have found the same members.
proof fn lemma_members_alike(
    a: Seq<u8>,
    b: Seq<u8>,
    u: State,
    v: State,
    i: int,
    lo: int,
    d: int,
    e: int,
)
    requires
        differ(a, b, i, lo, d),
        alike(u, v, i, lo, d),
        noted(a, u, e),
        lo <= e <= a.len(),
    ensures
        members_of(a.take(e), u.starts) == members_of(b.take(e + d), v.starts),
{
    let m = members_of(a.take(e), u.starts);
    let n = members_of(b.take(e + d), v.starts);
    assert forall|k: int| 0 <= k < m.len() implies m[k] == n[k] by {
        let (kx, vx) = u.starts[k];
        let (ky, vy) = v.starts[k];
        lemma_string_alike(a, b, i, lo, d, e, kx as int, ky as int);
        lemma_leaf_alike(a, b, i, lo, d, e, vx as int, vy as int);
    }
    assert(m =~= n);
}

/// The scanner behind `before`, with the white space `a` to come: where it goes on.
proof fn lemma_goes_on(data: Seq<u8>, i: int, lo: int, st: State)
    requires
        0 <= i <= lo <= data.len(),
        forall|k: int|
            i <= k < lo ==> #[trigger] data[k] == 0x20 || data[k] == 0x09 || data[k] == 0x0a
                || data[k] == 0x0d,
        passes(st),
        i < lo || is_between(st) || (i < data.len() && is_structural(data[i])),
    ensures
        scan_from(data, i, st) == scan_from(data, lo, settled(st)),
{
    if i < lo {
        lemma_passed(data, i, lo, st);
    } else if !is_between(st) {
        assert(st.step(data[i], i as usize) == settled(st).step(data[i], i as usize)) by {
            assert(settled(st).stack == st.stack);
            assert(st.recorded().closed() == settled(st).recorded().closed());
            assert(st.recorded().turned(Inside::Key, Mode::Key) == settled(st).recorded().turned(
                Inside::Key,
                Mode::Key,
            ));
        }
    }
}

/// A number that a structural character ends is as one that white space has ended.
pub(crate) proof fn lemma_ended_number(data: Seq<u8>, i: int, st: State)
    requires
        0 <= i < data.len(),
        is_structural(data[i]),
        st.stack.len() > 0,
        st.mode is Zero || st.mode is Digits || st.mode is Fraction || st.mode is ExpDigits,
    ensures
        scan_from(data, i, st) == scan_from(data, i, st.at(Mode::After)),
{
    lemma_goes_on(data, i, i, st);
}

/// Where white space does not keep the scanner going, the value has ended, or the input is refused.
proof fn lemma_stops(data: Seq<u8>, i: int, st: State)
    requires
        0 <= i < data.len(),
        !passes(st),
        part_of(st.mode) is Outside,
        is_structural(data[i]) || data[i] == 0x20 || data[i] == 0x09 || data[i] == 0x0a || data[i]
            == 0x0d,
    ensures
        match st.mode {
            Mode::Done
            | Mode::After
            | Mode::Zero
            | Mode::Digits
            | Mode::Fraction
            | Mode::ExpDigits => scan_from(data, i, st) == Scan::Complete(st, i),
            _ => scan_from(data, i, st) is Bad,
        },
{
}

/// Whether a byte is a blank, a tab, a line feed or a carriage return.
pub open spec fn is_blank(c: u8) -> bool {
    c == 0x20 || c == 0x09 || c == 0x0a || c == 0x0d
}

/// White space between tokens does not matter. Outside strings any run of blanks, tabs, line feeds
/// and carriage returns can stand for any other one, and at the start of the input or next to one of
/// `{`, `}`, `[`, `]`, `:` and `,` it can be left out or put in: the same document is found, or none
/// in either.
pub proof fn white_space_between_tokens_does_not_matter(
    before: Seq<u8>,
    a: Seq<u8>,
    b: Seq<u8>,
    after: Seq<u8>,
)
    requires
        part_at(before, before.len() as int) is Outside,
        forall|k: int|
            0 <= k < a.len() ==> #[trigger] a[k] == 0x20 || a[k] == 0x09 || a[k] == 0x0a || a[k]
                == 0x0d,
        forall|k: int|
            0 <= k < b.len() ==> #[trigger] b[k] == 0x20 || b[k] == 0x09 || b[k] == 0x0a || b[k]
                == 0x0d,
        ({
            ||| a.len() > 0 && b.len() > 0
            ||| before.len() == 0
            ||| is_structural(before.last())
            ||| after.len() > 0 && is_structural(after[0])
        }),
        (before + a + after).len() <= usize::MAX,
        (before + b + after).len() <= usize::MAX,
    ensures
        document(before + a + after) is Ok <==> document(before + b + after) is Ok,
        document(before + a + after) is Ok ==> document(before + a + after) == document(
            before + b + after,
        ),
{
    let x = before + a + after;
    let y = before + b + after;
    let i = before.len() as int;
    let lo = i + a.len();
    let d = b.len() - a.len();
    assert forall|k: int| 0 <= k < i implies #[trigger] x[k] == y[k] by {
        assert(x[k] == before[k]);
        assert(y[k] == before[k]);
    }
    assert forall|k: int| lo <= k < x.len() implies #[trigger] x[k] == y[k + d] by {
        assert(x[k] == after[k - lo]);
        assert(y[k + d] == after[k - lo]);
    }
    assert forall|k: int| i <= k < lo implies is_blank(#[trigger] x[k]) by {
        assert(x[k] == a[k - i]);
    }
    assert forall|k: int| i <= k < i + b.len() implies is_blank(#[trigger] y[k]) by {
        assert(y[k] == b[k - i]);
    }
    assert(i > 0 ==> x[i - 1] == before.last() && y[i - 1] == before.last());
    assert(a.len() == 0 && after.len() > 0 ==> x[i] == after[0]);
    assert(b.len() == 0 && after.len() > 0 ==> y[i] == after[0]);
    assert(a.len() > 0 ==> is_blank(x[i]));
    assert(b.len() > 0 ==> is_blank(y[i]));
    lemma_same_part(before, x, i);
    let start = State::start();
    assert(noted(x, start, 0));
    lemma_reached(x, y, 0, start, i);
    match reached(x, 0, start, i) {
        None => {
            if let Scan::Complete(st, end) = scanned(x) {
                assert(x.take(end) =~= y.take(end));
            }
        },
        Some(st) => {
            if i == 0 {
                assert(st == start);
            }
            let free = i == 0 || is_structural(before.last());
            assert(free ==> is_between(st));
            if passes(st) {
                lemma_goes_on(x, i, lo, st);
                lemma_goes_on(y, i, lo + d, st);
                let s = settled(st);
                assert(noted(x, s, lo)) by {
                    lemma_blank_part(x, i, lo);
                    assert(shaped(s));
                }
                assert(alike(s, s, i, lo, d));
                lemma_found_alike(x, y, lo, s, s, i, lo, d);
                if let Scan::Complete(u, e) = scanned(x) {
                    if let Scan::Complete(v, f) = scanned(y) {
                        lemma_members_alike(x, y, u, v, i, lo, d, e);
                    }
                }
            } else if st.mode is Done {
                assert(x.take(i) =~= y.take(i));
            } else {
                lemma_stops(x, i, st);
                lemma_stops(y, i, st);
                assert(x.take(i) =~= y.take(i));
            }
        },
    }
}

/// White space outside strings leaves the next byte outside strings.
proof fn lemma_blank_part(data: Seq<u8>, i: int, n: int)
    requires
        0 <= i <= n <= data.len(),
        part_at(data, i) is Outside,
        forall|k: int| i <= k < n ==> is_blank(#[trigger] data[k]),
    ensures
        part_at(data, n) is Outside,
    decreases n - i,
{
    if i < n {
        lemma_blank_part(data, i, n - 1);
        assert(is_blank(data[n - 1]));
    }
}

/// The same of what is read: two inputs that differ in the white space between tokens are read as the
/// same document, or refused both.
pub proof fn inputs_that_differ_in_white_space_are_read_alike(
    before: Seq<u8>,
    a: Seq<u8>,
    b: Seq<u8>,
    after: Seq<u8>,
    x: &[u8],
    y: &[u8],
    r: Result<Document, SyntaxError>,
    s: Result<Document, SyntaxError>,
)
    requires
        part_at(before, before.len() as int) is Outside,
        forall|k: int|
            0 <= k < a.len() ==> #[trigger] a[k] == 0x20 || a[k] == 0x09 || a[k] == 0x0a || a[k]
                == 0x0d,
        forall|k: int|
            0 <= k < b.len() ==> #[trigger] b[k] == 0x20 || b[k] == 0x09 || b[k] == 0x0a || b[k]
                == 0x0d,
        ({
            ||| a.len() > 0 && b.len() > 0
            ||| before.len() == 0
            ||| is_structural(before.last())
            ||| after.len() > 0 && is_structural(after[0])
        }),
        x@ == before + a + after,
        y@ == before + b + after,
        x@.len() <= usize::MAX,
        y@.len() <= usize::MAX,
        call_ensures(parse, (x,), r),
        call_ensures(parse, (y,), s),
    ensures
        r is Ok <==> s is Ok,
        r is Ok ==> r->Ok_0@ == s->Ok_0@,
{
    white_space_between_tokens_does_not_matter(before, a, b, after);
}

} // verus!
