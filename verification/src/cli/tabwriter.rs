//! Column alignment of tab-separated text.
//!
//! The text is split into lines at `\n` and each line into cells at `\t`. The last cell of a line
//! is never padded. A cell in front of it is padded to the width of its column block: the run of
//! neighbouring lines that all have such a cell in that column.
use vstd::prelude::*;
use vstd::string::*;

use crate::text::{
    chars_of, lemma_split_nonempty, lemma_split_whole, push_char, push_slice, split, split_at_char,
    texts,
};

verus! {

/// Cell padding added to a cell before computing its width.
pub const PADDING: usize = 2;

/// The lines of a text, each a list of cells.
pub open spec fn grid(text: Seq<char>) -> Seq<Seq<Seq<char>>> {
    let lines = split(text, '\n');
    Seq::new(lines.len(), |i: int| split(lines[i], '\t'))
}

/// Whether line `i` has a cell in column `j` that is not its last one.
pub open spec fn padded(lines: Seq<Seq<Seq<char>>>, i: int, j: int) -> bool {
    0 <= i < lines.len() && 0 <= j < lines[i].len() - 1
}

pub open spec fn larger(a: int, b: int) -> int {
    if a >= b {
        a
    } else {
        b
    }
}

/// The longest cell of the column block, from line `i` upwards.
pub open spec fn longest_above(lines: Seq<Seq<Seq<char>>>, i: int, j: int) -> int
    decreases i + 1,
{
    if padded(lines, i, j) {
        larger(lines[i][j].len() as int, longest_above(lines, i - 1, j))
    } else {
        0
    }
}

/// The longest cell of the column block, from line `i` downwards.
pub open spec fn longest_below(lines: Seq<Seq<Seq<char>>>, i: int, j: int) -> int
    decreases lines.len() - i,
{
    if padded(lines, i, j) {
        larger(lines[i][j].len() as int, longest_below(lines, i + 1, j))
    } else {
        0
    }
}

/// The width of the column block that cell `j` of line `i` belongs to.
pub open spec fn width(lines: Seq<Seq<Seq<char>>>, i: int, j: int) -> int {
    larger(longest_above(lines, i, j), longest_below(lines, i, j)) + PADDING
}

/// `n` spaces.
pub open spec fn spaces(n: int) -> Seq<char> {
    Seq::new(if n < 0 { 0 } else { n as nat }, |i: int| ' ')
}

/// The first `n` cells of line `i`, aligned.
pub open spec fn aligned_cells(lines: Seq<Seq<Seq<char>>>, i: int, n: int) -> Seq<char>
    decreases n,
{
    if n <= 0 {
        Seq::empty()
    } else {
        let cell = lines[i][n - 1];
        aligned_cells(lines, i, n - 1) + cell + (if padded(lines, i, n - 1) {
            spaces(width(lines, i, n - 1) - cell.len())
        } else {
            Seq::empty()
        })
    }
}

/// The first `n` lines, aligned. There is no newline after the last line of the text.
pub open spec fn aligned_lines(lines: Seq<Seq<Seq<char>>>, n: int) -> Seq<char>
    decreases n,
{
    if n <= 0 {
        Seq::empty()
    } else {
        aligned_lines(lines, n - 1) + aligned_cells(lines, n - 1, lines[n - 1].len() as int) + (
        if n < lines.len() {
            seq!['\n']
        } else {
            Seq::empty()
        })
    }
}

/// The text with its columns aligned.
pub open spec fn aligned(text: Seq<char>) -> Seq<char> {
    aligned_lines(grid(text), grid(text).len() as int)
}

/// The contents of some lines of cells.
spec fn cells(v: Seq<Vec<Vec<char>>>) -> Seq<Seq<Seq<char>>> {
    Seq::new(v.len(), |i: int| texts(v[i]@))
}

/// Whether line `i` has a cell in column `j` that is not its last one.
fn has_padded(lines: &Vec<Vec<Vec<char>>>, i: usize, j: usize) -> (r: bool)
    requires
        j < usize::MAX,
    ensures
        r == padded(cells(lines@), i as int, j as int),
{
    i < lines.len() && j + 1 < lines[i].len()
}

/// The longest cell of the column block that cell `j` of line `i` belongs to.
fn longest_cell(lines: &Vec<Vec<Vec<char>>>, i: usize, j: usize) -> (n: usize)
    requires
        padded(cells(lines@), i as int, j as int),
    ensures
        n + PADDING == width(cells(lines@), i as int, j as int),
        n >= cells(lines@)[i as int][j as int].len(),
{
    let ghost g = cells(lines@);
    assert(lines@[i as int].len() == g[i as int].len());
    let mut longest: usize = 0;
    let mut k: usize = i;
    let mut top = false;
    while !top
        invariant
            g == cells(lines@),
            k <= i < lines.len(),
            j < usize::MAX,
            !top ==> larger(longest as int, longest_above(g, k as int, j as int)) == longest_above(
                g,
                i as int,
                j as int,
            ),
            top ==> longest == longest_above(g, i as int, j as int),
        decreases k + (if top { 0int } else { 1 }),
    {
        if !has_padded(lines, k, j) {
            top = true;
        } else {
            if lines[k][j].len() > longest {
                longest = lines[k][j].len();
            }
            if k == 0 {
                assert(longest_above(g, -1, j as int) == 0);
                top = true;
            } else {
                k = k - 1;
            }
        }
    }
    let ghost above = longest as int;
    let mut m: usize = i;
    while m < lines.len() && has_padded(lines, m, j)
        invariant
            g == cells(lines@),
            i <= m <= lines.len(),
            j < usize::MAX,
            larger(longest as int, longest_below(g, m as int, j as int)) == larger(
                above,
                longest_below(g, i as int, j as int),
            ),
        decreases lines.len() - m,
    {
        if lines[m][j].len() > longest {
            longest = lines[m][j].len();
        }
        m = m + 1;
    }
    assert(longest_below(g, m as int, j as int) == 0);
    longest
}

/// Writes line `i`, padding every cell that is not its last one.
fn write_line(out: &mut String, lines: &Vec<Vec<Vec<char>>>, i: usize)
    requires
        i < lines.len(),
    ensures
        final(out)@ == old(out)@ + aligned_cells(
            cells(lines@),
            i as int,
            cells(lines@)[i as int].len() as int,
        ),
{
    let ghost g = cells(lines@);
    let mut j: usize = 0;
    assert(out@ =~= old(out)@ + aligned_cells(g, i as int, 0));
    while j < lines[i].len()
        invariant
            g == cells(lines@),
            i < lines.len(),
            j <= lines@[i as int].len(),
            out@ == old(out)@ + aligned_cells(g, i as int, j as int),
        decreases lines@[i as int].len() - j,
    {
        let cell = &lines[i][j];
        let ghost before = out@;
        assert(cell@ == g[i as int][j as int]);
        push_slice(out, cell.as_slice(), 0, cell.len());
        assert(cell@.subrange(0, cell@.len() as int) =~= cell@);
        if has_padded(lines, i, j) {
            let w = longest_cell(lines, i, j);
            let mut k: usize = cell.len();
            assert(out@ =~= before + cell@ + spaces(0));
            while k < w
                invariant
                    cell.len() <= k <= w,
                    out@ == before + cell@ + spaces(k - cell.len()),
                decreases w - k,
            {
                push_char(out, ' ');
                k = k + 1;
                assert(out@ =~= before + cell@ + spaces(k - cell.len()));
            }
            push_char(out, ' ');
            push_char(out, ' ');
            assert(out@ =~= before + cell@ + spaces(w + PADDING - cell.len()));
        }
        j = j + 1;
        assert(out@ =~= old(out)@ + aligned_cells(g, i as int, j as int));
    }
}

/// Formats tab-separated text into aligned columns.
pub fn format(text: &str) -> (out: String)
    ensures
        out@ == aligned(text@),
{
    let all = chars_of(text);
    let rows = split_at_char(all.as_slice(), '\n');
    let mut lines: Vec<Vec<Vec<char>>> = Vec::new();
    let mut r: usize = 0;
    let ghost g = grid(text@);
    assert(texts(rows@).len() == g.len());
    while r < rows.len()
        invariant
            r <= rows.len(),
            rows.len() == g.len(),
            g == grid(text@),
            texts(rows@) == split(text@, '\n'),
            cells(lines@) == g.take(r as int),
        decreases rows.len() - r,
    {
        assert(texts(rows@)[r as int] == rows@[r as int]@);
        let ghost before = cells(lines@);
        let line = split_at_char(rows[r].as_slice(), '\t');
        lines.push(line);
        assert(cells(lines@) =~= before.push(texts(line@)));
        r = r + 1;
        assert(cells(lines@) =~= g.take(r as int));
    }
    assert(g.take(r as int) =~= g);
    let mut out = String::new();
    let mut i: usize = 0;
    assert(out@ =~= aligned_lines(g, 0));
    while i < lines.len()
        invariant
            i <= lines.len(),
            cells(lines@) == g,
            out@ == aligned_lines(g, i as int),
        decreases lines.len() - i,
    {
        let ghost before = out@;
        write_line(&mut out, &lines, i);
        i = i + 1;
        if i != lines.len() {
            push_char(&mut out, '\n');
        }
        assert(out@ =~= aligned_lines(g, i as int));
    }
    out
}

/// Text without a tab comes out as it went in.
pub proof fn text_without_tabs_is_unchanged(text: Seq<char>)
    requires
        !text.contains('\t'),
    ensures
        aligned(text) == text,
{
    let lines = split(text, '\n');
    lemma_split_nonempty(text, '\n');
    assert forall|i: int| 0 <= i < lines.len() implies !(#[trigger] lines[i]).contains('\t') by {
        lemma_split_pieces(text, '\n', '\t', i);
    }
    lemma_untabbed(text, lines.len() as int);
    lemma_rejoined(text, '\n');
    assert(lines.take(lines.len() as int) =~= lines);
}

/// A piece holds nothing that the whole does not hold.
proof fn lemma_split_pieces(s: Seq<char>, sep: char, c: char, i: int)
    requires
        !s.contains(c),
        0 <= i < split(s, sep).len(),
    ensures
        !split(s, sep)[i].contains(c),
    decreases s.len(),
{
    if s.len() > 0 {
        let r = split(s.drop_last(), sep);
        lemma_split_nonempty(s.drop_last(), sep);
        assert(!s.drop_last().contains(c)) by {
            if s.drop_last().contains(c) {
                let k = choose|k: int| 0 <= k < s.drop_last().len() && s.drop_last()[k] == c;
                assert(s[k] == c);
            }
        }
        assert(s.last() != c) by {
            assert(s[s.len() - 1] == s.last());
        }
        if i < r.len() {
            lemma_split_pieces(s.drop_last(), sep, c, i);
            if s.last() != sep && i == r.len() - 1 {
                let p = split(s, sep)[i];
                if p.contains(c) {
                    let k = choose|k: int| 0 <= k < p.len() && p[k] == c;
                    assert(r[i][k] == c);
                }
            }
        }
    }
}

/// The pieces with the separator between them, and after each of the first `n` that is not the
/// last one.
spec fn rejoined(pieces: Seq<Seq<char>>, sep: char, n: int) -> Seq<char>
    decreases n,
{
    if n <= 0 {
        Seq::empty()
    } else {
        rejoined(pieces, sep, n - 1) + pieces[n - 1] + (if n < pieces.len() {
            seq![sep]
        } else {
            Seq::empty()
        })
    }
}

proof fn lemma_rejoined_prefix(a: Seq<Seq<char>>, b: Seq<Seq<char>>, sep: char, n: int)
    requires
        0 <= n < a.len(),
        n < b.len(),
        forall|i: int| 0 <= i < n ==> a[i] == b[i],
    ensures
        rejoined(a, sep, n) == rejoined(b, sep, n),
    decreases n,
{
    if n > 0 {
        lemma_rejoined_prefix(a, b, sep, n - 1);
    }
}

/// Splitting and joining again gives back the text.
proof fn lemma_rejoined(s: Seq<char>, sep: char)
    ensures
        rejoined(split(s, sep), sep, split(s, sep).len() as int) == s,
    decreases s.len(),
{
    let p = split(s, sep);
    if s.len() == 0 {
        reveal_with_fuel(rejoined, 2);
        assert(rejoined(p, sep, 1) =~= s);
    } else {
        let r = split(s.drop_last(), sep);
        let m = r.len() as int;
        lemma_split_nonempty(s.drop_last(), sep);
        lemma_rejoined(s.drop_last(), sep);
        lemma_rejoined_prefix(r, p, sep, m - 1);
        assert(s.drop_last().push(s.last()) =~= s);
        if s.last() == sep {
            assert(rejoined(p, sep, m) =~= rejoined(r, sep, m).push(sep));
            assert(rejoined(p, sep, m + 1) =~= s);
        } else {
            assert(rejoined(p, sep, m) =~= rejoined(r, sep, m).push(s.last()));
        }
    }
}

/// Lines of one cell are copied.
proof fn lemma_untabbed(text: Seq<char>, n: int)
    requires
        0 <= n <= split(text, '\n').len(),
        forall|i: int|
            0 <= i < split(text, '\n').len() ==> !(#[trigger] split(text, '\n')[i]).contains('\t'),
    ensures
        aligned_lines(grid(text), n) == rejoined(split(text, '\n'), '\n', n),
    decreases n,
{
    if n > 0 {
        lemma_untabbed(text, n - 1);
        let g = grid(text);
        let line = split(text, '\n')[n - 1];
        lemma_split_whole(line, '\t');
        assert(g[n - 1] == seq![line]);
        reveal_with_fuel(aligned_cells, 2);
        assert(aligned_cells(g, n - 1, 1) =~= line);
    }
}

/// Columns line up: neighbouring lines that both have a cell in a column, which is not their last
/// one, give it the same width, and every cell takes exactly the width of its column. The width leaves
/// two blanks behind the longest cell of the column, and no more.
pub proof fn columns_line_up(lines: Seq<Seq<Seq<char>>>, i: int, j: int) -> (m: int)
    requires
        padded(lines, i, j),
    ensures
        padded(lines, i + 1, j) ==> width(lines, i + 1, j) == width(lines, i, j),
        width(lines, i, j) >= lines[i][j].len() + 2,
        aligned_cells(lines, i, j + 1).len() == aligned_cells(lines, i, j).len() + width(lines, i, j),
        padded(lines, m, j),
        width(lines, m, j) == width(lines, i, j),
        width(lines, m, j) == lines[m][j].len() + 2,
        forall|k: int| (i <= k <= m || m <= k <= i) ==> #[trigger] padded(lines, k, j),
{
    let a = longest_above(lines, i, j);
    let b = longest_below(lines, i, j);
    lemma_next_width(lines, i, j);
    let cell = lines[i][j];
    assert(spaces(width(lines, i, j) - cell.len()).len() == width(lines, i, j) - cell.len());
    if a >= b {
        let m = lemma_found_above(lines, i, j);
        lemma_same_width(lines, m, i, j);
        m
    } else {
        let m = lemma_found_below(lines, i, j);
        lemma_same_width(lines, i, m, j);
        m
    }
}

proof fn lemma_next_width(lines: Seq<Seq<Seq<char>>>, i: int, j: int)
    requires
        padded(lines, i, j),
    ensures
        padded(lines, i + 1, j) ==> width(lines, i + 1, j) == width(lines, i, j),
{
    if padded(lines, i + 1, j) {
        assert(longest_above(lines, i + 1, j) == larger(
            lines[i + 1][j].len() as int,
            longest_above(lines, i, j),
        ));
        assert(longest_below(lines, i, j) == larger(
            lines[i][j].len() as int,
            longest_below(lines, i + 1, j),
        ));
        assert(longest_above(lines, i, j) >= lines[i][j].len());
        assert(longest_below(lines, i + 1, j) >= lines[i + 1][j].len());
    }
}

proof fn lemma_same_width(lines: Seq<Seq<Seq<char>>>, i: int, k: int, j: int)
    requires
        i <= k,
        forall|n: int| i <= n <= k ==> #[trigger] padded(lines, n, j),
    ensures
        width(lines, i, j) == width(lines, k, j),
    decreases k - i,
{
    if i < k {
        assert(padded(lines, k - 1, j) && padded(lines, k, j));
        lemma_same_width(lines, i, k - 1, j);
        lemma_next_width(lines, k - 1, j);
    }
}

proof fn lemma_found_above(lines: Seq<Seq<Seq<char>>>, i: int, j: int) -> (m: int)
    requires
        padded(lines, i, j),
    ensures
        0 <= m <= i,
        lines[m][j].len() == longest_above(lines, i, j),
        forall|n: int| m <= n <= i ==> #[trigger] padded(lines, n, j),
    decreases i,
{
    reveal_with_fuel(longest_above, 2);
    if padded(lines, i - 1, j) && longest_above(lines, i - 1, j) > lines[i][j].len() {
        lemma_found_above(lines, i - 1, j)
    } else {
        i
    }
}

proof fn lemma_found_below(lines: Seq<Seq<Seq<char>>>, i: int, j: int) -> (m: int)
    requires
        padded(lines, i, j),
    ensures
        i <= m < lines.len(),
        lines[m][j].len() == longest_below(lines, i, j),
        forall|n: int| i <= n <= m ==> #[trigger] padded(lines, n, j),
    decreases lines.len() - i,
{
    reveal_with_fuel(longest_below, 2);
    if padded(lines, i + 1, j) && longest_below(lines, i + 1, j) > lines[i][j].len() {
        lemma_found_below(lines, i + 1, j)
    } else {
        i
    }
}

} // verus!
