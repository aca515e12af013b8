//! The records of the counter log: comma-separated lines, in a file whose name may hold a date.
use vstd::prelude::*;
use vstd::string::*;

use crate::cli::quote::{is_white_space, white_space};
use crate::gotime::{rendered, shown_secs, wall_secs, Fields, Time};
use crate::text::{chars_of, push_char, push_signed, signed_decimal, strings, substring};

verus! {

/// Why a record could not be written.
#[derive(Debug, PartialEq, Eq)]
pub enum SnmpLogError {
    /// The file could not be opened.
    Open { path: String, err: String },
    /// The record could not be written.
    Write { path: String, err: String },
}

impl SnmpLogError {
    /// The text of the error.
    pub fn message(&self) -> (s: String)
        ensures
            s@ == (match *self {
                SnmpLogError::Open { path, err } => "open "@ + path@ + ": "@ + err@,
                SnmpLogError::Write { path, err } => "write "@ + path@ + ": "@ + err@,
            }),
    {
        match self {
            SnmpLogError::Open { path, err } => {
                let mut s = "open ".to_owned();
                s.append(path.as_str());
                s.append(": ");
                s.append(err.as_str());
                s
            },
            SnmpLogError::Write { path, err } => {
                let mut s = "write ".to_owned();
                s.append(path.as_str());
                s.append(": ");
                s.append(err.as_str());
                s
            },
        }
    }
}

/// The number of seconds between two records, or none when nothing is logged: without a path, or
/// with an interval that is not positive.
pub fn snmp_period(path: &str, interval: i64) -> (r: Option<u64>)
    ensures
        r is Some <==> path@.len() > 0 && interval > 0,
        r matches Some(n) ==> n == interval,
{
    if path.is_empty() || interval <= 0 {
        None
    } else {
        Some(interval as u64)
    }
}

// ---------------------------------------------------------------------------------------
// The file name
// ---------------------------------------------------------------------------------------
/// Whether a character separates the elements of a path. The backslash does on some systems only.
pub open spec fn is_separator(c: char, backslash: bool) -> bool {
    c == '/' || (backslash && c == '\\')
}

/// Whether a path is split behind its last separator.
pub open spec fn is_split_of(
    dir: Seq<char>,
    file: Seq<char>,
    path: Seq<char>,
    backslash: bool,
) -> bool {
    &&& dir + file == path
    &&& forall|i: int| 0 <= i < file.len() ==> !is_separator(#[trigger] file[i], backslash)
    &&& dir.len() == 0 || is_separator(dir.last(), backslash)
}

/// Splits `path` behind its last separator, so that the two parts make up the path. `backslash` says
/// whether the backslash separates too.
pub fn filepath_split_at(path: &str, backslash: bool) -> (r: (String, String))
    ensures
        is_split_of(r.0@, r.1@, path@, backslash),
{
    let v = chars_of(path);
    let mut i: usize = v.len();
    while i > 0 && !(v[i - 1] == '/' || (backslash && v[i - 1] == '\\'))
        invariant
            i <= v.len(),
            v@ == path@,
            forall|k: int| i <= k < v.len() ==> !is_separator(#[trigger] v@[k], backslash),
        decreases i,
    {
        i = i - 1;
    }
    let dir = substring(v.as_slice(), 0, i);
    let file = substring(v.as_slice(), i, v.len());
    assert(dir@ + file@ =~= path@);
    assert forall|k: int| 0 <= k < file@.len() implies !is_separator(
        #[trigger] file@[k],
        backslash,
    ) by {
        assert(file@[k] == v@[i + k]);
    }
    (dir, file)
}

/// Splits `path` behind its last slash: [`filepath_split_at`] where the backslash is an ordinary
/// character.
pub fn filepath_split(path: &str) -> (r: (String, String))
    ensures
        is_split_of(r.0@, r.1@, path@, false),
{
    filepath_split_at(path, false)
}

/// The name of the file that a record goes to: only the last element of the path is a layout, so a
/// layout token in the name of a directory is left alone. `backslash` says whether the backslash
/// separates too.
pub fn record_path_at(path: &str, now: &Time, backslash: bool) -> (name: String)
    ensures
        exists|dir: Seq<char>, file: Seq<char>, f: Fields| #[trigger]
            is_split_of(dir, file, path@, backslash) && #[trigger] f.is_of(
                shown_secs(wall_secs(now.unix_secs as int, now.offset_secs as int)),
            ) && name@ == dir + rendered(file, f, *now),
{
    let (dir, file) = filepath_split_at(path, backslash);
    let shown = crate::gotime::format(file.as_str(), now);
    let mut name = dir;
    name.append(shown.as_str());
    name
}

/// The name of the file that a record goes to, where the backslash is an ordinary character.
pub fn record_path(path: &str, now: &Time) -> (name: String)
    ensures
        exists|dir: Seq<char>, file: Seq<char>, f: Fields| #[trigger]
            is_split_of(dir, file, path@, false) && #[trigger] f.is_of(
                shown_secs(wall_secs(now.unix_secs as int, now.offset_secs as int)),
            ) && name@ == dir + rendered(file, f, *now),
{
    record_path_at(path, now, false)
}

// ---------------------------------------------------------------------------------------
// The encoder
// ---------------------------------------------------------------------------------------
/// Whether a character ends a field, or the quotes around one.
pub open spec fn is_special(c: char) -> bool {
    c == ',' || c == '"' || c == '\r' || c == '\n'
}

/// Whether a field has to be quoted.
pub open spec fn needs_quotes(field: Seq<char>) -> bool {
    &&& field.len() > 0
    &&& {
        ||| field == seq!['\\', '.']
        ||| exists|i: int| 0 <= i < field.len() && is_special(#[trigger] field[i])
        ||| is_white_space(field[0])
    }
}

/// A text with its quotes doubled.
pub open spec fn doubled(s: Seq<char>) -> Seq<char>
    decreases s.len(),
{
    if s.len() == 0 {
        Seq::empty()
    } else if s.last() == '"' {
        doubled(s.drop_last()).push('"').push('"')
    } else {
        doubled(s.drop_last()).push(s.last())
    }
}

/// A field, as it is written.
pub open spec fn csv_field(field: Seq<char>) -> Seq<char> {
    if needs_quotes(field) {
        seq!['"'] + doubled(field).push('"')
    } else {
        field
    }
}

/// The fields of a record, separated by commas.
pub open spec fn csv_fields(fields: Seq<Seq<char>>) -> Seq<char>
    decreases fields.len(),
{
    if fields.len() == 0 {
        Seq::empty()
    } else if fields.len() == 1 {
        csv_field(fields[0])
    } else {
        csv_fields(fields.drop_last()).push(',') + csv_field(fields.last())
    }
}

/// Whether `field` has to be quoted.
fn field_needs_quotes(field: &[char]) -> (r: bool)
    ensures
        r == needs_quotes(field@),
{
    if field.len() == 0 {
        return false;
    }
    if field.len() == 2 && field[0] == '\\' && field[1] == '.' {
        assert(field@ =~= seq!['\\', '.']);
        return true;
    }
    assert(field@ != seq!['\\', '.']) by {
        if field@ == seq!['\\', '.'] {
            assert(field@[0] == '\\' && field@[1] == '.');
        }
    }
    let mut i: usize = 0;
    while i < field.len()
        invariant
            i <= field.len(),
            forall|k: int| 0 <= k < i ==> !is_special(#[trigger] field@[k]),
        decreases field.len() - i,
    {
        let c = field[i];
        if c == ',' || c == '"' || c == '\r' || c == '\n' {
            assert(is_special(field@[i as int]));
            return true;
        }
        i = i + 1;
    }
    white_space(field[0])
}

/// Appends a field.
fn push_field(out: &mut String, field: &str)
    ensures
        final(out)@ == old(out)@ + csv_field(field@),
{
    let v = chars_of(field);
    if !field_needs_quotes(v.as_slice()) {
        out.append(field);
        return;
    }
    push_char(out, '"');
    let mut i: usize = 0;
    assert(v@.take(0) =~= Seq::<char>::empty());
    assert(out@ =~= old(out)@ + (seq!['"'] + doubled(v@.take(0))));
    while i < v.len()
        invariant
            i <= v.len(),
            out@ == old(out)@ + (seq!['"'] + doubled(v@.take(i as int))),
        decreases v.len() - i,
    {
        assert(v@.take(i + 1).drop_last() =~= v@.take(i as int));
        if v[i] == '"' {
            push_char(out, '"');
        }
        push_char(out, v[i]);
        assert(out@ =~= old(out)@ + (seq!['"'] + doubled(v@.take(i + 1))));
        i = i + 1;
    }
    assert(v@.take(i as int) =~= v@);
    push_char(out, '"');
    assert(out@ =~= old(out)@ + csv_field(field@));
}

/// Appends one record: the fields, separated by commas and quoted where they need it, and a
/// newline.
pub fn write_csv_record(out: &mut String, fields: &Vec<String>)
    ensures
        final(out)@ == old(out)@ + csv_fields(strings(fields@)).push('\n'),
{
    let ghost all = strings(fields@);
    let mut i: usize = 0;
    assert(all.take(0) =~= Seq::<Seq<char>>::empty());
    assert(out@ =~= old(out)@ + csv_fields(all.take(0)));
    while i < fields.len()
        invariant
            i <= fields.len(),
            all == strings(fields@),
            out@ == old(out)@ + csv_fields(all.take(i as int)),
        decreases fields.len() - i,
    {
        if i > 0 {
            push_char(out, ',');
        }
        push_field(out, fields[i].as_str());
        proof {
            assert(all.take(i + 1).drop_last() =~= all.take(i as int));
            assert(all.take(i + 1).last() == fields@[i as int]@);
            assert(out@ =~= old(out)@ + csv_fields(all.take(i + 1)));
        }
        i = i + 1;
    }
    assert(all.take(i as int) =~= all);
    push_char(out, '\n');
    assert(out@ =~= old(out)@ + csv_fields(all).push('\n'));
}

/// What is written for one record: the seconds of the instant and the counters. The names of the
/// columns come first in a file that holds nothing yet.
pub open spec fn record_spec(
    empty: bool,
    header: Seq<Seq<char>>,
    unix_secs: int,
    row: Seq<Seq<char>>,
) -> Seq<char> {
    (if empty {
        csv_fields(seq!["Unix"@] + header).push('\n')
    } else {
        Seq::empty()
    }) + csv_fields(seq![signed_decimal(unix_secs)] + row).push('\n')
}

/// A list with one more string in front.
fn with_first(first: String, rest: &Vec<String>) -> (v: Vec<String>)
    ensures
        strings(v@) == seq![first@] + strings(rest@),
{
    let mut v: Vec<String> = Vec::new();
    v.push(first);
    let mut i: usize = 0;
    assert(strings(v@) =~= seq![first@] + strings(rest@).take(0));
    while i < rest.len()
        invariant
            i <= rest.len(),
            strings(v@) == seq![first@] + strings(rest@).take(i as int),
        decreases rest.len() - i,
    {
        let ghost before = v@;
        v.push(rest[i].clone());
        assert(strings(v@) =~= strings(before).push(rest@[i as int]@));
        assert(strings(v@) =~= seq![first@] + strings(rest@).take(i + 1));
        i = i + 1;
    }
    assert(strings(rest@).take(i as int) =~= strings(rest@));
    v
}

/// What is written for one record.
pub fn record_text(empty: bool, header: &Vec<String>, unix_secs: i64, row: &Vec<String>) -> (s:
    String)
    ensures
        s@ == record_spec(empty, strings(header@), unix_secs as int, strings(row@)),
{
    let mut s = String::new();
    proof {
        reveal_strlit("");
    }
    if empty {
        let names = with_first("Unix".to_owned(), header);
        write_csv_record(&mut s, &names);
    }
    let mut secs = String::new();
    push_signed(&mut secs, unix_secs);
    assert(secs@ =~= signed_decimal(unix_secs as int));
    let values = with_first(secs, row);
    write_csv_record(&mut s, &values);
    assert(s@ =~= record_spec(empty, strings(header@), unix_secs as int, strings(row@)));
    s
}

// ---------------------------------------------------------------------------------------
// Laws
// ---------------------------------------------------------------------------------------
/// A path is split in one way only.
pub proof fn a_path_is_split_in_one_way(
    dir: Seq<char>,
    file: Seq<char>,
    dir2: Seq<char>,
    file2: Seq<char>,
    path: Seq<char>,
    backslash: bool,
)
    requires
        is_split_of(dir, file, path, backslash),
        is_split_of(dir2, file2, path, backslash),
    ensures
        dir == dir2,
        file == file2,
{
    assert(dir.len() + file.len() == path.len());
    assert(dir2.len() + file2.len() == path.len());
    if dir.len() < dir2.len() {
        let k = dir2.len() - 1;
        assert((dir2 + file2)[k] == dir2.last());
        assert((dir + file)[k] == file[k - dir.len()]);
    }
    if dir2.len() < dir.len() {
        let k = dir.len() - 1;
        assert((dir + file)[k] == dir.last());
        assert((dir2 + file2)[k] == file2[k - dir2.len()]);
    }
    assert(dir =~= path.take(dir.len() as int));
    assert(dir2 =~= path.take(dir.len() as int));
    assert(file =~= path.skip(dir.len() as int));
    assert(file2 =~= path.skip(dir.len() as int));
}

/// A text whose doubled quotes are made single again.
pub open spec fn halved(s: Seq<char>) -> Seq<char>
    decreases s.len(),
{
    if s.len() == 0 {
        Seq::empty()
    } else if s.last() == '"' && s.len() >= 2 {
        halved(s.drop_last().drop_last()).push('"')
    } else {
        halved(s.drop_last()).push(s.last())
    }
}

/// The field that a written one stands for.
pub open spec fn csv_value(s: Seq<char>) -> Seq<char> {
    if s.len() >= 2 && s[0] == '"' {
        halved(s.subrange(1, s.len() - 1))
    } else {
        s
    }
}

proof fn lemma_halved(s: Seq<char>)
    ensures
        halved(doubled(s)) == s,
    decreases s.len(),
{
    let d = doubled(s);
    if s.len() > 0 {
        let p = doubled(s.drop_last());
        lemma_halved(s.drop_last());
        assert(s.drop_last().push(s.last()) =~= s);
        if s.last() == '"' {
            assert(d.drop_last().drop_last() =~= p);
        } else {
            assert(d.drop_last() =~= p);
        }
    } else {
        assert(s =~= Seq::<char>::empty());
    }
}

/// A field reads back as it was, and where it is written without quotes it holds nothing that
/// could end it.
pub proof fn a_field_reads_back(field: Seq<char>)
    ensures
        csv_value(csv_field(field)) == field,
        csv_field(field) == field && !needs_quotes(field) ==> forall|i: int|
            0 <= i < field.len() ==> !is_special(#[trigger] field[i]),
{
    let s = csv_field(field);
    if needs_quotes(field) {
        assert(s.subrange(1, s.len() - 1) =~= doubled(field));
        lemma_halved(field);
    } else if field.len() > 0 {
        assert(!is_special(field[0]));
    }
}

/// A record that follows another one is that record alone: only an empty file gets the names of
/// the columns.
pub proof fn the_header_is_written_once(
    header: Seq<Seq<char>>,
    unix_secs: int,
    row: Seq<Seq<char>>,
)
    ensures
        record_spec(true, header, unix_secs, row).len() > 0,
        record_spec(true, header, unix_secs, row) == csv_fields(seq!["Unix"@] + header).push('\n')
            + record_spec(false, header, unix_secs, row),
{
    assert(record_spec(true, header, unix_secs, row) =~= csv_fields(seq!["Unix"@] + header).push(
        '\n',
    ) + record_spec(false, header, unix_secs, row));
}

/// The text of a quoted field, from behind its opening quote, and how many characters it takes with
/// its closing quote: two quotes are one, and one ends it.
pub open spec fn read_quoted(s: Seq<char>) -> (Seq<char>, int)
    decreases s.len(),
{
    if s.len() == 0 {
        (Seq::empty(), 0)
    } else if s[0] == '"' {
        if s.len() > 1 && s[1] == '"' {
            let (t, n) = read_quoted(s.skip(2));
            (seq!['"'] + t, n + 2)
        } else {
            (Seq::empty(), 1)
        }
    } else {
        let (t, n) = read_quoted(s.skip(1));
        (seq![s[0]] + t, n + 1)
    }
}

/// How many characters come before a comma or the end of the line.
pub open spec fn plain_length(s: Seq<char>) -> int
    decreases s.len(),
{
    if s.len() == 0 || s[0] == ',' || s[0] == '\n' {
        0
    } else {
        1 + plain_length(s.skip(1))
    }
}

/// The first field of a line, and how many characters it takes.
pub open spec fn read_field(s: Seq<char>) -> (Seq<char>, int) {
    if s.len() > 0 && s[0] == '"' {
        let (t, n) = read_quoted(s.skip(1));
        (t, n + 1)
    } else {
        (s.take(plain_length(s)), plain_length(s))
    }
}

/// The fields of the first line of a text, and what follows that line.
pub open spec fn read_line(s: Seq<char>) -> (Seq<Seq<char>>, Seq<char>)
    decreases s.len(),
{
    let (t, n) = read_field(s);
    if 0 <= n < s.len() && s[n] == ',' {
        let (more, rest) = read_line(s.skip(n + 1));
        (seq![t] + more, rest)
    } else {
        (seq![t], s.skip(n + 1))
    }
}

proof fn lemma_read_quoted(field: Seq<char>, rest: Seq<char>)
    requires
        rest.len() == 0 || rest[0] != '"',
    ensures
        read_quoted(doubled(field).push('"') + rest) == (field, doubled(field).len() as int + 1),
    decreases field.len(),
{
    let s = doubled(field).push('"') + rest;
    if field.len() == 0 {
        assert(s[0] == '"');
        assert(s.len() > 1 ==> s[1] == rest[0]);
        assert(field =~= Seq::<char>::empty());
    } else {
        let c = field[0];
        let more = field.skip(1);
        lemma_doubled_first(field);
        lemma_read_quoted(more, rest);
        let tail = doubled(more).push('"') + rest;
        if c == '"' {
            assert(s =~= seq!['"', '"'] + tail);
            assert(s.skip(2) =~= tail);
        } else {
            assert(s =~= seq![c] + tail);
            assert(s.skip(1) =~= tail);
        }
        assert(seq![c] + more =~= field);
    }
}

proof fn lemma_doubled_first(s: Seq<char>)
    requires
        s.len() > 0,
    ensures
        doubled(s) == (if s[0] == '"' {
            seq!['"', '"']
        } else {
            seq![s[0]]
        }) + doubled(s.skip(1)),
    decreases s.len(),
{
    let head = if s[0] == '"' {
        seq!['"', '"']
    } else {
        seq![s[0]]
    };
    if s.len() == 1 {
        assert(s.drop_last() =~= Seq::<char>::empty());
        assert(s.skip(1) =~= Seq::<char>::empty());
        assert(doubled(s.drop_last()).len() == 0);
        assert(doubled(s) =~= head + doubled(s.skip(1)));
    } else {
        lemma_doubled_first(s.drop_last());
        assert(s.drop_last().skip(1) =~= s.skip(1).drop_last());
        assert(s.skip(1).last() == s.last());
        assert(doubled(s) =~= head + doubled(s.skip(1)));
    }
}

proof fn lemma_plain_length(s: Seq<char>, n: int)
    requires
        0 <= n < s.len(),
        s[n] == ',' || s[n] == '\n',
        forall|k: int| 0 <= k < n ==> #[trigger] s[k] != ',' && s[k] != '\n',
    ensures
        plain_length(s) == n,
    decreases n,
{
    if n > 0 {
        let t = s.skip(1);
        assert(s[0] != ',' && s[0] != '\n');
        assert forall|k: int| 0 <= k < n - 1 implies #[trigger] t[k] != ',' && t[k] != '\n' by {
            assert(t[k] == s[k + 1]);
        }
        lemma_plain_length(t, n - 1);
    }
}

/// A field is read as it was written, where a comma or the end of the line follows it.
proof fn lemma_read_field(field: Seq<char>, rest: Seq<char>)
    requires
        rest.len() > 0,
        rest[0] == ',' || rest[0] == '\n',
    ensures
        read_field(csv_field(field) + rest) == (field, csv_field(field).len() as int),
{
    let w = csv_field(field);
    let s = w + rest;
    if needs_quotes(field) {
        assert(s.skip(1) =~= doubled(field).push('"') + rest);
        lemma_read_quoted(field, rest);
    } else {
        let n = field.len() as int;
        assert forall|k: int| 0 <= k < n implies #[trigger] s[k] != ',' && s[k] != '\n' && s[k] != '"' by {
            assert(!is_special(field[k]));
        }
        assert(s[n] == rest[0]);
        lemma_plain_length(s, n);
        assert(s.take(n) =~= field);
    }
}

proof fn lemma_fields_first(fields: Seq<Seq<char>>)
    requires
        fields.len() >= 2,
    ensures
        csv_fields(fields) == csv_field(fields[0]).push(',') + csv_fields(fields.skip(1)),
    decreases fields.len(),
{
    let more = fields.skip(1);
    if fields.len() == 2 {
        assert(csv_fields(fields.drop_last()) == csv_field(fields[0]));
        assert(more[0] == fields.last());
        assert(csv_fields(more) == csv_field(fields.last()));
        assert(csv_fields(fields) =~= csv_field(fields[0]).push(',') + csv_fields(more));
    } else {
        lemma_fields_first(fields.drop_last());
        assert(fields.drop_last().skip(1) =~= more.drop_last());
        assert(more.last() == fields.last());
        assert(csv_fields(more) == csv_fields(more.drop_last()).push(',') + csv_field(more.last()));
        assert(csv_fields(fields) =~= csv_field(fields[0]).push(',') + csv_fields(more));
    }
}

/// A record is read back field by field, whatever the fields hold and whatever follows the record:
/// commas, quotes and line feeds inside a field do not end it.
pub proof fn a_record_reads_back(fields: Seq<Seq<char>>, rest: Seq<char>)
    requires
        fields.len() > 0,
    ensures
        read_line(csv_fields(fields).push('\n') + rest) == (fields, rest),
    decreases fields.len(),
{
    let s = csv_fields(fields).push('\n') + rest;
    let w = csv_field(fields[0]);
    let n = w.len() as int;
    if fields.len() == 1 {
        let tail = seq!['\n'] + rest;
        assert(s =~= w + tail);
        lemma_read_field(fields[0], tail);
        assert(s[n] == '\n');
        assert(s.skip(n + 1) =~= rest);
        assert(seq![fields[0]] =~= fields);
    } else {
        let more = fields.skip(1);
        lemma_fields_first(fields);
        let after = csv_fields(more).push('\n') + rest;
        let tail = seq![','] + after;
        assert(s =~= w + tail);
        lemma_read_field(fields[0], tail);
        assert(s[n] == ',');
        assert(s.skip(n + 1) =~= after);
        a_record_reads_back(more, rest);
        assert(seq![fields[0]] + more =~= fields);
    }
}

/// What is written for an instant is a record of its seconds and the counters, and in an empty file one
/// of the names of the columns before it; both read back.
pub proof fn a_written_record_reads_back(
    empty: bool,
    header: &Vec<String>,
    unix_secs: i64,
    row: &Vec<String>,
    s: String,
)
    requires
        call_ensures(record_text, (empty, header, unix_secs, row), s),
    ensures
        ({
            let values = seq![signed_decimal(unix_secs as int)] + strings(row@);
            let names = seq![seq!['U', 'n', 'i', 'x']] + strings(header@);
            &&& !empty ==> read_line(s@) == (values, Seq::<char>::empty())
            &&& empty ==> read_line(s@).0 == names && read_line(read_line(s@).1) == (
                values,
                Seq::<char>::empty(),
            )
        }),
{
    let values = seq![signed_decimal(unix_secs as int)] + strings(row@);
    let names = seq![seq!['U', 'n', 'i', 'x']] + strings(header@);
    let none = Seq::<char>::empty();
    reveal_strlit("Unix");
    assert("Unix"@ =~= seq!['U', 'n', 'i', 'x']);
    let line = csv_fields(values).push('\n');
    a_record_reads_back(values, none);
    assert(line + none =~= line);
    if empty {
        a_record_reads_back(names, line);
    } else {
        assert(s@ =~= line);
    }
}

/// Which fields are quoted: those that hold a comma, a quote, a carriage return or a line feed, those
/// that begin with white space, and the one that is a backslash and a point. Any other is written as
/// it is.
pub proof fn which_fields_are_quoted(field: Seq<char>)
    ensures
        ({
            let v = field[0] as u32;
            let blank = 0x9 <= v <= 0xd || v == 0x20 || v == 0x85 || v == 0xa0 || v == 0x1680 || 0x2000
                <= v <= 0x200a || v == 0x2028 || v == 0x2029 || v == 0x202f || v == 0x205f || v
                == 0x3000;
            let quoted = field.len() > 0 && (blank || field.contains(',') || field.contains('"')
                || field.contains('\r') || field.contains('\n') || field == seq!['\\', '.']);
            &&& quoted ==> csv_field(field)[0] == '"' && csv_field(field).last() == '"' && csv_field(
                field,
            ).len() >= field.len() + 2
            &&& !quoted ==> csv_field(field) == field
        }),
{
    lemma_doubled_length(field);
    if needs_quotes(field) {
        if exists|i: int| 0 <= i < field.len() && is_special(#[trigger] field[i]) {
            let i = choose|i: int| 0 <= i < field.len() && is_special(#[trigger] field[i]);
            assert(field.contains(field[i]));
        }
    } else if field.len() > 0 {
        assert forall|i: int| 0 <= i < field.len() implies !is_special(#[trigger] field[i]) by {}
    }
}

proof fn lemma_doubled_length(s: Seq<char>)
    ensures
        doubled(s).len() >= s.len(),
    decreases s.len(),
{
    if s.len() > 0 {
        lemma_doubled_length(s.drop_last());
    }
}

/// Only the last element of a path is a layout: the directories in front of it stay as they are, and
/// the file is shown for the instant.
pub proof fn only_the_file_name_is_a_layout(
    path: &str,
    dir: Seq<char>,
    file: Seq<char>,
    now: &Time,
    f: Fields,
    name: String,
)
    requires
        !file.contains('/'),
        path@ == dir.push('/') + file,
        f.is_of(shown_secs(wall_secs(now.unix_secs as int, now.offset_secs as int))),
        call_ensures(record_path, (path, now), name),
    ensures
        name@ == dir.push('/') + rendered(file, f, *now),
{
    let secs = shown_secs(wall_secs(now.unix_secs as int, now.offset_secs as int));
    let (d, e, g) = choose|d: Seq<char>, e: Seq<char>, g: Fields| #[trigger]
        is_split_of(d, e, path@, false) && #[trigger] g.is_of(secs) && name@ == d + rendered(
            e,
            g,
            *now,
        );
    crate::gotime::fields_are_unique(f, g, secs);
    assert(is_split_of(dir.push('/'), file, path@, false)) by {
        assert forall|i: int| 0 <= i < file.len() implies !is_separator(#[trigger] file[i], false) by {
            assert(file.contains(file[i]));
        }
    }
    a_path_is_split_in_one_way(dir.push('/'), file, d, e, path@, false);
}

/// Records are written only to a file that is named, and at an interval of at least a second.
pub proof fn when_records_are_written(path: &str, interval: i64, r: Option<u64>)
    requires
        call_ensures(snmp_period, (path, interval), r),
    ensures
        r is Some <==> path@.len() > 0 && interval >= 1,
        r matches Some(n) ==> n == interval,
{
}

} // verus!
