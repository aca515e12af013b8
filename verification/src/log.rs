//! Log lines: the header, the message and its newline, and the red warnings.
//!
//! A line starts with the parts of the header that the flags ask for (prefix, date, time, file and
//! line) and ends with a newline, which is added only where the line lacks one.
use chrono::{Offset, TimeZone};
use vstd::prelude::*;
use vstd::string::*;

use crate::gotime::{
    append_int, calendar_or_epoch, int_text, local_now, shown_secs, wall_clock, wall_secs, Fields,
};
use crate::gotime::shown::a_shown_number_reads_back;
use crate::text::{
    chars_of, digits_value, joined_by, push_char, str_eq, strings, substring,
};
use crate::version::{is_selfbuild_version, SELFBUILD, VERSION};

verus! {

// ---------------------------------------------------------------------------------------
// Flags
// ---------------------------------------------------------------------------------------
/// `2009/01/23`: the date in the local time zone.
pub const LDATE: u32 = 1;

/// `01:23:23`: the time in the local time zone.
pub const LTIME: u32 = 2;

/// `01:23:23.123123`: microsecond resolution. Assumes [`LTIME`].
pub const LMICROSECONDS: u32 = 4;

/// `/a/b/c/d.rs:23`: the full file name and the line number.
pub const LLONGFILE: u32 = 8;

/// `d.rs:23`: the final file name element and the line number; overrides [`LLONGFILE`].
pub const LSHORTFILE: u32 = 16;

/// Use UTC rather than the local time zone for [`LDATE`] and [`LTIME`].
pub const LUTC: u32 = 32;

/// Move the prefix from the start of the line to just before the message.
pub const LMSGPREFIX: u32 = 64;

/// Date and time, no file or line.
pub const LSTD_FLAGS: u32 = 3;

/// Exit status after a fatal message.
pub const EXIT_FATAL: i32 = 1;

/// Exit status after an error that was checked for.
pub const EXIT_CHECK_ERROR: i32 = 255;

/// The flags that a program of a version starts with: date and time, and for an unstamped build the
/// file and line of each message.
pub open spec fn first_flags(version: Seq<char>) -> int {
    if version == SELFBUILD@ {
        LSTD_FLAGS + LSHORTFILE
    } else {
        LSTD_FLAGS as int
    }
}

/// The flags that a program of the given version starts with.
pub fn flags_for_version(version: &str) -> (flag: u32)
    ensures
        flag == first_flags(version@),
{
    if is_selfbuild_version(version) {
        LSTD_FLAGS + LSHORTFILE
    } else {
        LSTD_FLAGS
    }
}

/// The flags that a program of this version starts with.
pub fn default_flags() -> (flag: u32)
    ensures
        flag == first_flags(VERSION@),
{
    flags_for_version(VERSION)
}

// ---------------------------------------------------------------------------------------
// The instant a line is stamped with
// ---------------------------------------------------------------------------------------
/// An instant, and the local zone's offset at that instant so that [`LUTC`] can still undo it.
#[derive(Debug, Clone, Copy, PartialEq, Eq)]
pub struct Time {
    /// Seconds since the unix epoch.
    pub unix_secs: i64,
    /// Nanoseconds within the second, `0..1_000_000_000`.
    pub nanos: u32,
    /// Seconds the local zone is ahead of UTC at this instant.
    pub offset_secs: i32,
}

/// `chrono::TimeZone::timestamp_opt` of `chrono::Local`: the offset of the machine's zone at an
/// instant, or none where the calendar does not hold it. Nothing is said of which offset it is:
/// that is the machine's setting. It is always less than a day. (A machine that is set to a zone
/// further away than that makes `chrono` panic; there is no such zone.)
#[verifier::external_body]
fn local_offset(unix_secs: i64) -> (r: Option<i32>)
    ensures
        r is Some ==> -86400 < r->0 < 86400,
{
    match chrono::Local.timestamp_opt(unix_secs, 0) {
        chrono::offset::LocalResult::Single(t) => Some(t.offset().fix().local_minus_utc()),
        chrono::offset::LocalResult::Ambiguous(t, _) => Some(t.offset().fix().local_minus_utc()),
        chrono::offset::LocalResult::None => None,
    }
}

impl Time {
    /// The seconds whose calendar fields are shown: in UTC when the flags ask for it, and in the
    /// local zone otherwise.
    pub open spec fn secs_shown(self, flag: u32) -> int {
        shown_secs(
            if flag & LUTC != 0 {
                self.unix_secs as int
            } else {
                wall_secs(self.unix_secs as int, self.offset_secs as int)
            },
        )
    }

    /// The current instant in the local time zone.
    pub fn now() -> (t: Time)
        ensures
            t.nanos < 2_000_000_000,
            -86400 < t.offset_secs < 86400,
    {
        let (unix_secs, nanos, offset_secs) = local_now();
        Time { unix_secs, nanos, offset_secs }
    }

    /// A fixed instant, with the local zone's offset at that instant, so that historical dates and
    /// daylight-saving changes are shown as they were.
    pub fn at_local(unix_secs: i64, nanos: u32) -> (t: Time)
        ensures
            t.unix_secs == unix_secs,
            t.nanos == nanos,
            -86400 < t.offset_secs < 86400,
    {
        let offset_secs: i32 = match local_offset(unix_secs) {
            Some(o) => o,
            None => 0,
        };
        Time { unix_secs, nanos, offset_secs }
    }

    /// The broken-down calendar fields, in UTC or in the local zone as the flags ask.
    /// An instant outside the calendar is shown as the epoch: a logger never takes the process
    /// down.
    fn fields(&self, flag: u32) -> (f: Fields)
        ensures
            f.is_of(self.secs_shown(flag)),
    {
        let secs: i64 = if flag & LUTC != 0 {
            self.unix_secs
        } else {
            wall_clock(self.unix_secs, self.offset_secs)
        };
        calendar_or_epoch(secs)
    }
}

// ---------------------------------------------------------------------------------------
// Header
// ---------------------------------------------------------------------------------------
/// A width as it counts: a negative one asks for no padding.
pub open spec fn padding(wid: int) -> int {
    if wid < 0 {
        0
    } else {
        wid
    }
}

/// Appends `i`, zero-padded to at least `wid` digits; a negative width asks for no padding.
pub fn itoa(buf: &mut String, i: u32, wid: i32)
    ensures
        final(buf)@ == old(buf)@ + int_text(i as int, padding(wid as int)),
{
    let width: usize = if wid < 0 {
        0
    } else {
        wid as usize
    };
    append_int(buf, i as i64, width);
}

/// The position of the last `/`, or -1.
pub open spec fn last_slash(s: Seq<char>) -> int
    decreases s.len(),
{
    if s.len() == 0 || s.last() == '/' {
        s.len() - 1
    } else {
        last_slash(s.drop_last())
    }
}

/// The file name that [`LSHORTFILE`] shows: what follows the last `/`, except that one at the very
/// start is never looked at, so that `/main.rs` keeps it.
pub open spec fn short_name(file: Seq<char>) -> Seq<char> {
    if last_slash(file) > 0 {
        file.skip(last_slash(file) + 1)
    } else {
        file
    }
}

/// The file name that [`LSHORTFILE`] shows.
pub fn short_file(file: &str) -> (s: String)
    ensures
        s@ == short_name(file@),
{
    let v = chars_of(file);
    let mut i: usize = v.len();
    assert(v@.take(i as int) =~= file@);
    while i > 1
        invariant
            v@ == file@,
            i <= v.len(),
            last_slash(file@) == last_slash(file@.take(i as int)),
        decreases i,
    {
        if v[i - 1] == '/' {
            assert(last_slash(file@) == i - 1);
            assert(file@.skip(i as int) =~= file@.subrange(i as int, v.len() as int));
            return substring(v.as_slice(), i, v.len());
        }
        assert(file@.take(i as int).drop_last() =~= file@.take(i - 1));
        i = i - 1;
    }
    proof {
        reveal_with_fuel(last_slash, 2);
    }
    file.to_owned()
}

/// The date, as a line shows it.
pub open spec fn date_text(f: Fields) -> Seq<char> {
    int_text(
        if f.year < 0 {
            0
        } else {
            f.year as int
        },
        4,
    ).push('/') + int_text(f.month as int, 2).push('/') + int_text(f.day as int, 2).push(' ')
}

/// The time of day, as a line shows it.
pub open spec fn clock_text(f: Fields, nanos: int, micros: bool) -> Seq<char> {
    (int_text(f.hour as int, 2).push(':') + int_text(f.minute as int, 2).push(':') + int_text(
        f.second as int,
        2,
    ) + (if micros {
        seq!['.'] + int_text(nanos / 1000, 6)
    } else {
        Seq::empty()
    })).push(' ')
}

/// The file and line, as a line shows them.
pub open spec fn site_text(flag: u32, file: Seq<char>, line: int) -> Seq<char> {
    (if flag & LSHORTFILE != 0 {
        short_name(file)
    } else {
        file
    }).push(':') + int_text(line, 0) + ": "@
}

/// The header of a line, given the calendar fields of its instant.
pub open spec fn header_text(
    f: Fields,
    nanos: int,
    prefix: Seq<char>,
    flag: u32,
    file: Seq<char>,
    line: int,
) -> Seq<char> {
    let none = Seq::<char>::empty();
    (if flag & LMSGPREFIX == 0 {
        prefix
    } else {
        none
    }) + (if flag & LDATE != 0 {
        date_text(f)
    } else {
        none
    }) + (if flag & LTIME != 0 || flag & LMICROSECONDS != 0 {
        clock_text(f, nanos, flag & LMICROSECONDS != 0)
    } else {
        none
    }) + (if flag & LSHORTFILE != 0 || flag & LLONGFILE != 0 {
        site_text(flag, file, line)
    } else {
        none
    }) + (if flag & LMSGPREFIX != 0 {
        prefix
    } else {
        none
    })
}

/// Appends the date.
fn push_date(buf: &mut String, f: &Fields)
    ensures
        final(buf)@ == old(buf)@ + date_text(*f),
{
    let year: u32 = if f.year < 0 {
        0
    } else {
        f.year as u32
    };
    itoa(buf, year, 4);
    push_char(buf, '/');
    itoa(buf, f.month, 2);
    push_char(buf, '/');
    itoa(buf, f.day, 2);
    push_char(buf, ' ');
    assert(buf@ =~= old(buf)@ + date_text(*f));
}

/// Appends the time of day.
fn push_clock(buf: &mut String, f: &Fields, nanos: u32, micros: bool)
    ensures
        final(buf)@ == old(buf)@ + clock_text(*f, nanos as int, micros),
{
    itoa(buf, f.hour, 2);
    push_char(buf, ':');
    itoa(buf, f.minute, 2);
    push_char(buf, ':');
    itoa(buf, f.second, 2);
    if micros {
        push_char(buf, '.');
        itoa(buf, nanos / 1000, 6);
    }
    push_char(buf, ' ');
    assert(buf@ =~= old(buf)@ + clock_text(*f, nanos as int, micros));
}

/// Appends the file and line.
fn push_site(buf: &mut String, flag: u32, file: &str, line: u32)
    ensures
        final(buf)@ == old(buf)@ + site_text(flag, file@, line as int),
{
    if flag & LSHORTFILE != 0 {
        let name = short_file(file);
        buf.append(name.as_str());
    } else {
        buf.append(file);
    }
    push_char(buf, ':');
    itoa(buf, line, -1);
    buf.append(": ");
    assert(buf@ =~= old(buf)@ + site_text(flag, file@, line as int));
}

/// Appends the header: prefix, date, time, file and line, in this order.
pub fn format_header(buf: &mut String, t: Time, prefix: &str, flag: u32, file: &str, line: u32)
    ensures
        exists|f: Fields| #[trigger]
            f.is_of(t.secs_shown(flag)) && final(buf)@ == old(buf)@ + header_text(
                f,
                t.nanos as int,
                prefix@,
                flag,
                file@,
                line as int,
            ),
{
    let f = t.fields(flag);
    if flag & LMSGPREFIX == 0 {
        buf.append(prefix);
    }
    if flag & LDATE != 0 {
        push_date(buf, &f);
    }
    if flag & LTIME != 0 || flag & LMICROSECONDS != 0 {
        push_clock(buf, &f, t.nanos, flag & LMICROSECONDS != 0);
    }
    if flag & LSHORTFILE != 0 || flag & LLONGFILE != 0 {
        push_site(buf, flag, file, line);
    }
    if flag & LMSGPREFIX != 0 {
        buf.append(prefix);
    }
    assert(buf@ =~= old(buf)@ + header_text(
        f,
        t.nanos as int,
        prefix@,
        flag,
        file@,
        line as int,
    ));
}

// ---------------------------------------------------------------------------------------
// Lines
// ---------------------------------------------------------------------------------------
/// A text with a newline at its end, which is added only where it lacks one.
pub open spec fn ended(s: Seq<char>) -> Seq<char> {
    if s.len() > 0 && s.last() == '\n' {
        s
    } else {
        s.push('\n')
    }
}

/// Appends a newline where the text lacks one.
fn end_line(buf: &mut String)
    ensures
        final(buf)@ == ended(old(buf)@),
{
    let v = chars_of(buf.as_str());
    if v.len() == 0 || v[v.len() - 1] != '\n' {
        push_char(buf, '\n');
    }
}

/// The settings of a logger: what stands in front of its lines. Where the lines go is the
/// program's.
#[derive(Debug, Clone, PartialEq, Eq)]
pub struct Logger {
    pub prefix: String,
    pub flag: u32,
}

impl Default for Logger {
    fn default() -> (l: Self)
        ensures
            l.prefix@.len() == 0,
            l.flag == first_flags(VERSION@),
    {
        Logger::for_version(VERSION)
    }
}

impl Logger {
    /// The logger that a program of the given version starts with.
    pub fn for_version(version: &str) -> (l: Logger)
        ensures
            l.prefix@.len() == 0,
            l.flag == first_flags(version@),
    {
        Logger { prefix: String::new(), flag: flags_for_version(version) }
    }

    /// The flags.
    pub fn flags(&self) -> (flag: u32)
        ensures
            flag == self.flag,
    {
        self.flag
    }

    /// Sets the flags.
    pub fn set_flags(&mut self, flag: u32)
        ensures
            final(self).flag == flag,
            final(self).prefix == old(self).prefix,
    {
        self.flag = flag;
    }

    /// The prefix.
    pub fn prefix(&self) -> (s: String)
        ensures
            s@ == self.prefix@,
    {
        self.prefix.clone()
    }

    /// Sets the prefix.
    pub fn set_prefix(&mut self, prefix: &str)
        ensures
            final(self).prefix@ == prefix@,
            final(self).flag == old(self).flag,
    {
        self.prefix = prefix.to_owned();
    }

    /// One log line: the header, the message, and a newline when the line lacks one.
    pub fn output(&self, now: Time, file: &str, line: u32, msg: &str) -> (s: String)
        ensures
            exists|f: Fields| #[trigger]
                f.is_of(now.secs_shown(self.flag)) && s@ == ended(
                    header_text(
                        f,
                        now.nanos as int,
                        self.prefix@,
                        self.flag,
                        file@,
                        line as int,
                    ) + msg@,
                ),
    {
        let mut buf = String::new();
        format_header(&mut buf, now, self.prefix.as_str(), self.flag, file, line);
        buf.append(msg);
        end_line(&mut buf);
        buf
    }
}

/// Some texts with a space between each two of them.
pub open spec fn spaced(v: Seq<Seq<char>>) -> Seq<char>
    decreases v.len(),
{
    if v.len() == 0 {
        Seq::empty()
    } else if v.len() == 1 {
        v[0]
    } else {
        spaced(v.drop_last()).push(' ') + v.last()
    }
}

/// The message for some operands: separated by single spaces, with a newline appended.
pub fn println_message(operands: &Vec<String>) -> (s: String)
    ensures
        s@ == spaced(strings(operands@)).push('\n'),
{
    let mut msg = String::new();
    let mut i: usize = 0;
    assert(strings(operands@).take(0) =~= Seq::<Seq<char>>::empty());
    proof {
        reveal_strlit("");
    }
    while i < operands.len()
        invariant
            i <= operands.len(),
            msg@ == spaced(strings(operands@).take(i as int)),
        decreases operands.len() - i,
    {
        let ghost t = strings(operands@).take(i + 1);
        if i > 0 {
            push_char(&mut msg, ' ');
        }
        msg.append(operands[i].as_str());
        proof {
            assert(t.drop_last() =~= strings(operands@).take(i as int));
            assert(t.last() == operands@[i as int]@);
            assert(msg@ =~= spaced(t));
        }
        i = i + 1;
    }
    assert(strings(operands@).take(i as int) =~= strings(operands@));
    push_char(&mut msg, '\n');
    msg
}

/// The message for an error that ends the program: its text and a newline.
pub fn check_error_message(err: &str) -> (s: String)
    ensures
        s@ == err@.push('\n'),
{
    let mut s = err.to_owned();
    push_char(&mut s, '\n');
    s
}

/// The log file could not be opened.
#[derive(Debug, PartialEq, Eq)]
pub struct LogFileError {
    /// The path as it was given on the command line.
    pub path: String,
    /// The operating system's message.
    pub err: String,
}

impl LogFileError {
    /// The text of the error.
    pub fn message(&self) -> (s: String)
        ensures
            s@ == "open "@ + self.path@ + ": "@ + self.err@,
    {
        let mut s = "open ".to_owned();
        s.append(self.path.as_str());
        s.append(": ");
        s.append(self.err.as_str());
        s
    }
}

// ---------------------------------------------------------------------------------------
// Red warnings
// ---------------------------------------------------------------------------------------
/// Decides whether colour is off from the `NO_COLOR` and `TERM` variables and whether standard
/// output is a terminal.
pub fn no_color_from(no_color_env: Option<&str>, term_env: Option<&str>, stdout_is_tty: bool) -> (r:
    bool)
    ensures
        r == ((no_color_env matches Some(v) && v@.len() > 0) || (term_env matches Some(t) && t@
            == "dumb"@) || !stdout_is_tty),
{
    if let Some(v) = no_color_env {
        if !v.is_empty() {
            return true;
        }
    }
    if let Some(t) = term_env {
        if str_eq(t, "dumb") {
            return true;
        }
    }
    !stdout_is_tty
}

/// The red escape sequence.
pub open spec fn red() -> Seq<char> {
    seq!['\x1b', '[', '3', '1', 'm']
}

/// The escape sequence that ends a colour.
pub open spec fn reset() -> Seq<char> {
    seq!['\x1b', '[', '0', 'm']
}

/// The text of a red warning: the newline is appended to the message before the colour wraps it,
/// so the reset follows the newline.
pub fn color_red_bytes(msg: &str, no_color: bool) -> (s: String)
    ensures
        s@ == (if no_color {
            ended(msg@)
        } else {
            red() + ended(msg@) + reset()
        }),
{
    let mut text = msg.to_owned();
    end_line(&mut text);
    if no_color {
        return text;
    }
    let mut s = String::new();
    push_char(&mut s, '\x1b');
    s.append("[31m");
    s.append(text.as_str());
    push_char(&mut s, '\x1b');
    s.append("[0m");
    proof {
        reveal_strlit("");
        reveal_strlit("[31m");
        reveal_strlit("[0m");
        assert(s@ =~= red() + ended(msg@) + reset());
    }
    s
}

// ---------------------------------------------------------------------------------------
// Laws
// ---------------------------------------------------------------------------------------
/// Every line ends with a newline, and a text that already ended with one is not changed.
pub proof fn a_line_ends_with_one_added_newline(s: Seq<char>)
    ensures
        ended(s).len() > 0,
        ended(s).last() == '\n',
        ended(ended(s)) == ended(s),
        ended(s) == s || ended(s) == s.push('\n'),
{
}

/// Without flags and without a prefix a line is the message alone.
pub proof fn no_flags_show_no_header(
    f: Fields,
    nanos: int,
    file: Seq<char>,
    line: int,
    msg: Seq<char>,
)
    ensures
        ended(header_text(f, nanos, Seq::empty(), 0, file, line) + msg) == ended(msg),
{
    assert(0u32 & LMSGPREFIX == 0 && 0u32 & LDATE == 0 && 0u32 & LTIME == 0 && 0u32
        & LMICROSECONDS == 0 && 0u32 & LSHORTFILE == 0 && 0u32 & LLONGFILE == 0) by {
        assert(forall|x: u32| 0u32 & x == 0u32) by (bit_vector);
    }
    assert(header_text(f, nanos, Seq::empty(), 0, file, line) + msg =~= msg);
}

/// The instant of a line decides its header: two sets of calendar fields of the same instant give
/// the same text.
pub proof fn the_header_is_unique(
    f: Fields,
    g: Fields,
    t: Time,
    prefix: Seq<char>,
    flag: u32,
    file: Seq<char>,
    line: int,
)
    requires
        f.is_of(t.secs_shown(flag)),
        g.is_of(t.secs_shown(flag)),
    ensures
        header_text(f, t.nanos as int, prefix, flag, file, line) == header_text(
            g,
            t.nanos as int,
            prefix,
            flag,
            file,
            line,
        ),
{
    crate::gotime::fields_are_unique(f, g, t.secs_shown(flag));
}

/// What [`LSHORTFILE`] shows of a path is its last element.
pub proof fn the_last_element_is_shown(dir: Seq<char>, name: Seq<char>)
    requires
        dir.len() > 0,
        !name.contains('/'),
    ensures
        short_name(dir.push('/') + name) == name,
    decreases name.len(),
{
    let s = dir.push('/') + name;
    lemma_last_slash(dir, name);
    assert(s.skip(dir.len() as int + 1) =~= name);
}

proof fn lemma_last_slash(dir: Seq<char>, name: Seq<char>)
    requires
        !name.contains('/'),
    ensures
        last_slash(dir.push('/') + name) == dir.len(),
    decreases name.len(),
{
    let s = dir.push('/') + name;
    if name.len() == 0 {
        assert(s.last() == '/');
    } else {
        assert(name[name.len() - 1] != '/');
        assert(s.drop_last() =~= dir.push('/') + name.drop_last());
        assert(!name.drop_last().contains('/')) by {
            if name.drop_last().contains('/') {
                let k = choose|k: int|
                    0 <= k < name.drop_last().len() && name.drop_last()[k] == '/';
                assert(name[k] == '/');
            }
        }
        lemma_last_slash(dir, name.drop_last());
    }
}

/// A date is shown as four digits of the year, two of the month and two of the day, with slashes in
/// between and a blank behind, and reads back.
pub proof fn a_shown_date_reads_back(f: Fields, secs: int)
    requires
        f.is_of(secs),
        0 <= f.year <= 9999,
    ensures
        ({
            let s = date_text(f);
            &&& s.len() == 11
            &&& s[4] == '/' && s[7] == '/' && s[10] == ' '
            &&& digits_value(s.subrange(0, 4)) == Some(f.year as nat)
            &&& digits_value(s.subrange(5, 7)) == Some(f.month as nat)
            &&& digits_value(s.subrange(8, 10)) == Some(f.day as nat)
        }),
{
    a_shown_number_reads_back(f.year as int, 4);
    a_shown_number_reads_back(f.month as int, 2);
    a_shown_number_reads_back(f.day as int, 2);
    let s = date_text(f);
    assert(s.subrange(0, 4) =~= int_text(f.year as int, 4));
    assert(s.subrange(5, 7) =~= int_text(f.month as int, 2));
    assert(s.subrange(8, 10) =~= int_text(f.day as int, 2));
}

/// A time of day is shown as two digits each of the hour, the minute and the second, with colons in
/// between and a blank behind, and reads back; with microseconds, six digits of them come behind a
/// point.
pub proof fn a_shown_time_reads_back(f: Fields, secs: int, nanos: int, micros: bool)
    requires
        f.is_of(secs),
        0 <= nanos < 1_000_000_000,
    ensures
        ({
            let s = clock_text(f, nanos, micros);
            &&& s.len() == (if micros {
                16int
            } else {
                9int
            })
            &&& s[2] == ':' && s[5] == ':' && s.last() == ' '
            &&& digits_value(s.subrange(0, 2)) == Some(f.hour as nat)
            &&& digits_value(s.subrange(3, 5)) == Some(f.minute as nat)
            &&& digits_value(s.subrange(6, 8)) == Some(f.second as nat)
            &&& micros ==> s[8] == '.' && digits_value(s.subrange(9, 15)) == Some(
                (nanos / 1000) as nat,
            )
        }),
{
    a_shown_number_reads_back(f.hour as int, 2);
    a_shown_number_reads_back(f.minute as int, 2);
    a_shown_number_reads_back(f.second as int, 2);
    a_shown_number_reads_back(nanos / 1000, 6);
    let s = clock_text(f, nanos, micros);
    assert(s.subrange(0, 2) =~= int_text(f.hour as int, 2));
    assert(s.subrange(3, 5) =~= int_text(f.minute as int, 2));
    assert(s.subrange(6, 8) =~= int_text(f.second as int, 2));
    if micros {
        assert(s.subrange(9, 15) =~= int_text(nanos / 1000, 6));
    }
}

/// Each flag adds one part to a header and leaves the others alone. The flags are the binary digits
/// of a number, from the lowest: the date, the time, the microseconds, the file with its path, the
/// file without it, UTC, and the prefix behind all of them in place of in front.
pub proof fn every_flag_adds_its_part(
    f: Fields,
    nanos: int,
    prefix: Seq<char>,
    flag: u32,
    file: Seq<char>,
    line: int,
)
    ensures
        ({
            let none = Seq::<char>::empty();
            let bit = |n: int| (flag as int / n) % 2 == 1;
            header_text(f, nanos, prefix, flag, file, line) == (if bit(64) {
                none
            } else {
                prefix
            }) + (if bit(1) {
                date_text(f)
            } else {
                none
            }) + (if bit(2) || bit(4) {
                clock_text(f, nanos, bit(4))
            } else {
                none
            }) + (if bit(16) {
                short_name(file).push(':') + int_text(line, 0) + seq![':', ' ']
            } else if bit(8) {
                file.push(':') + int_text(line, 0) + seq![':', ' ']
            } else {
                none
            }) + (if bit(64) {
                prefix
            } else {
                none
            })
        }),
{
    lemma_bits(flag);
    reveal_strlit(": ");
    assert(": "@ =~= seq![':', ' ']);
}

proof fn lemma_bits(flag: u32)
    ensures
        (flag & LDATE != 0) == (flag as int % 2 == 1),
        (flag & LTIME != 0) == ((flag as int / 2) % 2 == 1),
        (flag & LMICROSECONDS != 0) == ((flag as int / 4) % 2 == 1),
        (flag & LLONGFILE != 0) == ((flag as int / 8) % 2 == 1),
        (flag & LSHORTFILE != 0) == ((flag as int / 16) % 2 == 1),
        (flag & LUTC != 0) == ((flag as int / 32) % 2 == 1),
        (flag & LMSGPREFIX != 0) == ((flag as int / 64) % 2 == 1),
{
    assert((flag & 1 != 0) == (flag % 2 == 1) && (flag & 2 != 0) == ((flag / 2) % 2 == 1) && (flag & 4
        != 0) == ((flag / 4) % 2 == 1) && (flag & 8 != 0) == ((flag / 8) % 2 == 1) && (flag & 16
        != 0) == ((flag / 16) % 2 == 1) && (flag & 32 != 0) == ((flag / 32) % 2 == 1) && (flag & 64
        != 0) == ((flag / 64) % 2 == 1)) by (bit_vector);
}

/// A line shows the wall clock of its zone, or that of UTC when the flag with the value 32 is set.
pub proof fn a_line_shows_local_time_or_utc(t: Time, flag: u32)
    requires
        crate::gotime::in_calendar(t.unix_secs as int),
        crate::gotime::in_calendar(t.unix_secs + t.offset_secs),
    ensures
        t.secs_shown(flag) == (if (flag as int / 32) % 2 == 1 {
            t.unix_secs as int
        } else {
            t.unix_secs + t.offset_secs
        }),
{
    lemma_bits(flag);
}

/// A program starts with the date and the time in its lines, and one that no version was stamped on
/// with the file and line too.
pub proof fn the_first_flags(version: &str, flag: u32)
    requires
        call_ensures(flags_for_version, (version,), flag),
    ensures
        flag == (if version@ == "SELFBUILD"@ {
            19u32
        } else {
            3u32
        }),
{
}

/// A file name without a directory is shown as it is.
pub proof fn a_bare_file_name_is_shown_as_it_is(name: Seq<char>)
    requires
        !name.contains('/'),
    ensures
        short_name(name) == name,
        short_name(seq!['/'] + name) == seq!['/'] + name,
{
    lemma_no_slash(name);
    lemma_last_slash(Seq::empty(), name);
    assert(Seq::<char>::empty().push('/') + name =~= seq!['/'] + name);
}

proof fn lemma_no_slash(name: Seq<char>)
    requires
        !name.contains('/'),
    ensures
        last_slash(name) == -1,
    decreases name.len(),
{
    if name.len() > 0 {
        assert(name.contains(name.last()));
        assert(!name.drop_last().contains('/')) by {
            if name.drop_last().contains('/') {
                let k = choose|k: int|
                    0 <= k < name.drop_last().len() && name.drop_last()[k] == '/';
                assert(name[k] == '/');
            }
        }
        lemma_no_slash(name.drop_last());
    }
}

/// Colour is off for a program that writes to no terminal, and for one that is told so by a `NO_COLOR`
/// that is not empty or by a `TERM` of `dumb`; a red text is the text between the two escape sequences.
pub proof fn when_a_warning_is_red(
    no_color_env: Option<&str>,
    term_env: Option<&str>,
    tty: bool,
    off: bool,
    msg: &str,
    s: String,
)
    requires
        call_ensures(no_color_from, (no_color_env, term_env, tty), off),
        call_ensures(color_red_bytes, (msg, off), s),
    ensures
        off <==> !tty || (no_color_env matches Some(v) && v@.len() > 0) || (term_env matches Some(t)
            && t@ == "dumb"@),
        off ==> s@ == ended(msg@),
        !off ==> s@ == seq!['\x1b', '[', '3', '1', 'm'] + ended(msg@) + seq!['\x1b', '[', '0', 'm'],
{
}

/// The operands of a message stand in it in order, with one blank between each two of them and a line
/// feed behind the last.
pub proof fn operands_are_joined_by_blanks(operands: &Vec<String>, s: String)
    requires
        call_ensures(println_message, (operands,), s),
    ensures
        s@ == joined_by(strings(operands@), ' ').push('\n'),
{
    lemma_spaced(strings(operands@));
}

proof fn lemma_spaced(v: Seq<Seq<char>>)
    ensures
        spaced(v) == joined_by(v, ' '),
    decreases v.len(),
{
    if v.len() > 1 {
        lemma_spaced(v.drop_last());
    }
}

} // verus!
