//! A command-line application: global flags, the built-in `help` command, `--help` and
//! `--version`.
use vstd::prelude::*;
use vstd::string::*;

use crate::cli::flags::{
    copied_strings, each_name, entry_contents, find_entry, last_entry, listed, names_of, trim,
    trimmed, Entry, Env, FlagDefault, FlagSet, FlagSpec, Flags, Usage, UsageError, Val, Value,
};
use crate::cli::number::{bool_of, int_of, parse_bool, parse_int_base0};
use crate::cli::quote::{go_quote, quoted};
use crate::cli::tabwriter;
use crate::text::{
    chars_of, find_char, position_of, push_signed, push_slice, signed_decimal, split,
    split_at_char, str_eq, string_of, strings, substring, texts,
};

verus! {

/// Exit code used for command-line usage errors.
pub const USAGE_ERROR_EXIT_CODE: i32 = 2;

/// Exit code of `<prog> help <unknown-topic>`.
pub const NO_HELP_TOPIC_EXIT_CODE: i32 = 3;

// ---------------------------------------------------------------------------------------
// Paths
// ---------------------------------------------------------------------------------------
/// `path` without the slashes at its end.
pub open spec fn without_trailing_slashes(path: Seq<char>) -> Seq<char>
    decreases path.len(),
{
    if path.len() > 0 && path.last() == '/' {
        without_trailing_slashes(path.drop_last())
    } else {
        path
    }
}

/// What follows the last slash of `path`.
pub open spec fn after_last_slash(path: Seq<char>) -> Seq<char>
    decreases path.len(),
{
    if path.len() == 0 || path.last() == '/' {
        Seq::empty()
    } else {
        after_last_slash(path.drop_last()).push(path.last())
    }
}

/// The last element of `path`.
pub open spec fn base_name(path: Seq<char>) -> Seq<char> {
    if path.len() == 0 {
        "."@
    } else if without_trailing_slashes(path).len() == 0 {
        "/"@
    } else {
        after_last_slash(without_trailing_slashes(path))
    }
}

/// The last element of `path`: `.` for an empty path, and `/` for one of slashes only.
pub fn filepath_base(path: &str) -> (r: String)
    ensures
        r@ == base_name(path@),
{
    let p = chars_of(path);
    if p.len() == 0 {
        return ".".to_owned();
    }
    let mut end: usize = p.len();
    assert(p@.take(end as int) =~= p@);
    while end > 0 && p[end - 1] == '/'
        invariant
            end <= p.len(),
            without_trailing_slashes(p@.take(end as int)) == without_trailing_slashes(p@),
        decreases end,
    {
        assert(p@.take(end as int).drop_last() =~= p@.take(end - 1));
        end = end - 1;
    }
    if end == 0 {
        return "/".to_owned();
    }
    let ghost whole = p@.take(end as int);
    let mut i: usize = end;
    assert(p@.subrange(end as int, end as int) =~= Seq::<char>::empty());
    assert(after_last_slash(whole) + p@.subrange(i as int, end as int) =~= after_last_slash(whole));
    while i > 0 && p[i - 1] != '/'
        invariant
            i <= end <= p.len(),
            whole == p@.take(end as int),
            after_last_slash(whole) == after_last_slash(p@.take(i as int)) + p@.subrange(
                i as int,
                end as int,
            ),
        decreases i,
    {
        assert(p@.take(i as int).drop_last() =~= p@.take(i - 1));
        assert(after_last_slash(p@.take(i - 1)) + p@.subrange(i - 1, end as int)
            =~= after_last_slash(p@.take(i as int)) + p@.subrange(i as int, end as int));
        i = i - 1;
    }
    assert(after_last_slash(p@.take(i as int)) =~= Seq::<char>::empty());
    assert(p@.subrange(i as int, end as int) =~= after_last_slash(whole));
    substring(p.as_slice(), i, end)
}

// ---------------------------------------------------------------------------------------
// Context
// ---------------------------------------------------------------------------------------
/// The parsed command line handed to the program's action.
#[derive(Debug)]
pub struct Context {
    entries: Vec<Entry>,
    set_flags: Vec<String>,
    args: Vec<String>,
}

/// What a context holds.
#[verifier::ext_equal]
pub struct Parsed {
    /// Names and values; the last entry of a name counts.
    pub entries: Seq<(Seq<char>, Val)>,
    /// Names given on the command line or by the environment.
    pub set_flags: Set<Seq<char>>,
    /// Arguments left after parsing stopped.
    pub args: Seq<Seq<char>>,
}

impl Parsed {
    /// The value of a name as text; nothing when there is no such flag.
    pub open spec fn text(self, name: Seq<char>) -> Option<Seq<char>> {
        let i = last_entry(self.entries, name);
        if i >= 0 {
            Some(self.entries[i].1.text())
        } else {
            None
        }
    }

    /// The value of a name as a string; empty when there is no such flag.
    pub open spec fn string(self, name: Seq<char>) -> Seq<char> {
        match self.text(name) {
            Some(t) => t,
            None => Seq::empty(),
        }
    }

    /// The value of a name as a number; zero when there is no such flag or it is not a number.
    pub open spec fn integer(self, name: Seq<char>) -> int {
        match self.text(name) {
            Some(t) => match int_of(t) {
                Ok(n) => n,
                Err(_) => 0,
            },
            None => 0,
        }
    }

    /// The value of a name as a truth value; false when there is no such flag or it is not one.
    pub open spec fn bool(self, name: Seq<char>) -> bool {
        match self.text(name) {
            Some(t) => bool_of(t) == Ok::<bool, crate::cli::number::NumError>(true),
            None => false,
        }
    }
}

impl View for Context {
    type V = Parsed;

    closed spec fn view(&self) -> Parsed {
        Parsed {
            entries: entry_contents(self.entries@),
            set_flags: strings(self.set_flags@).to_set(),
            args: strings(self.args@),
        }
    }
}

impl Context {
    /// The value of a flag as a string; `""` when the flag does not exist.
    pub fn string(&self, name: &str) -> (s: String)
        ensures
            s@ == self@.string(name@),
    {
        match find_entry(&self.entries, name) {
            Some(i) => self.entries[i].value.go_string(),
            None => String::new(),
        }
    }

    /// The value of a flag as a number; `0` when the flag does not exist or does not parse.
    pub fn integer(&self, name: &str) -> (n: i64)
        ensures
            n == self@.integer(name@),
    {
        match find_entry(&self.entries, name) {
            Some(i) => match parse_int_base0(self.entries[i].value.go_string().as_str()) {
                Ok(n) => n,
                Err(_) => 0,
            },
            None => 0,
        }
    }

    /// The value of a flag as a truth value; `false` when the flag does not exist or does not
    /// parse.
    pub fn bool(&self, name: &str) -> (b: bool)
        ensures
            b == self@.bool(name@),
    {
        match find_entry(&self.entries, name) {
            Some(i) => match parse_bool(self.entries[i].value.go_string().as_str()) {
                Ok(b) => b,
                Err(_) => false,
            },
            None => false,
        }
    }

    /// Whether the flag was given on the command line, or its environment variable is set.
    pub fn is_set(&self, name: &str) -> (b: bool)
        ensures
            b == self@.set_flags.contains(name@),
    {
        listed(&self.set_flags, name)
    }

    /// The arguments left after parsing stopped.
    pub fn args(&self) -> (a: &[String])
        ensures
            strings(a@) == self@.args,
    {
        self.args.as_slice()
    }
}

// ---------------------------------------------------------------------------------------
// Help texts
// ---------------------------------------------------------------------------------------
/// The place of a back-quoted word in a usage text, if it has one: where its quotes stand.
pub open spec fn quotes_in(usage: Seq<char>) -> (int, int) {
    let i = find_char(usage, '`', 0);
    (i, find_char(usage, '`', i + 1))
}

/// The back-quoted word of a usage text; empty when there is none.
pub open spec fn placeholder_of(usage: Seq<char>) -> Seq<char> {
    let (i, j) = quotes_in(usage);
    if i < usage.len() && j < usage.len() {
        usage.subrange(i + 1, j)
    } else {
        Seq::empty()
    }
}

/// A usage text without the back quotes of its placeholder.
pub open spec fn unquoted(usage: Seq<char>) -> Seq<char> {
    let (i, j) = quotes_in(usage);
    if i < usage.len() && j < usage.len() {
        usage.take(i) + usage.subrange(i + 1, j) + usage.skip(j + 1)
    } else {
        usage
    }
}

/// Pulls a back-quoted placeholder out of a usage text, returning it and the text with the back
/// quotes removed.
fn unquote_usage(usage: &str) -> (r: (String, String))
    ensures
        r.0@ == placeholder_of(usage@),
        r.1@ == unquoted(usage@),
{
    let u = chars_of(usage);
    let i = position_of(u.as_slice(), '`', 0);
    if i < u.len() {
        let j = position_of(u.as_slice(), '`', i + 1);
        if j < u.len() {
            let name = substring(u.as_slice(), i + 1, j);
            let mut text = substring(u.as_slice(), 0, i);
            push_slice(&mut text, u.as_slice(), i + 1, j);
            push_slice(&mut text, u.as_slice(), j + 1, u.len());
            assert(text@ =~= unquoted(usage@));
            return (name, text);
        }
    }
    (String::new(), usage.to_owned())
}

/// One name with its dashes: one dash for a name of one byte, two for longer ones.
pub open spec fn dashed(name: Seq<char>, placeholder: Seq<char>) -> Seq<char> {
    (if name.len() == 1 && (name[0] as u32) < 128 {
        "-"@
    } else {
        "--"@
    }) + name + (if placeholder.len() > 0 {
        " "@ + placeholder
    } else {
        Seq::empty()
    })
}

/// The first `n` names with their dashes, with commas between all of them.
pub open spec fn dashed_names(names: Seq<Seq<char>>, placeholder: Seq<char>, n: int) -> Seq<char>
    decreases n,
{
    if n <= 0 {
        Seq::empty()
    } else {
        dashed_names(names, placeholder, n - 1) + dashed(names[n - 1], placeholder) + (if n
            < names.len() {
            ", "@
        } else {
            Seq::empty()
        })
    }
}

/// `--name value, -n value`.
fn prefixed_names(full_name: &str, placeholder: &str) -> (r: String)
    ensures
        r@ == dashed_names(names_of(full_name@), placeholder@, names_of(full_name@).len() as int),
{
    let parts = each_name(full_name);
    let ghost names = names_of(full_name@);
    let mut out = String::new();
    let mut i: usize = 0;
    assert(out@ =~= dashed_names(names, placeholder@, 0));
    while i < parts.len()
        invariant
            i <= parts.len(),
            strings(parts@) == names,
            out@ == dashed_names(names, placeholder@, i as int),
        decreases parts.len() - i,
    {
        assert(strings(parts@)[i as int] == parts@[i as int]@);
        let ghost before = out@;
        let name = parts[i].as_str();
        let v = chars_of(name);
        out.append(
            if v.len() == 1 && (v[0] as u32) < 128 {
                "-"
            } else {
                "--"
            },
        );
        out.append(name);
        if !placeholder.is_empty() {
            out.append(" ");
            out.append(placeholder);
        }
        assert(out@ =~= before + dashed(names[i as int], placeholder@));
        i = i + 1;
        if i < parts.len() {
            out.append(", ");
        }
        assert(out@ =~= dashed_names(names, placeholder@, i as int));
    }
    out
}

/// The first `n` of the variables, each behind a dollar sign, with commas between them.
pub open spec fn dollared(parts: Seq<Seq<char>>, n: int) -> Seq<char>
    decreases n,
{
    if n <= 0 {
        Seq::empty()
    } else if n == 1 {
        parts[0]
    } else {
        dollared(parts, n - 1) + ", $"@ + parts[n - 1]
    }
}

/// ` [$A, $B]` for a comma-separated list of variables, or nothing.
pub open spec fn env_hint_of(env: Seq<char>) -> Seq<char> {
    if env.len() == 0 {
        Seq::empty()
    } else {
        " [$"@ + dollared(split(env, ','), split(env, ',').len() as int) + "]"@
    }
}

/// ` [$A, $B]` for a comma-separated list of variables, or `""`.
fn env_hint(env_var: &str) -> (r: String)
    ensures
        r@ == env_hint_of(env_var@),
{
    if env_var.is_empty() {
        return String::new();
    }
    let all = chars_of(env_var);
    let parts = split_at_char(all.as_slice(), ',');
    let ghost pieces = split(env_var@, ',');
    let mut out = " [$".to_owned();
    let mut i: usize = 0;
    assert(out@ =~= " [$"@ + dollared(pieces, 0));
    while i < parts.len()
        invariant
            i <= parts.len(),
            texts(parts@) == pieces,
            out@ == " [$"@ + dollared(pieces, i as int),
        decreases parts.len() - i,
    {
        assert(texts(parts@)[i as int] == parts@[i as int]@);
        if i > 0 {
            out.append(", $");
        }
        out.append(string_of(parts[i].as_slice()).as_str());
        i = i + 1;
        assert(out@ =~= " [$"@ + dollared(pieces, i as int));
    }
    out.append("]");
    assert(out@ =~= env_hint_of(env_var@));
    out
}

/// The note on a flag's default. There is none for an empty string, nor for a truth value.
pub open spec fn default_note<'a>(default: FlagDefault<'a>) -> Seq<char> {
    match default {
        FlagDefault::Str(v) => if v@.len() == 0 {
            Seq::empty()
        } else {
            " (default: "@ + quoted(v@) + ")"@
        },
        FlagDefault::Int(v) => " (default: "@ + signed_decimal(v as int) + ")"@,
        FlagDefault::Bool => Seq::empty(),
    }
}

/// The placeholder shown for a flag's value: the one of its usage text, and otherwise `value` for
/// a flag that takes one.
pub open spec fn shown_placeholder<'a>(f: FlagSpec<'a>) -> Seq<char> {
    if f.default !is Bool && placeholder_of(f.usage@).len() == 0 {
        "value"@
    } else {
        placeholder_of(f.usage@)
    }
}

/// One flag's help line.
pub open spec fn flag_line<'a>(f: FlagSpec<'a>) -> Seq<char> {
    dashed_names(names_of(f.name@), shown_placeholder(f), names_of(f.name@).len() as int) + "\t"@
        + trim(unquoted(f.usage@) + default_note(f.default)) + env_hint_of(f.env@)
}

/// One flag's help line: `<names>\t<usage> (default: ...) [$ENV]`.
pub fn stringify_flag<'a>(f: &FlagSpec<'a>) -> (r: String)
    ensures
        r@ == flag_line(*f),
{
    let (mut placeholder, mut usage) = unquote_usage(f.usage);
    let mut takes_value = true;
    let ghost plain = usage@;
    match f.default {
        FlagDefault::Str(v) => {
            if !v.is_empty() {
                usage.append(" (default: ");
                usage.append(go_quote(v).as_str());
                usage.append(")");
            }
        },
        FlagDefault::Int(v) => {
            usage.append(" (default: ");
            push_signed(&mut usage, v);
            usage.append(")");
        },
        FlagDefault::Bool => {
            takes_value = false;
        },
    }
    assert(usage@ =~= plain + default_note(f.default));
    if takes_value && placeholder.as_str().is_empty() {
        placeholder = "value".to_owned();
    }
    let mut out = prefixed_names(f.name, placeholder.as_str());
    out.append("\t");
    out.append(trimmed(usage.as_str()).as_str());
    out.append(env_hint(f.env).as_str());
    out
}

/// The text of `<prog> help help`.
pub open spec fn help_command_help() -> Seq<char> {
    tabwriter::aligned(
        "NAME:\n    - Shows a list of commands or help for one command\n\nUSAGE:\n    [command]\n"@,
    )
}

/// The text of `<prog> help help`.
fn render_help_command_help() -> (s: String)
    ensures
        s@ == help_command_help(),
{
    tabwriter::format(
        "NAME:\n    - Shows a list of commands or help for one command\n\nUSAGE:\n    [command]\n",
    )
}

// ---------------------------------------------------------------------------------------
// App
// ---------------------------------------------------------------------------------------
/// What the caller should do after [`App::run`].
#[derive(Debug)]
pub enum RunOutcome {
    /// The command line parsed; run the program with this context.
    Action(Context),
    /// Everything has already been written to [`Run::stdout`] / [`Run::stderr`]; exit with this
    /// status.
    Exit(i32),
}

/// The result of [`App::run`]: what to do, and what is to be written where.
#[derive(Debug)]
pub struct Run {
    pub outcome: RunOutcome,
    /// Help, version and usage errors.
    pub stdout: String,
    /// Errors such as an unknown help topic.
    pub stderr: String,
}

/// What a run comes to: a context or an exit status, and the texts to be written.
#[verifier::ext_equal]
pub struct Ran {
    pub outcome: Result<Parsed, int>,
    pub stdout: Seq<char>,
    pub stderr: Seq<char>,
}

impl View for Run {
    type V = Ran;

    open spec fn view(&self) -> Ran {
        Ran {
            outcome: match self.outcome {
                RunOutcome::Action(ctx) => Ok(ctx@),
                RunOutcome::Exit(code) => Err(code as int),
            },
            stdout: self.stdout@,
            stderr: self.stderr@,
        }
    }
}

/// A run that ends with the given status.
pub open spec fn exits(code: int, stdout: Seq<char>, stderr: Seq<char>) -> Ran {
    Ran { outcome: Err(code), stdout, stderr }
}

/// A command-line application.
#[derive(Debug)]
pub struct App<'a> {
    /// Shown in the NAME section and by `--version`.
    pub name: &'a str,
    /// Shown in the USAGE line; see [`filepath_base`].
    pub help_name: String,
    /// The short description after the name.
    pub usage: &'a str,
    pub version: &'a str,
    /// Global flags, in help order, with `--help, -h` and `--version, -v` appended.
    pub flags: Vec<FlagSpec<'a>>,
}

/// The flag that every application has.
pub open spec fn help_flag() -> FlagSpec<'static> {
    FlagSpec {
        name: "help, h",
        default: FlagDefault::Bool,
        usage: "show help",
        env: "",
        hidden: false,
    }
}

/// The flag of every application that has a version.
pub open spec fn version_flag() -> FlagSpec<'static> {
    FlagSpec {
        name: "version, v",
        default: FlagDefault::Bool,
        usage: "print the version",
        env: "",
        hidden: false,
    }
}

/// The flags with one more, unless there is one of that name already.
pub open spec fn appended<'a>(flags: Seq<FlagSpec<'a>>, flag: FlagSpec<'a>) -> Seq<FlagSpec<'a>> {
    if exists|i: int| 0 <= i < flags.len() && (#[trigger] flags[i]).name@ == flag.name@ {
        flags
    } else {
        flags.push(flag)
    }
}

/// The flags that are not hidden, in order.
pub open spec fn visible<'a>(flags: Seq<FlagSpec<'a>>) -> Seq<FlagSpec<'a>>
    decreases flags.len(),
{
    if flags.len() == 0 {
        Seq::empty()
    } else if flags.last().hidden {
        visible(flags.drop_last())
    } else {
        visible(flags.drop_last()).push(flags.last())
    }
}

/// The value that the first variable of a list that is set gives; none when none is.
pub open spec fn first_var<E: Env>(env: E, names: Seq<Seq<char>>) -> Option<Seq<char>>
    decreases names.len(),
{
    if names.len() == 0 {
        None
    } else if env.var(trim(names[0])) is Some {
        env.var(trim(names[0]))
    } else {
        first_var(env, names.skip(1))
    }
}

/// The value that the environment gives a flag with the given list of variables.
pub open spec fn env_value<E: Env>(env: E, list: Seq<char>) -> Option<Seq<char>> {
    if list.len() == 0 {
        None
    } else {
        first_var(env, names_of(list))
    }
}

/// The value of a flag before the command line is read.
pub open spec fn initial_value<'a, E: Env>(f: FlagSpec<'a>, env: E) -> Result<Val, Usage> {
    match (f.default, env_value(env, f.env@)) {
        (FlagDefault::Str(d), None) => Ok(Val::Str(d@)),
        (FlagDefault::Str(_), Some(v)) => Ok(Val::Str(v)),
        (FlagDefault::Int(d), None) => Ok(Val::Int(d as int)),
        (FlagDefault::Int(_), Some(v)) => match int_of(v) {
            Ok(n) => Ok(Val::Int(n)),
            Err(e) => Err(
                Usage::Env {
                    value: v,
                    kind: "int"@,
                    name: f.name@,
                    detail: e.conversion_message("ParseInt"@, v),
                },
            ),
        },
        (FlagDefault::Bool, None) => Ok(Val::Bool(false)),
        (FlagDefault::Bool, Some(v)) => if v.len() == 0 {
            Ok(Val::Bool(false))
        } else {
            match bool_of(v) {
                Ok(b) => Ok(Val::Bool(b)),
                Err(e) => Err(
                    Usage::Env {
                        value: v,
                        kind: "bool"@,
                        name: f.name@,
                        detail: e.conversion_message("ParseBool"@, v),
                    },
                ),
            }
        },
    }
}

/// The set with every one of the names defined to have a value.
pub open spec fn with_names(set: Flags, names: Seq<Seq<char>>, value: Val) -> Flags {
    Flags { entries: set.entries + Seq::new(names.len(), |i: int| (names[i], value)), ..set }
}

/// The set with all flags defined.
pub open spec fn defined<'a, E: Env>(flags: Seq<FlagSpec<'a>>, env: E, set: Flags) -> Result<
    Flags,
    Usage,
>
    decreases flags.len(),
{
    if flags.len() == 0 {
        Ok(set)
    } else {
        match initial_value(flags[0], env) {
            Err(e) => Err(e),
            Ok(v) => defined(flags.skip(1), env, with_names(set, names_of(flags[0].name@), v)),
        }
    }
}

/// The flag set without any flags.
pub open spec fn no_flags() -> Flags {
    Flags { entries: Seq::empty(), actual: Set::empty(), args: Seq::empty() }
}

/// Whether one of the names was given on the command line.
pub open spec fn any_given(names: Seq<Seq<char>>, actual: Set<Seq<char>>) -> bool {
    exists|i: int| 0 <= i < names.len() && actual.contains(#[trigger] names[i])
}

/// The names that count as set: those given on the command line with all their aliases, and those
/// of flags that the environment sets.
pub open spec fn set_names<'a, E: Env>(
    flags: Seq<FlagSpec<'a>>,
    env: E,
    actual: Set<Seq<char>>,
    so_far: Set<Seq<char>>,
) -> Set<Seq<char>>
    decreases flags.len(),
{
    if flags.len() == 0 {
        so_far
    } else {
        let names = names_of(flags[0].name@);
        let more = if any_given(names, actual) || env_value(env, flags[0].env@) is Some {
            so_far.union(names.to_set())
        } else {
            so_far
        };
        set_names(flags.skip(1), env, actual, more)
    }
}

/// The context of a parsed command line.
pub open spec fn context_of<'a, E: Env>(flags: Seq<FlagSpec<'a>>, env: E, set: Flags) -> Parsed {
    Parsed {
        entries: set.entries,
        set_flags: set_names(flags, env, set.actual, set.actual),
        args: set.args,
    }
}

/// The help lines of the first `n` flags. In the subcommand form a new line is begun after each.
pub open spec fn option_lines<'a>(flags: Seq<FlagSpec<'a>>, subcommand: bool, n: int) -> Seq<char>
    decreases n,
{
    if n <= 0 {
        Seq::empty()
    } else if subcommand {
        option_lines(flags, subcommand, n - 1) + flag_line(flags[n - 1]) + "\n   "@
    } else if n == 1 {
        flag_line(flags[0])
    } else {
        option_lines(flags, subcommand, n - 1) + "\n   "@ + flag_line(flags[n - 1])
    }
}

/// The section on the flags, if there are any to show.
pub open spec fn options_section<'a>(flags: Seq<FlagSpec<'a>>, subcommand: bool) -> Seq<char> {
    if flags.len() == 0 {
        Seq::empty()
    } else {
        (if subcommand {
            "\n\nOPTIONS:\n   "@
        } else {
            "\n\nGLOBAL OPTIONS:\n   "@
        }) + option_lines(flags, subcommand, flags.len() as int)
    }
}

impl<'a> App<'a> {
    /// The NAME and USAGE sections.
    pub open spec fn head(self, subcommand: bool) -> Seq<char> {
        let any = visible(self.flags@).len() > 0;
        "NAME:\n   "@ + (if subcommand {
            self.help_name@
        } else {
            self.name@
        }) + (if self.usage@.len() > 0 {
            " - "@ + self.usage@
        } else {
            Seq::empty()
        }) + "\n\nUSAGE:\n   "@ + self.help_name@ + (if subcommand {
            " command"@ + (if any {
                " [command options]"@
            } else {
                Seq::empty()
            })
        } else {
            (if any {
                " [global options]"@
            } else {
                Seq::empty()
            }) + " command [command options]"@
        }) + " [arguments...]"@
    }

    /// The VERSION section.
    pub open spec fn version_section(self, subcommand: bool) -> Seq<char> {
        if !subcommand && self.version@.len() > 0 {
            "\n\nVERSION:\n   "@ + self.version@
        } else {
            Seq::empty()
        }
    }

    /// The help text. The subcommand form, which `<prog> help ""` shows, has no VERSION section,
    /// says `OPTIONS:` instead of `GLOBAL OPTIONS:` and ends with an indented empty line.
    pub open spec fn help_text(self, subcommand: bool) -> Seq<char> {
        tabwriter::aligned(
            self.head(subcommand) + self.version_section(subcommand) + "\n\nCOMMANDS:"@
                + "\n   help, h\t"@ + "Shows a list of commands or help for one command"@
                + options_section(visible(self.flags@), subcommand) + "\n"@,
        )
    }

    /// What the built-in `help` command comes to. It parses its own arguments, known flags moved to
    /// the front, before it looks for a topic.
    pub open spec fn helped(self, tail: Seq<Seq<char>>) -> Ran {
        let flags = seq![help_flag()];
        let args = reordered(flags, tail, Seq::empty(), Seq::empty(), false);
        let set = with_names(no_flags(), names_of(help_flag().name@), Val::Bool(false));
        let (p, parse_error) = Flags { args, ..set }.parsed();
        let (n, two_forms) = p.normalized(flags);
        if parse_error is Some || two_forms is Some {
            let e = if parse_error is Some {
                parse_error->0
            } else {
                two_forms->0
            };
            exits(
                USAGE_ERROR_EXIT_CODE as int,
                "Incorrect Usage: "@ + e.text() + "\n\n"@ + help_command_help(),
                Seq::empty(),
            )
        } else if n.defines("help"@) && n.value("help"@) == Val::Bool(true) || n.defines("h"@)
            && n.value("h"@) == Val::Bool(true) {
            exits(0, help_command_help(), Seq::empty())
        } else if n.args.len() == 0 {
            exits(0, self.help_text(false), Seq::empty())
        } else if n.args[0].len() == 0 {
            exits(0, self.help_text(true), Seq::empty())
        } else if n.args[0] == "help"@ || n.args[0] == "h"@ {
            exits(0, help_command_help(), Seq::empty())
        } else {
            exits(
                NO_HELP_TOPIC_EXIT_CODE as int,
                Seq::empty(),
                "No help topic for '"@ + n.args[0] + "'\n"@,
            )
        }
    }

    /// What a run comes to. A fault in the use of aliases takes precedence over one in the parsing,
    /// help over the version, and both over commands.
    pub open spec fn ran<E: Env>(self, argv: Seq<Seq<char>>, env: E) -> Ran {
        match defined(self.flags@, env, no_flags()) {
            Err(e) => exits(USAGE_ERROR_EXIT_CODE as int, Seq::empty(), e.text() + "\n"@),
            Ok(set) => {
                let args = if argv.len() > 0 {
                    argv.skip(1)
                } else {
                    argv
                };
                let (p, parse_error) = Flags { args, ..set }.parsed();
                let (n, two_forms) = p.normalized(self.flags@);
                let ctx = context_of(self.flags@, env, n);
                match (two_forms, parse_error) {
                    (Some(e), _) => exits(
                        USAGE_ERROR_EXIT_CODE as int,
                        e.text() + "\n"@ + self.help_text(false),
                        Seq::empty(),
                    ),
                    (None, Some(e)) => exits(
                        USAGE_ERROR_EXIT_CODE as int,
                        "Incorrect Usage. "@ + e.text() + "\n\n"@ + self.help_text(false),
                        Seq::empty(),
                    ),
                    (None, None) => if ctx.bool("help"@) || ctx.bool("h"@) {
                        exits(0, self.help_text(false), Seq::empty())
                    } else if self.version@.len() > 0 && (ctx.bool("version"@) || ctx.bool("v"@)) {
                        exits(
                            0,
                            self.name@ + " version "@ + self.version@ + "\n"@,
                            Seq::empty(),
                        )
                    } else if ctx.args.len() > 0 && (ctx.args[0] == "help"@ || ctx.args[0]
                        == "h"@) {
                        self.helped(ctx.args.skip(1))
                    } else {
                        Ran { outcome: Ok(ctx), stdout: Seq::empty(), stderr: Seq::empty() }
                    },
                }
            },
        }
    }
}

/// An argument without its dashes and without what follows a `=`.
pub open spec fn spelled_name(arg: Seq<char>) -> Seq<char> {
    let once = if arg[0] == '-' && arg.len() > 1 && arg[1] == '-' {
        arg.skip(2)
    } else {
        arg
    };
    let bare = if once.len() > 0 && once[0] == '-' {
        once.skip(1)
    } else {
        once
    };
    bare.take(find_char(bare, '=', 0))
}

/// Whether an argument spells one of the flags. A lone `-` or `--` never does.
pub open spec fn spells_flag<'a>(flags: Seq<FlagSpec<'a>>, arg: Seq<char>) -> bool {
    &&& arg != "-"@
    &&& arg != "--"@
    &&& arg.len() > 0
    &&& arg[0] == '-'
    &&& exists|i: int|
        0 <= i < flags.len() && names_of((#[trigger] flags[i]).name@).contains(spelled_name(arg))
}

/// The arguments with those that spell flags, and what may be their values, moved to the front.
/// Nothing behind a `--` is moved, and the `--` itself goes to the front of what is left.
pub open spec fn reordered<'a>(
    flags: Seq<FlagSpec<'a>>,
    args: Seq<Seq<char>>,
    moved: Seq<Seq<char>>,
    kept: Seq<Seq<char>>,
    may_be_value: bool,
) -> Seq<Seq<char>>
    decreases args.len(),
{
    if args.len() == 0 {
        moved + kept
    } else if may_be_value && !spells_flag(flags, args[0]) {
        reordered(flags, args.skip(1), moved.push(args[0]), kept, false)
    } else if args[0] == "--"@ {
        moved + (seq!["--"@] + kept + args.skip(1))
    } else if spells_flag(flags, args[0]) {
        reordered(flags, args.skip(1), moved.push(args[0]), kept, !args[0].contains('='))
    } else {
        reordered(flags, args.skip(1), moved, kept.push(args[0]), may_be_value)
    }
}

/// Whether an argument spells one of the flags, in either the `-name` or the `--name` form and with
/// or without a `=value` tail.
fn arg_is_flag<'a>(flags: &[FlagSpec<'a>], arg: &str) -> (r: bool)
    ensures
        r == spells_flag(flags@, arg@),
{
    let a = chars_of(arg);
    if str_eq(arg, "-") || str_eq(arg, "--") || a.len() == 0 || a[0] != '-' {
        return false;
    }
    let mut start: usize = if a.len() > 1 && a[1] == '-' {
        2
    } else {
        0
    };
    if start < a.len() && a[start] == '-' {
        start = start + 1;
    }
    let bare = vstd::slice::slice_subrange(a.as_slice(), start, a.len());
    let eq = position_of(bare, '=', 0);
    let name = substring(bare, 0, eq);
    proof {
        let once = if a@.len() > 1 && a@[1] == '-' {
            a@.skip(2)
        } else {
            a@
        };
        assert(bare@ =~= if once.len() > 0 && once[0] == '-' {
            once.skip(1)
        } else {
            once
        });
        assert(name@ =~= spelled_name(arg@));
    }
    let mut i: usize = 0;
    while i < flags.len()
        invariant
            i <= flags.len(),
            name@ == spelled_name(arg@),
            arg@ != "-"@,
            arg@ != "--"@,
            arg@.len() > 0,
            arg@[0] == '-',
            forall|k: int|
                0 <= k < i ==> !names_of((#[trigger] flags@[k]).name@).contains(name@),
        decreases flags.len() - i,
    {
        let names = flags[i].names();
        if listed(&names, name.as_str()) {
            assert(names_of(flags@[i as int].name@).contains(name@));
            return true;
        }
        i = i + 1;
    }
    false
}

/// Whether `s` holds the character `c`.
fn has_char(s: &str, c: char) -> (r: bool)
    ensures
        r == s@.contains(c),
{
    let v = chars_of(s);
    let i = position_of(v.as_slice(), c, 0);
    if i < v.len() {
        assert(s@[i as int] == c);
    }
    i < v.len()
}

/// Whether one of the names is in a list.
fn any_listed(names: &Vec<String>, list: &Vec<String>) -> (r: bool)
    ensures
        r == any_given(strings(names@), strings(list@).to_set()),
{
    let ghost all = strings(names@);
    let mut k: usize = 0;
    while k < names.len()
        invariant
            k <= names.len(),
            all == strings(names@),
            forall|m: int|
                0 <= m < k ==> !strings(list@).to_set().contains(#[trigger] all[m]),
        decreases names.len() - k,
    {
        if listed(list, names[k].as_str()) {
            assert(strings(list@).to_set().contains(all[k as int]));
            return true;
        }
        k = k + 1;
    }
    false
}

/// Adds a string to a list.
fn push_string(v: &mut Vec<String>, s: String)
    ensures
        strings(final(v)@) == strings(old(v)@).push(s@),
{
    v.push(s);
    assert(strings(v@) =~= strings(old(v)@).push(s@));
}

/// Adds the strings of a list to another.
fn push_strings(v: &mut Vec<String>, more: Vec<String>)
    ensures
        strings(final(v)@) == strings(old(v)@) + strings(more@),
{
    let mut i: usize = 0;
    assert(strings(v@) =~= strings(old(v)@) + strings(more@).take(0));
    while i < more.len()
        invariant
            i <= more.len(),
            strings(v@) == strings(old(v)@) + strings(more@).take(i as int),
        decreases more.len() - i,
    {
        push_string(v, more[i].clone());
        i = i + 1;
        assert(strings(v@) =~= strings(old(v)@) + strings(more@).take(i as int));
    }
    assert(strings(more@).take(i as int) =~= strings(more@));
}

/// Moves the command's own flags in front of everything else.
///
/// So `help foo -h` is parsed as `help -h foo`, while nothing after a `--` is moved.
fn reorder_args<'a>(flags: &[FlagSpec<'a>], args: &[String]) -> (r: Vec<String>)
    ensures
        strings(r@) == reordered(flags@, strings(args@), Seq::empty(), Seq::empty(), false),
{
    let mut moved: Vec<String> = Vec::new();
    let mut kept: Vec<String> = Vec::new();
    let mut may_be_value = false;
    let ghost all = strings(args@);
    let mut i: usize = 0;
    assert(all.skip(0) =~= all);
    assert(strings(moved@) =~= Seq::<Seq<char>>::empty());
    assert(strings(kept@) =~= Seq::<Seq<char>>::empty());
    while i < args.len()
        invariant
            i <= args.len(),
            all == strings(args@),
            reordered(
                flags@,
                all.skip(i as int),
                strings(moved@),
                strings(kept@),
                may_be_value,
            ) == reordered(flags@, all, Seq::empty(), Seq::empty(), false),
        decreases args.len() - i,
    {
        let arg = args[i].as_str();
        assert(all.skip(i as int)[0] == arg@);
        assert(all.skip(i as int).skip(1) =~= all.skip(i + 1));
        let is_flag = arg_is_flag(flags, arg);
        if may_be_value && !is_flag {
            may_be_value = false;
            push_string(&mut moved, args[i].clone());
        } else if str_eq(arg, "--") {
            // The delimiter goes in front of the arguments seen so far.
            let mut rest: Vec<String> = Vec::new();
            push_string(&mut rest, "--".to_owned());
            push_strings(&mut rest, kept);
            push_strings(&mut rest, copied_strings(args, i + 1));
            assert(strings(rest@) =~= seq!["--"@] + strings(kept@) + all.skip(i + 1));
            push_strings(&mut moved, rest);
            return moved;
        } else if is_flag {
            push_string(&mut moved, args[i].clone());
            may_be_value = !has_char(arg, '=');
        } else {
            push_string(&mut kept, args[i].clone());
        }
        i = i + 1;
    }
    push_strings(&mut moved, kept);
    moved
}

/// The environment value for a comma-separated list of variables, the first that is set counting.
fn flag_from_env<E: Env>(env: &E, env_var: &str) -> (r: Option<String>)
    ensures
        match r {
            Some(s) => env_value(*env, env_var@) == Some(s@),
            None => env_value(*env, env_var@) is None,
        },
{
    if env_var.is_empty() {
        return None;
    }
    let names = each_name(env_var);
    let ghost all = names_of(env_var@);
    let mut i: usize = 0;
    assert(all.skip(0) =~= all);
    while i < names.len()
        invariant
            i <= names.len(),
            env_var@.len() > 0,
            all == names_of(env_var@),
            all == strings(names@),
            first_var(*env, all.skip(i as int)) == first_var(*env, all),
        decreases names.len() - i,
    {
        assert(all.skip(i as int)[0] == names@[i as int]@);
        assert(all.skip(i as int).skip(1) =~= all.skip(i + 1));
        let value = env.get(trimmed(names[i].as_str()).as_str());
        if value.is_some() {
            return value;
        }
        i = i + 1;
    }
    None
}

/// Defines every one of the names to have a value.
fn define_names(set: &mut FlagSet, names: Vec<String>, value: &Value)
    ensures
        final(set)@ == with_names(old(set)@, strings(names@), value@),
{
    let mut i: usize = 0;
    let ghost all = strings(names@);
    assert(set@ =~= with_names(old(set)@, all.take(0), value@));
    while i < names.len()
        invariant
            i <= names.len(),
            all == strings(names@),
            set@ == with_names(old(set)@, all.take(i as int), value@),
        decreases names.len() - i,
    {
        set.define(names[i].clone(), value.copied());
        i = i + 1;
        assert(set@ =~= with_names(old(set)@, all.take(i as int), value@));
    }
    assert(all.take(i as int) =~= all);
}

impl<'a> App<'a> {
    /// Builds the app: the `--help, -h` and `--version, -v` flags are appended unless a flag of
    /// that name already exists, the latter only if there is a version.
    pub fn new(
        name: &'a str,
        help_name: &str,
        usage: &'a str,
        version: &'a str,
        flags: Vec<FlagSpec<'a>>,
    ) -> (app: Self)
        ensures
            app.name == name,
            app.help_name@ == help_name@,
            app.usage == usage,
            app.version == version,
            app.flags@ == (if version@.len() > 0 {
                appended(appended(flags@, help_flag()), version_flag())
            } else {
                appended(flags@, help_flag())
            }),
    {
        let mut app = App { name, help_name: help_name.to_owned(), usage, version, flags };
        app.append_flag(FlagSpec::bool_flag("help, h", "show help"));
        if !app.version.is_empty() {
            app.append_flag(FlagSpec::bool_flag("version, v", "print the version"));
        }
        app
    }

    /// Adds a flag, unless one of that name is already defined.
    fn append_flag(&mut self, flag: FlagSpec<'a>)
        ensures
            final(self).name == old(self).name,
            final(self).help_name == old(self).help_name,
            final(self).usage == old(self).usage,
            final(self).version == old(self).version,
            final(self).flags@ == appended(old(self).flags@, flag),
    {
        let mut i: usize = 0;
        while i < self.flags.len()
            invariant
                *self == *old(self),
                i <= self.flags.len(),
                forall|k: int| 0 <= k < i ==> (#[trigger] self.flags@[k]).name@ != flag.name@,
            decreases self.flags.len() - i,
        {
            if str_eq(self.flags[i].name, flag.name) {
                assert(self.flags@[i as int].name@ == flag.name@);
                return;
            }
            i = i + 1;
        }
        self.flags.push(flag);
    }

    /// Flags shown in the help text.
    fn visible_flags(&self) -> (v: Vec<FlagSpec<'a>>)
        ensures
            v@ == visible(self.flags@),
    {
        let mut v: Vec<FlagSpec<'a>> = Vec::new();
        let mut i: usize = 0;
        assert(self.flags@.take(0) =~= Seq::<FlagSpec<'a>>::empty());
        while i < self.flags.len()
            invariant
                i <= self.flags.len(),
                v@ == visible(self.flags@.take(i as int)),
            decreases self.flags.len() - i,
        {
            assert(self.flags@.take(i + 1).drop_last() =~= self.flags@.take(i as int));
            if !self.flags[i].hidden {
                v.push(self.flags[i]);
            }
            i = i + 1;
        }
        assert(self.flags@.take(i as int) =~= self.flags@);
        v
    }

    /// The value of a flag before the command line is read.
    fn initial<E: Env>(f: &FlagSpec<'a>, env: &E) -> (r: Result<Value, UsageError>)
        ensures
            match r {
                Ok(v) => initial_value(*f, *env) == Ok::<Val, Usage>(v@),
                Err(e) => initial_value(*f, *env) == Err::<Val, Usage>(e@),
            },
    {
        let env_val = flag_from_env(env, f.env);
        match f.default {
            FlagDefault::Str(d) => match env_val {
                None => Ok(Value::Str(d.to_owned())),
                Some(v) => Ok(Value::Str(v)),
            },
            FlagDefault::Int(d) => match env_val {
                None => Ok(Value::Int(d)),
                Some(v) => match parse_int_base0(v.as_str()) {
                    Ok(n) => Ok(Value::Int(n)),
                    Err(e) => {
                        let detail = e.strconv_text("ParseInt", v.as_str());
                        Err(
                            UsageError::Env {
                                value: v,
                                kind: "int",
                                name: f.name.to_owned(),
                                detail,
                            },
                        )
                    },
                },
            },
            FlagDefault::Bool => match env_val {
                None => Ok(Value::Bool(false)),
                Some(v) => {
                    if v.as_str().is_empty() {
                        return Ok(Value::Bool(false));
                    }
                    match parse_bool(v.as_str()) {
                        Ok(b) => Ok(Value::Bool(b)),
                        Err(e) => {
                            let detail = e.strconv_text("ParseBool", v.as_str());
                            Err(
                                UsageError::Env {
                                    value: v,
                                    kind: "bool",
                                    name: f.name.to_owned(),
                                    detail,
                                },
                            )
                        },
                    }
                },
            },
        }
    }

    /// Builds the flag set, applying environment defaults.
    fn new_flag_set<E: Env>(&self, env: &E) -> (r: Result<FlagSet, UsageError>)
        ensures
            match r {
                Ok(set) => defined(self.flags@, *env, no_flags()) == Ok::<Flags, Usage>(set@),
                Err(e) => defined(self.flags@, *env, no_flags()) == Err::<Flags, Usage>(e@),
            },
    {
        let mut set = FlagSet::new();
        let mut i: usize = 0;
        assert(self.flags@.skip(0) =~= self.flags@);
        while i < self.flags.len()
            invariant
                i <= self.flags.len(),
                defined(self.flags@.skip(i as int), *env, set@) == defined(
                    self.flags@,
                    *env,
                    no_flags(),
                ),
            decreases self.flags.len() - i,
        {
            assert(self.flags@.skip(i as int).skip(1) =~= self.flags@.skip(i + 1));
            let value = match Self::initial(&self.flags[i], env) {
                Ok(v) => v,
                Err(e) => {
                    return Err(e);
                },
            };
            define_names(&mut set, self.flags[i].names(), &value);
            i = i + 1;
        }
        Ok(set)
    }

    /// Builds the context, resolving which flags count as set.
    fn context<E: Env>(&self, set: FlagSet, env: &E) -> (ctx: Context)
        ensures
            ctx@ == context_of(self.flags@, *env, set@),
    {
        let mut set_flags = copied_strings(set.actual.as_slice(), 0);
        assert(strings(set.actual@).skip(0) =~= strings(set.actual@));
        let ghost actual = set@.actual;
        let mut i: usize = 0;
        assert(self.flags@.skip(0) =~= self.flags@);
        while i < self.flags.len()
            invariant
                i <= self.flags.len(),
                actual == strings(set.actual@).to_set(),
                set_names(
                    self.flags@.skip(i as int),
                    *env,
                    actual,
                    strings(set_flags@).to_set(),
                ) == set_names(self.flags@, *env, actual, actual),
            decreases self.flags.len() - i,
        {
            assert(self.flags@.skip(i as int).skip(1) =~= self.flags@.skip(i + 1));
            let names = self.flags[i].names();
            let ghost all = strings(names@);
            let mut counts = any_listed(&names, &set.actual);
            if !counts {
                counts = flag_from_env(env, self.flags[i].env).is_some();
            }
            if counts {
                let ghost before = strings(set_flags@);
                push_strings(&mut set_flags, names);
                proof {
                    lemma_set_of_sum(before, all);
                }
            }
            i = i + 1;
        }
        Context { entries: set.entries, set_flags, args: set.args }
    }

    /// Parses `argv` (including `argv[0]`).
    ///
    /// Nothing is printed and no process exits: the caller writes [`Run::stdout`] and
    /// [`Run::stderr`] and acts on [`Run::outcome`].
    pub fn run<E: Env>(&self, argv: &[String], env: &E) -> (r: Run)
        ensures
            r@ == self.ran(strings(argv@), *env),
    {
        let mut set = match self.new_flag_set(env) {
            Ok(set) => set,
            Err(e) => {
                let mut stderr = e.message();
                stderr.append("\n");
                return finish(USAGE_ERROR_EXIT_CODE, String::new(), stderr);
            },
        };
        let args = if argv.len() > 0 {
            copied_strings(argv, 1)
        } else {
            Vec::new()
        };
        assert(argv.len() == 0 ==> strings(args@) =~= strings(argv@));
        let parsed = set.parse(args.as_slice());
        let agreed = set.normalize_flags(self.flags.as_slice());
        // A fault in the use of aliases is shown without a prefix and without a blank line.
        if let Err(e) = agreed {
            let mut stdout = e.message();
            stdout.append("\n");
            stdout.append(self.render_help().as_str());
            return finish(USAGE_ERROR_EXIT_CODE, stdout, String::new());
        }
        if let Err(e) = parsed {
            let mut stdout = "Incorrect Usage. ".to_owned();
            stdout.append(e.message().as_str());
            stdout.append("\n\n");
            stdout.append(self.render_help().as_str());
            return finish(USAGE_ERROR_EXIT_CODE, stdout, String::new());
        }
        let ctx = self.context(set, env);
        if ctx.bool("help") || ctx.bool("h") {
            return finish(0, self.render_help(), String::new());
        }
        if !self.version.is_empty() && (ctx.bool("version") || ctx.bool("v")) {
            let mut stdout = self.name.to_owned();
            stdout.append(" version ");
            stdout.append(self.version);
            stdout.append("\n");
            return finish(0, stdout, String::new());
        }
        // The built-in "help" command, the only command there is.
        if ctx.args.len() > 0 && (str_eq(ctx.args[0].as_str(), "help") || str_eq(
            ctx.args[0].as_str(),
            "h",
        )) {
            let tail = copied_strings(ctx.args.as_slice(), 1);
            return self.run_help_command(tail.as_slice());
        }
        let r = Run {
            outcome: RunOutcome::Action(ctx),
            stdout: String::new(),
            stderr: String::new(),
        };
        assert(r@ =~= self.ran(strings(argv@), *env));
        r
    }

    /// The built-in `help` command, which parses its own arguments before it looks for a topic.
    fn run_help_command(&self, tail: &[String]) -> (r: Run)
        ensures
            r@ == self.helped(strings(tail@)),
    {
        let help = FlagSpec::bool_flag("help, h", "show help");
        let mut flags: Vec<FlagSpec<'static>> = Vec::new();
        flags.push(help);
        assert(flags@ =~= seq![help_flag()]);
        let args = reorder_args(flags.as_slice(), tail);
        let mut set = FlagSet::new();
        define_names(&mut set, help.names(), &Value::Bool(false));
        let mut result = set.parse(args.as_slice());
        if result.is_ok() {
            result = set.normalize_flags(flags.as_slice());
        }
        if let Err(e) = result {
            let mut stdout = "Incorrect Usage: ".to_owned();
            stdout.append(e.message().as_str());
            stdout.append("\n\n");
            stdout.append(render_help_command_help().as_str());
            return finish(USAGE_ERROR_EXIT_CODE, stdout, String::new());
        }
        if is_true(&set, "help") || is_true(&set, "h") {
            return finish(0, render_help_command_help(), String::new());
        }
        // No topic: the app help.
        if set.args.len() == 0 {
            return finish(0, self.render_help(), String::new());
        }
        let topic = set.args[0].as_str();
        if topic.is_empty() {
            return finish(0, self.render_subcommand_help(), String::new());
        }
        // The only command there is to describe is "help" itself.
        if str_eq(topic, "help") || str_eq(topic, "h") {
            return finish(0, render_help_command_help(), String::new());
        }
        let mut stderr = "No help topic for '".to_owned();
        stderr.append(topic);
        stderr.append("'\n");
        finish(NO_HELP_TOPIC_EXIT_CODE, String::new(), stderr)
    }

    /// Renders the app help.
    pub fn render_help(&self) -> (s: String)
        ensures
            s@ == self.help_text(false),
    {
        self.render_help_template(false)
    }

    /// Renders the subcommand form of the help, which `<prog> help ""` shows.
    pub fn render_subcommand_help(&self) -> (s: String)
        ensures
            s@ == self.help_text(true),
    {
        self.render_help_template(true)
    }

    fn render_help_template(&self, subcommand: bool) -> (s: String)
        ensures
            s@ == self.help_text(subcommand),
    {
        let shown = self.visible_flags();
        let mut t = "NAME:\n   ".to_owned();
        t.append(
            if subcommand {
                self.help_name.as_str()
            } else {
                self.name
            },
        );
        if !self.usage.is_empty() {
            t.append(" - ");
            t.append(self.usage);
        }
        let ghost named = t@;
        t.append("\n\nUSAGE:\n   ");
        t.append(self.help_name.as_str());
        let ghost used = t@;
        if subcommand {
            t.append(" command");
            if shown.len() > 0 {
                t.append(" [command options]");
            }
        } else {
            if shown.len() > 0 {
                t.append(" [global options]");
            }
            t.append(" command [command options]");
        }
        t.append(" [arguments...]");
        assert(t@ =~= self.head(subcommand));
        if !subcommand && !self.version.is_empty() {
            t.append("\n\nVERSION:\n   ");
            t.append(self.version);
        }
        assert(t@ =~= self.head(subcommand) + self.version_section(subcommand));
        t.append("\n\nCOMMANDS:");
        t.append("\n   help, h\t");
        t.append("Shows a list of commands or help for one command");
        push_options(&mut t, &shown, subcommand);
        t.append("\n");
        tabwriter::format(t.as_str())
    }
}

/// Appends the section on the flags, if there are any to show.
fn push_options<'a>(t: &mut String, shown: &Vec<FlagSpec<'a>>, subcommand: bool)
    ensures
        final(t)@ == old(t)@ + options_section(shown@, subcommand),
{
    if shown.len() == 0 {
        assert(t@ =~= old(t)@ + options_section(shown@, subcommand));
        return;
    }
    t.append(
        if subcommand {
            "\n\nOPTIONS:\n   "
        } else {
            "\n\nGLOBAL OPTIONS:\n   "
        },
    );
    let ghost head = t@;
    let mut i: usize = 0;
    assert(t@ =~= head + option_lines(shown@, subcommand, 0));
    while i < shown.len()
        invariant
            i <= shown.len(),
            t@ == head + option_lines(shown@, subcommand, i as int),
        decreases shown.len() - i,
    {
        if i > 0 && !subcommand {
            t.append("\n   ");
        }
        t.append(stringify_flag(&shown[i]).as_str());
        if subcommand {
            t.append("\n   ");
        }
        i = i + 1;
        assert(t@ =~= head + option_lines(shown@, subcommand, i as int));
    }
    assert(t@ =~= old(t)@ + options_section(shown@, subcommand));
}

/// A run that ends with the given status.
fn finish(code: i32, stdout: String, stderr: String) -> (r: Run)
    ensures
        r@ == exits(code as int, stdout@, stderr@),
{
    Run { outcome: RunOutcome::Exit(code), stdout, stderr }
}

/// Whether a flag is defined and true.
fn is_true(set: &FlagSet, name: &str) -> (r: bool)
    ensures
        r == (set@.defines(name@) && set@.value(name@) == Val::Bool(true)),
{
    match set.lookup(name) {
        Some(v) => match v {
            Value::Bool(b) => *b,
            _ => false,
        },
        None => false,
    }
}

/// The set of two lists together.
proof fn lemma_set_of_sum(a: Seq<Seq<char>>, b: Seq<Seq<char>>)
    ensures
        (a + b).to_set() == a.to_set().union(b.to_set()),
{
    assert forall|x: Seq<char>|
        (a + b).to_set().contains(x) == a.to_set().union(b.to_set()).contains(x) by {
        if a.contains(x) {
            let k = choose|k: int| 0 <= k < a.len() && a[k] == x;
            assert((a + b)[k] == x);
        }
        if b.contains(x) {
            let k = choose|k: int| 0 <= k < b.len() && b[k] == x;
            assert((a + b)[a.len() + k] == x);
        }
        if (a + b).contains(x) {
            let k = choose|k: int| 0 <= k < (a + b).len() && (a + b)[k] == x;
            if k < a.len() {
                assert(a[k] == x);
            } else {
                assert(b[k - a.len()] == x);
            }
        }
    }
    assert((a + b).to_set() =~= a.to_set().union(b.to_set()));
}

/// The last element of a path is what follows its last slash, whatever comes before that and however
/// many slashes come behind.
pub proof fn the_last_element_of_a_path(path: &str, dir: Seq<char>, name: Seq<char>, n: nat, r: String)
    requires
        name.len() > 0,
        !name.contains('/'),
        path@ == dir.push('/') + name + Seq::new(n, |i: int| '/') || (dir.len() == 0 && path@ == name
            + Seq::new(n, |i: int| '/')),
        call_ensures(filepath_base, (path,), r),
    ensures
        r@ == name,
{
    let bare = dir.push('/') + name;
    assert(name.contains(name.last()));
    lemma_slashes(bare, n);
    lemma_slashes(name, n);
    lemma_after_slash(dir.push('/'), name);
    lemma_after_slash(Seq::empty(), name);
    assert(Seq::<char>::empty() + name =~= name);
}

proof fn lemma_slashes(s: Seq<char>, n: nat)
    requires
        s.len() > 0,
        s.last() != '/',
    ensures
        without_trailing_slashes(s + Seq::new(n, |i: int| '/')) == s,
    decreases n,
{
    let t = s + Seq::new(n, |i: int| '/');
    if n > 0 {
        let m = (n - 1) as nat;
        assert(t.drop_last() =~= s + Seq::new(m, |i: int| '/'));
        lemma_slashes(s, m);
    } else {
        assert(t =~= s);
    }
}

proof fn lemma_after_slash(head: Seq<char>, name: Seq<char>)
    requires
        head.len() == 0 || head.last() == '/',
        !name.contains('/'),
    ensures
        after_last_slash(head + name) == name,
    decreases name.len(),
{
    let s = head + name;
    if name.len() == 0 {
        assert(s =~= head);
        assert(name =~= Seq::<char>::empty());
    } else {
        let short = name.drop_last();
        assert(name.contains(name.last()));
        assert(s.drop_last() =~= head + short);
        assert(!short.contains('/')) by {
            if short.contains('/') {
                let k = choose|k: int| 0 <= k < short.len() && short[k] == '/';
                assert(name[k] == '/');
            }
        }
        lemma_after_slash(head, short);
        assert(short.push(name.last()) =~= name);
    }
}

} // verus!
