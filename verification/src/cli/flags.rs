//! Flag definitions, and the set of flags that a command line is parsed into.
use vstd::prelude::*;
use vstd::string::*;

use crate::cli::number::{
    bool_of, int_of, parse_bool, parse_int_base0, NumError,
};
use crate::cli::quote::{go_quote, is_white_space, quoted, white_space};
use crate::text::{
    chars_of, find_char, position_of, push_signed, signed_decimal, split, split_at_char, str_eq,
    string_of, strings, substring, texts, trim_char, trimmed_of_char,
};

verus! {

// ---------------------------------------------------------------------------------------
// Flag definitions
// ---------------------------------------------------------------------------------------
/// Default value of a flag, which also decides its type. A truth value has no default but
/// `false`, and is shown without a placeholder.
#[derive(Debug, Clone, Copy, PartialEq, Eq)]
pub enum FlagDefault<'a> {
    Str(&'a str),
    Int(i64),
    Bool,
}

/// One command-line flag.
///
/// `name` holds the flag's names separated by commas, spaces around them ignored: `"remoteaddr, r"`
/// defines `remoteaddr` and `r`.
#[derive(Debug, Clone, Copy, PartialEq, Eq)]
pub struct FlagSpec<'a> {
    pub name: &'a str,
    pub default: FlagDefault<'a>,
    pub usage: &'a str,
    /// Environment variables consulted for the default value, separated by commas (empty: none).
    pub env: &'a str,
    /// Hidden flags are parsed normally but left out of the help text.
    pub hidden: bool,
}

/// The names in a comma-separated list, without the spaces around them.
pub open spec fn names_of(name: Seq<char>) -> Seq<Seq<char>> {
    let parts = split(name, ',');
    Seq::new(parts.len(), |i: int| trim_char(parts[i], ' '))
}

impl<'a> FlagSpec<'a> {
    /// A string flag.
    pub fn str_flag(name: &'a str, default: &'a str, usage: &'a str) -> (f: Self)
        ensures
            f == (FlagSpec { name, default: FlagDefault::Str(default), usage, env: "", hidden: false }),
    {
        FlagSpec { name, default: FlagDefault::Str(default), usage, env: "", hidden: false }
    }

    /// An int flag.
    pub fn int_flag(name: &'a str, default: i64, usage: &'a str) -> (f: Self)
        ensures
            f == (FlagSpec { name, default: FlagDefault::Int(default), usage, env: "", hidden: false }),
    {
        FlagSpec { name, default: FlagDefault::Int(default), usage, env: "", hidden: false }
    }

    /// A bool flag; its default is always `false`.
    pub fn bool_flag(name: &'a str, usage: &'a str) -> (f: Self)
        ensures
            f == (FlagSpec { name, default: FlagDefault::Bool, usage, env: "", hidden: false }),
    {
        FlagSpec { name, default: FlagDefault::Bool, usage, env: "", hidden: false }
    }

    /// Sets the environment variables used as the default.
    pub fn env(self, env: &'a str) -> (f: Self)
        ensures
            f == (FlagSpec { env, ..self }),
    {
        FlagSpec { env, ..self }
    }

    /// Hides the flag from the help text.
    pub fn hidden(self) -> (f: Self)
        ensures
            f == (FlagSpec { hidden: true, ..self }),
    {
        FlagSpec { hidden: true, ..self }
    }

    /// The flag's names, in declaration order.
    pub fn names(&self) -> (v: Vec<String>)
        ensures
            strings(v@) == names_of(self.name@),
            v.len() >= 1,
    {
        each_name(self.name)
    }
}

/// Splits a list of names: comma separated, spaces trimmed.
pub fn each_name(name: &str) -> (v: Vec<String>)
    ensures
        strings(v@) == names_of(name@),
        v.len() >= 1,
{
    let all = chars_of(name);
    let parts = split_at_char(all.as_slice(), ',');
    let mut v: Vec<String> = Vec::new();
    let mut i: usize = 0;
    while i < parts.len()
        invariant
            i <= parts.len(),
            parts.len() == names_of(name@).len(),
            texts(parts@) == split(name@, ','),
            v.len() == i,
            strings(v@) == names_of(name@).take(i as int),
        decreases parts.len() - i,
    {
        assert(texts(parts@)[i as int] == parts@[i as int]@);
        let ghost before = strings(v@);
        let part = string_of(trimmed_of_char(parts[i].as_slice(), ' '));
        v.push(part);
        assert(strings(v@) =~= before.push(part@));
        i = i + 1;
        assert(strings(v@) =~= names_of(name@).take(i as int));
    }
    assert(names_of(name@).take(i as int) =~= names_of(name@));
    v
}

// ---------------------------------------------------------------------------------------
// Errors
// ---------------------------------------------------------------------------------------
impl NumError {
    /// How the error is worded for a flag.
    pub open spec fn flag_message(self) -> Seq<char> {
        match self {
            NumError::Syntax => "parse error"@,
            NumError::Range => "value out of range"@,
        }
    }

    /// How the error is worded for the conversion itself.
    pub open spec fn conversion_message(self, func: Seq<char>, num: Seq<char>) -> Seq<char> {
        "strconv."@ + func + ": parsing "@ + quoted(num) + ": "@ + (match self {
            NumError::Syntax => "invalid syntax"@,
            NumError::Range => "value out of range"@,
        })
    }

    /// The text shown for a flag's value.
    pub fn flag_text(self) -> (s: &'static str)
        ensures
            s@ == self.flag_message(),
    {
        match self {
            NumError::Syntax => "parse error",
            NumError::Range => "value out of range",
        }
    }

    /// The text that names the conversion and the value.
    pub fn strconv_text(self, func: &str, num: &str) -> (s: String)
        ensures
            s@ == self.conversion_message(func@, num@),
    {
        let reason = match self {
            NumError::Syntax => "invalid syntax",
            NumError::Range => "value out of range",
        };
        let mut s = "strconv.".to_owned();
        s.append(func);
        s.append(": parsing ");
        s.append(go_quote(num).as_str());
        s.append(": ");
        s.append(reason);
        s
    }
}

/// A command-line error.
#[derive(Debug, PartialEq, Eq)]
pub enum UsageError {
    BadFlagSyntax(String),
    NotDefined(String),
    /// Help was asked for with `-h` or `-help`, and neither is a defined flag.
    Help,
    InvalidBoolValue { value: String, name: String },
    NeedsArgument(String),
    InvalidValue {
        value: String,
        name: String,
        /// `"parse error"` or `"value out of range"`.
        reason: &'static str,
    },
    /// Two aliases of the same flag were given on the command line.
    TwoForms { name: String, other: String },
    /// An environment variable could not be converted to the flag's type.
    Env { value: String, kind: &'static str, name: String, detail: String },
}

/// A command-line error, its texts taken as sequences of characters.
#[verifier::ext_equal]
pub enum Usage {
    BadFlagSyntax(Seq<char>),
    NotDefined(Seq<char>),
    Help,
    InvalidBoolValue { value: Seq<char>, name: Seq<char> },
    NeedsArgument(Seq<char>),
    InvalidValue { value: Seq<char>, name: Seq<char>, reason: Seq<char> },
    TwoForms { name: Seq<char>, other: Seq<char> },
    Env { value: Seq<char>, kind: Seq<char>, name: Seq<char>, detail: Seq<char> },
}

impl View for UsageError {
    type V = Usage;

    open spec fn view(&self) -> Usage {
        match *self {
            UsageError::BadFlagSyntax(s) => Usage::BadFlagSyntax(s@),
            UsageError::NotDefined(s) => Usage::NotDefined(s@),
            UsageError::Help => Usage::Help,
            UsageError::InvalidBoolValue { value, name } => Usage::InvalidBoolValue {
                value: value@,
                name: name@,
            },
            UsageError::NeedsArgument(s) => Usage::NeedsArgument(s@),
            UsageError::InvalidValue { value, name, reason } => Usage::InvalidValue {
                value: value@,
                name: name@,
                reason: reason@,
            },
            UsageError::TwoForms { name, other } => Usage::TwoForms { name: name@, other: other@ },
            UsageError::Env { value, kind, name, detail } => Usage::Env {
                value: value@,
                kind: kind@,
                name: name@,
                detail: detail@,
            },
        }
    }
}

impl Usage {
    /// The text of the error.
    pub open spec fn text(self) -> Seq<char> {
        match self {
            Usage::BadFlagSyntax(s) => "bad flag syntax: "@ + s,
            Usage::NotDefined(s) => "flag provided but not defined: -"@ + s,
            Usage::Help => "flag: help requested"@,
            Usage::InvalidBoolValue { value, name } => "invalid boolean value "@ + quoted(value)
                + " for -"@ + name + ": parse error"@,
            Usage::NeedsArgument(s) => "flag needs an argument: -"@ + s,
            Usage::InvalidValue { value, name, reason } => "invalid value "@ + quoted(value)
                + " for flag -"@ + name + ": "@ + reason,
            Usage::TwoForms { name, other } => "Cannot use two forms of the same flag: "@ + name
                + " "@ + other,
            Usage::Env { value, kind, name, detail } => "could not parse "@ + value + " as "@ + kind
                + " value for flag "@ + name + ": "@ + detail,
        }
    }
}

impl UsageError {
    /// The text of the error.
    pub fn message(&self) -> (s: String)
        ensures
            s@ == self@.text(),
    {
        match self {
            UsageError::BadFlagSyntax(arg) => "bad flag syntax: ".to_owned().concat(arg.as_str()),
            UsageError::NotDefined(name) => "flag provided but not defined: -".to_owned().concat(
                name.as_str(),
            ),
            UsageError::Help => "flag: help requested".to_owned(),
            UsageError::InvalidBoolValue { value, name } => {
                let mut s = "invalid boolean value ".to_owned();
                s.append(go_quote(value.as_str()).as_str());
                s.append(" for -");
                s.append(name.as_str());
                s.append(": parse error");
                s
            },
            UsageError::NeedsArgument(name) => "flag needs an argument: -".to_owned().concat(
                name.as_str(),
            ),
            UsageError::InvalidValue { value, name, reason } => {
                let mut s = "invalid value ".to_owned();
                s.append(go_quote(value.as_str()).as_str());
                s.append(" for flag -");
                s.append(name.as_str());
                s.append(": ");
                s.append(reason);
                s
            },
            UsageError::TwoForms { name, other } => {
                let mut s = "Cannot use two forms of the same flag: ".to_owned();
                s.append(name.as_str());
                s.append(" ");
                s.append(other.as_str());
                s
            },
            UsageError::Env { value, kind, name, detail } => {
                let mut s = "could not parse ".to_owned();
                s.append(value.as_str());
                s.append(" as ");
                s.append(kind);
                s.append(" value for flag ");
                s.append(name.as_str());
                s.append(": ");
                s.append(detail.as_str());
                s
            },
        }
    }
}

// ---------------------------------------------------------------------------------------
// Environment
// ---------------------------------------------------------------------------------------
/// Environment lookup. An environment answers the same question the same way.
pub trait Env {
    /// The value of a variable, if it is set.
    spec fn var(&self, key: Seq<char>) -> Option<Seq<char>>;

    /// The value of a variable: `Some` even when it is set to the empty string.
    fn get(&self, key: &str) -> (r: Option<String>)
        ensures
            r is Some <==> self.var(key@) is Some,
            r is Some ==> r->0@ == self.var(key@)->0,
    ;
}

/// An empty environment.
impl Env for () {
    open spec fn var(&self, key: Seq<char>) -> Option<Seq<char>> {
        None
    }

    fn get(&self, key: &str) -> (r: Option<String>) {
        None
    }
}

/// The value that a list of variables gives a name, the last entry counting.
pub open spec fn last_var(vars: Seq<(String, String)>, key: Seq<char>) -> Option<Seq<char>>
    decreases vars.len(),
{
    if vars.len() == 0 {
        None
    } else if vars.last().0@ == key {
        Some(vars.last().1@)
    } else {
        last_var(vars.drop_last(), key)
    }
}

/// An environment given as a list of names and values.
impl Env for Vec<(String, String)> {
    open spec fn var(&self, key: Seq<char>) -> Option<Seq<char>> {
        last_var(self@, key)
    }

    fn get(&self, key: &str) -> (r: Option<String>) {
        let mut i: usize = self.len();
        assert(self@.take(i as int) =~= self@);
        while i > 0
            invariant
                i <= self.len(),
                last_var(self@.take(i as int), key@) == last_var(self@, key@),
            decreases i,
        {
            assert(self@.take(i as int).drop_last() =~= self@.take(i - 1));
            i = i - 1;
            if str_eq(self[i].0.as_str(), key) {
                return Some(self[i].1.clone());
            }
        }
        None
    }
}

/// `s` without the white space at its start.
pub open spec fn trim_start(s: Seq<char>) -> Seq<char>
    decreases s.len(),
{
    if s.len() > 0 && is_white_space(s[0]) {
        trim_start(s.skip(1))
    } else {
        s
    }
}

/// `s` without the white space at its end.
pub open spec fn trim_end(s: Seq<char>) -> Seq<char>
    decreases s.len(),
{
    if s.len() > 0 && is_white_space(s.last()) {
        trim_end(s.drop_last())
    } else {
        s
    }
}

/// `s` without the white space at its ends.
pub open spec fn trim(s: Seq<char>) -> Seq<char> {
    trim_end(trim_start(s))
}

/// `s` without the white space at its ends.
pub(crate) fn trimmed(text: &str) -> (r: String)
    ensures
        r@ == trim(text@),
{
    let s = chars_of(text);
    let mut i: usize = 0;
    assert(s@.skip(0) =~= s@);
    while i < s.len() && white_space(s[i])
        invariant
            i <= s.len(),
            trim_start(s@.skip(i as int)) == trim_start(s@),
        decreases s.len() - i,
    {
        assert(s@.skip(i as int).skip(1) =~= s@.skip(i + 1));
        i = i + 1;
    }
    let mut j: usize = s.len();
    let ghost left = s@.skip(i as int);
    assert(s@.subrange(i as int, j as int) =~= left);
    while j > i && white_space(s[j - 1])
        invariant
            i <= j <= s.len(),
            trim_end(s@.subrange(i as int, j as int)) == trim_end(left),
        decreases j,
    {
        assert(s@.subrange(i as int, j as int).drop_last() =~= s@.subrange(i as int, j - 1));
        j = j - 1;
    }
    substring(s.as_slice(), i, j)
}

// ---------------------------------------------------------------------------------------
// Values and flag set
// ---------------------------------------------------------------------------------------
/// The value of one flag.
#[derive(Debug, PartialEq, Eq)]
pub enum Value {
    Str(String),
    Int(i64),
    Bool(bool),
}

/// The value of one flag, its text taken as a sequence of characters.
#[verifier::ext_equal]
pub enum Val {
    Str(Seq<char>),
    Int(int),
    Bool(bool),
}

impl View for Value {
    type V = Val;

    open spec fn view(&self) -> Val {
        match *self {
            Value::Str(s) => Val::Str(s@),
            Value::Int(i) => Val::Int(i as int),
            Value::Bool(b) => Val::Bool(b),
        }
    }
}

impl Val {
    /// The value as text.
    pub open spec fn text(self) -> Seq<char> {
        match self {
            Val::Str(s) => s,
            Val::Int(i) => signed_decimal(i),
            Val::Bool(b) => if b {
                "true"@
            } else {
                "false"@
            },
        }
    }
}

impl Value {
    /// The value as text, which is what lookups read again.
    pub fn go_string(&self) -> (s: String)
        ensures
            s@ == self@.text(),
    {
        match self {
            Value::Str(s) => s.clone(),
            Value::Int(i) => {
                let mut s = String::new();
                push_signed(&mut s, *i);
                assert(s@ =~= signed_decimal(*i as int));
                s
            },
            Value::Bool(b) => if *b {
                "true".to_owned()
            } else {
                "false".to_owned()
            },
        }
    }

    /// The same value again.
    pub fn copied(&self) -> (v: Value)
        ensures
            v@ == self@,
    {
        match self {
            Value::Str(s) => Value::Str(s.clone()),
            Value::Int(i) => Value::Int(*i),
            Value::Bool(b) => Value::Bool(*b),
        }
    }
}

/// One entry of the flag set: every name has a value of its own, so aliases start out unrelated.
#[derive(Debug)]
pub struct Entry {
    pub name: String,
    pub value: Value,
}

/// A parsed set of flags.
#[derive(Debug)]
pub struct FlagSet {
    pub entries: Vec<Entry>,
    /// Names that were set on the command line.
    pub actual: Vec<String>,
    /// Arguments left after parsing stopped.
    pub args: Vec<String>,
}

/// What a flag set holds.
#[verifier::ext_equal]
pub struct Flags {
    /// Names and values; the last entry of a name counts.
    pub entries: Seq<(Seq<char>, Val)>,
    /// Names that were set on the command line.
    pub actual: Set<Seq<char>>,
    /// Arguments left.
    pub args: Seq<Seq<char>>,
}

/// The names and values of some entries.
pub open spec fn entry_contents(v: Seq<Entry>) -> Seq<(Seq<char>, Val)> {
    Seq::new(v.len(), |i: int| (v[i].name@, v[i].value@))
}

impl View for FlagSet {
    type V = Flags;

    open spec fn view(&self) -> Flags {
        Flags {
            entries: entry_contents(self.entries@),
            actual: strings(self.actual@).to_set(),
            args: strings(self.args@),
        }
    }
}

/// The position of the last entry with a name; -1 when there is none.
pub open spec fn last_entry(entries: Seq<(Seq<char>, Val)>, name: Seq<char>) -> int
    decreases entries.len(),
{
    if entries.len() == 0 {
        -1
    } else if entries.last().0 == name {
        entries.len() - 1
    } else {
        last_entry(entries.drop_last(), name)
    }
}

/// The position of the last entry with a name.
pub(crate) fn find_entry(entries: &Vec<Entry>, name: &str) -> (r: Option<usize>)
    ensures
        match r {
            Some(i) => i == last_entry(entry_contents(entries@), name@) && i < entries.len(),
            None => last_entry(entry_contents(entries@), name@) == -1,
        },
{
    let mut i: usize = entries.len();
    let ghost all = entry_contents(entries@);
    assert(all.take(i as int) =~= all);
    while i > 0
        invariant
            i <= entries.len(),
            all == entry_contents(entries@),
            last_entry(all.take(i as int), name@) == last_entry(all, name@),
        decreases i,
    {
        assert(all.take(i as int).drop_last() =~= all.take(i - 1));
        i = i - 1;
        if str_eq(entries[i].name.as_str(), name) {
            return Some(i);
        }
    }
    None
}

/// Whether a name is in a list.
pub(crate) fn listed(v: &Vec<String>, name: &str) -> (r: bool)
    ensures
        r == strings(v@).to_set().contains(name@),
{
    let mut i: usize = 0;
    while i < v.len()
        invariant
            i <= v.len(),
            forall|k: int| 0 <= k < i ==> strings(v@)[k] != name@,
        decreases v.len() - i,
    {
        if str_eq(v[i].as_str(), name) {
            assert(strings(v@)[i as int] == name@);
            return true;
        }
        i = i + 1;
    }
    false
}

impl Flags {
    /// Whether a name is defined.
    pub open spec fn defines(self, name: Seq<char>) -> bool {
        last_entry(self.entries, name) >= 0
    }

    /// The value of a defined name.
    pub open spec fn value(self, name: Seq<char>) -> Val {
        self.entries[last_entry(self.entries, name)].1
    }

    /// The set with a name given a value on the command line.
    pub open spec fn given(self, name: Seq<char>, value: Val) -> Flags {
        let i = last_entry(self.entries, name);
        Flags {
            entries: self.entries.update(i, (name, value)),
            actual: self.actual.insert(name),
            ..self
        }
    }

    /// The set with the first argument gone.
    pub open spec fn shifted(self) -> Flags {
        Flags { args: self.args.skip(1), ..self }
    }

    /// Sets a bool flag, from the text after its `=` if it has one.
    pub open spec fn with_bool(self, name: Seq<char>, attached: Option<Seq<char>>) -> (
        Flags,
        Result<bool, Usage>,
    ) {
        match attached {
            None => (self.given(name, Val::Bool(true)), Ok(true)),
            Some(value) => match bool_of(value) {
                Ok(b) => (self.given(name, Val::Bool(b)), Ok(true)),
                Err(_) => (self, Err(Usage::InvalidBoolValue { value, name })),
            },
        }
    }

    /// Sets a flag that needs a value.
    pub open spec fn with_value(self, name: Seq<char>, value: Seq<char>) -> (
        Flags,
        Result<bool, Usage>,
    ) {
        if self.value(name) is Int {
            match int_of(value) {
                Ok(n) => (self.given(name, Val::Int(n)), Ok(true)),
                Err(e) => (
                    self,
                    Err(Usage::InvalidValue { value, name, reason: e.flag_message() }),
                ),
            }
        } else {
            (self.given(name, Val::Str(value)), Ok(true))
        }
    }

    /// Takes up a flag that has been named, the text after its `=` attached if it has one. A flag
    /// that needs a value and has none attached takes the next argument, whatever it looks like.
    pub open spec fn taken(self, name: Seq<char>, attached: Option<Seq<char>>) -> (
        Flags,
        Result<bool, Usage>,
    ) {
        if !self.defines(name) {
            (
                self,
                Err(
                    if name == "help"@ || name == "h"@ {
                        Usage::Help
                    } else {
                        Usage::NotDefined(name)
                    },
                ),
            )
        } else if self.value(name) is Bool {
            self.with_bool(name, attached)
        } else {
            match attached {
                Some(value) => self.with_value(name, value),
                None => if self.args.len() > 0 {
                    self.shifted().with_value(name, self.args[0])
                } else {
                    (self, Err(Usage::NeedsArgument(name)))
                },
            }
        }
    }

    /// Parses one flag, and says whether one was seen. Parsing stops at the first argument that is
    /// not a flag, and behind a `--`.
    pub open spec fn one_parsed(self) -> (Flags, Result<bool, Usage>) {
        if self.args.len() == 0 || self.args[0].len() < 2 || self.args[0][0] != '-' {
            (self, Ok(false))
        } else if self.args[0] == seq!['-', '-'] {
            (self.shifted(), Ok(false))
        } else {
            let arg = self.args[0];
            let body = arg.skip(
                if arg[1] == '-' {
                    2
                } else {
                    1
                },
            );
            if body[0] == '-' || body[0] == '=' {
                (self, Err(Usage::BadFlagSyntax(arg)))
            } else {
                let eq = find_char(body, '=', 1);
                if eq < body.len() {
                    self.shifted().taken(body.take(eq), Some(body.skip(eq + 1)))
                } else {
                    self.shifted().taken(body, None)
                }
            }
        }
    }

    /// Parses flags until there are no more, or until one is wrong.
    pub open spec fn parsed(self) -> (Flags, Option<Usage>)
        decreases self.args.len(),
    {
        let (next, r) = self.one_parsed();
        match r {
            Err(e) => (next, Some(e)),
            Ok(seen) => if seen && next.args.len() < self.args.len() {
                next.parsed()
            } else {
                (next, None)
            },
        }
    }

    /// Copies a value to an alias by its text. What does not read as the alias's type is not
    /// copied.
    pub open spec fn copied_to(self, name: Seq<char>, value: Val) -> Flags {
        if !self.defines(name) {
            self
        } else {
            match self.value(name) {
                Val::Int(_) => match int_of(value.text()) {
                    Ok(n) => self.given(name, Val::Int(n)),
                    Err(_) => self,
                },
                Val::Bool(_) => match bool_of(value.text()) {
                    Ok(b) => self.given(name, Val::Bool(b)),
                    Err(_) => self,
                },
                Val::Str(_) => self.given(name, Val::Str(value.text())),
            }
        }
    }

    /// Copies a value to those of the names that have not been given.
    pub open spec fn copied_to_all(self, names: Seq<Seq<char>>, value: Val) -> Flags
        decreases names.len(),
    {
        if names.len() == 0 {
            self
        } else {
            let next = if self.actual.contains(names[0]) {
                self
            } else {
                self.copied_to(names[0], value)
            };
            next.copied_to_all(names.skip(1), value)
        }
    }

    /// The first position from `i` on of a name that was given; the length when there is none.
    pub open spec fn first_given(self, names: Seq<Seq<char>>, i: int) -> int
        decreases names.len() - i,
    {
        if i >= names.len() || self.actual.contains(names[i]) {
            i
        } else {
            self.first_given(names, i + 1)
        }
    }

    /// Makes the aliases of one flag agree, unless two of them were given.
    pub open spec fn agreed(self, names: Seq<Seq<char>>) -> Result<Flags, Usage> {
        let a = self.first_given(names, 0);
        let b = self.first_given(names, a + 1);
        if names.len() == 1 || a >= names.len() {
            Ok(self)
        } else if b < names.len() {
            Err(Usage::TwoForms { name: names[b], other: names[a] })
        } else if !self.defines(names[a]) {
            Ok(self)
        } else {
            Ok(self.copied_to_all(names, self.value(names[a])))
        }
    }

    /// Makes the aliases of every flag agree.
    pub open spec fn normalized<'a>(self, flags: Seq<FlagSpec<'a>>) -> (Flags, Option<Usage>)
        decreases flags.len(),
    {
        if flags.len() == 0 {
            (self, None)
        } else {
            match self.agreed(names_of(flags[0].name@)) {
                Err(e) => (self, Some(e)),
                Ok(next) => next.normalized(flags.skip(1)),
            }
        }
    }
}

/// Adding to a list adds to its set.
proof fn lemma_listed_push(v: Seq<String>, s: String)
    ensures
        strings(v.push(s)).to_set() == strings(v).to_set().insert(s@),
{
    let all = strings(v.push(s));
    assert(all =~= strings(v).push(s@));
    assert forall|x: Seq<char>|
        all.to_set().contains(x) == strings(v).to_set().insert(s@).contains(x) by {
        if strings(v).contains(x) {
            let k = choose|k: int| 0 <= k < strings(v).len() && strings(v)[k] == x;
            assert(all[k] == x);
        }
        if x == s@ {
            assert(all[v.len() as int] == x);
        }
        if all.contains(x) && x != s@ {
            let k = choose|k: int| 0 <= k < all.len() && all[k] == x;
            assert(strings(v)[k] == x);
        }
    }
    assert(all.to_set() =~= strings(v).to_set().insert(s@));
}

/// The last entry of a name has that name.
proof fn lemma_last_entry(entries: Seq<(Seq<char>, Val)>, name: Seq<char>)
    ensures
        -1 <= last_entry(entries, name) < entries.len(),
        last_entry(entries, name) >= 0 ==> entries[last_entry(entries, name)].0 == name,
    decreases entries.len(),
{
    if entries.len() > 0 && entries.last().0 != name {
        lemma_last_entry(entries.drop_last(), name);
    }
}

/// The string at the front of a list, taken out of it.
fn take_first(v: &mut Vec<String>) -> (s: String)
    requires
        old(v).len() > 0,
    ensures
        s@ == strings(old(v)@)[0],
        strings(final(v)@) == strings(old(v)@).skip(1),
{
    let s = v.remove(0);
    assert(strings(v@) =~= strings(old(v)@).skip(1));
    s
}

impl FlagSet {
    /// An empty set.
    pub fn new() -> (f: FlagSet)
        ensures
            f@ == (Flags {
                entries: Seq::<(Seq<char>, Val)>::empty(),
                actual: Set::<Seq<char>>::empty(),
                args: Seq::<Seq<char>>::empty(),
            }),
    {
        let f = FlagSet { entries: Vec::new(), actual: Vec::new(), args: Vec::new() };
        assert(f@.entries =~= Seq::<(Seq<char>, Val)>::empty());
        assert(f@.actual =~= Set::<Seq<char>>::empty());
        assert(f@.args =~= Seq::<Seq<char>>::empty());
        f
    }

    /// The value of a name.
    pub fn lookup(&self, name: &str) -> (r: Option<&Value>)
        ensures
            match r {
                Some(v) => self@.defines(name@) && v@ == self@.value(name@),
                None => !self@.defines(name@),
            },
    {
        match find_entry(&self.entries, name) {
            Some(i) => Some(&self.entries[i].value),
            None => None,
        }
    }

    /// Defines a name. A later definition of the same name counts.
    pub fn define(&mut self, name: String, value: Value)
        ensures
            final(self)@ == (Flags { entries: old(self)@.entries.push((name@, value@)), ..old(self)@ }),
    {
        self.entries.push(Entry { name, value });
        assert(self@.entries =~= old(self)@.entries.push((name@, value@)));
    }

    /// Gives a defined name a value, as the command line does.
    fn give(&mut self, name: &str, value: Value)
        requires
            old(self)@.defines(name@),
        ensures
            final(self)@ == old(self)@.given(name@, value@),
    {
        proof {
            lemma_last_entry(self@.entries, name@);
        }
        if let Some(i) = find_entry(&self.entries, name) {
            let entry = Entry { name: name.to_owned(), value };
            self.entries[i] = entry;
            assert(self@.entries =~= old(self)@.entries.update(i as int, (name@, value@)));
        }
        let owned = name.to_owned();
        proof {
            lemma_listed_push(self.actual@, owned);
        }
        self.actual.push(owned);
    }

    /// Parses the arguments: flags until there are no more, or until one is wrong.
    pub fn parse(&mut self, arguments: &[String]) -> (r: Result<(), UsageError>)
        ensures
            ({
                let before = Flags { args: strings(arguments@), ..old(self)@ };
                match r {
                    Ok(()) => before.parsed() == (final(self)@, None::<Usage>),
                    Err(e) => before.parsed() == (final(self)@, Some(e@)),
                }
            }),
    {
        self.args = copied_strings(arguments, 0);
        let ghost before = self@;
        assert(strings(arguments@).skip(0) =~= strings(arguments@));
        loop
            invariant
                self@.parsed() == before.parsed(),
                before == (Flags { args: strings(arguments@), ..old(self)@ }),
            decreases self.args.len(),
        {
            let ghost now = self@;
            match self.parse_one() {
                Ok(true) => {
                    assert(self@.args.len() < now.args.len());
                },
                Ok(false) => {
                    return Ok(());
                },
                Err(e) => {
                    return Err(e);
                },
            }
        }
    }

    /// Parses one flag, and says whether one was seen.
    fn parse_one(&mut self) -> (r: Result<bool, UsageError>)
        ensures
            match r {
                Ok(seen) => old(self)@.one_parsed() == (final(self)@, Ok::<bool, Usage>(seen)),
                Err(e) => old(self)@.one_parsed() == (final(self)@, Err::<bool, Usage>(e@)),
            },
            r == Ok::<bool, UsageError>(true) ==> final(self)@.args.len() < old(self)@.args.len(),
    {
        if self.args.len() == 0 {
            return Ok(false);
        }
        let s = chars_of(self.args[0].as_str());
        if s.len() < 2 || s[0] != '-' {
            return Ok(false);
        }
        let mut start: usize = 1;
        if s[1] == '-' {
            start = 2;
            if s.len() == 2 {
                // "--" terminates the flags
                assert(s@ =~= seq!['-', '-']);
                let _ = take_first(&mut self.args);
                return Ok(false);
            }
        }
        assert(s@ != seq!['-', '-']);
        let body = vstd::slice::slice_subrange(s.as_slice(), start, s.len());
        assert(body@ =~= s@.skip(start as int));
        if body[0] == '-' || body[0] == '=' {
            return Err(UsageError::BadFlagSyntax(self.args[0].clone()));
        }
        // It's a flag. Does it have an argument? An '=' cannot be the first character of a name.
        let _ = take_first(&mut self.args);
        let eq = position_of(body, '=', 1);
        let name = substring(body, 0, eq);
        let attached: Option<String> = if eq < body.len() {
            Some(substring(body, eq + 1, body.len()))
        } else {
            None
        };
        proof {
            assert(body@.subrange(0, eq as int) =~= body@.take(eq as int));
            if eq < body.len() {
                assert(body@.subrange(eq + 1, body@.len() as int) =~= body@.skip(eq + 1));
            } else {
                assert(name@ =~= body@);
            }
        }
        self.take_flag(name, attached)
    }

    /// Takes up a flag that has been named.
    fn take_flag(&mut self, name: String, attached: Option<String>) -> (r: Result<bool, UsageError>)
        ensures
            ({
                let spec_attached = match attached {
                    Some(s) => Some(s@),
                    None => None,
                };
                match r {
                    Ok(seen) => seen && old(self)@.taken(name@, spec_attached) == (
                        final(self)@,
                        Ok::<bool, Usage>(seen),
                    ),
                    Err(e) => old(self)@.taken(name@, spec_attached) == (
                        final(self)@,
                        Err::<bool, Usage>(e@),
                    ),
                }
            }),
            final(self)@.args.len() <= old(self)@.args.len(),
    {
        let (is_bool, is_int) = match self.lookup(name.as_str()) {
            None => {
                if str_eq(name.as_str(), "help") || str_eq(name.as_str(), "h") {
                    return Err(UsageError::Help);
                }
                return Err(UsageError::NotDefined(name));
            },
            Some(v) => match v {
                Value::Str(_) => (false, false),
                Value::Int(_) => (false, true),
                Value::Bool(_) => (true, false),
            },
        };
        if is_bool {
            // A bool flag doesn't need an argument.
            let b = match attached {
                None => true,
                Some(value) => match parse_bool(value.as_str()) {
                    Ok(b) => b,
                    Err(_) => {
                        return Err(UsageError::InvalidBoolValue { value, name });
                    },
                },
            };
            self.give(name.as_str(), Value::Bool(b));
            return Ok(true);
        }
        // It must have a value, which might be the next argument.
        let value = match attached {
            Some(value) => value,
            None => {
                if self.args.len() == 0 {
                    return Err(UsageError::NeedsArgument(name));
                }
                take_first(&mut self.args)
            },
        };
        let new = if is_int {
            match parse_int_base0(value.as_str()) {
                Ok(n) => Value::Int(n),
                Err(e) => {
                    return Err(UsageError::InvalidValue { value, name, reason: e.flag_text() });
                },
            }
        } else {
            Value::Str(value)
        };
        self.give(name.as_str(), new);
        Ok(true)
    }

    /// Copies a value to the other aliases of a flag, and rejects using two of them at once.
    pub fn normalize_flags<'a>(&mut self, flags: &[FlagSpec<'a>]) -> (r: Result<(), UsageError>)
        ensures
            match r {
                Ok(()) => old(self)@.normalized(flags@) == (final(self)@, None::<Usage>),
                Err(e) => old(self)@.normalized(flags@) == (final(self)@, Some(e@)),
            },
    {
        let mut i: usize = 0;
        assert(flags@.skip(0) =~= flags@);
        while i < flags.len()
            invariant
                i <= flags.len(),
                self@.normalized(flags@.skip(i as int)) == old(self)@.normalized(flags@),
            decreases flags.len() - i,
        {
            assert(flags@.skip(i as int).skip(1) =~= flags@.skip(i + 1));
            let names = flags[i].names();
            if let Err(e) = self.agree(&names) {
                return Err(e);
            }
            i = i + 1;
        }
        Ok(())
    }

    /// Makes the aliases of one flag agree.
    fn agree(&mut self, names: &Vec<String>) -> (r: Result<(), UsageError>)
        ensures
            match r {
                Ok(()) => old(self)@.agreed(strings(names@)) == Ok::<Flags, Usage>(final(self)@),
                Err(e) => {
                    &&& old(self)@.agreed(strings(names@)) == Err::<Flags, Usage>(e@)
                    &&& final(self)@ == old(self)@
                },
            },
    {
        if names.len() == 1 {
            return Ok(());
        }
        let a = self.find_given(names, 0);
        if a >= names.len() {
            return Ok(());
        }
        let b = self.find_given(names, a + 1);
        if b < names.len() {
            return Err(
                UsageError::TwoForms { name: names[b].clone(), other: names[a].clone() },
            );
        }
        let value = match self.lookup(names[a].as_str()) {
            Some(v) => v.copied(),
            None => {
                return Ok(());
            },
        };
        let ghost all = strings(names@);
        let mut i: usize = 0;
        assert(all.skip(0) =~= all);
        while i < names.len()
            invariant
                i <= names.len(),
                all == strings(names@),
                self@.copied_to_all(all.skip(i as int), value@) == old(self)@.copied_to_all(
                    all,
                    value@,
                ),
            decreases names.len() - i,
        {
            assert(all.skip(i as int).skip(1) =~= all.skip(i + 1));
            if !listed(&self.actual, names[i].as_str()) {
                self.copy_flag(names[i].as_str(), &value);
            }
            i = i + 1;
        }
        Ok(())
    }

    /// The first position from `from` on of a name that was given.
    fn find_given(&self, names: &Vec<String>, from: usize) -> (i: usize)
        requires
            from <= names.len(),
        ensures
            i == self@.first_given(strings(names@), from as int),
            from <= i <= names.len(),
    {
        let mut i: usize = from;
        while i < names.len()
            invariant
                from <= i <= names.len(),
                self@.first_given(strings(names@), i as int) == self@.first_given(
                    strings(names@),
                    from as int,
                ),
            decreases names.len() - i,
        {
            if listed(&self.actual, names[i].as_str()) {
                return i;
            }
            i = i + 1;
        }
        i
    }

    /// Copies a value to an alias by its text, and marks the alias as given.
    fn copy_flag(&mut self, name: &str, value: &Value)
        ensures
            final(self)@ == old(self)@.copied_to(name@, value@),
    {
        let text = value.go_string();
        let new = match self.lookup(name) {
            None => {
                return;
            },
            Some(v) => match v {
                Value::Int(_) => match parse_int_base0(text.as_str()) {
                    Ok(n) => Value::Int(n),
                    Err(_) => {
                        return;
                    },
                },
                Value::Bool(_) => match parse_bool(text.as_str()) {
                    Ok(b) => Value::Bool(b),
                    Err(_) => {
                        return;
                    },
                },
                Value::Str(_) => Value::Str(text),
            },
        };
        self.give(name, new);
    }
}

/// The strings of `v` from `from` on.
pub(crate) fn copied_strings(v: &[String], from: usize) -> (r: Vec<String>)
    requires
        from <= v.len(),
    ensures
        strings(r@) == strings(v@).skip(from as int),
{
    let mut r: Vec<String> = Vec::new();
    let mut i: usize = from;
    assert(strings(r@) =~= strings(v@).subrange(from as int, from as int));
    while i < v.len()
        invariant
            from <= i <= v.len(),
            strings(r@) == strings(v@).subrange(from as int, i as int),
        decreases v.len() - i,
    {
        let ghost before = strings(r@);
        let s = v[i].clone();
        r.push(s);
        assert(strings(r@) =~= before.push(s@));
        i = i + 1;
        assert(strings(r@) =~= strings(v@).subrange(from as int, i as int));
    }
    assert(strings(r@) =~= strings(v@).skip(from as int));
    r
}

/// Whether a text is white space: the control characters 9 to 13, the blank, and the blanks of other
/// widths.
pub open spec fn all_blank(s: Seq<char>) -> bool {
    forall|i: int|
        0 <= i < s.len() ==> {
            let v = (#[trigger] s[i]) as u32;
            0x9 <= v <= 0xd || v == 0x20 || v == 0x85 || v == 0xa0 || v == 0x1680 || 0x2000 <= v
                <= 0x200a || v == 0x2028 || v == 0x2029 || v == 0x202f || v == 0x205f || v == 0x3000
        }
}

/// Trimming takes away the white space at both ends of a text, whichever it is and however much, and
/// nothing of the text.
pub proof fn trimming_takes_white_space(a: Seq<char>, s: Seq<char>, b: Seq<char>)
    requires
        all_blank(a),
        all_blank(b),
        s.len() > 0,
        !all_blank(seq![s[0]]),
        !all_blank(seq![s.last()]),
    ensures
        trim(a + s + b) == s,
{
    assert(!is_white_space(s[0])) by {
        if is_white_space(s[0]) {
            assert(all_blank(seq![s[0]]));
        }
    }
    assert(!is_white_space(s.last())) by {
        if is_white_space(s.last()) {
            assert(all_blank(seq![s.last()]));
        }
    }
    lemma_trimmed_start(a, s + b);
    assert(a + s + b =~= a + (s + b));
    lemma_trimmed_end(s, b);
}

proof fn lemma_trimmed_start(a: Seq<char>, s: Seq<char>)
    requires
        all_blank(a),
        s.len() > 0,
        !is_white_space(s[0]),
    ensures
        trim_start(a + s) == s,
    decreases a.len(),
{
    if a.len() > 0 {
        assert((a + s)[0] == a[0]);
        assert((a + s).skip(1) =~= a.skip(1) + s);
        assert forall|i: int| 0 <= i < a.skip(1).len() implies is_white_space(
            #[trigger] a.skip(1)[i],
        ) by {
            assert(a.skip(1)[i] == a[i + 1]);
        }
        lemma_trimmed_start(a.skip(1), s);
    } else {
        assert(a + s =~= s);
    }
}

proof fn lemma_trimmed_end(s: Seq<char>, b: Seq<char>)
    requires
        all_blank(b),
        s.len() > 0,
        !is_white_space(s.last()),
    ensures
        trim_end(s + b) == s,
    decreases b.len(),
{
    if b.len() > 0 {
        assert((s + b).last() == b.last());
        assert((s + b).drop_last() =~= s + b.drop_last());
        assert forall|i: int| 0 <= i < b.drop_last().len() implies is_white_space(
            #[trigger] b.drop_last()[i],
        ) by {
            assert(b.drop_last()[i] == b[i]);
        }
        lemma_trimmed_end(s, b.drop_last());
    } else {
        assert(s + b =~= s);
    }
}

} // verus!
