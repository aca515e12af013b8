//! What holds of every command line.
use vstd::prelude::*;

use crate::cli::app::{
    context_of, defined, first_var, help_flag, initial_value, no_flags, version_flag, visible,
    with_names, App, Parsed,
};
use crate::cli::flags::{last_entry, names_of, Env, FlagSpec, Flags, Usage, Val};
use crate::cli::number::{a_printed_bool_reads_back, a_printed_number_reads_back};
use crate::text::{
    find_char, lemma_split_nonempty, lemma_split_two, trim_char, trim_end_char, trim_start_char,
};

verus! {

/// A name that can be spelled on the command line: it does not begin with a dash, and it holds no
/// equals sign.
pub open spec fn can_be_spelled(name: Seq<char>) -> bool {
    name.len() > 0 && name[0] != '-' && !name.contains('=')
}

pub(crate) proof fn lemma_find_none(s: Seq<char>, c: char, from: int)
    requires
        0 <= from <= s.len(),
        !s.contains(c),
    ensures
        find_char(s, c, from) == s.len(),
    decreases s.len() - from,
{
    if from < s.len() {
        assert(s[from] != c);
        lemma_find_none(s, c, from + 1);
    }
}

pub(crate) proof fn lemma_find_at(s: Seq<char>, c: char, from: int, at: int)
    requires
        0 <= from <= at < s.len(),
        s[at] == c,
        forall|i: int| from <= i < at ==> s[i] != c,
    ensures
        find_char(s, c, from) == at,
    decreases at - from,
{
    if from < at {
        lemma_find_at(s, c, from + 1, at);
    }
}

/// One dash and two dashes are the same.
pub proof fn single_and_double_dash_are_equivalent(
    f: Flags,
    name: Seq<char>,
    rest: Seq<Seq<char>>,
)
    requires
        can_be_spelled(name),
    ensures
        (Flags { args: seq![seq!['-'] + name] + rest, ..f }).one_parsed() == (Flags {
            args: seq![seq!['-', '-'] + name] + rest,
            ..f
        }).one_parsed(),
{
    let one = seq!['-'] + name;
    let two = seq!['-', '-'] + name;
    let a = Flags { args: seq![one] + rest, ..f };
    let b = Flags { args: seq![two] + rest, ..f };
    assert(one.skip(1) =~= name);
    assert(two.skip(2) =~= name);
    assert(a.shifted() =~= Flags { args: rest, ..f });
    assert(b.shifted() =~= Flags { args: rest, ..f });
    assert(a.args[0] == one);
    assert(b.args[0] == two);
    assert(one[1] == name[0]);
    assert(two[1] == '-');
    assert(two.len() > 2);
    assert(name[0] != '=') by {
        if name[0] == '=' {
            assert(name.contains('='));
        }
    }
    assert(two != seq!['-', '-']);
    assert(one != seq!['-', '-']) by {
        assert(one[1] != '-');
    }
}

/// `-name value` and `-name=value` are the same for a flag that takes a value, whatever the value
/// looks like.
pub proof fn equals_and_next_argument_are_equivalent(
    f: Flags,
    name: Seq<char>,
    value: Seq<char>,
    rest: Seq<Seq<char>>,
)
    requires
        can_be_spelled(name),
        f.defines(name),
        f.value(name) !is Bool,
    ensures
        (Flags { args: seq![seq!['-'] + name, value] + rest, ..f }).one_parsed() == (Flags {
            args: seq![seq!['-'] + name + seq!['='] + value] + rest,
            ..f
        }).one_parsed(),
{
    let bare = seq!['-'] + name;
    let joint = seq!['-'] + name + seq!['='] + value;
    let a = Flags { args: seq![bare, value] + rest, ..f };
    let b = Flags { args: seq![joint] + rest, ..f };
    assert(name[0] != '=') by {
        if name[0] == '=' {
            assert(name.contains('='));
        }
    }
    assert(bare[1] == name[0]);
    assert(joint[1] == name[0]);
    assert(bare != seq!['-', '-']);
    assert(joint != seq!['-', '-']);
    assert(a.args[0] == bare);
    assert(b.args[0] == joint);
    assert(bare.skip(1) =~= name);
    let body = joint.skip(1);
    assert(body =~= name + seq!['='] + value);
    lemma_find_none(name, '=', 1);
    assert forall|i: int| 1 <= i < name.len() implies body[i] != '=' by {
        assert(name[i] != '=');
    }
    lemma_find_at(body, '=', 1, name.len() as int);
    assert(body.take(name.len() as int) =~= name);
    assert(body.skip(name.len() as int + 1) =~= value);
    assert(a.shifted().args =~= seq![value] + rest);
    assert(a.shifted().args[0] == value);
    assert(a.shifted().shifted() =~= Flags { args: rest, ..f });
    assert(b.shifted() =~= Flags { args: rest, ..f });
}

/// The four ways in which a flag can be given a value: with one dash or two, and with the value in the
/// same argument or in the next.
pub open spec fn spelled(
    name: Seq<char>,
    value: Seq<char>,
    two_dashes: bool,
    attached: bool,
) -> Seq<Seq<char>> {
    let dashes = if two_dashes {
        seq!['-', '-']
    } else {
        seq!['-']
    };
    if attached {
        seq![dashes + name + seq!['='] + value]
    } else {
        seq![dashes + name, value]
    }
}

/// What one flag assigns does not depend on its spelling.
proof fn lemma_spelled(
    f: Flags,
    name: Seq<char>,
    value: Seq<char>,
    rest: Seq<Seq<char>>,
    two_dashes: bool,
    attached: bool,
)
    requires
        can_be_spelled(name),
        f.defines(name),
        f.value(name) !is Bool,
    ensures
        (Flags { args: spelled(name, value, two_dashes, attached) + rest, ..f }).one_parsed() == (
        Flags { args: rest, ..f }).with_value(name, value),
{
    let g = Flags { args: spelled(name, value, two_dashes, attached) + rest, ..f };
    let dashes = if two_dashes {
        seq!['-', '-']
    } else {
        seq!['-']
    };
    let n = dashes.len() as int;
    let arg = spelled(name, value, two_dashes, attached)[0];
    let body = arg.skip(n);
    assert(g.args[0] == arg);
    assert(name[0] != '=') by {
        if name[0] == '=' {
            assert(name.contains('='));
        }
    }
    assert(arg[n] == name[0]);
    assert(arg[0] == '-');
    assert(two_dashes ==> arg[1] == '-' && arg.len() > 2);
    assert(arg != seq!['-', '-']) by {
        if arg == seq!['-', '-'] {
            assert(arg.len() == 2 && arg[1] == '-');
        }
    }
    if attached {
        assert(body =~= name + seq!['='] + value);
        assert forall|i: int| 1 <= i < name.len() implies body[i] != '=' by {
            assert(name[i] != '=');
        }
        lemma_find_at(body, '=', 1, name.len() as int);
        assert(body.take(name.len() as int) =~= name);
        assert(body.skip(name.len() as int + 1) =~= value);
        assert(g.shifted() =~= Flags { args: rest, ..f });
    } else {
        assert(body =~= name);
        lemma_find_none(name, '=', 1);
        assert(g.shifted().args =~= seq![value] + rest);
        assert(g.shifted().args[0] == value);
        assert(g.shifted().shifted() =~= Flags { args: rest, ..f });
    }
}

/// Wherever parsing has come to, the rest of a command line is parsed alike for all four spellings
/// of the flag that comes next.
pub proof fn the_spelling_does_not_matter(
    f: Flags,
    name: Seq<char>,
    value: Seq<char>,
    rest: Seq<Seq<char>>,
    two_dashes: bool,
    attached: bool,
)
    requires
        can_be_spelled(name),
        f.defines(name),
        f.value(name) !is Bool,
    ensures
        (Flags { args: spelled(name, value, two_dashes, attached) + rest, ..f }).parsed() == (Flags {
            args: spelled(name, value, false, false) + rest,
            ..f
        }).parsed(),
{
    lemma_spelled(f, name, value, rest, two_dashes, attached);
    lemma_spelled(f, name, value, rest, false, false);
}

/// A run that begins with a flag that takes a value comes to the same for all four spellings of it.
pub proof fn a_run_does_not_depend_on_the_spelling<'a, E: Env>(
    app: App<'a>,
    env: E,
    program: Seq<char>,
    name: Seq<char>,
    value: Seq<char>,
    rest: Seq<Seq<char>>,
    two_dashes: bool,
    attached: bool,
)
    requires
        can_be_spelled(name),
        defined(app.flags@, env, no_flags()) matches Ok(set) ==> set.defines(name) && set.value(name)
            !is Bool,
    ensures
        app.ran(seq![program] + spelled(name, value, two_dashes, attached) + rest, env) == app.ran(
            seq![program] + spelled(name, value, false, false) + rest,
            env,
        ),
{
    let a = spelled(name, value, two_dashes, attached) + rest;
    let b = spelled(name, value, false, false) + rest;
    assert((seq![program] + spelled(name, value, two_dashes, attached) + rest).skip(1) =~= a);
    assert((seq![program] + spelled(name, value, false, false) + rest).skip(1) =~= b);
    if let Ok(set) = defined(app.flags@, env, no_flags()) {
        the_spelling_does_not_matter(set, name, value, rest, two_dashes, attached);
    }
}

/// Parsing stops at the first argument that is not a flag and leaves everything from there on.
pub proof fn parsing_stops_at_the_first_non_flag(f: Flags)
    requires
        f.args.len() > 0,
        f.args[0].len() < 2 || f.args[0][0] != '-',
    ensures
        f.parsed() == (f, None::<Usage>),
{
}

/// `--` ends the flags and is itself consumed.
pub proof fn double_dash_terminates_the_flags(f: Flags)
    requires
        f.args.len() > 0,
        f.args[0] == seq!['-', '-'],
    ensures
        f.parsed() == (Flags { args: f.args.skip(1), ..f }, None::<Usage>),
{
}

/// The last entry of a name has that name, and no later entry has it.
pub(crate) proof fn lemma_last(entries: Seq<(Seq<char>, Val)>, name: Seq<char>)
    ensures
        -1 <= last_entry(entries, name) < entries.len(),
        last_entry(entries, name) >= 0 ==> entries[last_entry(entries, name)].0 == name,
        forall|i: int| last_entry(entries, name) < i < entries.len() ==> entries[i].0 != name,
    decreases entries.len(),
{
    if entries.len() > 0 && entries.last().0 != name {
        lemma_last(entries.drop_last(), name);
        let k = last_entry(entries.drop_last(), name);
        assert forall|i: int| k < i < entries.len() implies entries[i].0 != name by {
            if i < entries.len() - 1 {
                assert(entries.drop_last()[i].0 != name);
            }
        }
    }
}

/// The last entry of a name is the only candidate.
pub(crate) proof fn lemma_last_is(entries: Seq<(Seq<char>, Val)>, name: Seq<char>, k: int)
    requires
        0 <= k < entries.len(),
        entries[k].0 == name,
        forall|i: int| k < i < entries.len() ==> entries[i].0 != name,
    ensures
        last_entry(entries, name) == k,
{
    lemma_last(entries, name);
    let l = last_entry(entries, name);
    if l < k {
        assert(entries[k].0 != name);
    }
    if l > k {
        assert(entries[l].0 != name);
    }
}

/// The last value given to a name counts, it counts as given, and no other name is touched.
pub proof fn the_last_value_counts(f: Flags, name: Seq<char>, value: Val, other: Seq<char>)
    requires
        f.defines(name),
        other != name,
    ensures
        f.given(name, value).defines(name),
        f.given(name, value).value(name) == value,
        f.given(name, value).actual.contains(name),
        f.given(name, value).defines(other) == f.defines(other),
        f.defines(other) ==> f.given(name, value).value(other) == f.value(other),
        f.given(name, value).actual.contains(other) == f.actual.contains(other),
{
    let g = f.given(name, value);
    let k = last_entry(f.entries, name);
    lemma_last(f.entries, name);
    lemma_last_is(g.entries, name, k);
    lemma_last(f.entries, other);
    lemma_last(g.entries, other);
    let m = last_entry(f.entries, other);
    if m >= 0 {
        assert(m != k);
        assert forall|i: int| m < i < g.entries.len() implies g.entries[i].0 != other by {
            if i != k {
                assert(g.entries[i] == f.entries[i]);
            }
        }
        assert(g.entries[m] == f.entries[m]);
        lemma_last_is(g.entries, other, m);
    } else {
        let l = last_entry(g.entries, other);
        if l >= 0 {
            assert(l != k);
            assert(g.entries[l] == f.entries[l]);
            assert(f.entries[l].0 != other);
        }
    }
}

/// Two values of the same type, a number being one that fits in 64 bits.
pub open spec fn same_type(a: Val, b: Val) -> bool {
    match (a, b) {
        (Val::Str(_), Val::Str(_)) => true,
        (Val::Int(x), Val::Int(y)) => i64::MIN <= x <= i64::MAX,
        (Val::Bool(_), Val::Bool(_)) => true,
        _ => false,
    }
}

/// A value is copied unchanged to an alias of its own type.
proof fn lemma_copied(f: Flags, name: Seq<char>, value: Val)
    requires
        f.defines(name),
        same_type(value, f.value(name)),
    ensures
        f.copied_to(name, value) == f.given(name, value),
{
    match value {
        Val::Int(n) => {
            a_printed_number_reads_back(n as i64);
        },
        Val::Bool(b) => {
            a_printed_bool_reads_back();
        },
        Val::Str(_) => {},
    }
}

/// Whether all the names are defined with the type of `value`, and those already given have it.
spec fn ready(f: Flags, names: Seq<Seq<char>>, value: Val) -> bool {
    forall|i: int|
        0 <= i < names.len() ==> {
            &&& f.defines(#[trigger] names[i])
            &&& same_type(value, f.value(names[i]))
            &&& f.actual.contains(names[i]) ==> f.value(names[i]) == value
        }
}

proof fn lemma_copied_to_all(f: Flags, all: Seq<Seq<char>>, names: Seq<Seq<char>>, value: Val)
    requires
        ready(f, all, value),
        same_type(value, value),
        forall|i: int| 0 <= i < names.len() ==> all.contains(#[trigger] names[i]),
    ensures
        ready(f.copied_to_all(names, value), all, value),
        forall|i: int|
            0 <= i < names.len() ==> f.copied_to_all(names, value).actual.contains(
                #[trigger] names[i],
            ),
        forall|n: Seq<char>|
            f.actual.contains(n) ==> f.copied_to_all(names, value).actual.contains(n),
        f.copied_to_all(names, value).args == f.args,
    decreases names.len(),
{
    if names.len() > 0 {
        let first = names[0];
        let k = choose|k: int| 0 <= k < all.len() && all[k] == first;
        assert(all.contains(first));
        assert(f.defines(all[k]));
        let next = if f.actual.contains(first) {
            f
        } else {
            f.copied_to(first, value)
        };
        if !f.actual.contains(first) {
            lemma_copied(f, first, value);
            assert forall|i: int| 0 <= i < all.len() implies ({
                &&& next.defines(#[trigger] all[i])
                &&& same_type(value, next.value(all[i]))
                &&& next.actual.contains(all[i]) ==> next.value(all[i]) == value
            }) by {
                assert(f.defines(all[i]));
                if all[i] == first {
                    let other = first.push('x');
                    assert(other.len() != first.len());
                    the_last_value_counts(f, first, value, other);
                } else {
                    the_last_value_counts(f, first, value, all[i]);
                }
            }
            assert forall|n: Seq<char>| f.actual.contains(n) implies next.actual.contains(n) by {}
            assert(next.actual.contains(first));
        }
        let tail = names.skip(1);
        assert forall|i: int| 0 <= i < tail.len() implies all.contains(#[trigger] tail[i]) by {
            assert(tail[i] == names[i + 1]);
        }
        lemma_copied_to_all(next, all, tail, value);
        let last = f.copied_to_all(names, value);
        assert forall|i: int| 0 <= i < names.len() implies last.actual.contains(
            #[trigger] names[i],
        ) by {
            if i > 0 {
                assert(tail[i - 1] == names[i]);
            }
        }
    }
}

pub(crate) proof fn lemma_first_given(f: Flags, names: Seq<Seq<char>>, i: int)
    requires
        0 <= i <= names.len(),
    ensures
        i <= f.first_given(names, i) <= names.len(),
        f.first_given(names, i) < names.len() ==> f.actual.contains(
            names[f.first_given(names, i)],
        ),
        forall|k: int| i <= k < f.first_given(names, i) ==> !f.actual.contains(#[trigger] names[k]),
    decreases names.len() - i,
{
    if i < names.len() && !f.actual.contains(names[i]) {
        lemma_first_given(f, names, i + 1);
    }
}

/// Once one form of a flag has been given, all forms of it have the same value and count as given.
pub proof fn aliases_share_a_value(f: Flags, names: Seq<Seq<char>>, k: int)
    requires
        names.len() > 1,
        0 <= k < names.len(),
        f.actual.contains(names[k]),
        forall|i: int| 0 <= i < names.len() ==> f.defines(#[trigger] names[i]),
        forall|i: int|
            0 <= i < names.len() ==> same_type(f.value(names[k]), f.value(#[trigger] names[i])),
        forall|i: int| 0 <= i < names.len() && i != k ==> !f.actual.contains(#[trigger] names[i]),
    ensures
        f.agreed(names) is Ok,
        forall|i: int|
            0 <= i < names.len() ==> {
                &&& f.agreed(names)->Ok_0.value(#[trigger] names[i]) == f.value(names[k])
                &&& f.agreed(names)->Ok_0.actual.contains(names[i])
            },
        f.agreed(names)->Ok_0.args == f.args,
{
    lemma_first_given(f, names, 0);
    let a = f.first_given(names, 0);
    if a > k {
        assert(!f.actual.contains(names[k]));
    }
    assert(a == k);
    lemma_first_given(f, names, a + 1);
    let value = f.value(names[k]);
    assert(same_type(value, f.value(names[k])));
    assert(ready(f, names, value));
    lemma_copied_to_all(f, names, names, value);
    let g = f.copied_to_all(names, value);
    assert forall|i: int| 0 <= i < names.len() implies ({
        &&& g.value(#[trigger] names[i]) == value
        &&& g.actual.contains(names[i])
    }) by {
        assert(g.defines(names[i]));
    }
}

/// Giving two forms of the same flag is refused, and nothing else is.
pub proof fn two_forms_of_the_same_flag_are_refused(f: Flags, names: Seq<Seq<char>>)
    requires
        names.len() > 1,
    ensures
        f.agreed(names) is Err <==> exists|i: int, j: int|
            0 <= i < j < names.len() && f.actual.contains(#[trigger] names[i])
                && f.actual.contains(#[trigger] names[j]),
{
    lemma_first_given(f, names, 0);
    let a = f.first_given(names, 0);
    if a < names.len() {
        lemma_first_given(f, names, a + 1);
    }
    if exists|i: int, j: int|
        0 <= i < j < names.len() && f.actual.contains(#[trigger] names[i]) && f.actual.contains(
            #[trigger] names[j],
        ) {
        let (i, j) = choose|i: int, j: int|
            0 <= i < j < names.len() && f.actual.contains(#[trigger] names[i])
                && f.actual.contains(#[trigger] names[j]);
        assert(a <= i);
        assert(f.first_given(names, a + 1) <= j);
    }
}

/// A number in a context reads as that number, and a truth value as that value.
pub proof fn typed_values_read_back(p: Parsed, name: Seq<char>)
    requires
        last_entry(p.entries, name) >= 0,
    ensures
        ({
            let v = p.entries[last_entry(p.entries, name)].1;
            &&& v matches Val::Int(n) ==> i64::MIN <= n <= i64::MAX ==> p.integer(name) == n
            &&& v matches Val::Bool(b) ==> p.bool(name) == b
            &&& v matches Val::Str(s) ==> p.string(name) == s
        }),
{
    let v = p.entries[last_entry(p.entries, name)].1;
    match v {
        Val::Int(n) => {
            if i64::MIN <= n <= i64::MAX {
                a_printed_number_reads_back(n as i64);
            }
        },
        Val::Bool(b) => {
            a_printed_bool_reads_back();
        },
        Val::Str(_) => {},
    }
}

/// A flag is listed in the help text exactly when it is not hidden.
pub proof fn hidden_flags_are_not_listed<'a>(flags: Seq<FlagSpec<'a>>, f: FlagSpec<'a>)
    ensures
        visible(flags).contains(f) <==> flags.contains(f) && !f.hidden,
    decreases flags.len(),
{
    if flags.len() > 0 {
        hidden_flags_are_not_listed(flags.drop_last(), f);
        let v = visible(flags);
        let w = visible(flags.drop_last());
        if flags.drop_last().contains(f) {
            let k = choose|k: int| 0 <= k < flags.drop_last().len() && flags.drop_last()[k] == f;
            assert(flags[k] == f);
        }
        if flags.contains(f) && flags.last() != f {
            let k = choose|k: int| 0 <= k < flags.len() && flags[k] == f;
            assert(flags.drop_last()[k] == f);
        }
        if flags.last() == f {
            assert(flags[flags.len() - 1] == f);
        }
        if w.contains(f) {
            let k = choose|k: int| 0 <= k < w.len() && w[k] == f;
            assert(v[k] == f);
        }
        if !flags.last().hidden {
            assert(v[v.len() - 1] == flags.last());
            if v.contains(f) && flags.last() != f {
                let k = choose|k: int| 0 <= k < v.len() && v[k] == f;
                assert(w[k] == f);
            }
        }
    }
}

// ---------------------------------------------------------------------------------------
// The empty command line
// ---------------------------------------------------------------------------------------
/// An environment without variables gives no flag a value.
pub(crate) proof fn lemma_no_vars(names: Seq<Seq<char>>)
    ensures
        first_var((), names) is None,
    decreases names.len(),
{
    if names.len() > 0 {
        lemma_no_vars(names.skip(1));
    }
}

/// Without an environment every flag has its declared default, and none counts as given.
proof fn lemma_defined<'a>(flags: Seq<FlagSpec<'a>>, set: Flags)
    ensures
        defined(flags, (), set) is Ok,
        defined(flags, (), set)->Ok_0.actual == set.actual,
        defined(flags, (), set)->Ok_0.args == set.args,
    decreases flags.len(),
{
    if flags.len() > 0 {
        lemma_no_vars(names_of(flags[0].env@));
        let v = initial_value(flags[0], ())->Ok_0;
        lemma_defined(flags.skip(1), with_names(set, names_of(flags[0].name@), v));
    }
}

/// The flags are defined one after the other.
proof fn lemma_defined_push<'a>(flags: Seq<FlagSpec<'a>>, f: FlagSpec<'a>, set: Flags)
    ensures
        ({
            let before = defined(flags, (), set)->Ok_0;
            defined(flags.push(f), (), set) == Ok::<Flags, Usage>(
                with_names(before, names_of(f.name@), initial_value(f, ())->Ok_0),
            )
        }),
    decreases flags.len(),
{
    let all = flags.push(f);
    lemma_no_vars(names_of(f.env@));
    if flags.len() == 0 {
        assert(all.skip(1) =~= Seq::<FlagSpec<'a>>::empty());
        reveal_with_fuel(defined, 2);
    } else {
        lemma_no_vars(names_of(flags[0].env@));
        let v = initial_value(flags[0], ())->Ok_0;
        assert(all.skip(1) =~= flags.skip(1).push(f));
        lemma_defined_push(flags.skip(1), f, with_names(set, names_of(flags[0].name@), v));
    }
}

/// Where nothing was given there is nothing to make agree.
proof fn lemma_nothing_given<'a>(f: Flags, flags: Seq<FlagSpec<'a>>)
    requires
        f.actual == Set::<Seq<char>>::empty(),
    ensures
        f.normalized(flags) == (f, None::<Usage>),
    decreases flags.len(),
{
    if flags.len() > 0 {
        let names = names_of(flags[0].name@);
        lemma_split_nonempty(flags[0].name@, ',');
        lemma_first_given(f, names, 0);
        let a = f.first_given(names, 0);
        if a < names.len() {
            assert(f.actual.contains(names[a]));
        }
        lemma_nothing_given(f, flags.skip(1));
    }
}

/// The names of the two built-in flags.
pub(crate) proof fn lemma_builtin_names()
    ensures
        names_of("help, h"@) == seq!["help"@, "h"@],
        names_of("version, v"@) == seq!["version"@, "v"@],
{
    reveal_strlit("help, h");
    reveal_strlit("help");
    reveal_strlit("h");
    reveal_strlit("version, v");
    reveal_strlit("version");
    reveal_strlit("v");
    lemma_split_two("help"@, seq![' ', 'h'], ',');
    lemma_split_two("version"@, seq![' ', 'v'], ',');
    assert("help, h"@ =~= "help"@.push(',') + seq![' ', 'h']);
    assert("version, v"@ =~= "version"@.push(',') + seq![' ', 'v']);
    reveal_with_fuel(trim_start_char, 3);
    reveal_with_fuel(trim_end_char, 3);
    assert(seq![' ', 'h'].skip(1) =~= "h"@);
    assert(seq![' ', 'v'].skip(1) =~= "v"@);
    assert(trim_char("help"@, ' ') =~= "help"@);
    assert(trim_char("version"@, ' ') =~= "version"@);
    assert(trim_char(seq![' ', 'h'], ' ') =~= "h"@);
    assert(trim_char(seq![' ', 'v'], ' ') =~= "v"@);
    assert(names_of("help, h"@) =~= seq!["help"@, "h"@]);
    assert(names_of("version, v"@) =~= seq!["version"@, "v"@]);
}

/// A name that is defined last as false is false.
proof fn lemma_false(entries: Seq<(Seq<char>, Val)>, from: int, k: int, p: Parsed)
    requires
        0 <= from <= k < entries.len(),
        forall|i: int| from <= i < entries.len() ==> (#[trigger] entries[i]).1 == Val::Bool(false),
        p.entries == entries,
    ensures
        !p.bool(entries[k].0),
{
    lemma_last(entries, entries[k].0);
    a_printed_bool_reads_back();
}

/// An application with the two built-in flags at the end runs its action on an empty command line
/// without an environment, and every flag has its declared default.
pub proof fn an_empty_command_line_runs_the_action<'a>(app: App<'a>, flags: Seq<FlagSpec<'a>>)
    requires
        app.flags@ == flags.push(help_flag()).push(version_flag()),
    ensures
        ({
            let set = defined(app.flags@, (), no_flags())->Ok_0;
            let ran = app.ran(seq!["kcptun"@], ());
            &&& defined(app.flags@, (), no_flags()) is Ok
            &&& ran.outcome is Ok
            &&& ran.outcome->Ok_0.entries == set.entries
            &&& ran.outcome->Ok_0.args.len() == 0
        }),
{
    let one = flags.push(help_flag());
    lemma_defined(flags, no_flags());
    lemma_defined(one, no_flags());
    lemma_defined(app.flags@, no_flags());
    lemma_defined_push(flags, help_flag(), no_flags());
    lemma_defined_push(one, version_flag(), no_flags());
    lemma_no_vars(names_of(help_flag().env@));
    lemma_no_vars(names_of(version_flag().env@));
    lemma_builtin_names();
    let before = defined(flags, (), no_flags())->Ok_0;
    let set = defined(app.flags@, (), no_flags())->Ok_0;
    let n = before.entries.len() as int;
    assert(set.entries.len() == n + 4);
    assert(set.entries[n] == ("help"@, Val::Bool(false)));
    assert(set.entries[n + 1] == ("h"@, Val::Bool(false)));
    assert(set.entries[n + 2] == ("version"@, Val::Bool(false)));
    assert(set.entries[n + 3] == ("v"@, Val::Bool(false)));
    let argv = seq!["kcptun"@];
    assert(argv.skip(1) =~= Seq::<Seq<char>>::empty());
    let start = Flags { args: argv.skip(1), ..set };
    assert(start =~= set);
    assert(start.parsed() == (start, None::<Usage>));
    lemma_nothing_given(start, app.flags@);
    let ctx = context_of(app.flags@, (), start);
    lemma_false(set.entries, n, n, ctx);
    lemma_false(set.entries, n, n + 1, ctx);
    lemma_false(set.entries, n, n + 2, ctx);
    lemma_false(set.entries, n, n + 3, ctx);
}

} // verus!
