//! What a run gives every flag: the last value on the command line, or else the one that the
//! environment gives, or else the declared default, under every one of its names.
use vstd::prelude::*;

use crate::cli::app::{
    any_given, context_of, defined, env_value, initial_value, no_flags, set_names, with_names, App,
};
use crate::cli::flags::{last_entry, names_of, Env, FlagDefault, FlagSpec, Flags, Usage, Val};
use crate::cli::laws::{
    aliases_share_a_value, can_be_spelled, lemma_find_at, lemma_find_none, lemma_first_given,
    lemma_last, lemma_last_is, same_type, the_last_value_counts,
};
use crate::cli::number::{
    base_of, bool_of, digit_value, digits_of, int_of, scanned, unsigned_part,
};
use crate::text::find_char;

verus! {

// ---------------------------------------------------------------------------------------
// What the command line assigns
// ---------------------------------------------------------------------------------------
/// A flag argument without its dashes.
pub open spec fn flag_body(arg: Seq<char>) -> Seq<char> {
    arg.skip(
        if arg[1] == '-' {
            2
        } else {
            1
        },
    )
}

/// The name that a flag argument spells.
pub open spec fn flag_name(arg: Seq<char>) -> Seq<char> {
    flag_body(arg).take(find_char(flag_body(arg), '=', 1))
}

/// The value that is attached to a flag argument with `=`, if there is one.
pub open spec fn flag_attached(arg: Seq<char>) -> Option<Seq<char>> {
    let body = flag_body(arg);
    let eq = find_char(body, '=', 1);
    if eq < body.len() {
        Some(body.skip(eq + 1))
    } else {
        None
    }
}

/// A text read as a value of the same type as another.
pub open spec fn read_like(like: Val, text: Seq<char>) -> Val {
    match like {
        Val::Str(_) => Val::Str(text),
        Val::Int(_) => Val::Int(int_of(text)->Ok_0),
        Val::Bool(_) => Val::Bool(bool_of(text)->Ok_0),
    }
}

impl Flags {
    /// What the first argument, a flag that can be parsed, assigns: the text attached to it, or the
    /// next argument, read as its type. A bool without a text is true.
    pub open spec fn assignment(self) -> (Seq<char>, Val) {
        let name = flag_name(self.args[0]);
        let like = self.value(name);
        (
            name,
            match flag_attached(self.args[0]) {
                Some(text) => read_like(like, text),
                None => if like is Bool {
                    Val::Bool(true)
                } else {
                    read_like(like, self.args[1])
                },
            },
        )
    }

    /// What the flags at the front of the arguments assign, in order.
    pub open spec fn assignments(self) -> Seq<(Seq<char>, Val)>
        decreases self.args.len(),
    {
        let (next, r) = self.one_parsed();
        if r == Ok::<bool, Usage>(true) && next.args.len() < self.args.len() {
            seq![self.assignment()] + next.assignments()
        } else {
            Seq::empty()
        }
    }
}

/// The last value that is assigned to one of the names.
pub open spec fn last_assigned(a: Seq<(Seq<char>, Val)>, names: Seq<Seq<char>>) -> Option<Val>
    decreases a.len(),
{
    if a.len() == 0 {
        None
    } else {
        match last_assigned(a.skip(1), names) {
            Some(v) => Some(v),
            None => if names.contains(a[0].0) {
                Some(a[0].1)
            } else {
                None
            },
        }
    }
}

/// Whether every name belongs to one flag, and only once.
pub open spec fn names_are_distinct<'a>(flags: Seq<FlagSpec<'a>>) -> bool {
    forall|i: int, a: int, j: int, b: int|
        0 <= i < flags.len() && 0 <= j < flags.len() && 0 <= a < names_of(flags[i].name@).len()
            && 0 <= b < names_of(flags[j].name@).len() && #[trigger] names_of(flags[i].name@)[a]
            == #[trigger] names_of(flags[j].name@)[b] ==> i == j && a == b
}

/// Whether no flag has a name.
pub open spec fn is_undeclared<'a>(flags: Seq<FlagSpec<'a>>, name: Seq<char>) -> bool {
    forall|i: int| 0 <= i < flags.len() ==> !names_of((#[trigger] flags[i]).name@).contains(name)
}

impl<'a> App<'a> {
    /// What a command line assigns, in order.
    pub open spec fn assigns<E: Env>(self, argv: Seq<Seq<char>>, env: E) -> Seq<(Seq<char>, Val)> {
        match defined(self.flags@, env, no_flags()) {
            Ok(set) => Flags {
                args: if argv.len() > 0 {
                    argv.skip(1)
                } else {
                    argv
                },
                ..set
            }.assignments(),
            Err(_) => Seq::empty(),
        }
    }

    /// The value of a flag in a run.
    pub open spec fn flag_value<E: Env>(self, argv: Seq<Seq<char>>, env: E, i: int) -> Val {
        match last_assigned(self.assigns(argv, env), names_of(self.flags@[i].name@)) {
            Some(v) => v,
            None => initial_value(self.flags@[i], env)->Ok_0,
        }
    }

    /// Whether a flag counts as set in a run.
    pub open spec fn flag_set<E: Env>(self, argv: Seq<Seq<char>>, env: E, i: int) -> bool {
        ||| last_assigned(self.assigns(argv, env), names_of(self.flags@[i].name@)) is Some
        ||| env_value(env, self.flags@[i].env@) is Some
    }
}

// ---------------------------------------------------------------------------------------
// Definitions
// ---------------------------------------------------------------------------------------
/// A number that reads fits in 64 bits.
proof fn lemma_int_range(s: Seq<char>)
    ensures
        int_of(s) matches Ok(n) ==> i64::MIN <= n <= i64::MAX,
{
    let u = unsigned_part(s);
    if u.len() > 0 {
        lemma_scanned_sign(digits_of(u), base_of(u), 0);
    }
}

/// What digits spell is not negative.
proof fn lemma_scanned_sign(digits: Seq<char>, base: int, n: int)
    requires
        n >= 0,
        base > 0,
    ensures
        scanned(digits, base, n) matches Ok(m) ==> m >= 0,
    decreases digits.len(),
{
    if digits.len() > 0 {
        if digits[0] == '_' {
            lemma_scanned_sign(digits.skip(1), base, n);
        } else if let Some(d) = digit_value(digits[0]) {
            assert(n * base >= 0) by (nonlinear_arith)
                requires
                    n >= 0,
                    base > 0,
            ;
            lemma_scanned_sign(digits.skip(1), base, n * base + d);
        }
    }
}

/// All values are well-typed.
spec fn typed(entries: Seq<(Seq<char>, Val)>) -> bool {
    forall|i: int| 0 <= i < entries.len() ==> same_type((#[trigger] entries[i]).1, entries[i].1)
}

/// Adding names changes no other name.
proof fn lemma_with_names(set: Flags, names: Seq<Seq<char>>, v: Val, n: Seq<char>)
    ensures
        !names.contains(n) ==> with_names(set, names, v).defines(n) == set.defines(n),
        !names.contains(n) && set.defines(n) ==> with_names(set, names, v).value(n) == set.value(n),
        names.contains(n) ==> with_names(set, names, v).defines(n) && with_names(
            set,
            names,
            v,
        ).value(n) == v,
        typed(set.entries) && same_type(v, v) ==> typed(with_names(set, names, v).entries),
{
    let w = with_names(set, names, v);
    let m = set.entries.len() as int;
    lemma_last(set.entries, n);
    lemma_last(w.entries, n);
    let l = last_entry(w.entries, n);
    let k = last_entry(set.entries, n);
    if names.contains(n) {
        let j = choose|j: int| 0 <= j < names.len() && names[j] == n;
        assert(w.entries[m + j].0 == n);
        assert(l >= m + j);
        assert(w.entries[l] == (names[l - m], v));
    } else {
        if l >= m {
            assert(w.entries[l].0 == names[l - m]);
            assert(names.contains(n));
        }
        if k >= 0 {
            assert(w.entries[k] == set.entries[k]);
            assert forall|i: int| k < i < w.entries.len() implies w.entries[i].0 != n by {
                if i < m {
                    assert(w.entries[i] == set.entries[i]);
                } else {
                    assert(w.entries[i].0 == names[i - m]);
                    assert(names.contains(names[i - m]));
                }
            }
            lemma_last_is(w.entries, n, k);
        } else if l >= 0 {
            assert(w.entries[l] == set.entries[l]);
        }
    }
    if typed(set.entries) && same_type(v, v) {
        assert forall|i: int| 0 <= i < w.entries.len() implies same_type(
            (#[trigger] w.entries[i]).1,
            w.entries[i].1,
        ) by {
            if i < m {
                assert(w.entries[i] == set.entries[i]);
            }
        }
    }
}

/// The first value of a flag is well-typed.
proof fn lemma_initial_typed<'a, E: Env>(f: FlagSpec<'a>, env: E)
    requires
        initial_value(f, env) is Ok,
    ensures
        same_type(initial_value(f, env)->Ok_0, initial_value(f, env)->Ok_0),
{
    if env_value(env, f.env@) is Some {
        lemma_int_range(env_value(env, f.env@)->0);
    }
}

/// Defining flags leaves the names of others alone.
proof fn lemma_defined_keeps<'a, E: Env>(
    flags: Seq<FlagSpec<'a>>,
    env: E,
    set: Flags,
    n: Seq<char>,
)
    requires
        defined(flags, env, set) is Ok,
        is_undeclared(flags, n),
    ensures
        defined(flags, env, set)->Ok_0.defines(n) == set.defines(n),
        set.defines(n) ==> defined(flags, env, set)->Ok_0.value(n) == set.value(n),
    decreases flags.len(),
{
    if flags.len() > 0 {
        let v = initial_value(flags[0], env)->Ok_0;
        let names = names_of(flags[0].name@);
        assert(!names.contains(n));
        lemma_with_names(set, names, v, n);
        assert forall|i: int| 0 <= i < flags.skip(1).len() implies !names_of(
            (#[trigger] flags.skip(1)[i]).name@,
        ).contains(n) by {
            assert(flags.skip(1)[i] == flags[i + 1]);
        }
        lemma_defined_keeps(flags.skip(1), env, with_names(set, names, v), n);
    }
}

/// Defining flags keeps everything well-typed and gives nothing on the command line.
proof fn lemma_defined_typed<'a, E: Env>(flags: Seq<FlagSpec<'a>>, env: E, set: Flags)
    requires
        defined(flags, env, set) is Ok,
        typed(set.entries),
    ensures
        typed(defined(flags, env, set)->Ok_0.entries),
        defined(flags, env, set)->Ok_0.actual == set.actual,
    decreases flags.len(),
{
    if flags.len() > 0 {
        let v = initial_value(flags[0], env)->Ok_0;
        let names = names_of(flags[0].name@);
        lemma_initial_typed(flags[0], env);
        lemma_with_names(set, names, v, Seq::empty());
        lemma_defined_typed(flags.skip(1), env, with_names(set, names, v));
    }
}

/// Every name of a flag that no later flag has is defined with the flag's first value.
pub(crate) proof fn lemma_defined_value<'a, E: Env>(
    flags: Seq<FlagSpec<'a>>,
    env: E,
    set: Flags,
    i: int,
    n: Seq<char>,
)
    requires
        defined(flags, env, set) is Ok,
        0 <= i < flags.len(),
        names_of(flags[i].name@).contains(n),
        forall|j: int|
            i < j < flags.len() ==> !names_of((#[trigger] flags[j]).name@).contains(n),
    ensures
        initial_value(flags[i], env) is Ok,
        defined(flags, env, set)->Ok_0.defines(n),
        defined(flags, env, set)->Ok_0.value(n) == initial_value(flags[i], env)->Ok_0,
    decreases flags.len(),
{
    let v = initial_value(flags[0], env)->Ok_0;
    let names = names_of(flags[0].name@);
    let next = with_names(set, names, v);
    let rest = flags.skip(1);
    if i == 0 {
        lemma_with_names(set, names, v, n);
        assert forall|j: int| 0 <= j < rest.len() implies !names_of(
            (#[trigger] rest[j]).name@,
        ).contains(n) by {
            assert(rest[j] == flags[j + 1]);
        }
        lemma_defined_keeps(rest, env, next, n);
    } else {
        assert(rest[i - 1] == flags[i]);
        assert forall|j: int| i - 1 < j < rest.len() implies !names_of(
            (#[trigger] rest[j]).name@,
        ).contains(n) by {
            assert(rest[j] == flags[j + 1]);
        }
        lemma_defined_value(rest, env, next, i - 1, n);
    }
}

// ---------------------------------------------------------------------------------------
// Parsing
// ---------------------------------------------------------------------------------------
/// What one parsed flag does is its assignment.
proof fn lemma_one_parsed(f: Flags)
    requires
        typed(f.entries),
        f.one_parsed().1 == Ok::<bool, Usage>(true),
    ensures
        ({
            let (name, value) = f.assignment();
            let next = f.one_parsed().0;
            &&& f.defines(name)
            &&& same_type(value, f.value(name))
            &&& next.entries == f.given(name, value).entries
            &&& next.actual == f.given(name, value).actual
            &&& next.args.len() < f.args.len()
        }),
{
    let arg = f.args[0];
    let body = flag_body(arg);
    let eq = find_char(body, '=', 1);
    if arg.len() == 2 && arg[1] == '-' {
        assert(arg =~= seq!['-', '-']);
    }
    lemma_find_end(body, 1);
    assert(eq >= body.len() ==> body.take(eq) =~= body);
    let (name, value) = f.assignment();
    assert(f.shifted().value(name) == f.value(name));
    lemma_last(f.entries, name);
    if flag_attached(arg) is Some {
        lemma_int_range(flag_attached(arg)->0);
    } else if f.args.len() > 1 {
        lemma_int_range(f.args[1]);
        assert(f.shifted().args[0] == f.args[1]);
    }
}

/// A character is looked for up to the end.
proof fn lemma_find_end(s: Seq<char>, from: int)
    requires
        from <= s.len(),
    ensures
        from <= find_char(s, '=', from) <= s.len(),
    decreases s.len() - from,
{
    if from < s.len() && s[from] != '=' {
        lemma_find_end(s, from + 1);
    }
}

/// Giving a name a value of its type keeps everything well-typed.
proof fn lemma_given_typed(f: Flags, name: Seq<char>, value: Val)
    requires
        typed(f.entries),
        f.defines(name),
        same_type(value, f.value(name)),
    ensures
        typed(f.given(name, value).entries),
        same_type(value, value),
{
    lemma_last(f.entries, name);
    let g = f.given(name, value);
    let k = last_entry(f.entries, name);
    assert forall|i: int| 0 <= i < g.entries.len() implies same_type(
        (#[trigger] g.entries[i]).1,
        g.entries[i].1,
    ) by {
        if i != k {
            assert(g.entries[i] == f.entries[i]);
        }
    }
}

/// Two values are of the same type when each is of the type of a third.
proof fn lemma_same_type(a: Val, b: Val, c: Val)
    requires
        same_type(a, b),
        same_type(b, c),
    ensures
        same_type(a, c),
{
}

/// The value and the standing of a name after parsing.
proof fn lemma_parsed(f: Flags, n: Seq<char>)
    requires
        typed(f.entries),
        f.parsed().1 is None,
    ensures
        ({
            let p = f.parsed().0;
            let last = last_assigned(f.assignments(), seq![n]);
            &&& typed(p.entries)
            &&& p.defines(n) == f.defines(n)
            &&& f.defines(n) ==> same_type(p.value(n), f.value(n))
            &&& f.defines(n) ==> p.value(n) == (match last {
                Some(v) => v,
                None => f.value(n),
            })
            &&& p.actual.contains(n) == (f.actual.contains(n) || last is Some)
            &&& last is Some ==> f.defines(n)
        }),
    decreases f.args.len(),
{
    let (next, r) = f.one_parsed();
    lemma_last(f.entries, n);
    if r == Ok::<bool, Usage>(true) {
        let (name, value) = f.assignment();
        lemma_one_parsed(f);
        lemma_given_typed(f, name, value);
        let g = f.given(name, value);
        assert(next.defines(n) == g.defines(n));
        assert(next.value(n) == g.value(n));
        if n == name {
            let other = name.push('x');
            assert(other.len() != name.len());
            the_last_value_counts(f, name, value, other);
        } else {
            the_last_value_counts(f, name, value, n);
        }
        lemma_parsed(next, n);
        assert((seq![f.assignment()] + next.assignments()).skip(1) =~= next.assignments());
        assert(seq![n].contains(name) <==> n == name) by {
            assert(seq![n][0] == n);
        }
    }
}

/// Looking among several names, of which at most one is assigned to, is looking for that one.
proof fn lemma_last_assigned(a: Seq<(Seq<char>, Val)>, names: Seq<Seq<char>>, k: int)
    requires
        0 <= k < names.len(),
        forall|i: int|
            0 <= i < names.len() && i != k ==> last_assigned(a, seq![#[trigger] names[i]]) is None,
    ensures
        last_assigned(a, names) == last_assigned(a, seq![names[k]]),
    decreases a.len(),
{
    if a.len() > 0 {
        assert forall|i: int| 0 <= i < names.len() && i != k implies last_assigned(
            a.skip(1),
            seq![#[trigger] names[i]],
        ) is None by {
            assert(last_assigned(a, seq![names[i]]) is None);
        }
        lemma_last_assigned(a.skip(1), names, k);
        let x = a[0].0;
        assert(seq![names[k]].contains(x) <==> names[k] == x) by {
            assert(seq![names[k]][0] == names[k]);
        }
        if names.contains(x) && x != names[k] {
            let i = choose|i: int| 0 <= i < names.len() && names[i] == x;
            assert(seq![names[i]][0] == x);
            assert(seq![names[i]].contains(x));
            assert(last_assigned(a, seq![names[i]]) is None);
        }
    }
}

// ---------------------------------------------------------------------------------------
// Aliases
// ---------------------------------------------------------------------------------------
/// Copying to some names leaves the others alone.
proof fn lemma_copied_keeps(f: Flags, names: Seq<Seq<char>>, value: Val, n: Seq<char>)
    requires
        !names.contains(n),
    ensures
        f.copied_to_all(names, value).defines(n) == f.defines(n),
        f.defines(n) ==> f.copied_to_all(names, value).value(n) == f.value(n),
        f.copied_to_all(names, value).actual.contains(n) == f.actual.contains(n),
    decreases names.len(),
{
    if names.len() > 0 {
        let first = names[0];
        assert(names.contains(first));
        let next = if f.actual.contains(first) {
            f
        } else {
            f.copied_to(first, value)
        };
        if f.defines(first) {
            match f.value(first) {
                Val::Int(_) => {
                    if let Ok(m) = int_of(value.text()) {
                        the_last_value_counts(f, first, Val::Int(m), n);
                    }
                },
                Val::Bool(_) => {
                    if let Ok(b) = bool_of(value.text()) {
                        the_last_value_counts(f, first, Val::Bool(b), n);
                    }
                },
                Val::Str(_) => {
                    the_last_value_counts(f, first, Val::Str(value.text()), n);
                },
            }
        }
        assert(!names.skip(1).contains(n)) by {
            if names.skip(1).contains(n) {
                let i = choose|i: int| 0 <= i < names.skip(1).len() && names.skip(1)[i] == n;
                assert(names[i + 1] == n);
            }
        }
        lemma_copied_keeps(next, names.skip(1), value, n);
    }
}

/// Making other flags agree leaves a name alone.
proof fn lemma_normalized_keeps<'a>(f: Flags, flags: Seq<FlagSpec<'a>>, n: Seq<char>)
    requires
        is_undeclared(flags, n),
    ensures
        f.normalized(flags).0.defines(n) == f.defines(n),
        f.defines(n) ==> f.normalized(flags).0.value(n) == f.value(n),
        f.normalized(flags).0.actual.contains(n) == f.actual.contains(n),
    decreases flags.len(),
{
    if flags.len() > 0 {
        let names = names_of(flags[0].name@);
        assert(!names.contains(n));
        lemma_copied_keeps(f, names, f.value(names[f.first_given(names, 0)]), n);
        let rest = flags.skip(1);
        assert forall|i: int| 0 <= i < rest.len() implies !names_of(
            (#[trigger] rest[i]).name@,
        ).contains(n) by {
            assert(rest[i] == flags[i + 1]);
        }
        if let Ok(next) = f.agreed(names) {
            lemma_normalized_keeps(next, rest, n);
        }
    }
}

/// Whether every name of a flag is defined, and all with the same type.
spec fn of_one_type(f: Flags, names: Seq<Seq<char>>) -> bool {
    forall|a: int, b: int|
        0 <= a < names.len() && 0 <= b < names.len() ==> f.defines(#[trigger] names[a])
            && same_type(f.value(names[a]), f.value(#[trigger] names[b]))
}

/// The names of one flag after all flags have been made to agree.
proof fn lemma_normalized<'a>(f: Flags, flags: Seq<FlagSpec<'a>>, i: int)
    requires
        names_are_distinct(flags),
        0 <= i < flags.len(),
        of_one_type(f, names_of(flags[i].name@)),
        f.normalized(flags).1 is None,
    ensures
        ({
            let names = names_of(flags[i].name@);
            let g = f.normalized(flags).0;
            &&& forall|k: int|
                0 <= k < names.len() && f.actual.contains(names[k]) ==> {
                    &&& forall|j: int|
                        0 <= j < names.len() && j != k ==> !f.actual.contains(#[trigger] names[j])
                    &&& forall|j: int|
                        0 <= j < names.len() ==> {
                            &&& g.defines(#[trigger] names[j])
                            &&& g.value(names[j]) == f.value(#[trigger] names[k])
                            &&& g.actual.contains(names[j])
                        }
                }
            &&& !any_given(names, f.actual) ==> forall|j: int|
                0 <= j < names.len() ==> {
                    &&& g.defines(#[trigger] names[j])
                    &&& g.value(names[j]) == f.value(names[j])
                    &&& !g.actual.contains(names[j])
                }
        }),
    decreases flags.len(),
{
    let names = names_of(flags[i].name@);
    let first = names_of(flags[0].name@);
    let rest = flags.skip(1);
    let next = f.agreed(first)->Ok_0;
    let g = f.normalized(flags).0;
    assert(g == next.normalized(rest).0);
    if i == 0 {
        assert forall|j: int| 0 <= j < names.len() implies is_undeclared(
            rest,
            #[trigger] names[j],
        ) by {
            assert forall|m: int| 0 <= m < rest.len() implies !names_of(
                (#[trigger] rest[m]).name@,
            ).contains(names[j]) by {
                assert(rest[m] == flags[m + 1]);
                let other = names_of(flags[m + 1].name@);
                if other.contains(names[j]) {
                    let b = choose|b: int| 0 <= b < other.len() && other[b] == names[j];
                    assert(names_of(flags[0].name@)[j] == names_of(flags[m + 1].name@)[b]);
                }
            }
        }
        lemma_first_given(f, names, 0);
        let a = f.first_given(names, 0);
        assert forall|j: int| 0 <= j < names.len() implies ({
            &&& next.defines(#[trigger] names[j]) ==> g.defines(names[j]) && g.value(names[j])
                == next.value(names[j])
            &&& g.actual.contains(names[j]) == next.actual.contains(names[j])
        }) by {
            lemma_normalized_keeps(next, rest, names[j]);
        }
        if a < names.len() {
            lemma_first_given(f, names, a + 1);
            assert(f.defines(names[a]) && same_type(f.value(names[a]), f.value(names[a])));
            assert forall|j: int| 0 <= j < names.len() && j != a implies !f.actual.contains(
                #[trigger] names[j],
            ) by {}
            if names.len() > 1 {
                assert forall|j: int| 0 <= j < names.len() implies f.defines(#[trigger] names[j])
                    && same_type(f.value(names[a]), f.value(names[j])) by {
                    assert(same_type(f.value(names[a]), f.value(names[j])));
                    assert(same_type(f.value(names[j]), f.value(names[a])));
                }
                aliases_share_a_value(f, names, a);
                lemma_copied_defines(f, names, f.value(names[a]));
            }
        } else {
            assert forall|j: int| 0 <= j < names.len() implies f.defines(#[trigger] names[j]) by {
                assert(same_type(f.value(names[j]), f.value(names[j])));
            }
        }
    } else {
        assert(rest[i - 1] == flags[i]);
        lemma_rest_distinct(flags);
        assert forall|j: int| 0 <= j < names.len() implies ({
            &&& next.defines(#[trigger] names[j]) == f.defines(names[j])
            &&& f.defines(names[j]) ==> next.value(names[j]) == f.value(names[j])
            &&& next.actual.contains(names[j]) == f.actual.contains(names[j])
        }) by {
            assert(!first.contains(names[j])) by {
                if first.contains(names[j]) {
                    let b = choose|b: int| 0 <= b < first.len() && first[b] == names[j];
                    assert(names_of(flags[0].name@)[b] == names_of(flags[i].name@)[j]);
                }
            }
            lemma_copied_keeps(f, first, f.value(first[f.first_given(first, 0)]), names[j]);
        }
        assert(of_one_type(next, names)) by {
            assert forall|a: int, b: int|
                0 <= a < names.len() && 0 <= b < names.len() implies next.defines(
                #[trigger] names[a],
            ) && same_type(next.value(names[a]), next.value(#[trigger] names[b])) by {
                assert(f.defines(names[a]) && same_type(f.value(names[a]), f.value(names[b])));
                assert(f.defines(names[b]) && same_type(f.value(names[b]), f.value(names[a])));
            }
        }
        lemma_normalized(next, rest, i - 1);
        assert(any_given(names, next.actual) == any_given(names, f.actual)) by {
            if any_given(names, next.actual) {
                let j = choose|j: int| 0 <= j < names.len() && next.actual.contains(names[j]);
                assert(f.actual.contains(names[j]));
            }
            if any_given(names, f.actual) {
                let j = choose|j: int| 0 <= j < names.len() && f.actual.contains(names[j]);
                assert(next.actual.contains(names[j]));
            }
        }
    }
}

/// Copying a value undefines nothing.
proof fn lemma_copied_defines(f: Flags, names: Seq<Seq<char>>, value: Val)
    ensures
        forall|n: Seq<char>| f.defines(n) ==> f.copied_to_all(names, value).defines(n),
    decreases names.len(),
{
    if names.len() > 0 {
        let first = names[0];
        let next = if f.actual.contains(first) {
            f
        } else {
            f.copied_to(first, value)
        };
        assert forall|n: Seq<char>| f.defines(n) implies next.defines(n) by {
            if !f.actual.contains(first) && f.defines(first) {
                lemma_given_defines(f, first, n);
            }
        }
        lemma_copied_defines(next, names.skip(1), value);
    }
}

/// Giving a value undefines nothing.
proof fn lemma_given_defines(f: Flags, name: Seq<char>, n: Seq<char>)
    requires
        f.defines(name),
        f.defines(n),
    ensures
        forall|v: Val| (#[trigger] f.given(name, v)).defines(n),
{
    assert forall|v: Val| (#[trigger] f.given(name, v)).defines(n) by {
        let other = name.push('x');
        assert(other.len() != name.len());
        if n == name {
            the_last_value_counts(f, name, v, other);
        } else {
            the_last_value_counts(f, name, v, n);
        }
    }
}

/// What is distinct stays so without the first flag.
proof fn lemma_rest_distinct<'a>(flags: Seq<FlagSpec<'a>>)
    requires
        names_are_distinct(flags),
        flags.len() > 0,
    ensures
        names_are_distinct(flags.skip(1)),
{
    let rest = flags.skip(1);
    assert forall|i: int, a: int, j: int, b: int|
        0 <= i < rest.len() && 0 <= j < rest.len() && 0 <= a < names_of(rest[i].name@).len() && 0
            <= b < names_of(rest[j].name@).len() && #[trigger] names_of(rest[i].name@)[a]
            == #[trigger] names_of(rest[j].name@)[b] implies i == j && a == b by {
        assert(rest[i] == flags[i + 1]);
        assert(rest[j] == flags[j + 1]);
        assert(names_of(flags[i + 1].name@)[a] == names_of(flags[j + 1].name@)[b]);
    }
}

/// A name counts as set when it was given, or when one of its flag's names or variables is.
proof fn lemma_set_names<'a, E: Env>(
    flags: Seq<FlagSpec<'a>>,
    env: E,
    actual: Set<Seq<char>>,
    so_far: Set<Seq<char>>,
    n: Seq<char>,
)
    ensures
        set_names(flags, env, actual, so_far).contains(n) <==> so_far.contains(n) || exists|i: int|
            0 <= i < flags.len() && names_of((#[trigger] flags[i]).name@).contains(n) && (any_given(
                names_of(flags[i].name@),
                actual,
            ) || env_value(env, flags[i].env@) is Some),
    decreases flags.len(),
{
    if flags.len() > 0 {
        let names = names_of(flags[0].name@);
        let rest = flags.skip(1);
        let more = if any_given(names, actual) || env_value(env, flags[0].env@) is Some {
            so_far.union(names.to_set())
        } else {
            so_far
        };
        lemma_set_names(rest, env, actual, more, n);
        if exists|i: int|
            0 <= i < rest.len() && names_of((#[trigger] rest[i]).name@).contains(n) && (any_given(
                names_of(rest[i].name@),
                actual,
            ) || env_value(env, rest[i].env@) is Some) {
            let i = choose|i: int|
                0 <= i < rest.len() && names_of((#[trigger] rest[i]).name@).contains(n) && (
                any_given(names_of(rest[i].name@), actual) || env_value(env, rest[i].env@)
                    is Some);
            assert(flags[i + 1] == rest[i]);
        }
        if exists|i: int|
            0 <= i < flags.len() && names_of((#[trigger] flags[i]).name@).contains(n) && (any_given(
                names_of(flags[i].name@),
                actual,
            ) || env_value(env, flags[i].env@) is Some) {
            let i = choose|i: int|
                0 <= i < flags.len() && names_of((#[trigger] flags[i]).name@).contains(n) && (
                any_given(names_of(flags[i].name@), actual) || env_value(env, flags[i].env@)
                    is Some);
            if i > 0 {
                assert(rest[i - 1] == flags[i]);
            }
        }
    }
}

// ---------------------------------------------------------------------------------------
// Laws
// ---------------------------------------------------------------------------------------
/// Where a run comes from that leads to the action.
proof fn lemma_ran<'a, E: Env>(app: App<'a>, argv: Seq<Seq<char>>, env: E) -> (r: (Flags, Flags))
    requires
        app.ran(argv, env).outcome is Ok,
    ensures
        defined(app.flags@, env, no_flags()) is Ok,
        r.0.entries == defined(app.flags@, env, no_flags())->Ok_0.entries,
        r.0.actual == Set::<Seq<char>>::empty(),
        typed(r.0.entries),
        r.0.assignments() == app.assigns(argv, env),
        r.0.parsed().1 is None,
        r.0.parsed().0.normalized(app.flags@).1 is None,
        r.1 == r.0.parsed().0.normalized(app.flags@).0,
        app.ran(argv, env).outcome->Ok_0 == context_of(app.flags@, env, r.1),
{
    let set = defined(app.flags@, env, no_flags())->Ok_0;
    let args = if argv.len() > 0 {
        argv.skip(1)
    } else {
        argv
    };
    let f = Flags { args, ..set };
    lemma_defined_typed(app.flags@, env, no_flags());
    lemma_helped_exits(app, f.parsed().0.normalized(app.flags@).0.args.skip(1));
    (f, f.parsed().0.normalized(app.flags@).0)
}

/// The help command always exits.
proof fn lemma_helped_exits<'a>(app: App<'a>, args: Seq<Seq<char>>)
    ensures
        app.helped(args).outcome is Err,
{
}

/// In a run that leads to the action, where no name is used twice, every name of a flag has the same
/// value: the last one that the command line assigns to any of them, or else the one that the first
/// of its variables that is set gives, or else the declared default. It counts as set when the
/// command line or a variable gives it.
pub proof fn every_form_of_a_flag_has_its_value<'a, E: Env>(
    app: App<'a>,
    argv: Seq<Seq<char>>,
    env: E,
    i: int,
    k: int,
)
    requires
        names_are_distinct(app.flags@),
        app.ran(argv, env).outcome is Ok,
        0 <= i < app.flags@.len(),
        0 <= k < names_of(app.flags@[i].name@).len(),
    ensures
        ({
            let ctx = app.ran(argv, env).outcome->Ok_0;
            let name = names_of(app.flags@[i].name@)[k];
            &&& last_entry(ctx.entries, name) >= 0
            &&& ctx.entries[last_entry(ctx.entries, name)].1 == app.flag_value(argv, env, i)
            &&& ctx.string(name) == app.flag_value(argv, env, i).text()
            &&& ctx.set_flags.contains(name) == app.flag_set(argv, env, i)
        }),
{
    let flags = app.flags@;
    let names = names_of(flags[i].name@);
    let (f, g) = lemma_ran(app, argv, env);
    let p = f.parsed().0;
    let set = defined(flags, env, no_flags())->Ok_0;
    let v = initial_value(flags[i], env)->Ok_0;
    assert forall|j: int| 0 <= j < names.len() implies ({
        let last = last_assigned(f.assignments(), seq![#[trigger] names[j]]);
        &&& initial_value(flags[i], env) is Ok
        &&& same_type(v, v)
        &&& p.defines(names[j])
        &&& same_type(p.value(names[j]), v)
        &&& same_type(v, p.value(names[j]))
        &&& p.value(names[j]) == (match last {
            Some(w) => w,
            None => v,
        })
        &&& p.actual.contains(names[j]) == last is Some
    }) by {
        assert(names.contains(names[j]));
        lemma_only_flag(flags, i, j);
        lemma_defined_value(flags, env, no_flags(), i, names[j]);
        lemma_initial_typed(flags[i], env);
        assert(f.defines(names[j]) == set.defines(names[j]));
        assert(f.value(names[j]) == set.value(names[j]));
        lemma_parsed(f, names[j]);
    }
    assert(of_one_type(p, names)) by {
        assert forall|a: int, b: int| 0 <= a < names.len() && 0 <= b < names.len() implies p.defines(
            #[trigger] names[a],
        ) && same_type(p.value(names[a]), p.value(#[trigger] names[b])) by {
            assert(p.defines(names[a]) && p.defines(names[b]));
            lemma_same_type(p.value(names[a]), v, p.value(names[b]));
        }
    }
    lemma_normalized(p, flags, i);
    let n = names[k];
    if any_given(names, p.actual) {
        let a = choose|a: int| 0 <= a < names.len() && p.actual.contains(#[trigger] names[a]);
        assert forall|j: int| 0 <= j < names.len() && j != a implies last_assigned(
            f.assignments(),
            seq![#[trigger] names[j]],
        ) is None by {
            assert(!p.actual.contains(names[j]));
        }
        lemma_last_assigned(f.assignments(), names, a);
        assert(g.value(n) == p.value(names[a]));
    } else {
        assert forall|j: int| 0 <= j < names.len() implies last_assigned(
            f.assignments(),
            seq![#[trigger] names[j]],
        ) is None by {
            assert(!p.actual.contains(names[j]));
        }
        lemma_last_assigned(f.assignments(), names, k);
        assert(g.value(n) == p.value(n));
    }
    assert(any_given(names, g.actual) == any_given(names, p.actual)) by {
        if any_given(names, p.actual) {
            let a = choose|a: int| 0 <= a < names.len() && p.actual.contains(#[trigger] names[a]);
            assert(g.actual.contains(names[a]));
        }
        if any_given(names, g.actual) && !any_given(names, p.actual) {
            let a = choose|a: int| 0 <= a < names.len() && g.actual.contains(#[trigger] names[a]);
            assert(!g.actual.contains(names[a]));
        }
    }
    lemma_set_names(flags, env, g.actual, g.actual, n);
    assert(names.contains(n));
    if g.actual.contains(n) {
        assert(any_given(names, g.actual));
    }
    assert forall|m: int| 0 <= m < flags.len() && names_of((#[trigger] flags[m]).name@).contains(
        n,
    ) implies m == i by {
        let other = names_of(flags[m].name@);
        let b = choose|b: int| 0 <= b < other.len() && other[b] == n;
        assert(names_of(flags[i].name@)[k] == names_of(flags[m].name@)[b]);
    }
}

/// A name belongs to no later flag than its own.
proof fn lemma_only_flag<'a>(flags: Seq<FlagSpec<'a>>, i: int, k: int)
    requires
        names_are_distinct(flags),
        0 <= i < flags.len(),
        0 <= k < names_of(flags[i].name@).len(),
    ensures
        forall|j: int|
            i < j < flags.len() ==> !names_of((#[trigger] flags[j]).name@).contains(
                names_of(flags[i].name@)[k],
            ),
{
    let n = names_of(flags[i].name@)[k];
    assert forall|j: int| i < j < flags.len() implies !names_of(
        (#[trigger] flags[j]).name@,
    ).contains(n) by {
        let other = names_of(flags[j].name@);
        if other.contains(n) {
            let b = choose|b: int| 0 <= b < other.len() && other[b] == n;
            assert(names_of(flags[i].name@)[k] == names_of(flags[j].name@)[b]);
        }
    }
}

/// In such a run two names of one flag cannot be told apart, whichever of them was given.
pub proof fn aliases_share_a_value_in_every_run<'a, E: Env>(
    app: App<'a>,
    argv: Seq<Seq<char>>,
    env: E,
    i: int,
    a: int,
    b: int,
)
    requires
        names_are_distinct(app.flags@),
        app.ran(argv, env).outcome is Ok,
        0 <= i < app.flags@.len(),
        0 <= a < names_of(app.flags@[i].name@).len(),
        0 <= b < names_of(app.flags@[i].name@).len(),
    ensures
        ({
            let ctx = app.ran(argv, env).outcome->Ok_0;
            let names = names_of(app.flags@[i].name@);
            &&& ctx.string(names[a]) == ctx.string(names[b])
            &&& ctx.integer(names[a]) == ctx.integer(names[b])
            &&& ctx.bool(names[a]) == ctx.bool(names[b])
            &&& ctx.set_flags.contains(names[a]) == ctx.set_flags.contains(names[b])
        }),
{
    every_form_of_a_flag_has_its_value(app, argv, env, i, a);
    every_form_of_a_flag_has_its_value(app, argv, env, i, b);
}

/// A name that no flag has is not among the values.
proof fn lemma_undeclared<'a, E: Env>(
    app: App<'a>,
    argv: Seq<Seq<char>>,
    env: E,
    name: Seq<char>,
)
    requires
        is_undeclared(app.flags@, name),
        app.ran(argv, env).outcome is Ok,
    ensures
        app.ran(argv, env).outcome->Ok_0.text(name) is None,
{
    let flags = app.flags@;
    let (f, g) = lemma_ran(app, argv, env);
    lemma_defined_keeps(flags, env, no_flags(), name);
    assert(f.defines(name) == defined(flags, env, no_flags())->Ok_0.defines(name));
    lemma_parsed(f, name);
    lemma_normalized_keeps(f.parsed().0, flags, name);
}

/// A name that no flag has is empty and not set, whatever the command line.
pub proof fn an_undeclared_name_has_no_value<'a, E: Env>(
    app: App<'a>,
    argv: Seq<Seq<char>>,
    env: E,
    name: Seq<char>,
)
    requires
        is_undeclared(app.flags@, name),
        app.ran(argv, env).outcome is Ok,
    ensures
        ({
            let ctx = app.ran(argv, env).outcome->Ok_0;
            &&& ctx.string(name) == Seq::<char>::empty()
            &&& ctx.integer(name) == 0
            &&& !ctx.bool(name)
            &&& !ctx.set_flags.contains(name)
        }),
{
    let flags = app.flags@;
    let (f, g) = lemma_ran(app, argv, env);
    lemma_defined_keeps(flags, env, no_flags(), name);
    assert(f.defines(name) == defined(flags, env, no_flags())->Ok_0.defines(name));
    lemma_parsed(f, name);
    lemma_normalized_keeps(f.parsed().0, flags, name);
    lemma_set_names(flags, env, g.actual, g.actual, name);
}

/// The command line that gives one flag, with a text attached to it or without.
pub open spec fn one_flag(program: Seq<char>, name: Seq<char>, text: Option<Seq<char>>) -> Seq<
    Seq<char>,
> {
    match text {
        Some(t) => seq![program, seq!['-'] + name + seq!['='] + t],
        None => seq![program, seq!['-'] + name],
    }
}

/// What such a command line assigns.
proof fn lemma_one_flag<'a, E: Env>(
    app: App<'a>,
    env: E,
    program: Seq<char>,
    name: Seq<char>,
    text: Option<Seq<char>>,
)
    requires
        can_be_spelled(name),
        app.ran(one_flag(program, name, text), env).outcome is Ok,
    ensures
        ({
            let like = defined(app.flags@, env, no_flags())->Ok_0.value(name);
            app.assigns(one_flag(program, name, text), env) == seq![
                (
                    name,
                    match text {
                        Some(t) => read_like(like, t),
                        None => Val::Bool(true),
                    },
                ),
            ]
        }),
{
    let argv = one_flag(program, name, text);
    let arg = argv[1];
    let set = defined(app.flags@, env, no_flags())->Ok_0;
    let args = argv.skip(1);
    let f = Flags { args, ..set };
    let (h, g) = lemma_ran(app, argv, env);
    assert(f.parsed().1 is None);
    assert(args.len() == 1 && args[0] == arg);
    assert(arg[0] == '-' && arg[1] == name[0]);
    assert(name.contains(name[0]));
    assert(arg != seq!['-', '-']);
    let body = arg.skip(1);
    assert(flag_body(arg) == body);
    match text {
        Some(t) => {
            assert(body =~= name + seq!['='] + t);
            assert forall|i: int| 1 <= i < name.len() implies body[i] != '=' by {
                assert(name.contains(name[i]));
            }
            lemma_find_at(body, '=', 1, name.len() as int);
            assert(body.take(name.len() as int) =~= name);
            assert(body.skip(name.len() as int + 1) =~= t);
        },
        None => {
            assert(body =~= name);
            lemma_find_none(name, '=', 1);
            assert(body.take(name.len() as int) =~= name);
        },
    }
    let next = f.one_parsed().0;
    assert(next.args.len() == 0);
    assert(next.assignments() =~= Seq::<(Seq<char>, Val)>::empty());
    assert(f.assignments() =~= seq![f.assignment()]);
}

/// A command line with one flag sets that flag and no other. The flag has the text that is attached
/// to it, read as its type, or is on; every name that is not one of its own has the value that it
/// has without the flag.
pub proof fn one_flag_sets_no_other<'a, E: Env>(
    app: App<'a>,
    env: E,
    program: Seq<char>,
    i: int,
    k: int,
    text: Option<Seq<char>>,
)
    requires
        names_are_distinct(app.flags@),
        0 <= i < app.flags@.len(),
        0 <= k < names_of(app.flags@[i].name@).len(),
        can_be_spelled(names_of(app.flags@[i].name@)[k]),
        app.ran(seq![program], env).outcome is Ok,
        app.ran(one_flag(program, names_of(app.flags@[i].name@)[k], text), env).outcome is Ok,
    ensures
        ({
            let names = names_of(app.flags@[i].name@);
            let without = app.ran(seq![program], env).outcome->Ok_0;
            let with = app.ran(one_flag(program, names[k], text), env).outcome->Ok_0;
            let value = match (initial_value(app.flags@[i], env)->Ok_0, text) {
                (_, None) => Val::Bool(true),
                (Val::Str(_), Some(t)) => Val::Str(t),
                (Val::Int(_), Some(t)) => Val::Int(int_of(t)->Ok_0),
                (Val::Bool(_), Some(t)) => Val::Bool(bool_of(t)->Ok_0),
            };
            &&& with.text(names[k]) == Some(value.text())
            &&& forall|m: Seq<char>| !names.contains(m) ==> with.text(m) == #[trigger] without.text(m)
        }),
{
    let flags = app.flags@;
    let names = names_of(flags[i].name@);
    let n = names[k];
    let argv = one_flag(program, n, text);
    let bare = seq![program];
    let without = app.ran(bare, env).outcome->Ok_0;
    let with = app.ran(argv, env).outcome->Ok_0;
    assert(bare.skip(1) =~= Seq::<Seq<char>>::empty());
    assert(app.assigns(bare, env) =~= Seq::<(Seq<char>, Val)>::empty());
    lemma_one_flag(app, env, program, n, text);
    let (f, g) = lemma_ran(app, argv, env);
    lemma_only_flag(flags, i, k);
    assert(names.contains(n));
    lemma_defined_value(flags, env, no_flags(), i, n);
    let a = app.assigns(argv, env);
    assert(a.skip(1) =~= Seq::<(Seq<char>, Val)>::empty());
    reveal_with_fuel(last_assigned, 2);
    every_form_of_a_flag_has_its_value(app, argv, env, i, k);
    assert forall|m: Seq<char>| !names.contains(m) implies with.text(m) == #[trigger] without.text(m) by {
        if exists|j: int| 0 <= j < flags.len() && names_of((#[trigger] flags[j]).name@).contains(m) {
            let j = choose|j: int|
                0 <= j < flags.len() && names_of((#[trigger] flags[j]).name@).contains(m);
            let others = names_of(flags[j].name@);
            let b = choose|b: int| 0 <= b < others.len() && others[b] == m;
            every_form_of_a_flag_has_its_value(app, argv, env, j, b);
            every_form_of_a_flag_has_its_value(app, bare, env, j, b);
            assert(!others.contains(n)) by {
                if others.contains(n) {
                    let c = choose|c: int| 0 <= c < others.len() && others[c] == n;
                    assert(names_of(flags[i].name@)[k] == names_of(flags[j].name@)[c]);
                }
            }
        } else {
            assert(is_undeclared(flags, m));
            lemma_undeclared(app, argv, env, m);
            lemma_undeclared(app, bare, env, m);
        }
    }
}

/// Where no name of any of the flags was given there is nothing to make agree.
proof fn lemma_none_given<'a>(f: Flags, flags: Seq<FlagSpec<'a>>)
    requires
        forall|n: Seq<char>| #[trigger] f.actual.contains(n) ==> is_undeclared(flags, n),
    ensures
        f.normalized(flags) == (f, None::<Usage>),
    decreases flags.len(),
{
    if flags.len() > 0 {
        let names = names_of(flags[0].name@);
        let rest = flags.skip(1);
        lemma_first_given(f, names, 0);
        let a = f.first_given(names, 0);
        if a < names.len() {
            assert(f.actual.contains(names[a]));
            assert(!names_of(flags[0].name@).contains(names[a]));
            assert(names.contains(names[a]));
        }
        assert forall|n: Seq<char>| #[trigger] f.actual.contains(n) implies is_undeclared(
            rest,
            n,
        ) by {
            assert forall|i: int| 0 <= i < rest.len() implies !names_of(
                (#[trigger] rest[i]).name@,
            ).contains(n) by {
                assert(rest[i] == flags[i + 1]);
            }
        }
        lemma_none_given(f, rest);
    }
}

/// Copying a value leaves the arguments alone.
proof fn lemma_copied_args(f: Flags, names: Seq<Seq<char>>, value: Val)
    ensures
        f.copied_to_all(names, value).args == f.args,
    decreases names.len(),
{
    if names.len() > 0 {
        let next = if f.actual.contains(names[0]) {
            f
        } else {
            f.copied_to(names[0], value)
        };
        lemma_copied_args(next, names.skip(1), value);
    }
}

/// Where one name was given, the flags agree, and only the names of that flag change.
proof fn lemma_one_given<'a>(f: Flags, flags: Seq<FlagSpec<'a>>, i: int, k: int)
    requires
        names_are_distinct(flags),
        0 <= i < flags.len(),
        0 <= k < names_of(flags[i].name@).len(),
        forall|n: Seq<char>|
            #[trigger] f.actual.contains(n) <==> n == names_of(flags[i].name@)[k],
    ensures
        f.normalized(flags).1 is None,
        f.normalized(flags).0.args == f.args,
        forall|m: Seq<char>|
            !names_of(flags[i].name@).contains(m) ==> {
                &&& #[trigger] f.normalized(flags).0.defines(m) == f.defines(m)
                &&& f.defines(m) ==> f.normalized(flags).0.value(m) == f.value(m)
            },
    decreases flags.len(),
{
    let names = names_of(flags[i].name@);
    let first = names_of(flags[0].name@);
    let rest = flags.skip(1);
    lemma_first_given(f, first, 0);
    let a = f.first_given(first, 0);
    if i == 0 {
        assert(f.actual.contains(names[k]));
        assert(a <= k);
        assert(f.actual.contains(names[a]));
        lemma_first_given(f, first, a + 1);
        let b = f.first_given(first, a + 1);
        if b < first.len() {
            assert(names_of(flags[0].name@)[a] == names_of(flags[0].name@)[b]);
        }
        let value = f.value(names[a]);
        lemma_copied_args(f, names, value);
        let next = f.agreed(first)->Ok_0;
        assert forall|m: Seq<char>| !names.contains(m) implies ({
            &&& #[trigger] next.defines(m) == f.defines(m)
            &&& f.defines(m) ==> next.value(m) == f.value(m)
            &&& next.actual.contains(m) == f.actual.contains(m)
        }) by {
            lemma_copied_keeps(f, names, value, m);
        }
        assert forall|n: Seq<char>| #[trigger] next.actual.contains(n) implies is_undeclared(
            rest,
            n,
        ) by {
            if !names.contains(n) {
                assert(next.defines(n) == f.defines(n));
                assert(f.actual.contains(n));
                assert(names.contains(names[k]));
            }
            let c = choose|c: int| 0 <= c < names.len() && names[c] == n;
            lemma_only_flag(flags, 0, c);
            assert forall|j: int| 0 <= j < rest.len() implies !names_of(
                (#[trigger] rest[j]).name@,
            ).contains(n) by {
                assert(rest[j] == flags[j + 1]);
            }
        }
        lemma_none_given(next, rest);
    } else {
        if a < first.len() {
            assert(f.actual.contains(first[a]));
            assert(names_of(flags[0].name@)[a] == names_of(flags[i].name@)[k]);
        }
        assert(f.agreed(first) == Ok::<Flags, Usage>(f));
        assert(rest[i - 1] == flags[i]);
        lemma_rest_distinct(flags);
        lemma_one_given(f, rest, i - 1, k);
    }
}

/// A program that does its work without arguments also does it when one flag is given, unless that
/// flag asks for the help or the version: a switch needs no text, and any other flag one that reads
/// as its type.
pub proof fn a_flag_given_alone_is_accepted<'a, E: Env>(
    app: App<'a>,
    env: E,
    program: Seq<char>,
    i: int,
    k: int,
    text: Option<Seq<char>>,
)
    requires
        names_are_distinct(app.flags@),
        0 <= i < app.flags@.len(),
        0 <= k < names_of(app.flags@[i].name@).len(),
        can_be_spelled(names_of(app.flags@[i].name@)[k]),
        !names_of(app.flags@[i].name@).contains("help"@),
        !names_of(app.flags@[i].name@).contains("h"@),
        !names_of(app.flags@[i].name@).contains("version"@),
        !names_of(app.flags@[i].name@).contains("v"@),
        match (app.flags@[i].default, text) {
            (FlagDefault::Bool, None) => true,
            (FlagDefault::Bool, Some(t)) => bool_of(t) is Ok,
            (FlagDefault::Int(_), Some(t)) => int_of(t) is Ok,
            (FlagDefault::Str(_), Some(_)) => true,
            (_, None) => false,
        },
        app.ran(seq![program], env).outcome is Ok,
    ensures
        app.ran(one_flag(program, names_of(app.flags@[i].name@)[k], text), env).outcome is Ok,
{
    let flags = app.flags@;
    let names = names_of(flags[i].name@);
    let n = names[k];
    let bare = seq![program];
    let argv = one_flag(program, n, text);
    let arg = argv[1];
    let (e, g) = lemma_ran(app, bare, env);
    let set = defined(flags, env, no_flags())->Ok_0;
    assert(bare.skip(1) =~= Seq::<Seq<char>>::empty());
    let start = Flags { args: bare.skip(1), ..set };
    assert(start.parsed() == (start, None::<Usage>));
    assert(start.actual == Set::<Seq<char>>::empty()) by {
        lemma_defined_typed(flags, env, no_flags());
    }
    lemma_none_given(start, flags);
    let f = Flags { args: argv.skip(1), ..set };
    lemma_only_flag(flags, i, k);
    assert(names.contains(n));
    lemma_defined_value(flags, env, no_flags(), i, n);
    assert(f.value(n) == initial_value(flags[i], env)->Ok_0);
    assert(f.args.len() == 1 && f.args[0] == arg);
    assert(arg[0] == '-' && arg[1] == n[0]);
    assert(n.contains(n[0]));
    assert(arg != seq!['-', '-']);
    let body = arg.skip(1);
    match text {
        Some(t) => {
            assert(body =~= n + seq!['='] + t);
            assert forall|j: int| 1 <= j < n.len() implies body[j] != '=' by {
                assert(n.contains(n[j]));
            }
            lemma_find_at(body, '=', 1, n.len() as int);
            assert(body.take(n.len() as int) =~= n);
            assert(body.skip(n.len() as int + 1) =~= t);
        },
        None => {
            assert(body =~= n);
            lemma_find_none(n, '=', 1);
        },
    }
    let next = f.one_parsed().0;
    assert(f.shifted().value(n) == f.value(n));
    assert(f.one_parsed().1 == Ok::<bool, Usage>(true));
    assert(next.args.len() == 0);
    assert(next.parsed() == (next, None::<Usage>));
    assert(f.parsed() == (next, None::<Usage>));
    assert(next.actual =~= Set::<Seq<char>>::empty().insert(n));
    let v = match text {
        Some(t) => read_like(f.value(n), t),
        None => Val::Bool(true),
    };
    assert(next.entries == f.given(n, v).entries);
    lemma_one_given(next, flags, i, k);
    let last = next.normalized(flags).0;
    let without = context_of(flags, env, start);
    let with = context_of(flags, env, last);
    assert forall|m: Seq<char>| !names.contains(m) implies with.bool(m) == #[trigger] without.bool(
        m,
    ) by {
        assert(last.defines(m) == next.defines(m));
        the_last_value_counts(f, n, v, m);
    }
    assert(!without.bool("help"@) && !without.bool("h"@));
}

} // verus!
