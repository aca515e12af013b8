//! How runs end, what the environment does, and what the `help` command makes of its arguments.
use vstd::prelude::*;
use vstd::seq_lib::*;

use crate::cli::app::{
    context_of, defined, env_value, first_var, initial_value, no_flags, reordered, spells_flag, App,
};
use crate::cli::flags::{names_of, trim, Env, FlagDefault, FlagSpec, Flags, Usage, Val};
use crate::cli::number::{bool_of, int_of};

verus! {

/// The first variable of a list that is set gives its value, whatever the ones behind it hold, and one
/// that is set to nothing counts too.
pub proof fn the_first_variable_that_is_set_counts<E: Env>(env: E, list: Seq<char>, i: int)
    requires
        list.len() > 0,
        0 <= i < names_of(list).len(),
        env.var(trim(names_of(list)[i])) is Some,
        forall|k: int| 0 <= k < i ==> env.var(trim(#[trigger] names_of(list)[k])) is None,
    ensures
        env_value(env, list) == env.var(trim(names_of(list)[i])),
{
    lemma_first_var(env, names_of(list), i);
}

proof fn lemma_first_var<E: Env>(env: E, names: Seq<Seq<char>>, i: int)
    requires
        0 <= i < names.len(),
        env.var(trim(names[i])) is Some,
        forall|k: int| 0 <= k < i ==> env.var(trim(#[trigger] names[k])) is None,
    ensures
        first_var(env, names) == env.var(trim(names[i])),
    decreases i,
{
    if i > 0 {
        let rest = names.skip(1);
        assert(env.var(trim(names[0])) is None);
        assert forall|k: int| 0 <= k < i - 1 implies env.var(trim(#[trigger] rest[k])) is None by {
            assert(rest[k] == names[k + 1]);
        }
        lemma_first_var(env, rest, i - 1);
    }
}

/// What the environment gives a flag takes the place of its default: a text is taken as it is, the
/// empty one too, a number is read as on the command line, and so is a truth value, but for the empty
/// text, which is false. What does not read is refused.
pub proof fn the_environment_takes_the_place_of_the_default<'a, E: Env>(
    f: FlagSpec<'a>,
    env: E,
    text: Seq<char>,
)
    requires
        env_value(env, f.env@) == Some(text),
    ensures
        f.default is Str ==> initial_value(f, env) == Ok::<Val, Usage>(Val::Str(text)),
        f.default is Int ==> match int_of(text) {
            Ok(n) => initial_value(f, env) == Ok::<Val, Usage>(Val::Int(n)),
            Err(_) => initial_value(f, env) is Err,
        },
        f.default is Bool && text.len() == 0 ==> initial_value(f, env) == Ok::<Val, Usage>(
            Val::Bool(false),
        ),
        f.default is Bool && text.len() > 0 ==> match bool_of(text) {
            Ok(b) => initial_value(f, env) == Ok::<Val, Usage>(Val::Bool(b)),
            Err(_) => initial_value(f, env) is Err,
        },
{
}

/// How a run ends that does not lead to the action. A variable, a flag or a pair of aliases that is
/// wrong ends it with status 2, and help that is asked for with status 0; a run that none of this
/// stops, and that names no command, leads to the action with nothing to be shown.
pub proof fn how_a_run_ends<'a, E: Env>(app: App<'a>, argv: Seq<Seq<char>>, env: E)
    ensures
        ({
            let r = app.ran(argv, env);
            let args = if argv.len() > 0 {
                argv.skip(1)
            } else {
                argv
            };
            match defined(app.flags@, env, no_flags()) {
                Err(e) => r.outcome == Err::<crate::cli::app::Parsed, int>(2) && r.stdout.len() == 0
                    && r.stderr == e.text().push('\n'),
                Ok(set) => {
                    let (p, wrong) = Flags { args, ..set }.parsed();
                    let (n, twice) = p.normalized(app.flags@);
                    let ctx = context_of(app.flags@, env, n);
                    let asks_help = ctx.bool("help"@) || ctx.bool("h"@);
                    let asks_version = app.version@.len() > 0 && (ctx.bool("version"@) || ctx.bool(
                        "v"@,
                    ));
                    let command = ctx.args.len() > 0 && (ctx.args[0] == "help"@ || ctx.args[0]
                        == "h"@);
                    if wrong is Some || twice is Some {
                        r.outcome == Err::<crate::cli::app::Parsed, int>(2) && r.stderr.len() == 0
                    } else if asks_help {
                        r.outcome == Err::<crate::cli::app::Parsed, int>(0) && r.stdout
                            == app.help_text(false) && r.stderr.len() == 0
                    } else if asks_version {
                        r.outcome == Err::<crate::cli::app::Parsed, int>(0) && r.stderr.len() == 0
                    } else if command {
                        r.outcome == Err::<crate::cli::app::Parsed, int>(0) || r.outcome == Err::<
                            crate::cli::app::Parsed,
                            int,
                        >(2) || r.outcome == Err::<crate::cli::app::Parsed, int>(3)
                    } else {
                        r.outcome == Ok::<crate::cli::app::Parsed, int>(ctx) && r.stdout.len() == 0
                            && r.stderr.len() == 0
                    }
                },
            }
        }),
{
    reveal_strlit("\n");
    if let Err(e) = defined(app.flags@, env, no_flags()) {
        assert(e.text() + "\n"@ =~= e.text().push('\n'));
    }
}

/// Moving the flags to the front loses no argument and makes none up.
pub proof fn moving_flags_loses_no_argument<'a>(
    flags: Seq<FlagSpec<'a>>,
    args: Seq<Seq<char>>,
)
    ensures
        reordered(flags, args, Seq::empty(), Seq::empty(), false).to_multiset()
            == args.to_multiset(),
{
    lemma_reordered(flags, args, Seq::empty(), Seq::empty(), false);
    assert(Seq::<Seq<char>>::empty() + Seq::<Seq<char>>::empty() + args =~= args);
}

proof fn lemma_reordered<'a>(
    flags: Seq<FlagSpec<'a>>,
    args: Seq<Seq<char>>,
    moved: Seq<Seq<char>>,
    kept: Seq<Seq<char>>,
    may_be_value: bool,
)
    ensures
        reordered(flags, args, moved, kept, may_be_value).to_multiset() == (moved + kept
            + args).to_multiset(),
    decreases args.len(),
{
    broadcast use group_to_multiset_ensures;

    if args.len() == 0 {
        assert(moved + kept + args =~= moved + kept);
    } else {
        let a = args[0];
        let rest = args.skip(1);
        assert(args =~= seq![a] + rest);
        lemma_multiset_commutative(moved + kept, args);
        lemma_multiset_commutative(moved, kept);
        lemma_multiset_commutative(seq![a], rest);
        if may_be_value && !spells_flag(flags, a) {
            lemma_reordered(flags, rest, moved.push(a), kept, false);
            lemma_multiset_commutative(moved.push(a) + kept, rest);
            lemma_multiset_commutative(moved.push(a), kept);
            lemma_multiset_commutative(moved, seq![a]);
            assert(moved.push(a) =~= moved + seq![a]);
            lemma_add(moved.to_multiset(), kept.to_multiset(), seq![a].to_multiset(), rest.to_multiset());
        } else if a == "--"@ {
            let tail = seq!["--"@] + kept + rest;
            lemma_multiset_commutative(moved, tail);
            lemma_multiset_commutative(seq!["--"@] + kept, rest);
            lemma_multiset_commutative(seq!["--"@], kept);
            lemma_add(moved.to_multiset(), kept.to_multiset(), seq![a].to_multiset(), rest.to_multiset());
        } else if spells_flag(flags, a) {
            lemma_reordered(flags, rest, moved.push(a), kept, !a.contains('='));
            lemma_multiset_commutative(moved.push(a) + kept, rest);
            lemma_multiset_commutative(moved.push(a), kept);
            lemma_multiset_commutative(moved, seq![a]);
            assert(moved.push(a) =~= moved + seq![a]);
            lemma_add(moved.to_multiset(), kept.to_multiset(), seq![a].to_multiset(), rest.to_multiset());
        } else {
            lemma_reordered(flags, rest, moved, kept.push(a), may_be_value);
            lemma_multiset_commutative(moved + kept.push(a), rest);
            lemma_multiset_commutative(moved, kept.push(a));
            lemma_multiset_commutative(kept, seq![a]);
            assert(kept.push(a) =~= kept + seq![a]);
            lemma_add(moved.to_multiset(), kept.to_multiset(), seq![a].to_multiset(), rest.to_multiset());
        }
    }
}

/// The order in which multisets are put together does not matter.
proof fn lemma_add(
    m: vstd::multiset::Multiset<Seq<char>>,
    k: vstd::multiset::Multiset<Seq<char>>,
    a: vstd::multiset::Multiset<Seq<char>>,
    r: vstd::multiset::Multiset<Seq<char>>,
)
    ensures
        m.add(a).add(k).add(r) == m.add(k).add(a.add(r)),
        m.add(k.add(a)).add(r) == m.add(k).add(a.add(r)),
        m.add(a.add(k).add(r)) == m.add(k).add(a.add(r)),
{
    assert(m.add(a).add(k).add(r) =~= m.add(k).add(a.add(r)));
    assert(m.add(k.add(a)).add(r) =~= m.add(k).add(a.add(r)));
    assert(m.add(a.add(k).add(r)) =~= m.add(k).add(a.add(r)));
}

} // verus!
