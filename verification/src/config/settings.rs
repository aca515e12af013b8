//! Which flag sets which setting.
use vstd::prelude::*;

use crate::cli::app::{help_flag, version_flag, Parsed};
use crate::cli::flags::{names_of, FlagDefault, FlagSpec};
use crate::cli::laws::{
    an_empty_command_line_runs_the_action, can_be_spelled, lemma_builtin_names,
};
use crate::cli::number::{a_printed_bool_reads_back, bool_of, int_of};
use crate::cli::values::{
    a_flag_given_alone_is_accepted, names_are_distinct, one_flag, one_flag_sets_no_other,
};
use crate::cli::{App, Context};
use crate::config::{
    client_flag_table, defaults, is_app, lemma_client_flags, lemma_codes, lemma_server_flags,
    next_chunk, predefined_mode, reads_on, server_flag_table, BaseConfig, ClientConfig,
    ConfigFileError, ModeParams, ServerConfig,
};
use crate::gojson::{FieldValue, JsonStruct};

verus! {

/// The flag that sets the field with a name: they are called the same, but for two.
pub open spec fn flag_of(field: Seq<char>) -> Seq<char> {
    if field == "qpp"@ {
        "QPP"@
    } else if field == "qpp-count"@ {
        "QPPCount"@
    } else {
        field
    }
}

/// A value is that of a flag.
#[verifier::opaque]
spec fn reaches(v: FieldValue, p: Parsed, f: Seq<char>) -> bool {
    match v {
        FieldValue::Text(s) => s == p.string(f),
        FieldValue::Int(n) => n == p.integer(f),
        FieldValue::Flag(b) => b == p.bool(f),
    }
}

/// The shared settings are the values of their flags.
#[verifier::opaque]
spec fn base_reached(b: BaseConfig, p: Parsed) -> bool {
    &&& reaches(FieldValue::Text(b.key@), p, "key"@)
    &&& reaches(FieldValue::Text(b.crypt@), p, "crypt"@)
    &&& reaches(FieldValue::Text(b.mode@), p, "mode"@)
    &&& reaches(FieldValue::Int(b.mtu as int), p, "mtu"@)
    &&& reaches(FieldValue::Int(b.rate_limit as int), p, "ratelimit"@)
    &&& reaches(FieldValue::Int(b.snd_wnd as int), p, "sndwnd"@)
    &&& reaches(FieldValue::Int(b.rcv_wnd as int), p, "rcvwnd"@)
    &&& reaches(FieldValue::Int(b.data_shard as int), p, "datashard"@)
    &&& reaches(FieldValue::Int(b.parity_shard as int), p, "parityshard"@)
    &&& reaches(FieldValue::Int(b.dscp as int), p, "dscp"@)
    &&& reaches(FieldValue::Flag(b.no_comp), p, "nocomp"@)
    &&& reaches(FieldValue::Flag(b.ack_nodelay), p, "acknodelay"@)
    &&& reaches(FieldValue::Int(b.no_delay as int), p, "nodelay"@)
    &&& reaches(FieldValue::Int(b.interval as int), p, "interval"@)
    &&& reaches(FieldValue::Int(b.resend as int), p, "resend"@)
    &&& reaches(FieldValue::Int(b.no_congestion as int), p, "nc"@)
    &&& reaches(FieldValue::Int(b.sock_buf as int), p, "sockbuf"@)
    &&& reaches(FieldValue::Int(b.smux_ver as int), p, "smuxver"@)
    &&& reaches(FieldValue::Int(b.smux_buf as int), p, "smuxbuf"@)
    &&& reaches(FieldValue::Int(b.frame_size as int), p, "framesize"@)
    &&& reaches(FieldValue::Int(b.stream_buf as int), p, "streambuf"@)
    &&& reaches(FieldValue::Int(b.keep_alive as int), p, "keepalive"@)
    &&& reaches(FieldValue::Text(b.log@), p, "log"@)
    &&& reaches(FieldValue::Text(b.snmp_log@), p, "snmplog"@)
    &&& reaches(FieldValue::Int(b.snmp_period as int), p, "snmpperiod"@)
    &&& reaches(FieldValue::Flag(b.quiet), p, "quiet"@)
    &&& reaches(FieldValue::Flag(b.tcp), p, "tcp"@)
    &&& reaches(FieldValue::Flag(b.pprof), p, "pprof"@)
    &&& reaches(FieldValue::Flag(b.qpp), p, "QPP"@)
    &&& reaches(FieldValue::Int(b.qpp_count as int), p, "QPPCount"@)
    &&& reaches(FieldValue::Int(b.close_wait as int), p, "closewait"@)
}

/// Two values of one kind that are both those of a flag are the same where the flag has the same
/// text.
proof fn lemma_same_value(
    a: Option<FieldValue>,
    b: Option<FieldValue>,
    p: Parsed,
    q: Parsed,
    f: Seq<char>,
)
    requires
        a is Some == b is Some,
        a is Some ==> a->0.kind() == b->0.kind(),
        a is Some ==> reaches(a->0, p, f) && reaches(b->0, q, f),
        p.text(f) == q.text(f),
    ensures
        a == b,
{
    reveal(reaches);
}

/// The texts of a command line with one flag and of one without.
proof fn lemma_texts(
    app: App<'static>,
    program: Seq<char>,
    i: int,
    n: int,
    text: Option<Seq<char>>,
    without: Parsed,
    with: Parsed,
    f: Seq<char>,
)
    requires
        names_are_distinct(app.flags@),
        0 <= i < app.flags@.len(),
        0 <= n < names_of(app.flags@[i].name@).len(),
        can_be_spelled(names_of(app.flags@[i].name@)[n]),
        app.ran(seq![program], ()).outcome == Ok::<Parsed, int>(without),
        app.ran(one_flag(program, names_of(app.flags@[i].name@)[n], text), ()).outcome == Ok::<
            Parsed,
            int,
        >(with),
    ensures
        !names_of(app.flags@[i].name@).contains(f) ==> with.text(f) == without.text(f),
        names_of(app.flags@[i].name@)[n] == f && text is None ==> with.bool(f),
{
    one_flag_sets_no_other(app, (), program, i, n, text);
    a_printed_bool_reads_back();
}

proof fn lemma_base_reached(b: BaseConfig, p: Parsed)
    requires
        b.is_of(p),
    ensures
        base_reached(b, p),
{
    reveal(reaches);
    reveal(base_reached);
}

/// A shared field is the value of the flag that has its name.
proof fn lemma_base_field(b: BaseConfig, p: Parsed, k: Seq<char>)
    requires
        base_reached(b, p),
    ensures
        b.base_field(k) matches Some(v) ==> reaches(v, p, flag_of(k)),
{
    lemma_codes();
    reveal(base_reached);
}

proof fn lemma_client_field(c: ClientConfig, p: Parsed, k: Seq<char>)
    requires
        base_reached(c.base, p),
        reaches(FieldValue::Text(c.local_addr@), p, "localaddr"@),
        reaches(FieldValue::Text(c.remote_addr@), p, "remoteaddr"@),
        reaches(FieldValue::Int(c.conn as int), p, "conn"@),
        reaches(FieldValue::Int(c.auto_expire as int), p, "autoexpire"@),
        reaches(FieldValue::Int(c.scavenge_ttl as int), p, "scavengettl"@),
    ensures
        c.field(k) matches Some(v) ==> reaches(v, p, flag_of(k)),
{
    lemma_codes();
    lemma_base_field(c.base, p, k);
}

proof fn lemma_server_field(c: ServerConfig, p: Parsed, k: Seq<char>)
    requires
        base_reached(c.base, p),
        reaches(FieldValue::Text(c.listen@), p, "listen"@),
        reaches(FieldValue::Text(c.target@), p, "target"@),
    ensures
        c.field(k) matches Some(v) ==> reaches(v, p, flag_of(k)),
{
    lemma_codes();
    lemma_base_field(c.base, p, k);
}

/// Every field of the client's configuration is the value of the flag that has its name.
proof fn lemma_client_reaches(ctx: &Context, c: ClientConfig, k: Seq<char>)
    requires
        call_ensures(ClientConfig::from_context, (ctx,), c),
    ensures
        c.field(k) matches Some(v) ==> reaches(v, ctx@, flag_of(k)),
{
    assert(c.is_of(ctx@));
    lemma_base_reached(c.base, ctx@);
    assert(reaches(FieldValue::Text(c.local_addr@), ctx@, "localaddr"@)) by {
        reveal(reaches);
    }
    assert(reaches(FieldValue::Text(c.remote_addr@), ctx@, "remoteaddr"@)) by {
        reveal(reaches);
    }
    assert(reaches(FieldValue::Int(c.conn as int), ctx@, "conn"@)) by {
        reveal(reaches);
    }
    assert(reaches(FieldValue::Int(c.auto_expire as int), ctx@, "autoexpire"@)) by {
        reveal(reaches);
    }
    assert(reaches(FieldValue::Int(c.scavenge_ttl as int), ctx@, "scavengettl"@)) by {
        reveal(reaches);
    }
    lemma_client_field(c, ctx@, k);
}

/// Every setting of the client is the value of the flag that has its name: the field that a key of the
/// file names and the flag of that name are the same setting.
pub proof fn every_flag_reaches_its_setting_of_the_client(ctx: &Context, c: ClientConfig, k: Seq<char>)
    requires
        call_ensures(ClientConfig::from_context, (ctx,), c),
    ensures
        c.field(k) matches Some(v) ==> (match v {
            FieldValue::Text(s) => s == ctx@.string(flag_of(k)),
            FieldValue::Int(n) => n == ctx@.integer(flag_of(k)),
            FieldValue::Flag(b) => b == ctx@.bool(flag_of(k)),
        }),
{
    lemma_client_reaches(ctx, c, k);
    reveal(reaches);
}

/// Two values of the same field are of the same kind.
proof fn lemma_client_kinds(c: ClientConfig, d: ClientConfig, k: Seq<char>)
    ensures
        c.field(k) is Some == d.field(k) is Some,
        c.field(k) is Some ==> c.field(k)->0.kind() == d.field(k)->0.kind(),
{
}

/// Where one flag is the difference between two command lines, one setting is the difference between
/// what they come to.
#[verifier::rlimit(60)]
#[verifier::spinoff_prover]
proof fn lemma_client_differs(
    without: &Context,
    with: &Context,
    names: Seq<Seq<char>>,
    c: ClientConfig,
    d: ClientConfig,
    k: Seq<char>,
)
    requires
        call_ensures(ClientConfig::from_context, (without,), c),
        call_ensures(ClientConfig::from_context, (with,), d),
        !names.contains(flag_of(k)) ==> with@.text(flag_of(k)) == without@.text(flag_of(k)),
    ensures
        d.field(k) != c.field(k) ==> names.contains(flag_of(k)),
{
    if !names.contains(flag_of(k)) {
        lemma_client_reaches(without, c, k);
        lemma_client_reaches(with, d, k);
        lemma_client_kinds(c, d, k);
        lemma_same_value(c.field(k), d.field(k), without@, with@, flag_of(k));
    }
}

/// No two flags of the application share a name.
proof fn lemma_client_app(app: App<'static>)
    requires
        is_app(app, app.help_name@, "client(with SMUX)"@, client_flag_table()),
    ensures
        names_are_distinct(app.flags@),
{
    reveal_strlit("SELFBUILD");
    lemma_client_flags();
    defaults::the_client_names_are_distinct();
    reveal(defaults::client_all_flags);
}

/// The texts of two such command lines.
proof fn lemma_client_texts(
    app: App<'static>,
    program: Seq<char>,
    i: int,
    n: int,
    text: Option<Seq<char>>,
    without: Parsed,
    with: Parsed,
    f: Seq<char>,
)
    requires
        is_app(app, app.help_name@, "client(with SMUX)"@, client_flag_table()),
        0 <= i < app.flags@.len(),
        0 <= n < names_of(app.flags@[i].name@).len(),
        can_be_spelled(names_of(app.flags@[i].name@)[n]),
        app.ran(seq![program], ()).outcome == Ok::<Parsed, int>(without),
        app.ran(one_flag(program, names_of(app.flags@[i].name@)[n], text), ()).outcome == Ok::<
            Parsed,
            int,
        >(with),
    ensures
        !names_of(app.flags@[i].name@).contains(f) ==> with.text(f) == without.text(f),
        names_of(app.flags@[i].name@)[n] == f && text is None ==> with.bool(f),
{
    lemma_client_app(app);
    lemma_texts(app, program, i, n, text, without, with, f);
}

/// A flag that is given alone changes the setting that has its name, and no other: whatever differs
/// from what the client does without arguments is the field that the flag names, and a flag without a
/// text turns it on.
#[verifier::rlimit(60)]
#[verifier::spinoff_prover]
pub proof fn one_flag_changes_one_setting_of_the_client(
    app: App<'static>,
    program: Seq<char>,
    i: int,
    n: int,
    text: Option<Seq<char>>,
    without: &Context,
    with: &Context,
    c: ClientConfig,
    d: ClientConfig,
    k: Seq<char>,
)
    requires
        is_app(app, app.help_name@, "client(with SMUX)"@, client_flag_table()),
        0 <= i < app.flags@.len(),
        0 <= n < names_of(app.flags@[i].name@).len(),
        can_be_spelled(names_of(app.flags@[i].name@)[n]),
        app.ran(seq![program], ()).outcome == Ok::<Parsed, int>(without@),
        app.ran(one_flag(program, names_of(app.flags@[i].name@)[n], text), ()).outcome == Ok::<
            Parsed,
            int,
        >(with@),
        call_ensures(ClientConfig::from_context, (without,), c),
        call_ensures(ClientConfig::from_context, (with,), d),
    ensures
        d.field(k) != c.field(k) ==> names_of(app.flags@[i].name@).contains(flag_of(k)),
        names_of(app.flags@[i].name@)[n] == flag_of(k) && text is None ==> (d.field(k) matches Some(
            FieldValue::Flag(b),
        ) ==> b),
{
    lemma_client_texts(app, program, i, n, text, without@, with@, flag_of(k));
    lemma_client_differs(without, with, names_of(app.flags@[i].name@), c, d, k);
    every_flag_reaches_its_setting_of_the_client(with, d, k);
}

/// Every field of the server's configuration is the value of the flag that has its name.
proof fn lemma_server_reaches(ctx: &Context, c: ServerConfig, k: Seq<char>)
    requires
        call_ensures(ServerConfig::from_context, (ctx,), c),
    ensures
        c.field(k) matches Some(v) ==> reaches(v, ctx@, flag_of(k)),
{
    assert(c.is_of(ctx@));
    lemma_base_reached(c.base, ctx@);
    assert(reaches(FieldValue::Text(c.listen@), ctx@, "listen"@)) by {
        reveal(reaches);
    }
    assert(reaches(FieldValue::Text(c.target@), ctx@, "target"@)) by {
        reveal(reaches);
    }
    lemma_server_field(c, ctx@, k);
}

/// Every setting of the server is the value of the flag that has its name: the field that a key of the
/// file names and the flag of that name are the same setting.
pub proof fn every_flag_reaches_its_setting_of_the_server(ctx: &Context, c: ServerConfig, k: Seq<char>)
    requires
        call_ensures(ServerConfig::from_context, (ctx,), c),
    ensures
        c.field(k) matches Some(v) ==> (match v {
            FieldValue::Text(s) => s == ctx@.string(flag_of(k)),
            FieldValue::Int(n) => n == ctx@.integer(flag_of(k)),
            FieldValue::Flag(b) => b == ctx@.bool(flag_of(k)),
        }),
{
    lemma_server_reaches(ctx, c, k);
    reveal(reaches);
}

/// Two values of the same field are of the same kind.
proof fn lemma_server_kinds(c: ServerConfig, d: ServerConfig, k: Seq<char>)
    ensures
        c.field(k) is Some == d.field(k) is Some,
        c.field(k) is Some ==> c.field(k)->0.kind() == d.field(k)->0.kind(),
{
}

/// Where one flag is the difference between two command lines, one setting is the difference between
/// what they come to.
#[verifier::rlimit(60)]
#[verifier::spinoff_prover]
proof fn lemma_server_differs(
    without: &Context,
    with: &Context,
    names: Seq<Seq<char>>,
    c: ServerConfig,
    d: ServerConfig,
    k: Seq<char>,
)
    requires
        call_ensures(ServerConfig::from_context, (without,), c),
        call_ensures(ServerConfig::from_context, (with,), d),
        !names.contains(flag_of(k)) ==> with@.text(flag_of(k)) == without@.text(flag_of(k)),
    ensures
        d.field(k) != c.field(k) ==> names.contains(flag_of(k)),
{
    if !names.contains(flag_of(k)) {
        lemma_server_reaches(without, c, k);
        lemma_server_reaches(with, d, k);
        lemma_server_kinds(c, d, k);
        lemma_same_value(c.field(k), d.field(k), without@, with@, flag_of(k));
    }
}

/// No two flags of the application share a name.
proof fn lemma_server_app(app: App<'static>)
    requires
        is_app(app, app.help_name@, "server(with SMUX)"@, server_flag_table()),
    ensures
        names_are_distinct(app.flags@),
{
    reveal_strlit("SELFBUILD");
    lemma_server_flags();
    defaults::the_server_names_are_distinct();
    reveal(defaults::server_all_flags);
}

/// The texts of two such command lines.
proof fn lemma_server_texts(
    app: App<'static>,
    program: Seq<char>,
    i: int,
    n: int,
    text: Option<Seq<char>>,
    without: Parsed,
    with: Parsed,
    f: Seq<char>,
)
    requires
        is_app(app, app.help_name@, "server(with SMUX)"@, server_flag_table()),
        0 <= i < app.flags@.len(),
        0 <= n < names_of(app.flags@[i].name@).len(),
        can_be_spelled(names_of(app.flags@[i].name@)[n]),
        app.ran(seq![program], ()).outcome == Ok::<Parsed, int>(without),
        app.ran(one_flag(program, names_of(app.flags@[i].name@)[n], text), ()).outcome == Ok::<
            Parsed,
            int,
        >(with),
    ensures
        !names_of(app.flags@[i].name@).contains(f) ==> with.text(f) == without.text(f),
        names_of(app.flags@[i].name@)[n] == f && text is None ==> with.bool(f),
{
    lemma_server_app(app);
    lemma_texts(app, program, i, n, text, without, with, f);
}

/// A flag that is given alone changes the setting that has its name, and no other: whatever differs
/// from what the server does without arguments is the field that the flag names, and a flag without a
/// text turns it on.
#[verifier::rlimit(60)]
#[verifier::spinoff_prover]
pub proof fn one_flag_changes_one_setting_of_the_server(
    app: App<'static>,
    program: Seq<char>,
    i: int,
    n: int,
    text: Option<Seq<char>>,
    without: &Context,
    with: &Context,
    c: ServerConfig,
    d: ServerConfig,
    k: Seq<char>,
)
    requires
        is_app(app, app.help_name@, "server(with SMUX)"@, server_flag_table()),
        0 <= i < app.flags@.len(),
        0 <= n < names_of(app.flags@[i].name@).len(),
        can_be_spelled(names_of(app.flags@[i].name@)[n]),
        app.ran(seq![program], ()).outcome == Ok::<Parsed, int>(without@),
        app.ran(one_flag(program, names_of(app.flags@[i].name@)[n], text), ()).outcome == Ok::<
            Parsed,
            int,
        >(with@),
        call_ensures(ServerConfig::from_context, (without,), c),
        call_ensures(ServerConfig::from_context, (with,), d),
    ensures
        d.field(k) != c.field(k) ==> names_of(app.flags@[i].name@).contains(flag_of(k)),
        names_of(app.flags@[i].name@)[n] == flag_of(k) && text is None ==> (d.field(k) matches Some(
            FieldValue::Flag(b),
        ) ==> b),
{
    lemma_server_texts(app, program, i, n, text, without@, with@, flag_of(k));
    lemma_server_differs(without, with, names_of(app.flags@[i].name@), c, d, k);
    every_flag_reaches_its_setting_of_the_server(with, d, k);
}

/// A flag that is given alone is accepted, unless it is one of the two built-in ones.
proof fn lemma_alone(
    app: App<'static>,
    flags: Seq<FlagSpec<'static>>,
    i: int,
    n: int,
    text: Option<Seq<char>>,
)
    requires
        app.flags@ == flags.push(help_flag()).push(version_flag()),
        names_are_distinct(app.flags@),
        0 <= i < flags.len(),
        0 <= n < names_of(app.flags@[i].name@).len(),
        can_be_spelled(names_of(app.flags@[i].name@)[n]),
        match (app.flags@[i].default, text) {
            (FlagDefault::Bool, None) => true,
            (FlagDefault::Bool, Some(t)) => bool_of(t) is Ok,
            (FlagDefault::Int(_), Some(t)) => int_of(t) is Ok,
            (FlagDefault::Str(_), Some(_)) => true,
            (_, None) => false,
        },
    ensures
        app.ran(seq!["kcptun"@], ()).outcome is Ok,
        app.ran(one_flag("kcptun"@, names_of(app.flags@[i].name@)[n], text), ()).outcome is Ok,
{
    an_empty_command_line_runs_the_action(app, flags);
    lemma_builtin_names();
    let all = app.flags@;
    let m = flags.len() as int;
    let names = names_of(all[i].name@);
    assert(all[m] == help_flag() && all[m + 1] == version_flag());
    assert forall|j: int, b: int|
        m <= j < m + 2 && 0 <= b < names_of(all[j].name@).len() implies !names.contains(
        #[trigger] names_of(all[j].name@)[b],
    ) by {
        let built_in = names_of(all[j].name@)[b];
        if names.contains(built_in) {
            let a = choose|a: int| 0 <= a < names.len() && names[a] == built_in;
            assert(names_of(all[i].name@)[a] == names_of(all[j].name@)[b]);
        }
    }
    assert(names_of(all[m].name@)[0] == "help"@);
    assert(names_of(all[m].name@)[1] == "h"@);
    assert(names_of(all[m + 1].name@)[0] == "version"@);
    assert(names_of(all[m + 1].name@)[1] == "v"@);
    a_flag_given_alone_is_accepted(app, (), "kcptun"@, i, n, text);
}

/// A flag of the client that is given alone, and is not one of those that ask for the help or the
/// version, is accepted, as an empty command line is: a switch needs no text, and any other flag one
/// that reads as its type.
pub proof fn the_client_accepts_every_flag_alone(
    app: App<'static>,
    i: int,
    n: int,
    text: Option<Seq<char>>,
)
    requires
        is_app(app, app.help_name@, "client(with SMUX)"@, client_flag_table()),
        0 <= i < client_flag_table().len(),
        0 <= n < names_of(app.flags@[i].name@).len(),
        can_be_spelled(names_of(app.flags@[i].name@)[n]),
        match (app.flags@[i].default, text) {
            (FlagDefault::Bool, None) => true,
            (FlagDefault::Bool, Some(t)) => bool_of(t) is Ok,
            (FlagDefault::Int(_), Some(t)) => int_of(t) is Ok,
            (FlagDefault::Str(_), Some(_)) => true,
            (_, None) => false,
        },
    ensures
        app.ran(seq!["kcptun"@], ()).outcome is Ok,
        app.ran(one_flag("kcptun"@, names_of(app.flags@[i].name@)[n], text), ()).outcome is Ok,
{
    reveal_strlit("SELFBUILD");
    lemma_client_app(app);
    lemma_client_flags();
    lemma_alone(app, client_flag_table(), i, n, text);
}

/// A flag of the server that is given alone, and is not one of those that ask for the help or the
/// version, is accepted, as an empty command line is: a switch needs no text, and any other flag one
/// that reads as its type.
pub proof fn the_server_accepts_every_flag_alone(
    app: App<'static>,
    i: int,
    n: int,
    text: Option<Seq<char>>,
)
    requires
        is_app(app, app.help_name@, "server(with SMUX)"@, server_flag_table()),
        0 <= i < server_flag_table().len(),
        0 <= n < names_of(app.flags@[i].name@).len(),
        can_be_spelled(names_of(app.flags@[i].name@)[n]),
        match (app.flags@[i].default, text) {
            (FlagDefault::Bool, None) => true,
            (FlagDefault::Bool, Some(t)) => bool_of(t) is Ok,
            (FlagDefault::Int(_), Some(t)) => int_of(t) is Ok,
            (FlagDefault::Str(_), Some(_)) => true,
            (_, None) => false,
        },
    ensures
        app.ran(seq!["kcptun"@], ()).outcome is Ok,
        app.ran(one_flag("kcptun"@, names_of(app.flags@[i].name@)[n], text), ()).outcome is Ok,
{
    reveal_strlit("SELFBUILD");
    lemma_server_app(app);
    lemma_server_flags();
    lemma_alone(app, server_flag_table(), i, n, text);
}

/// The four presets: each is faster than the one before it, in that it works every 40, 30, 20 or 10
/// milliseconds, and the two fastest do not wait to send. All of them resend after two duplicate
/// acknowledgements and leave congestion control out. No other name is a preset.
pub proof fn the_presets(name: &str, p: Option<ModeParams>)
    requires
        call_ensures(predefined_mode, (name,), p),
    ensures
        p is Some <==> name@ == "normal"@ || name@ == "fast"@ || name@ == "fast2"@ || name@
            == "fast3"@,
        p matches Some(m) ==> m.resend == 2 && m.no_congestion == 1,
        name@ == "normal"@ ==> p->0.interval == 40 && p->0.no_delay == 0,
        name@ == "fast"@ ==> p->0.interval == 30 && p->0.no_delay == 0,
        name@ == "fast2"@ ==> p->0.interval == 20 && p->0.no_delay == 1,
        name@ == "fast3"@ ==> p->0.interval == 10 && p->0.no_delay == 1,
{
    reveal_strlit("normal");
    reveal_strlit("fast");
    reveal_strlit("fast2");
    reveal_strlit("fast3");
    assert("normal"@.len() == 6 && "fast"@.len() == 4 && "fast2"@.len() == 5 && "fast3"@.len() == 5);
    assert("fast2"@[4] != "fast3"@[4]);
}

/// What a preset changes and what it leaves: the four knobs become those of the preset that the mode
/// names, and stay as they are under any other name; every other setting stays as it is.
pub proof fn a_preset_sets_the_four_knobs(b: BaseConfig, name: &str, p: Option<ModeParams>)
    requires
        name@ == b.mode@,
        call_ensures(predefined_mode, (name,), p),
    ensures
        ({
            let c = b.with_mode();
            &&& p matches Some(m) ==> {
                &&& c.no_delay == m.no_delay
                &&& c.interval == m.interval
                &&& c.resend == m.resend
                &&& c.no_congestion == m.no_congestion
            }
            &&& p is None ==> c == b
            &&& (BaseConfig {
                no_delay: b.no_delay,
                interval: b.interval,
                resend: b.resend,
                no_congestion: b.no_congestion,
                ..c
            }) == b
        }),
{
}

/// Which settings are refused: a smux version above 2, more than 256 shards in all, and no connection.
pub proof fn which_settings_are_refused(
    b: &BaseConfig,
    c: &ClientConfig,
    version: Result<(), String>,
    shards: Result<(), String>,
    conn: Result<(), String>,
)
    requires
        call_ensures(BaseConfig::check_smux_ver, (b,), version),
        call_ensures(BaseConfig::check_fec, (b,), shards),
        call_ensures(ClientConfig::check_conn, (c,), conn),
    ensures
        version is Ok <==> b.smux_ver <= 2,
        shards is Ok <==> b.data_shard + b.parity_shard <= 256,
        conn is Ok <==> c.conn >= 1,
{
}

/// A file is read on as long as its value may still be incomplete and there was something to read:
/// each read asks for twice as much as the last one, and never for more than a mebibyte.
pub proof fn how_a_file_is_read_on(
    chunk: usize,
    n: usize,
    error: &ConfigFileError,
    last_read: usize,
    on: bool,
)
    requires
        call_ensures(next_chunk, (chunk,), n),
        call_ensures(reads_on, (error, last_read), on),
    ensures
        n <= 1048576,
        chunk <= 524288 ==> n == chunk + chunk,
        chunk > 524288 ==> n == 1048576,
        on ==> last_read > 0 && (error matches ConfigFileError::Syntax(_)),
        last_read > 0 && (error matches ConfigFileError::Syntax(e) && (e is Eof || e
            is UnexpectedEof)) ==> on,
        (error matches ConfigFileError::Syntax(e) && (e is MaxDepth || e is Invalid)) ==> !on,
{
}

} // verus!
