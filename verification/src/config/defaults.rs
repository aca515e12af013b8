//! The default configurations, setting by setting.
use vstd::prelude::*;

use crate::cli::app::{help_flag, initial_value, version_flag, Parsed};
use crate::cli::flags::{names_of, FlagDefault, FlagSpec, Val};
use crate::cli::laws::{lemma_no_vars, typed_values_read_back};
use crate::cli::values::{every_form_of_a_flag_has_its_value, names_are_distinct};
use crate::cli::App;
use crate::config::{
    client_flag_table, code, is_app, lemma_client_flags, lemma_server_flags, server_flag_table,
    BaseConfig, ClientConfig, ServerConfig,
};
use crate::text::{lemma_split_two, lemma_split_whole, trim_char, trim_start_char};

verus! {

impl BaseConfig {
    /// The shared settings have their defaults, the windows and the wait being those of a side.
    pub open spec fn is_default(self, snd_wnd: i64, rcv_wnd: i64, close_wait: i64) -> bool {
        &&& self.key@ == "it's a secrect"@
        &&& self.crypt@ == "aes"@
        &&& self.mode@ == "fast"@
        &&& self.mtu == 1350
        &&& self.rate_limit == 0
        &&& self.snd_wnd == snd_wnd
        &&& self.rcv_wnd == rcv_wnd
        &&& self.data_shard == 10
        &&& self.parity_shard == 3
        &&& self.dscp == 0
        &&& !self.no_comp
        &&& !self.ack_nodelay
        &&& self.no_delay == 0
        &&& self.interval == 50
        &&& self.resend == 0
        &&& self.no_congestion == 0
        &&& self.sock_buf == 4194304
        &&& self.smux_ver == 2
        &&& self.smux_buf == 4194304
        &&& self.frame_size == 8192
        &&& self.stream_buf == 2097152
        &&& self.keep_alive == 10
        &&& self.log@ == ""@
        &&& self.snmp_log@ == ""@
        &&& self.snmp_period == 60
        &&& !self.quiet
        &&& !self.tcp
        &&& !self.pprof
        &&& !self.qpp
        &&& self.qpp_count == 61
        &&& self.close_wait == close_wait
    }
}

impl ClientConfig {
    /// Every setting of the client has its default.
    pub open spec fn is_default(self) -> bool {
        &&& self.base.is_default(128, 512, 0)
        &&& self.local_addr@ == ":12948"@
        &&& self.remote_addr@ == "vps:29900"@
        &&& self.conn == 1
        &&& self.auto_expire == 0
        &&& self.scavenge_ttl == 600
    }
}

impl ServerConfig {
    /// Every setting of the server has its default.
    pub open spec fn is_default(self) -> bool {
        &&& self.base.is_default(1024, 1024, 30)
        &&& self.listen@ == ":29900"@
        &&& self.target@ == "127.0.0.1:12948"@
    }
}

// ---------------------------------------------------------------------------------------
// The names of the flags
// ---------------------------------------------------------------------------------------
/// A text that is one name.
proof fn lemma_one_name(s: Seq<char>)
    requires
        s.len() > 0,
        !s.contains(','),
        s[0] != ' ',
        s.last() != ' ',
    ensures
        names_of(s) == seq![s],
{
    lemma_split_whole(s, ',');
    assert(names_of(s) =~= seq![s]);
}

/// A text that is two names, with or without a space behind the comma.
proof fn lemma_two_names(s: Seq<char>, a: Seq<char>, b: Seq<char>, spaced: bool)
    requires
        s == a.push(',') + (if spaced {
            seq![' '] + b
        } else {
            b
        }),
        a.len() > 0 && b.len() > 0,
        !a.contains(',') && !b.contains(','),
        a[0] != ' ' && a.last() != ' ',
        b[0] != ' ' && b.last() != ' ',
    ensures
        names_of(s) == seq![a, b],
{
    let c = if spaced {
        seq![' '] + b
    } else {
        b
    };
    assert(!c.contains(',')) by {
        assert forall|i: int| 0 <= i < c.len() implies c[i] != ',' by {
            if spaced && i > 0 {
                assert(c[i] == b[i - 1]);
            }
        }
    }
    lemma_split_two(a, c, ',');
    reveal_with_fuel(trim_start_char, 2);
    if spaced {
        assert(c.skip(1) =~= b);
    }
    assert(trim_char(c, ' ') == b);
    assert(trim_char(a, ' ') == a);
    assert(names_of(s) =~= seq![a, b]);
}

/// The first name of a flag.
#[verifier::opaque]
spec fn first_name(name: Seq<char>, n: Seq<char>) -> bool {
    names_of(name).len() > 0 && names_of(name)[0] == n
}

/// Where a name stands in the client's table: twice the place of its flag, and one more for an alias.
#[verifier::opaque]
spec fn client_rank(n: Seq<char>) -> int {
    let c = code(n);
    if c == 158100594 {
        0
    } else if c == 23882860 {
        1
    } else if c == 175269234 {
        2
    } else if c == 24277618 {
        3
    } else if c == 57369977 {
        4
    } else if c == 90405236 {
        6
    } else if c == 74277989 {
        8
    } else if c == 55660624 {
        10
    } else if c == 139554676 {
        12
    } else if c == 73625198 {
        14
    } else if c == 174159973 {
        16
    } else if c == 192114284 {
        18
    } else if c == 57504885 {
        20
    } else if c == 158493812 {
        22
    } else if c == 108230500 {
        24
    } else if c == 108164964 {
        26
    } else if c == 157578084 {
        28
    } else if c == 40137587 {
        29
    } else if c == 191920484 {
        30
    } else if c == 40924019 {
        31
    } else if c == 73687920 {
        32
    } else if c == 107900784 {
        34
    } else if c == 174154873 {
        36
    } else if c == 124675449 {
        38
    } else if c == 141128300 {
        40
    } else if c == 108160356 {
        42
    } else if c == 40788835 {
        44
    } else if c == 125004646 {
        46
    } else if c == 125007986 {
        48
    } else if c == 125007974 {
        50
    } else if c == 157705573 {
        52
    } else if c == 158556518 {
        54
    } else if c == 158032229 {
        56
    } else if c == 157508980 {
        58
    } else if c == 125005927 {
        60
    } else if c == 175334756 {
        62
    } else if c == 57438055 {
        64
    } else if c == 91318644 {
        66
    } else if c == 57959280 {
        68
    } else if c == 23290723 {
        70
    } else if c == 91255398 {
        72
    } else if c == 73952368 {
        74
    } else if c == 23619688 {
        75
    } else if c == 125203310 {
        76
    } else if c == 24540790 {
        77
    } else {
        -1
    }
}

/// Whether the names of a flag stand where the client's table has them.
#[verifier::opaque]
spec fn client_ranked(name: Seq<char>, i: int) -> bool {
    &&& names_of(name).len() <= 2
    &&& forall|k: int|
        0 <= k < names_of(name).len() ==> client_rank(#[trigger] names_of(name)[k]) == 2 * i + k
}

/// The client's flags, the built-in ones at the end.
#[verifier::opaque]
pub open spec fn client_all_flags() -> Seq<FlagSpec<'static>> {
    client_flag_table().push(help_flag()).push(version_flag())
}

proof fn lemma_client_one(n: Seq<char>, i: int)
    requires
        n.len() > 0,
        !n.contains(','),
        n[0] != ' ',
        n.last() != ' ',
        client_rank(n) == 2 * i,
    ensures
        client_ranked(n, i),
        first_name(n, n),
{
    lemma_one_name(n);
    reveal(client_ranked);
    reveal(first_name);
}

proof fn lemma_client_two(s: Seq<char>, a: Seq<char>, b: Seq<char>, spaced: bool, i: int)
    requires
        s == a.push(',') + (if spaced {
            seq![' '] + b
        } else {
            b
        }),
        a.len() > 0 && b.len() > 0,
        !a.contains(',') && !b.contains(','),
        a[0] != ' ' && a.last() != ' ',
        b[0] != ' ' && b.last() != ' ',
        client_rank(a) == 2 * i,
        client_rank(b) == 2 * i + 1,
    ensures
        client_ranked(s, i),
        first_name(s, a),
{
    lemma_two_names(s, a, b, spaced);
    reveal(client_ranked);
    reveal(first_name);
}

proof fn lemma_client_ranks_0()
    ensures
        client_ranked("localaddr,l"@, 0) && first_name("localaddr,l"@, "localaddr"@),
        client_ranked("remoteaddr, r"@, 1) && first_name("remoteaddr, r"@, "remoteaddr"@),
        client_ranked("key"@, 2) && first_name("key"@, "key"@),
        client_ranked("crypt"@, 3) && first_name("crypt"@, "crypt"@),
        client_ranked("mode"@, 4) && first_name("mode"@, "mode"@),
        client_ranked("QPP"@, 5) && first_name("QPP"@, "QPP"@),
        client_ranked("QPPCount"@, 6) && first_name("QPPCount"@, "QPPCount"@),
        client_ranked("conn"@, 7) && first_name("conn"@, "conn"@),
{
    assert(client_ranked("localaddr,l"@, 0) && first_name("localaddr,l"@, "localaddr"@)) by {
        reveal(client_rank);
        reveal_strlit("localaddr,l");
        reveal_strlit("localaddr");
        reveal_strlit("l");
        assert("localaddr,l"@ =~= "localaddr"@.push(',') + "l"@);
        lemma_client_two("localaddr,l"@, "localaddr"@, "l"@, false, 0);
    }
    assert(client_ranked("remoteaddr, r"@, 1) && first_name("remoteaddr, r"@, "remoteaddr"@)) by {
        reveal(client_rank);
        reveal_strlit("remoteaddr, r");
        reveal_strlit("remoteaddr");
        reveal_strlit("r");
        assert("remoteaddr, r"@ =~= "remoteaddr"@.push(',') + (seq![' '] + "r"@));
        lemma_client_two("remoteaddr, r"@, "remoteaddr"@, "r"@, true, 1);
    }
    assert(client_ranked("key"@, 2) && first_name("key"@, "key"@)) by {
        reveal(client_rank);
        reveal_strlit("key");
        lemma_client_one("key"@, 2);
    }
    assert(client_ranked("crypt"@, 3) && first_name("crypt"@, "crypt"@)) by {
        reveal(client_rank);
        reveal_strlit("crypt");
        lemma_client_one("crypt"@, 3);
    }
    assert(client_ranked("mode"@, 4) && first_name("mode"@, "mode"@)) by {
        reveal(client_rank);
        reveal_strlit("mode");
        lemma_client_one("mode"@, 4);
    }
    assert(client_ranked("QPP"@, 5) && first_name("QPP"@, "QPP"@)) by {
        reveal(client_rank);
        reveal_strlit("QPP");
        lemma_client_one("QPP"@, 5);
    }
    assert(client_ranked("QPPCount"@, 6) && first_name("QPPCount"@, "QPPCount"@)) by {
        reveal(client_rank);
        reveal_strlit("QPPCount");
        lemma_client_one("QPPCount"@, 6);
    }
    assert(client_ranked("conn"@, 7) && first_name("conn"@, "conn"@)) by {
        reveal(client_rank);
        reveal_strlit("conn");
        lemma_client_one("conn"@, 7);
    }
}

proof fn lemma_client_ranks_1()
    ensures
        client_ranked("autoexpire"@, 8) && first_name("autoexpire"@, "autoexpire"@),
        client_ranked("scavengettl"@, 9) && first_name("scavengettl"@, "scavengettl"@),
        client_ranked("mtu"@, 10) && first_name("mtu"@, "mtu"@),
        client_ranked("ratelimit"@, 11) && first_name("ratelimit"@, "ratelimit"@),
        client_ranked("sndwnd"@, 12) && first_name("sndwnd"@, "sndwnd"@),
        client_ranked("rcvwnd"@, 13) && first_name("rcvwnd"@, "rcvwnd"@),
        client_ranked("datashard,ds"@, 14) && first_name("datashard,ds"@, "datashard"@),
        client_ranked("parityshard,ps"@, 15) && first_name("parityshard,ps"@, "parityshard"@),
{
    assert(client_ranked("autoexpire"@, 8) && first_name("autoexpire"@, "autoexpire"@)) by {
        reveal(client_rank);
        reveal_strlit("autoexpire");
        lemma_client_one("autoexpire"@, 8);
    }
    assert(client_ranked("scavengettl"@, 9) && first_name("scavengettl"@, "scavengettl"@)) by {
        reveal(client_rank);
        reveal_strlit("scavengettl");
        lemma_client_one("scavengettl"@, 9);
    }
    assert(client_ranked("mtu"@, 10) && first_name("mtu"@, "mtu"@)) by {
        reveal(client_rank);
        reveal_strlit("mtu");
        lemma_client_one("mtu"@, 10);
    }
    assert(client_ranked("ratelimit"@, 11) && first_name("ratelimit"@, "ratelimit"@)) by {
        reveal(client_rank);
        reveal_strlit("ratelimit");
        lemma_client_one("ratelimit"@, 11);
    }
    assert(client_ranked("sndwnd"@, 12) && first_name("sndwnd"@, "sndwnd"@)) by {
        reveal(client_rank);
        reveal_strlit("sndwnd");
        lemma_client_one("sndwnd"@, 12);
    }
    assert(client_ranked("rcvwnd"@, 13) && first_name("rcvwnd"@, "rcvwnd"@)) by {
        reveal(client_rank);
        reveal_strlit("rcvwnd");
        lemma_client_one("rcvwnd"@, 13);
    }
    assert(client_ranked("datashard,ds"@, 14) && first_name("datashard,ds"@, "datashard"@)) by {
        reveal(client_rank);
        reveal_strlit("datashard,ds");
        reveal_strlit("datashard");
        reveal_strlit("ds");
        assert("datashard,ds"@ =~= "datashard"@.push(',') + "ds"@);
        lemma_client_two("datashard,ds"@, "datashard"@, "ds"@, false, 14);
    }
    assert(client_ranked("parityshard,ps"@, 15) && first_name("parityshard,ps"@, "parityshard"@)) by {
        reveal(client_rank);
        reveal_strlit("parityshard,ps");
        reveal_strlit("parityshard");
        reveal_strlit("ps");
        assert("parityshard,ps"@ =~= "parityshard"@.push(',') + "ps"@);
        lemma_client_two("parityshard,ps"@, "parityshard"@, "ps"@, false, 15);
    }
}

proof fn lemma_client_ranks_2()
    ensures
        client_ranked("dscp"@, 16) && first_name("dscp"@, "dscp"@),
        client_ranked("nocomp"@, 17) && first_name("nocomp"@, "nocomp"@),
        client_ranked("acknodelay"@, 18) && first_name("acknodelay"@, "acknodelay"@),
        client_ranked("nodelay"@, 19) && first_name("nodelay"@, "nodelay"@),
        client_ranked("interval"@, 20) && first_name("interval"@, "interval"@),
        client_ranked("resend"@, 21) && first_name("resend"@, "resend"@),
        client_ranked("nc"@, 22) && first_name("nc"@, "nc"@),
        client_ranked("sockbuf"@, 23) && first_name("sockbuf"@, "sockbuf"@),
{
    assert(client_ranked("dscp"@, 16) && first_name("dscp"@, "dscp"@)) by {
        reveal(client_rank);
        reveal_strlit("dscp");
        lemma_client_one("dscp"@, 16);
    }
    assert(client_ranked("nocomp"@, 17) && first_name("nocomp"@, "nocomp"@)) by {
        reveal(client_rank);
        reveal_strlit("nocomp");
        lemma_client_one("nocomp"@, 17);
    }
    assert(client_ranked("acknodelay"@, 18) && first_name("acknodelay"@, "acknodelay"@)) by {
        reveal(client_rank);
        reveal_strlit("acknodelay");
        lemma_client_one("acknodelay"@, 18);
    }
    assert(client_ranked("nodelay"@, 19) && first_name("nodelay"@, "nodelay"@)) by {
        reveal(client_rank);
        reveal_strlit("nodelay");
        lemma_client_one("nodelay"@, 19);
    }
    assert(client_ranked("interval"@, 20) && first_name("interval"@, "interval"@)) by {
        reveal(client_rank);
        reveal_strlit("interval");
        lemma_client_one("interval"@, 20);
    }
    assert(client_ranked("resend"@, 21) && first_name("resend"@, "resend"@)) by {
        reveal(client_rank);
        reveal_strlit("resend");
        lemma_client_one("resend"@, 21);
    }
    assert(client_ranked("nc"@, 22) && first_name("nc"@, "nc"@)) by {
        reveal(client_rank);
        reveal_strlit("nc");
        lemma_client_one("nc"@, 22);
    }
    assert(client_ranked("sockbuf"@, 23) && first_name("sockbuf"@, "sockbuf"@)) by {
        reveal(client_rank);
        reveal_strlit("sockbuf");
        lemma_client_one("sockbuf"@, 23);
    }
}

proof fn lemma_client_ranks_3()
    ensures
        client_ranked("smuxver"@, 24) && first_name("smuxver"@, "smuxver"@),
        client_ranked("smuxbuf"@, 25) && first_name("smuxbuf"@, "smuxbuf"@),
        client_ranked("framesize"@, 26) && first_name("framesize"@, "framesize"@),
        client_ranked("streambuf"@, 27) && first_name("streambuf"@, "streambuf"@),
        client_ranked("keepalive"@, 28) && first_name("keepalive"@, "keepalive"@),
        client_ranked("closewait"@, 29) && first_name("closewait"@, "closewait"@),
        client_ranked("snmplog"@, 30) && first_name("snmplog"@, "snmplog"@),
        client_ranked("snmpperiod"@, 31) && first_name("snmpperiod"@, "snmpperiod"@),
{
    assert(client_ranked("smuxver"@, 24) && first_name("smuxver"@, "smuxver"@)) by {
        reveal(client_rank);
        reveal_strlit("smuxver");
        lemma_client_one("smuxver"@, 24);
    }
    assert(client_ranked("smuxbuf"@, 25) && first_name("smuxbuf"@, "smuxbuf"@)) by {
        reveal(client_rank);
        reveal_strlit("smuxbuf");
        lemma_client_one("smuxbuf"@, 25);
    }
    assert(client_ranked("framesize"@, 26) && first_name("framesize"@, "framesize"@)) by {
        reveal(client_rank);
        reveal_strlit("framesize");
        lemma_client_one("framesize"@, 26);
    }
    assert(client_ranked("streambuf"@, 27) && first_name("streambuf"@, "streambuf"@)) by {
        reveal(client_rank);
        reveal_strlit("streambuf");
        lemma_client_one("streambuf"@, 27);
    }
    assert(client_ranked("keepalive"@, 28) && first_name("keepalive"@, "keepalive"@)) by {
        reveal(client_rank);
        reveal_strlit("keepalive");
        lemma_client_one("keepalive"@, 28);
    }
    assert(client_ranked("closewait"@, 29) && first_name("closewait"@, "closewait"@)) by {
        reveal(client_rank);
        reveal_strlit("closewait");
        lemma_client_one("closewait"@, 29);
    }
    assert(client_ranked("snmplog"@, 30) && first_name("snmplog"@, "snmplog"@)) by {
        reveal(client_rank);
        reveal_strlit("snmplog");
        lemma_client_one("snmplog"@, 30);
    }
    assert(client_ranked("snmpperiod"@, 31) && first_name("snmpperiod"@, "snmpperiod"@)) by {
        reveal(client_rank);
        reveal_strlit("snmpperiod");
        lemma_client_one("snmpperiod"@, 31);
    }
}

proof fn lemma_client_ranks_4()
    ensures
        client_ranked("log"@, 32) && first_name("log"@, "log"@),
        client_ranked("quiet"@, 33) && first_name("quiet"@, "quiet"@),
        client_ranked("tcp"@, 34) && first_name("tcp"@, "tcp"@),
        client_ranked("c"@, 35) && first_name("c"@, "c"@),
        client_ranked("pprof"@, 36) && first_name("pprof"@, "pprof"@),
        client_ranked("help, h"@, 37) && first_name("help, h"@, "help"@),
        client_ranked("version, v"@, 38) && first_name("version, v"@, "version"@),
{
    assert(client_ranked("log"@, 32) && first_name("log"@, "log"@)) by {
        reveal(client_rank);
        reveal_strlit("log");
        lemma_client_one("log"@, 32);
    }
    assert(client_ranked("quiet"@, 33) && first_name("quiet"@, "quiet"@)) by {
        reveal(client_rank);
        reveal_strlit("quiet");
        lemma_client_one("quiet"@, 33);
    }
    assert(client_ranked("tcp"@, 34) && first_name("tcp"@, "tcp"@)) by {
        reveal(client_rank);
        reveal_strlit("tcp");
        lemma_client_one("tcp"@, 34);
    }
    assert(client_ranked("c"@, 35) && first_name("c"@, "c"@)) by {
        reveal(client_rank);
        reveal_strlit("c");
        lemma_client_one("c"@, 35);
    }
    assert(client_ranked("pprof"@, 36) && first_name("pprof"@, "pprof"@)) by {
        reveal(client_rank);
        reveal_strlit("pprof");
        lemma_client_one("pprof"@, 36);
    }
    assert(client_ranked("help, h"@, 37) && first_name("help, h"@, "help"@)) by {
        reveal(client_rank);
        reveal_strlit("help, h");
        reveal_strlit("help");
        reveal_strlit("h");
        assert("help, h"@ =~= "help"@.push(',') + (seq![' '] + "h"@));
        lemma_client_two("help, h"@, "help"@, "h"@, true, 37);
    }
    assert(client_ranked("version, v"@, 38) && first_name("version, v"@, "version"@)) by {
        reveal(client_rank);
        reveal_strlit("version, v");
        reveal_strlit("version");
        reveal_strlit("v");
        assert("version, v"@ =~= "version"@.push(',') + (seq![' '] + "v"@));
        lemma_client_two("version, v"@, "version"@, "v"@, true, 38);
    }
}

/// The client's table, flag by flag.
proof fn lemma_client_table()
    ensures
        client_all_flags().len() == 39,
        client_all_flags()[0].name@ == "localaddr,l"@,
        client_all_flags()[1].name@ == "remoteaddr, r"@,
        client_all_flags()[2].name@ == "key"@,
        client_all_flags()[3].name@ == "crypt"@,
        client_all_flags()[4].name@ == "mode"@,
        client_all_flags()[5].name@ == "QPP"@,
        client_all_flags()[6].name@ == "QPPCount"@,
        client_all_flags()[7].name@ == "conn"@,
        client_all_flags()[8].name@ == "autoexpire"@,
        client_all_flags()[9].name@ == "scavengettl"@,
        client_all_flags()[10].name@ == "mtu"@,
        client_all_flags()[11].name@ == "ratelimit"@,
        client_all_flags()[12].name@ == "sndwnd"@,
        client_all_flags()[13].name@ == "rcvwnd"@,
        client_all_flags()[14].name@ == "datashard,ds"@,
        client_all_flags()[15].name@ == "parityshard,ps"@,
        client_all_flags()[16].name@ == "dscp"@,
        client_all_flags()[17].name@ == "nocomp"@,
        client_all_flags()[18].name@ == "acknodelay"@,
        client_all_flags()[19].name@ == "nodelay"@,
        client_all_flags()[20].name@ == "interval"@,
        client_all_flags()[21].name@ == "resend"@,
        client_all_flags()[22].name@ == "nc"@,
        client_all_flags()[23].name@ == "sockbuf"@,
        client_all_flags()[24].name@ == "smuxver"@,
        client_all_flags()[25].name@ == "smuxbuf"@,
        client_all_flags()[26].name@ == "framesize"@,
        client_all_flags()[27].name@ == "streambuf"@,
        client_all_flags()[28].name@ == "keepalive"@,
        client_all_flags()[29].name@ == "closewait"@,
        client_all_flags()[30].name@ == "snmplog"@,
        client_all_flags()[31].name@ == "snmpperiod"@,
        client_all_flags()[32].name@ == "log"@,
        client_all_flags()[33].name@ == "quiet"@,
        client_all_flags()[34].name@ == "tcp"@,
        client_all_flags()[35].name@ == "c"@,
        client_all_flags()[36].name@ == "pprof"@,
        client_all_flags()[37].name@ == "help, h"@,
        client_all_flags()[38].name@ == "version, v"@,
        client_all_flags()[0].default == FlagDefault::Str(":12948"),
        client_all_flags()[1].default == FlagDefault::Str("vps:29900"),
        client_all_flags()[2].default == FlagDefault::Str("it's a secrect"),
        client_all_flags()[3].default == FlagDefault::Str("aes"),
        client_all_flags()[4].default == FlagDefault::Str("fast"),
        client_all_flags()[5].default == FlagDefault::Bool,
        client_all_flags()[6].default == FlagDefault::Int(61),
        client_all_flags()[7].default == FlagDefault::Int(1),
        client_all_flags()[8].default == FlagDefault::Int(0),
        client_all_flags()[9].default == FlagDefault::Int(600),
        client_all_flags()[10].default == FlagDefault::Int(1350),
        client_all_flags()[11].default == FlagDefault::Int(0),
        client_all_flags()[12].default == FlagDefault::Int(128),
        client_all_flags()[13].default == FlagDefault::Int(512),
        client_all_flags()[14].default == FlagDefault::Int(10),
        client_all_flags()[15].default == FlagDefault::Int(3),
        client_all_flags()[16].default == FlagDefault::Int(0),
        client_all_flags()[17].default == FlagDefault::Bool,
        client_all_flags()[18].default == FlagDefault::Bool,
        client_all_flags()[19].default == FlagDefault::Int(0),
        client_all_flags()[20].default == FlagDefault::Int(50),
        client_all_flags()[21].default == FlagDefault::Int(0),
        client_all_flags()[22].default == FlagDefault::Int(0),
        client_all_flags()[23].default == FlagDefault::Int(4194304),
        client_all_flags()[24].default == FlagDefault::Int(2),
        client_all_flags()[25].default == FlagDefault::Int(4194304),
        client_all_flags()[26].default == FlagDefault::Int(8192),
        client_all_flags()[27].default == FlagDefault::Int(2097152),
        client_all_flags()[28].default == FlagDefault::Int(10),
        client_all_flags()[29].default == FlagDefault::Int(0),
        client_all_flags()[30].default == FlagDefault::Str(""),
        client_all_flags()[31].default == FlagDefault::Int(60),
        client_all_flags()[32].default == FlagDefault::Str(""),
        client_all_flags()[33].default == FlagDefault::Bool,
        client_all_flags()[34].default == FlagDefault::Bool,
        client_all_flags()[35].default == FlagDefault::Str(""),
        client_all_flags()[36].default == FlagDefault::Bool,
{
    reveal(client_all_flags);
}

/// Flags whose names all have places of their own have distinct names.
proof fn lemma_client_distinct(t: Seq<FlagSpec<'static>>)
    requires
        t.len() == 39,
        client_ranked(t[0].name@, 0),
        client_ranked(t[1].name@, 1),
        client_ranked(t[2].name@, 2),
        client_ranked(t[3].name@, 3),
        client_ranked(t[4].name@, 4),
        client_ranked(t[5].name@, 5),
        client_ranked(t[6].name@, 6),
        client_ranked(t[7].name@, 7),
        client_ranked(t[8].name@, 8),
        client_ranked(t[9].name@, 9),
        client_ranked(t[10].name@, 10),
        client_ranked(t[11].name@, 11),
        client_ranked(t[12].name@, 12),
        client_ranked(t[13].name@, 13),
        client_ranked(t[14].name@, 14),
        client_ranked(t[15].name@, 15),
        client_ranked(t[16].name@, 16),
        client_ranked(t[17].name@, 17),
        client_ranked(t[18].name@, 18),
        client_ranked(t[19].name@, 19),
        client_ranked(t[20].name@, 20),
        client_ranked(t[21].name@, 21),
        client_ranked(t[22].name@, 22),
        client_ranked(t[23].name@, 23),
        client_ranked(t[24].name@, 24),
        client_ranked(t[25].name@, 25),
        client_ranked(t[26].name@, 26),
        client_ranked(t[27].name@, 27),
        client_ranked(t[28].name@, 28),
        client_ranked(t[29].name@, 29),
        client_ranked(t[30].name@, 30),
        client_ranked(t[31].name@, 31),
        client_ranked(t[32].name@, 32),
        client_ranked(t[33].name@, 33),
        client_ranked(t[34].name@, 34),
        client_ranked(t[35].name@, 35),
        client_ranked(t[36].name@, 36),
        client_ranked(t[37].name@, 37),
        client_ranked(t[38].name@, 38),
    ensures
        names_are_distinct(t),
{
    assert forall|i: int| 0 <= i < 39 implies client_ranked((#[trigger] t[i]).name@, i) by {}
    assert forall|i: int, a: int, j: int, b: int|
        0 <= i < t.len() && 0 <= j < t.len() && 0 <= a < names_of(t[i].name@).len() && 0 <= b
            < names_of(t[j].name@).len() && #[trigger] names_of(t[i].name@)[a]
            == #[trigger] names_of(t[j].name@)[b] implies i == j && a == b by {
        reveal(client_ranked);
        assert(client_ranked(t[i].name@, i) && client_ranked(t[j].name@, j));
    }
}

/// No two flags of the client share a name.
pub proof fn the_client_names_are_distinct()
    ensures
        names_are_distinct(client_all_flags()),
{
    lemma_client_table();
    lemma_client_ranks_0();
    lemma_client_ranks_1();
    lemma_client_ranks_2();
    lemma_client_ranks_3();
    lemma_client_ranks_4();
    lemma_client_distinct(client_all_flags());
}

/// Where a name stands in the server's table: twice the place of its flag, and one more for an alias.
#[verifier::opaque]
spec fn server_rank(n: Seq<char>) -> int {
    let c = code(n);
    if c == 107770990 {
        0
    } else if c == 23882860 {
        1
    } else if c == 108291956 {
        2
    } else if c == 24409204 {
        3
    } else if c == 57369977 {
        4
    } else if c == 90405236 {
        6
    } else if c == 55660624 {
        8
    } else if c == 139554676 {
        10
    } else if c == 74277989 {
        12
    } else if c == 57504885 {
        14
    } else if c == 158493812 {
        16
    } else if c == 108230500 {
        18
    } else if c == 108164964 {
        20
    } else if c == 157578084 {
        22
    } else if c == 40137587 {
        23
    } else if c == 191920484 {
        24
    } else if c == 40924019 {
        25
    } else if c == 73687920 {
        26
    } else if c == 107900784 {
        28
    } else if c == 174154873 {
        30
    } else if c == 124675449 {
        32
    } else if c == 141128300 {
        34
    } else if c == 108160356 {
        36
    } else if c == 40788835 {
        38
    } else if c == 125004646 {
        40
    } else if c == 125007986 {
        42
    } else if c == 125007974 {
        44
    } else if c == 157705573 {
        46
    } else if c == 158556518 {
        48
    } else if c == 158032229 {
        50
    } else if c == 157508980 {
        52
    } else if c == 125005927 {
        54
    } else if c == 175334756 {
        56
    } else if c == 91255398 {
        58
    } else if c == 57438055 {
        60
    } else if c == 91318644 {
        62
    } else if c == 57959280 {
        64
    } else if c == 23290723 {
        66
    } else if c == 73952368 {
        68
    } else if c == 23619688 {
        69
    } else if c == 125203310 {
        70
    } else if c == 24540790 {
        71
    } else {
        -1
    }
}

/// Whether the names of a flag stand where the server's table has them.
#[verifier::opaque]
spec fn server_ranked(name: Seq<char>, i: int) -> bool {
    &&& names_of(name).len() <= 2
    &&& forall|k: int|
        0 <= k < names_of(name).len() ==> server_rank(#[trigger] names_of(name)[k]) == 2 * i + k
}

/// The server's flags, the built-in ones at the end.
#[verifier::opaque]
pub open spec fn server_all_flags() -> Seq<FlagSpec<'static>> {
    server_flag_table().push(help_flag()).push(version_flag())
}

proof fn lemma_server_one(n: Seq<char>, i: int)
    requires
        n.len() > 0,
        !n.contains(','),
        n[0] != ' ',
        n.last() != ' ',
        server_rank(n) == 2 * i,
    ensures
        server_ranked(n, i),
        first_name(n, n),
{
    lemma_one_name(n);
    reveal(server_ranked);
    reveal(first_name);
}

proof fn lemma_server_two(s: Seq<char>, a: Seq<char>, b: Seq<char>, spaced: bool, i: int)
    requires
        s == a.push(',') + (if spaced {
            seq![' '] + b
        } else {
            b
        }),
        a.len() > 0 && b.len() > 0,
        !a.contains(',') && !b.contains(','),
        a[0] != ' ' && a.last() != ' ',
        b[0] != ' ' && b.last() != ' ',
        server_rank(a) == 2 * i,
        server_rank(b) == 2 * i + 1,
    ensures
        server_ranked(s, i),
        first_name(s, a),
{
    lemma_two_names(s, a, b, spaced);
    reveal(server_ranked);
    reveal(first_name);
}

proof fn lemma_server_ranks_0()
    ensures
        server_ranked("listen,l"@, 0) && first_name("listen,l"@, "listen"@),
        server_ranked("target, t"@, 1) && first_name("target, t"@, "target"@),
        server_ranked("key"@, 2) && first_name("key"@, "key"@),
        server_ranked("crypt"@, 3) && first_name("crypt"@, "crypt"@),
        server_ranked("QPP"@, 4) && first_name("QPP"@, "QPP"@),
        server_ranked("QPPCount"@, 5) && first_name("QPPCount"@, "QPPCount"@),
        server_ranked("mode"@, 6) && first_name("mode"@, "mode"@),
        server_ranked("mtu"@, 7) && first_name("mtu"@, "mtu"@),
{
    assert(server_ranked("listen,l"@, 0) && first_name("listen,l"@, "listen"@)) by {
        reveal(server_rank);
        reveal_strlit("listen,l");
        reveal_strlit("listen");
        reveal_strlit("l");
        assert("listen,l"@ =~= "listen"@.push(',') + "l"@);
        lemma_server_two("listen,l"@, "listen"@, "l"@, false, 0);
    }
    assert(server_ranked("target, t"@, 1) && first_name("target, t"@, "target"@)) by {
        reveal(server_rank);
        reveal_strlit("target, t");
        reveal_strlit("target");
        reveal_strlit("t");
        assert("target, t"@ =~= "target"@.push(',') + (seq![' '] + "t"@));
        lemma_server_two("target, t"@, "target"@, "t"@, true, 1);
    }
    assert(server_ranked("key"@, 2) && first_name("key"@, "key"@)) by {
        reveal(server_rank);
        reveal_strlit("key");
        lemma_server_one("key"@, 2);
    }
    assert(server_ranked("crypt"@, 3) && first_name("crypt"@, "crypt"@)) by {
        reveal(server_rank);
        reveal_strlit("crypt");
        lemma_server_one("crypt"@, 3);
    }
    assert(server_ranked("QPP"@, 4) && first_name("QPP"@, "QPP"@)) by {
        reveal(server_rank);
        reveal_strlit("QPP");
        lemma_server_one("QPP"@, 4);
    }
    assert(server_ranked("QPPCount"@, 5) && first_name("QPPCount"@, "QPPCount"@)) by {
        reveal(server_rank);
        reveal_strlit("QPPCount");
        lemma_server_one("QPPCount"@, 5);
    }
    assert(server_ranked("mode"@, 6) && first_name("mode"@, "mode"@)) by {
        reveal(server_rank);
        reveal_strlit("mode");
        lemma_server_one("mode"@, 6);
    }
    assert(server_ranked("mtu"@, 7) && first_name("mtu"@, "mtu"@)) by {
        reveal(server_rank);
        reveal_strlit("mtu");
        lemma_server_one("mtu"@, 7);
    }
}

proof fn lemma_server_ranks_1()
    ensures
        server_ranked("ratelimit"@, 8) && first_name("ratelimit"@, "ratelimit"@),
        server_ranked("sndwnd"@, 9) && first_name("sndwnd"@, "sndwnd"@),
        server_ranked("rcvwnd"@, 10) && first_name("rcvwnd"@, "rcvwnd"@),
        server_ranked("datashard,ds"@, 11) && first_name("datashard,ds"@, "datashard"@),
        server_ranked("parityshard,ps"@, 12) && first_name("parityshard,ps"@, "parityshard"@),
        server_ranked("dscp"@, 13) && first_name("dscp"@, "dscp"@),
        server_ranked("nocomp"@, 14) && first_name("nocomp"@, "nocomp"@),
        server_ranked("acknodelay"@, 15) && first_name("acknodelay"@, "acknodelay"@),
{
    assert(server_ranked("ratelimit"@, 8) && first_name("ratelimit"@, "ratelimit"@)) by {
        reveal(server_rank);
        reveal_strlit("ratelimit");
        lemma_server_one("ratelimit"@, 8);
    }
    assert(server_ranked("sndwnd"@, 9) && first_name("sndwnd"@, "sndwnd"@)) by {
        reveal(server_rank);
        reveal_strlit("sndwnd");
        lemma_server_one("sndwnd"@, 9);
    }
    assert(server_ranked("rcvwnd"@, 10) && first_name("rcvwnd"@, "rcvwnd"@)) by {
        reveal(server_rank);
        reveal_strlit("rcvwnd");
        lemma_server_one("rcvwnd"@, 10);
    }
    assert(server_ranked("datashard,ds"@, 11) && first_name("datashard,ds"@, "datashard"@)) by {
        reveal(server_rank);
        reveal_strlit("datashard,ds");
        reveal_strlit("datashard");
        reveal_strlit("ds");
        assert("datashard,ds"@ =~= "datashard"@.push(',') + "ds"@);
        lemma_server_two("datashard,ds"@, "datashard"@, "ds"@, false, 11);
    }
    assert(server_ranked("parityshard,ps"@, 12) && first_name("parityshard,ps"@, "parityshard"@)) by {
        reveal(server_rank);
        reveal_strlit("parityshard,ps");
        reveal_strlit("parityshard");
        reveal_strlit("ps");
        assert("parityshard,ps"@ =~= "parityshard"@.push(',') + "ps"@);
        lemma_server_two("parityshard,ps"@, "parityshard"@, "ps"@, false, 12);
    }
    assert(server_ranked("dscp"@, 13) && first_name("dscp"@, "dscp"@)) by {
        reveal(server_rank);
        reveal_strlit("dscp");
        lemma_server_one("dscp"@, 13);
    }
    assert(server_ranked("nocomp"@, 14) && first_name("nocomp"@, "nocomp"@)) by {
        reveal(server_rank);
        reveal_strlit("nocomp");
        lemma_server_one("nocomp"@, 14);
    }
    assert(server_ranked("acknodelay"@, 15) && first_name("acknodelay"@, "acknodelay"@)) by {
        reveal(server_rank);
        reveal_strlit("acknodelay");
        lemma_server_one("acknodelay"@, 15);
    }
}

proof fn lemma_server_ranks_2()
    ensures
        server_ranked("nodelay"@, 16) && first_name("nodelay"@, "nodelay"@),
        server_ranked("interval"@, 17) && first_name("interval"@, "interval"@),
        server_ranked("resend"@, 18) && first_name("resend"@, "resend"@),
        server_ranked("nc"@, 19) && first_name("nc"@, "nc"@),
        server_ranked("sockbuf"@, 20) && first_name("sockbuf"@, "sockbuf"@),
        server_ranked("smuxver"@, 21) && first_name("smuxver"@, "smuxver"@),
        server_ranked("smuxbuf"@, 22) && first_name("smuxbuf"@, "smuxbuf"@),
        server_ranked("framesize"@, 23) && first_name("framesize"@, "framesize"@),
{
    assert(server_ranked("nodelay"@, 16) && first_name("nodelay"@, "nodelay"@)) by {
        reveal(server_rank);
        reveal_strlit("nodelay");
        lemma_server_one("nodelay"@, 16);
    }
    assert(server_ranked("interval"@, 17) && first_name("interval"@, "interval"@)) by {
        reveal(server_rank);
        reveal_strlit("interval");
        lemma_server_one("interval"@, 17);
    }
    assert(server_ranked("resend"@, 18) && first_name("resend"@, "resend"@)) by {
        reveal(server_rank);
        reveal_strlit("resend");
        lemma_server_one("resend"@, 18);
    }
    assert(server_ranked("nc"@, 19) && first_name("nc"@, "nc"@)) by {
        reveal(server_rank);
        reveal_strlit("nc");
        lemma_server_one("nc"@, 19);
    }
    assert(server_ranked("sockbuf"@, 20) && first_name("sockbuf"@, "sockbuf"@)) by {
        reveal(server_rank);
        reveal_strlit("sockbuf");
        lemma_server_one("sockbuf"@, 20);
    }
    assert(server_ranked("smuxver"@, 21) && first_name("smuxver"@, "smuxver"@)) by {
        reveal(server_rank);
        reveal_strlit("smuxver");
        lemma_server_one("smuxver"@, 21);
    }
    assert(server_ranked("smuxbuf"@, 22) && first_name("smuxbuf"@, "smuxbuf"@)) by {
        reveal(server_rank);
        reveal_strlit("smuxbuf");
        lemma_server_one("smuxbuf"@, 22);
    }
    assert(server_ranked("framesize"@, 23) && first_name("framesize"@, "framesize"@)) by {
        reveal(server_rank);
        reveal_strlit("framesize");
        lemma_server_one("framesize"@, 23);
    }
}

proof fn lemma_server_ranks_3()
    ensures
        server_ranked("streambuf"@, 24) && first_name("streambuf"@, "streambuf"@),
        server_ranked("keepalive"@, 25) && first_name("keepalive"@, "keepalive"@),
        server_ranked("closewait"@, 26) && first_name("closewait"@, "closewait"@),
        server_ranked("snmplog"@, 27) && first_name("snmplog"@, "snmplog"@),
        server_ranked("snmpperiod"@, 28) && first_name("snmpperiod"@, "snmpperiod"@),
        server_ranked("pprof"@, 29) && first_name("pprof"@, "pprof"@),
        server_ranked("log"@, 30) && first_name("log"@, "log"@),
        server_ranked("quiet"@, 31) && first_name("quiet"@, "quiet"@),
{
    assert(server_ranked("streambuf"@, 24) && first_name("streambuf"@, "streambuf"@)) by {
        reveal(server_rank);
        reveal_strlit("streambuf");
        lemma_server_one("streambuf"@, 24);
    }
    assert(server_ranked("keepalive"@, 25) && first_name("keepalive"@, "keepalive"@)) by {
        reveal(server_rank);
        reveal_strlit("keepalive");
        lemma_server_one("keepalive"@, 25);
    }
    assert(server_ranked("closewait"@, 26) && first_name("closewait"@, "closewait"@)) by {
        reveal(server_rank);
        reveal_strlit("closewait");
        lemma_server_one("closewait"@, 26);
    }
    assert(server_ranked("snmplog"@, 27) && first_name("snmplog"@, "snmplog"@)) by {
        reveal(server_rank);
        reveal_strlit("snmplog");
        lemma_server_one("snmplog"@, 27);
    }
    assert(server_ranked("snmpperiod"@, 28) && first_name("snmpperiod"@, "snmpperiod"@)) by {
        reveal(server_rank);
        reveal_strlit("snmpperiod");
        lemma_server_one("snmpperiod"@, 28);
    }
    assert(server_ranked("pprof"@, 29) && first_name("pprof"@, "pprof"@)) by {
        reveal(server_rank);
        reveal_strlit("pprof");
        lemma_server_one("pprof"@, 29);
    }
    assert(server_ranked("log"@, 30) && first_name("log"@, "log"@)) by {
        reveal(server_rank);
        reveal_strlit("log");
        lemma_server_one("log"@, 30);
    }
    assert(server_ranked("quiet"@, 31) && first_name("quiet"@, "quiet"@)) by {
        reveal(server_rank);
        reveal_strlit("quiet");
        lemma_server_one("quiet"@, 31);
    }
}

proof fn lemma_server_ranks_4()
    ensures
        server_ranked("tcp"@, 32) && first_name("tcp"@, "tcp"@),
        server_ranked("c"@, 33) && first_name("c"@, "c"@),
        server_ranked("help, h"@, 34) && first_name("help, h"@, "help"@),
        server_ranked("version, v"@, 35) && first_name("version, v"@, "version"@),
{
    assert(server_ranked("tcp"@, 32) && first_name("tcp"@, "tcp"@)) by {
        reveal(server_rank);
        reveal_strlit("tcp");
        lemma_server_one("tcp"@, 32);
    }
    assert(server_ranked("c"@, 33) && first_name("c"@, "c"@)) by {
        reveal(server_rank);
        reveal_strlit("c");
        lemma_server_one("c"@, 33);
    }
    assert(server_ranked("help, h"@, 34) && first_name("help, h"@, "help"@)) by {
        reveal(server_rank);
        reveal_strlit("help, h");
        reveal_strlit("help");
        reveal_strlit("h");
        assert("help, h"@ =~= "help"@.push(',') + (seq![' '] + "h"@));
        lemma_server_two("help, h"@, "help"@, "h"@, true, 34);
    }
    assert(server_ranked("version, v"@, 35) && first_name("version, v"@, "version"@)) by {
        reveal(server_rank);
        reveal_strlit("version, v");
        reveal_strlit("version");
        reveal_strlit("v");
        assert("version, v"@ =~= "version"@.push(',') + (seq![' '] + "v"@));
        lemma_server_two("version, v"@, "version"@, "v"@, true, 35);
    }
}

/// The server's table, flag by flag.
proof fn lemma_server_table()
    ensures
        server_all_flags().len() == 36,
        server_all_flags()[0].name@ == "listen,l"@,
        server_all_flags()[1].name@ == "target, t"@,
        server_all_flags()[2].name@ == "key"@,
        server_all_flags()[3].name@ == "crypt"@,
        server_all_flags()[4].name@ == "QPP"@,
        server_all_flags()[5].name@ == "QPPCount"@,
        server_all_flags()[6].name@ == "mode"@,
        server_all_flags()[7].name@ == "mtu"@,
        server_all_flags()[8].name@ == "ratelimit"@,
        server_all_flags()[9].name@ == "sndwnd"@,
        server_all_flags()[10].name@ == "rcvwnd"@,
        server_all_flags()[11].name@ == "datashard,ds"@,
        server_all_flags()[12].name@ == "parityshard,ps"@,
        server_all_flags()[13].name@ == "dscp"@,
        server_all_flags()[14].name@ == "nocomp"@,
        server_all_flags()[15].name@ == "acknodelay"@,
        server_all_flags()[16].name@ == "nodelay"@,
        server_all_flags()[17].name@ == "interval"@,
        server_all_flags()[18].name@ == "resend"@,
        server_all_flags()[19].name@ == "nc"@,
        server_all_flags()[20].name@ == "sockbuf"@,
        server_all_flags()[21].name@ == "smuxver"@,
        server_all_flags()[22].name@ == "smuxbuf"@,
        server_all_flags()[23].name@ == "framesize"@,
        server_all_flags()[24].name@ == "streambuf"@,
        server_all_flags()[25].name@ == "keepalive"@,
        server_all_flags()[26].name@ == "closewait"@,
        server_all_flags()[27].name@ == "snmplog"@,
        server_all_flags()[28].name@ == "snmpperiod"@,
        server_all_flags()[29].name@ == "pprof"@,
        server_all_flags()[30].name@ == "log"@,
        server_all_flags()[31].name@ == "quiet"@,
        server_all_flags()[32].name@ == "tcp"@,
        server_all_flags()[33].name@ == "c"@,
        server_all_flags()[34].name@ == "help, h"@,
        server_all_flags()[35].name@ == "version, v"@,
        server_all_flags()[0].default == FlagDefault::Str(":29900"),
        server_all_flags()[1].default == FlagDefault::Str("127.0.0.1:12948"),
        server_all_flags()[2].default == FlagDefault::Str("it's a secrect"),
        server_all_flags()[3].default == FlagDefault::Str("aes"),
        server_all_flags()[4].default == FlagDefault::Bool,
        server_all_flags()[5].default == FlagDefault::Int(61),
        server_all_flags()[6].default == FlagDefault::Str("fast"),
        server_all_flags()[7].default == FlagDefault::Int(1350),
        server_all_flags()[8].default == FlagDefault::Int(0),
        server_all_flags()[9].default == FlagDefault::Int(1024),
        server_all_flags()[10].default == FlagDefault::Int(1024),
        server_all_flags()[11].default == FlagDefault::Int(10),
        server_all_flags()[12].default == FlagDefault::Int(3),
        server_all_flags()[13].default == FlagDefault::Int(0),
        server_all_flags()[14].default == FlagDefault::Bool,
        server_all_flags()[15].default == FlagDefault::Bool,
        server_all_flags()[16].default == FlagDefault::Int(0),
        server_all_flags()[17].default == FlagDefault::Int(50),
        server_all_flags()[18].default == FlagDefault::Int(0),
        server_all_flags()[19].default == FlagDefault::Int(0),
        server_all_flags()[20].default == FlagDefault::Int(4194304),
        server_all_flags()[21].default == FlagDefault::Int(2),
        server_all_flags()[22].default == FlagDefault::Int(4194304),
        server_all_flags()[23].default == FlagDefault::Int(8192),
        server_all_flags()[24].default == FlagDefault::Int(2097152),
        server_all_flags()[25].default == FlagDefault::Int(10),
        server_all_flags()[26].default == FlagDefault::Int(30),
        server_all_flags()[27].default == FlagDefault::Str(""),
        server_all_flags()[28].default == FlagDefault::Int(60),
        server_all_flags()[29].default == FlagDefault::Bool,
        server_all_flags()[30].default == FlagDefault::Str(""),
        server_all_flags()[31].default == FlagDefault::Bool,
        server_all_flags()[32].default == FlagDefault::Bool,
        server_all_flags()[33].default == FlagDefault::Str(""),
{
    reveal(server_all_flags);
}

/// Flags whose names all have places of their own have distinct names.
proof fn lemma_server_distinct(t: Seq<FlagSpec<'static>>)
    requires
        t.len() == 36,
        server_ranked(t[0].name@, 0),
        server_ranked(t[1].name@, 1),
        server_ranked(t[2].name@, 2),
        server_ranked(t[3].name@, 3),
        server_ranked(t[4].name@, 4),
        server_ranked(t[5].name@, 5),
        server_ranked(t[6].name@, 6),
        server_ranked(t[7].name@, 7),
        server_ranked(t[8].name@, 8),
        server_ranked(t[9].name@, 9),
        server_ranked(t[10].name@, 10),
        server_ranked(t[11].name@, 11),
        server_ranked(t[12].name@, 12),
        server_ranked(t[13].name@, 13),
        server_ranked(t[14].name@, 14),
        server_ranked(t[15].name@, 15),
        server_ranked(t[16].name@, 16),
        server_ranked(t[17].name@, 17),
        server_ranked(t[18].name@, 18),
        server_ranked(t[19].name@, 19),
        server_ranked(t[20].name@, 20),
        server_ranked(t[21].name@, 21),
        server_ranked(t[22].name@, 22),
        server_ranked(t[23].name@, 23),
        server_ranked(t[24].name@, 24),
        server_ranked(t[25].name@, 25),
        server_ranked(t[26].name@, 26),
        server_ranked(t[27].name@, 27),
        server_ranked(t[28].name@, 28),
        server_ranked(t[29].name@, 29),
        server_ranked(t[30].name@, 30),
        server_ranked(t[31].name@, 31),
        server_ranked(t[32].name@, 32),
        server_ranked(t[33].name@, 33),
        server_ranked(t[34].name@, 34),
        server_ranked(t[35].name@, 35),
    ensures
        names_are_distinct(t),
{
    assert forall|i: int| 0 <= i < 36 implies server_ranked((#[trigger] t[i]).name@, i) by {}
    assert forall|i: int, a: int, j: int, b: int|
        0 <= i < t.len() && 0 <= j < t.len() && 0 <= a < names_of(t[i].name@).len() && 0 <= b
            < names_of(t[j].name@).len() && #[trigger] names_of(t[i].name@)[a]
            == #[trigger] names_of(t[j].name@)[b] implies i == j && a == b by {
        reveal(server_ranked);
        assert(server_ranked(t[i].name@, i) && server_ranked(t[j].name@, j));
    }
}

/// No two flags of the server share a name.
pub proof fn the_server_names_are_distinct()
    ensures
        names_are_distinct(server_all_flags()),
{
    lemma_server_table();
    lemma_server_ranks_0();
    lemma_server_ranks_1();
    lemma_server_ranks_2();
    lemma_server_ranks_3();
    lemma_server_ranks_4();
    lemma_server_distinct(server_all_flags());
}

// ---------------------------------------------------------------------------------------
// The values of the flags
// ---------------------------------------------------------------------------------------
/// What an application comes to on an empty command line without an environment.
#[verifier::opaque]
spec fn runs_empty(app: App<'static>, p: Parsed) -> bool {
    app.ran(seq!["kcptun"@], ()).outcome == Ok::<Parsed, int>(p)
}

/// A flag then has its declared default.
proof fn lemma_at_default(app: App<'static>, p: Parsed, i: int, n: Seq<char>)
    requires
        names_are_distinct(app.flags@),
        runs_empty(app, p),
        0 <= i < app.flags@.len(),
        first_name(app.flags@[i].name@, n),
    ensures
        match app.flags@[i].default {
            FlagDefault::Str(d) => p.string(n) == d@,
            FlagDefault::Int(d) => p.integer(n) == d,
            FlagDefault::Bool => !p.bool(n),
        },
{
    reveal(runs_empty);
    reveal(first_name);
    let argv = seq!["kcptun"@];
    let f = app.flags@[i];
    every_form_of_a_flag_has_its_value(app, argv, (), i, 0);
    assert(argv.skip(1) =~= Seq::<Seq<char>>::empty());
    assert(app.assigns(argv, ()) =~= Seq::<(Seq<char>, Val)>::empty());
    lemma_no_vars(names_of(f.env@));
    typed_values_read_back(p, n);
    assert(initial_value(f, ()) is Ok);
}

proof fn lemma_client_values_0(app: App<'static>, p: Parsed)
    requires
        names_are_distinct(app.flags@),
        runs_empty(app, p),
        app.flags@ == client_all_flags(),
    ensures
        p.string("localaddr"@) == ":12948"@,
        p.string("remoteaddr"@) == "vps:29900"@,
        p.string("key"@) == "it's a secrect"@,
        p.string("crypt"@) == "aes"@,
        p.string("mode"@) == "fast"@,
        !p.bool("QPP"@),
        p.integer("QPPCount"@) == 61,
        p.integer("conn"@) == 1,
        p.integer("autoexpire"@) == 0,
{
    lemma_client_table();
    lemma_client_ranks_0();
    lemma_client_ranks_1();
    lemma_at_default(app, p, 0, "localaddr"@);
    lemma_at_default(app, p, 1, "remoteaddr"@);
    lemma_at_default(app, p, 2, "key"@);
    lemma_at_default(app, p, 3, "crypt"@);
    lemma_at_default(app, p, 4, "mode"@);
    lemma_at_default(app, p, 5, "QPP"@);
    lemma_at_default(app, p, 6, "QPPCount"@);
    lemma_at_default(app, p, 7, "conn"@);
    lemma_at_default(app, p, 8, "autoexpire"@);
}

proof fn lemma_client_values_1(app: App<'static>, p: Parsed)
    requires
        names_are_distinct(app.flags@),
        runs_empty(app, p),
        app.flags@ == client_all_flags(),
    ensures
        p.integer("scavengettl"@) == 600,
        p.integer("mtu"@) == 1350,
        p.integer("ratelimit"@) == 0,
        p.integer("sndwnd"@) == 128,
        p.integer("rcvwnd"@) == 512,
        p.integer("datashard"@) == 10,
        p.integer("parityshard"@) == 3,
        p.integer("dscp"@) == 0,
        !p.bool("nocomp"@),
{
    lemma_client_table();
    lemma_client_ranks_1();
    lemma_client_ranks_2();
    lemma_at_default(app, p, 9, "scavengettl"@);
    lemma_at_default(app, p, 10, "mtu"@);
    lemma_at_default(app, p, 11, "ratelimit"@);
    lemma_at_default(app, p, 12, "sndwnd"@);
    lemma_at_default(app, p, 13, "rcvwnd"@);
    lemma_at_default(app, p, 14, "datashard"@);
    lemma_at_default(app, p, 15, "parityshard"@);
    lemma_at_default(app, p, 16, "dscp"@);
    lemma_at_default(app, p, 17, "nocomp"@);
}

proof fn lemma_client_values_2(app: App<'static>, p: Parsed)
    requires
        names_are_distinct(app.flags@),
        runs_empty(app, p),
        app.flags@ == client_all_flags(),
    ensures
        !p.bool("acknodelay"@),
        p.integer("nodelay"@) == 0,
        p.integer("interval"@) == 50,
        p.integer("resend"@) == 0,
        p.integer("nc"@) == 0,
        p.integer("sockbuf"@) == 4194304,
        p.integer("smuxver"@) == 2,
        p.integer("smuxbuf"@) == 4194304,
        p.integer("framesize"@) == 8192,
{
    lemma_client_table();
    lemma_client_ranks_2();
    lemma_client_ranks_3();
    lemma_at_default(app, p, 18, "acknodelay"@);
    lemma_at_default(app, p, 19, "nodelay"@);
    lemma_at_default(app, p, 20, "interval"@);
    lemma_at_default(app, p, 21, "resend"@);
    lemma_at_default(app, p, 22, "nc"@);
    lemma_at_default(app, p, 23, "sockbuf"@);
    lemma_at_default(app, p, 24, "smuxver"@);
    lemma_at_default(app, p, 25, "smuxbuf"@);
    lemma_at_default(app, p, 26, "framesize"@);
}

proof fn lemma_client_values_3(app: App<'static>, p: Parsed)
    requires
        names_are_distinct(app.flags@),
        runs_empty(app, p),
        app.flags@ == client_all_flags(),
    ensures
        p.integer("streambuf"@) == 2097152,
        p.integer("keepalive"@) == 10,
        p.integer("closewait"@) == 0,
        p.string("snmplog"@) == ""@,
        p.integer("snmpperiod"@) == 60,
        p.string("log"@) == ""@,
        !p.bool("quiet"@),
        !p.bool("tcp"@),
        !p.bool("pprof"@),
{
    lemma_client_table();
    lemma_client_ranks_3();
    lemma_client_ranks_4();
    lemma_at_default(app, p, 27, "streambuf"@);
    lemma_at_default(app, p, 28, "keepalive"@);
    lemma_at_default(app, p, 29, "closewait"@);
    lemma_at_default(app, p, 30, "snmplog"@);
    lemma_at_default(app, p, 31, "snmpperiod"@);
    lemma_at_default(app, p, 32, "log"@);
    lemma_at_default(app, p, 33, "quiet"@);
    lemma_at_default(app, p, 34, "tcp"@);
    lemma_at_default(app, p, 36, "pprof"@);
}

/// The client's settings for an empty command line are its defaults.
pub(crate) proof fn lemma_client_defaults(app: App<'static>, help_name: Seq<char>, c: ClientConfig)
    requires
        is_app(app, help_name, "client(with SMUX)"@, client_flag_table()),
        app.ran(seq!["kcptun"@], ()).outcome is Ok,
        c.is_of(app.ran(seq!["kcptun"@], ()).outcome->Ok_0),
    ensures
        c.is_default(),
{
    let p = app.ran(seq!["kcptun"@], ()).outcome->Ok_0;
    assert(runs_empty(app, p)) by {
        reveal(runs_empty);
    }
    assert(app.flags@ == client_all_flags()) by {
        reveal_strlit("SELFBUILD");
        lemma_client_flags();
        reveal(client_all_flags);
    }
    the_client_names_are_distinct();
    lemma_client_values_0(app, p);
    lemma_client_values_1(app, p);
    lemma_client_values_2(app, p);
    lemma_client_values_3(app, p);
}

proof fn lemma_server_values_0(app: App<'static>, p: Parsed)
    requires
        names_are_distinct(app.flags@),
        runs_empty(app, p),
        app.flags@ == server_all_flags(),
    ensures
        p.string("listen"@) == ":29900"@,
        p.string("target"@) == "127.0.0.1:12948"@,
        p.string("key"@) == "it's a secrect"@,
        p.string("crypt"@) == "aes"@,
        !p.bool("QPP"@),
        p.integer("QPPCount"@) == 61,
        p.string("mode"@) == "fast"@,
        p.integer("mtu"@) == 1350,
        p.integer("ratelimit"@) == 0,
{
    lemma_server_table();
    lemma_server_ranks_0();
    lemma_server_ranks_1();
    lemma_at_default(app, p, 0, "listen"@);
    lemma_at_default(app, p, 1, "target"@);
    lemma_at_default(app, p, 2, "key"@);
    lemma_at_default(app, p, 3, "crypt"@);
    lemma_at_default(app, p, 4, "QPP"@);
    lemma_at_default(app, p, 5, "QPPCount"@);
    lemma_at_default(app, p, 6, "mode"@);
    lemma_at_default(app, p, 7, "mtu"@);
    lemma_at_default(app, p, 8, "ratelimit"@);
}

proof fn lemma_server_values_1(app: App<'static>, p: Parsed)
    requires
        names_are_distinct(app.flags@),
        runs_empty(app, p),
        app.flags@ == server_all_flags(),
    ensures
        p.integer("sndwnd"@) == 1024,
        p.integer("rcvwnd"@) == 1024,
        p.integer("datashard"@) == 10,
        p.integer("parityshard"@) == 3,
        p.integer("dscp"@) == 0,
        !p.bool("nocomp"@),
        !p.bool("acknodelay"@),
        p.integer("nodelay"@) == 0,
        p.integer("interval"@) == 50,
{
    lemma_server_table();
    lemma_server_ranks_1();
    lemma_server_ranks_2();
    lemma_at_default(app, p, 9, "sndwnd"@);
    lemma_at_default(app, p, 10, "rcvwnd"@);
    lemma_at_default(app, p, 11, "datashard"@);
    lemma_at_default(app, p, 12, "parityshard"@);
    lemma_at_default(app, p, 13, "dscp"@);
    lemma_at_default(app, p, 14, "nocomp"@);
    lemma_at_default(app, p, 15, "acknodelay"@);
    lemma_at_default(app, p, 16, "nodelay"@);
    lemma_at_default(app, p, 17, "interval"@);
}

proof fn lemma_server_values_2(app: App<'static>, p: Parsed)
    requires
        names_are_distinct(app.flags@),
        runs_empty(app, p),
        app.flags@ == server_all_flags(),
    ensures
        p.integer("resend"@) == 0,
        p.integer("nc"@) == 0,
        p.integer("sockbuf"@) == 4194304,
        p.integer("smuxver"@) == 2,
        p.integer("smuxbuf"@) == 4194304,
        p.integer("framesize"@) == 8192,
        p.integer("streambuf"@) == 2097152,
        p.integer("keepalive"@) == 10,
        p.integer("closewait"@) == 30,
{
    lemma_server_table();
    lemma_server_ranks_2();
    lemma_server_ranks_3();
    lemma_at_default(app, p, 18, "resend"@);
    lemma_at_default(app, p, 19, "nc"@);
    lemma_at_default(app, p, 20, "sockbuf"@);
    lemma_at_default(app, p, 21, "smuxver"@);
    lemma_at_default(app, p, 22, "smuxbuf"@);
    lemma_at_default(app, p, 23, "framesize"@);
    lemma_at_default(app, p, 24, "streambuf"@);
    lemma_at_default(app, p, 25, "keepalive"@);
    lemma_at_default(app, p, 26, "closewait"@);
}

proof fn lemma_server_values_3(app: App<'static>, p: Parsed)
    requires
        names_are_distinct(app.flags@),
        runs_empty(app, p),
        app.flags@ == server_all_flags(),
    ensures
        p.string("snmplog"@) == ""@,
        p.integer("snmpperiod"@) == 60,
        !p.bool("pprof"@),
        p.string("log"@) == ""@,
        !p.bool("quiet"@),
        !p.bool("tcp"@),
{
    lemma_server_table();
    lemma_server_ranks_3();
    lemma_server_ranks_4();
    lemma_at_default(app, p, 27, "snmplog"@);
    lemma_at_default(app, p, 28, "snmpperiod"@);
    lemma_at_default(app, p, 29, "pprof"@);
    lemma_at_default(app, p, 30, "log"@);
    lemma_at_default(app, p, 31, "quiet"@);
    lemma_at_default(app, p, 32, "tcp"@);
}

/// The server's settings for an empty command line are its defaults.
pub(crate) proof fn lemma_server_defaults(app: App<'static>, help_name: Seq<char>, c: ServerConfig)
    requires
        is_app(app, help_name, "server(with SMUX)"@, server_flag_table()),
        app.ran(seq!["kcptun"@], ()).outcome is Ok,
        c.is_of(app.ran(seq!["kcptun"@], ()).outcome->Ok_0),
    ensures
        c.is_default(),
{
    let p = app.ran(seq!["kcptun"@], ()).outcome->Ok_0;
    assert(runs_empty(app, p)) by {
        reveal(runs_empty);
    }
    assert(app.flags@ == server_all_flags()) by {
        reveal_strlit("SELFBUILD");
        lemma_server_flags();
        reveal(server_all_flags);
    }
    the_server_names_are_distinct();
    lemma_server_values_0(app, p);
    lemma_server_values_1(app, p);
    lemma_server_values_2(app, p);
    lemma_server_values_3(app, p);
}

// ---------------------------------------------------------------------------------------
// Laws
// ---------------------------------------------------------------------------------------
/// The shared defaults of the two sides are the same but for the two windows and the wait before a
/// connection is torn down.
pub proof fn the_defaults_differ_in_three_settings(c: ClientConfig, s: ServerConfig)
    requires
        c.is_default(),
        s.is_default(),
    ensures
        s.base.snd_wnd == 1024 && c.base.snd_wnd == 128,
        s.base.rcv_wnd == 1024 && c.base.rcv_wnd == 512,
        s.base.close_wait == 30 && c.base.close_wait == 0,
        s.base.is_default(s.base.snd_wnd, s.base.rcv_wnd, s.base.close_wait),
        c.base.is_default(c.base.snd_wnd, c.base.rcv_wnd, c.base.close_wait),
        (BaseConfig {
            snd_wnd: s.base.snd_wnd,
            rcv_wnd: s.base.rcv_wnd,
            close_wait: s.base.close_wait,
            ..c.base
        }).same_as(s.base),
{
}

} // verus!
