//! The client and server configuration: the flag tables, the JSON overlay, the mode presets and the
//! checks that follow.
//!
//! The order of operations is:
//!
//! 1. parse the command line ([`crate::cli`]) and copy every flag into the configuration
//!    ([`ClientConfig::from_context`], [`ServerConfig::from_context`]);
//! 2. overlay the JSON file of `-c`, which therefore wins over the command line
//!    ([`parse_json_bytes`]);
//! 3. validate ([`ClientConfig::check_conn`], [`BaseConfig::normalize_rate_limit`]);
//! 4. open the log file;
//! 5. apply the mode preset, which wins over both the command line and the JSON file
//!    ([`BaseConfig::apply_mode`]).
pub mod defaults;
pub mod settings;

use vstd::prelude::*;
use vstd::string::*;

use crate::cli::app::{appended, help_flag, version_flag, Parsed};
use crate::cli::laws::an_empty_command_line_runs_the_action;
use crate::cli::{App, Context, FlagDefault, FlagSpec, RunOutcome};
use crate::gojson::{
    self, document, first_misfit, is_overlaid, FieldKind, FieldValue, JsonStruct, Kind, Setting,
    SyntaxError, UnmarshalError,
};
use crate::text::{push_signed, signed_decimal, str_eq, strings};
use crate::version::VERSION;

verus! {

/// Largest smux version either side will negotiate.
pub const MAX_SMUX_VER: i64 = 2;

/// Largest total number of Reed-Solomon shards (see [`BaseConfig::check_fec`]).
pub const MAX_FEC_SHARDS: i64 = 256;

// ---------------------------------------------------------------------------------------
// Configuration structs
// ---------------------------------------------------------------------------------------
/// The settings that the client and the server share.
#[derive(Debug, Clone, PartialEq, Eq)]
pub struct BaseConfig {
    /// `-key`, `"key"`: pre-shared secret.
    pub key: String,
    /// `-crypt`, `"crypt"`: cipher name; unknown names fall back to AES.
    pub crypt: String,
    /// `-mode`, `"mode"`: `fast3`, `fast2`, `fast`, `normal` or anything else for manual.
    pub mode: String,
    /// `-mtu`, `"mtu"`.
    pub mtu: i64,
    /// `-ratelimit`, `"ratelimit"`: bytes per second, 0 to disable.
    pub rate_limit: i64,
    /// `-sndwnd`, `"sndwnd"`.
    pub snd_wnd: i64,
    /// `-rcvwnd`, `"rcvwnd"`.
    pub rcv_wnd: i64,
    /// `-datashard`, `"datashard"`.
    pub data_shard: i64,
    /// `-parityshard`, `"parityshard"`.
    pub parity_shard: i64,
    /// `-dscp`, `"dscp"`.
    pub dscp: i64,
    /// `-nocomp`, `"nocomp"`: disables snappy compression.
    pub no_comp: bool,
    /// `-acknodelay`, `"acknodelay"` (hidden flag).
    pub ack_nodelay: bool,
    /// `-nodelay`, `"nodelay"` (hidden flag; overwritten by a known `-mode`).
    pub no_delay: i64,
    /// `-interval`, `"interval"` (hidden flag; overwritten by a known `-mode`).
    pub interval: i64,
    /// `-resend`, `"resend"` (hidden flag; overwritten by a known `-mode`).
    pub resend: i64,
    /// `-nc`, `"nc"` (hidden flag; overwritten by a known `-mode`).
    pub no_congestion: i64,
    /// `-sockbuf`, `"sockbuf"`.
    pub sock_buf: i64,
    /// `-smuxver`, `"smuxver"`.
    pub smux_ver: i64,
    /// `-smuxbuf`, `"smuxbuf"`.
    pub smux_buf: i64,
    /// `-framesize`, `"framesize"`.
    pub frame_size: i64,
    /// `-streambuf`, `"streambuf"`.
    pub stream_buf: i64,
    /// `-keepalive`, `"keepalive"`: seconds between heartbeats.
    pub keep_alive: i64,
    /// `-log`, `"log"`: log file, empty for stderr.
    pub log: String,
    /// `-snmplog`, `"snmplog"`: SNMP CSV file, with a time layout in its name.
    pub snmp_log: String,
    /// `-snmpperiod`, `"snmpperiod"`: seconds between SNMP rows.
    pub snmp_period: i64,
    /// `-quiet`, `"quiet"`.
    pub quiet: bool,
    /// `-tcp`, `"tcp"`: fake-TCP transport (Linux only).
    pub tcp: bool,
    /// `-pprof`, `"pprof"`.
    pub pprof: bool,
    /// `-QPP`, `"qpp"`.
    pub qpp: bool,
    /// `-QPPCount`, `"qpp-count"`.
    pub qpp_count: i64,
    /// `-closewait`, `"closewait"`: seconds to wait before tearing a connection down.
    pub close_wait: i64,
}

/// The client configuration.
#[derive(Debug, Clone, PartialEq, Eq)]
pub struct ClientConfig {
    /// The shared settings.
    pub base: BaseConfig,
    /// `-localaddr`, `"localaddr"`: TCP listen address, or a unix socket path.
    pub local_addr: String,
    /// `-remoteaddr`, `"remoteaddr"`: the kcptun server, possibly a port range.
    pub remote_addr: String,
    /// `-conn`, `"conn"`: number of UDP tunnels.
    pub conn: i64,
    /// `-autoexpire`, `"autoexpire"`: seconds after which a tunnel is replaced, 0 to disable.
    pub auto_expire: i64,
    /// `-scavengettl`, `"scavengettl"`: how long an expired tunnel may live on.
    pub scavenge_ttl: i64,
}

/// The server configuration.
#[derive(Debug, Clone, PartialEq, Eq)]
pub struct ServerConfig {
    /// The shared settings.
    pub base: BaseConfig,
    /// `-listen`, `"listen"`: KCP listen address, possibly a port range.
    pub listen: String,
    /// `-target`, `"target"`: where accepted streams are forwarded.
    pub target: String,
}

impl BaseConfig {
    /// The two hold the same settings.
    pub open spec fn same_as(self, other: BaseConfig) -> bool {
        &&& self.key@ == other.key@
        &&& self.crypt@ == other.crypt@
        &&& self.mode@ == other.mode@
        &&& self.mtu == other.mtu
        &&& self.rate_limit == other.rate_limit
        &&& self.snd_wnd == other.snd_wnd
        &&& self.rcv_wnd == other.rcv_wnd
        &&& self.data_shard == other.data_shard
        &&& self.parity_shard == other.parity_shard
        &&& self.dscp == other.dscp
        &&& self.no_comp == other.no_comp
        &&& self.ack_nodelay == other.ack_nodelay
        &&& self.no_delay == other.no_delay
        &&& self.interval == other.interval
        &&& self.resend == other.resend
        &&& self.no_congestion == other.no_congestion
        &&& self.sock_buf == other.sock_buf
        &&& self.smux_ver == other.smux_ver
        &&& self.smux_buf == other.smux_buf
        &&& self.frame_size == other.frame_size
        &&& self.stream_buf == other.stream_buf
        &&& self.keep_alive == other.keep_alive
        &&& self.log@ == other.log@
        &&& self.snmp_log@ == other.snmp_log@
        &&& self.snmp_period == other.snmp_period
        &&& self.quiet == other.quiet
        &&& self.tcp == other.tcp
        &&& self.pprof == other.pprof
        &&& self.qpp == other.qpp
        &&& self.qpp_count == other.qpp_count
        &&& self.close_wait == other.close_wait
    }

    /// Everything is zero, empty or false.
    pub open spec fn is_zero(self) -> bool {
        &&& self.key@.len() == 0
        &&& self.crypt@.len() == 0
        &&& self.mode@.len() == 0
        &&& self.mtu == 0
        &&& self.rate_limit == 0
        &&& self.snd_wnd == 0
        &&& self.rcv_wnd == 0
        &&& self.data_shard == 0
        &&& self.parity_shard == 0
        &&& self.dscp == 0
        &&& !self.no_comp
        &&& !self.ack_nodelay
        &&& self.no_delay == 0
        &&& self.interval == 0
        &&& self.resend == 0
        &&& self.no_congestion == 0
        &&& self.sock_buf == 0
        &&& self.smux_ver == 0
        &&& self.smux_buf == 0
        &&& self.frame_size == 0
        &&& self.stream_buf == 0
        &&& self.keep_alive == 0
        &&& self.log@.len() == 0
        &&& self.snmp_log@.len() == 0
        &&& self.snmp_period == 0
        &&& !self.quiet
        &&& !self.tcp
        &&& !self.pprof
        &&& !self.qpp
        &&& self.qpp_count == 0
        &&& self.close_wait == 0
    }

    /// Every setting is the value of its flag.
    pub open spec fn is_of(self, p: Parsed) -> bool {
        &&& self.key@ == p.string("key"@)
        &&& self.crypt@ == p.string("crypt"@)
        &&& self.mode@ == p.string("mode"@)
        &&& self.mtu == p.integer("mtu"@)
        &&& self.rate_limit == p.integer("ratelimit"@)
        &&& self.snd_wnd == p.integer("sndwnd"@)
        &&& self.rcv_wnd == p.integer("rcvwnd"@)
        &&& self.data_shard == p.integer("datashard"@)
        &&& self.parity_shard == p.integer("parityshard"@)
        &&& self.dscp == p.integer("dscp"@)
        &&& self.no_comp == p.bool("nocomp"@)
        &&& self.ack_nodelay == p.bool("acknodelay"@)
        &&& self.no_delay == p.integer("nodelay"@)
        &&& self.interval == p.integer("interval"@)
        &&& self.resend == p.integer("resend"@)
        &&& self.no_congestion == p.integer("nc"@)
        &&& self.sock_buf == p.integer("sockbuf"@)
        &&& self.smux_ver == p.integer("smuxver"@)
        &&& self.smux_buf == p.integer("smuxbuf"@)
        &&& self.frame_size == p.integer("framesize"@)
        &&& self.stream_buf == p.integer("streambuf"@)
        &&& self.keep_alive == p.integer("keepalive"@)
        &&& self.log@ == p.string("log"@)
        &&& self.snmp_log@ == p.string("snmplog"@)
        &&& self.snmp_period == p.integer("snmpperiod"@)
        &&& self.quiet == p.bool("quiet"@)
        &&& self.tcp == p.bool("tcp"@)
        &&& self.pprof == p.bool("pprof"@)
        &&& self.qpp == p.bool("QPP"@)
        &&& self.qpp_count == p.integer("QPPCount"@)
        &&& self.close_wait == p.integer("closewait"@)
    }

    /// Copies every flag into the settings.
    fn from_context(c: &Context) -> (b: BaseConfig)
        ensures
            b.is_of(c@),
    {
        BaseConfig {
            key: c.string("key"),
            crypt: c.string("crypt"),
            mode: c.string("mode"),
            mtu: c.integer("mtu"),
            rate_limit: c.integer("ratelimit"),
            snd_wnd: c.integer("sndwnd"),
            rcv_wnd: c.integer("rcvwnd"),
            data_shard: c.integer("datashard"),
            parity_shard: c.integer("parityshard"),
            dscp: c.integer("dscp"),
            no_comp: c.bool("nocomp"),
            ack_nodelay: c.bool("acknodelay"),
            no_delay: c.integer("nodelay"),
            interval: c.integer("interval"),
            resend: c.integer("resend"),
            no_congestion: c.integer("nc"),
            sock_buf: c.integer("sockbuf"),
            smux_ver: c.integer("smuxver"),
            smux_buf: c.integer("smuxbuf"),
            frame_size: c.integer("framesize"),
            stream_buf: c.integer("streambuf"),
            keep_alive: c.integer("keepalive"),
            log: c.string("log"),
            snmp_log: c.string("snmplog"),
            snmp_period: c.integer("snmpperiod"),
            quiet: c.bool("quiet"),
            tcp: c.bool("tcp"),
            pprof: c.bool("pprof"),
            qpp: c.bool("QPP"),
            qpp_count: c.integer("QPPCount"),
            close_wait: c.integer("closewait"),
        }
    }
}

impl Default for BaseConfig {
    fn default() -> (b: BaseConfig)
        ensures
            b.is_zero(),
    {
        BaseConfig {
            key: String::new(),
            crypt: String::new(),
            mode: String::new(),
            mtu: 0,
            rate_limit: 0,
            snd_wnd: 0,
            rcv_wnd: 0,
            data_shard: 0,
            parity_shard: 0,
            dscp: 0,
            no_comp: false,
            ack_nodelay: false,
            no_delay: 0,
            interval: 0,
            resend: 0,
            no_congestion: 0,
            sock_buf: 0,
            smux_ver: 0,
            smux_buf: 0,
            frame_size: 0,
            stream_buf: 0,
            keep_alive: 0,
            log: String::new(),
            snmp_log: String::new(),
            snmp_period: 0,
            quiet: false,
            tcp: false,
            pprof: false,
            qpp: false,
            qpp_count: 0,
            close_wait: 0,
        }
    }
}

impl Default for ClientConfig {
    fn default() -> (c: ClientConfig)
        ensures
            c.base.is_zero(),
            c.local_addr@.len() == 0,
            c.remote_addr@.len() == 0,
            c.conn == 0,
            c.auto_expire == 0,
            c.scavenge_ttl == 0,
    {
        ClientConfig {
            base: BaseConfig::default(),
            local_addr: String::new(),
            remote_addr: String::new(),
            conn: 0,
            auto_expire: 0,
            scavenge_ttl: 0,
        }
    }
}

impl Default for ServerConfig {
    fn default() -> (c: ServerConfig)
        ensures
            c.base.is_zero(),
            c.listen@.len() == 0,
            c.target@.len() == 0,
    {
        ServerConfig { base: BaseConfig::default(), listen: String::new(), target: String::new() }
    }
}

// ---------------------------------------------------------------------------------------
// Mode presets
// ---------------------------------------------------------------------------------------
/// The four KCP knobs that a `-mode` preset sets.
#[derive(Debug, Clone, Copy, PartialEq, Eq)]
pub struct ModeParams {
    pub no_delay: i64,
    pub interval: i64,
    pub resend: i64,
    pub no_congestion: i64,
}

/// The parameters of a predefined mode.
pub open spec fn mode_params(name: Seq<char>) -> Option<ModeParams> {
    if name == "normal"@ {
        Some(ModeParams { no_delay: 0, interval: 40, resend: 2, no_congestion: 1 })
    } else if name == "fast"@ {
        Some(ModeParams { no_delay: 0, interval: 30, resend: 2, no_congestion: 1 })
    } else if name == "fast2"@ {
        Some(ModeParams { no_delay: 1, interval: 20, resend: 2, no_congestion: 1 })
    } else if name == "fast3"@ {
        Some(ModeParams { no_delay: 1, interval: 10, resend: 2, no_congestion: 1 })
    } else {
        None
    }
}

/// The parameters of a predefined mode, if `name` is one.
pub fn predefined_mode(name: &str) -> (p: Option<ModeParams>)
    ensures
        p == mode_params(name@),
{
    if str_eq(name, "normal") {
        Some(ModeParams { no_delay: 0, interval: 40, resend: 2, no_congestion: 1 })
    } else if str_eq(name, "fast") {
        Some(ModeParams { no_delay: 0, interval: 30, resend: 2, no_congestion: 1 })
    } else if str_eq(name, "fast2") {
        Some(ModeParams { no_delay: 1, interval: 20, resend: 2, no_congestion: 1 })
    } else if str_eq(name, "fast3") {
        Some(ModeParams { no_delay: 1, interval: 10, resend: 2, no_congestion: 1 })
    } else {
        None
    }
}

impl BaseConfig {
    /// The configuration with the preset of its mode.
    pub open spec fn with_mode(self) -> BaseConfig {
        match mode_params(self.mode@) {
            Some(p) => BaseConfig {
                no_delay: p.no_delay,
                interval: p.interval,
                resend: p.resend,
                no_congestion: p.no_congestion,
                ..self
            },
            None => self,
        }
    }

    /// The configuration without a negative rate limit.
    pub open spec fn with_rate_limit(self) -> BaseConfig {
        BaseConfig {
            rate_limit: if self.rate_limit < 0 {
                0
            } else {
                self.rate_limit
            },
            ..self
        }
    }

    /// Applies the `-mode` preset, returning whether `mode` named one. Any other mode name keeps
    /// the explicit values.
    pub fn apply_mode(&mut self) -> (applied: bool)
        ensures
            applied == (mode_params(old(self).mode@) is Some),
            *final(self) == old(self).with_mode(),
    {
        match predefined_mode(self.mode.as_str()) {
            Some(p) => {
                self.no_delay = p.no_delay;
                self.interval = p.interval;
                self.resend = p.resend;
                self.no_congestion = p.no_congestion;
                true
            },
            None => false,
        }
    }

    // -----------------------------------------------------------------------------------
    // Validation
    // -----------------------------------------------------------------------------------
    /// Clamps a negative `-ratelimit` to 0 and returns the line to be logged when it does.
    pub fn normalize_rate_limit(&mut self) -> (msg: Option<String>)
        ensures
            *final(self) == old(self).with_rate_limit(),
            msg is Some <==> old(self).rate_limit < 0,
            msg matches Some(s) ==> s@ == "ratelimit "@ + signed_decimal(
                old(self).rate_limit as int,
            ) + " is negative, falling back to 0"@,
    {
        if self.rate_limit < 0 {
            let mut s = "ratelimit ".to_owned();
            push_signed(&mut s, self.rate_limit);
            s.append(" is negative, falling back to 0");
            self.rate_limit = 0;
            return Some(s);
        }
        None
    }

    /// Rejects a smux version that neither side implements.
    pub fn check_smux_ver(&self) -> (r: Result<(), String>)
        ensures
            r is Err <==> self.smux_ver > MAX_SMUX_VER,
            r matches Err(s) ==> s@ == "unsupported smux version:"@ + signed_decimal(
                self.smux_ver as int,
            ),
    {
        if self.smux_ver > MAX_SMUX_VER {
            let mut s = "unsupported smux version:".to_owned();
            push_signed(&mut s, self.smux_ver);
            return Err(s);
        }
        Ok(())
    }

    /// Rejects FEC settings whose parity no peer can decode: more than 256 shards in all.
    pub fn check_fec(&self) -> (r: Result<(), String>)
        ensures
            r is Err <==> self.data_shard + self.parity_shard > MAX_FEC_SHARDS,
            r matches Err(s) ==> s@ == "datashard "@ + signed_decimal(self.data_shard as int)
                + " + parityshard "@ + signed_decimal(self.parity_shard as int)
                + " exceeds 256: cannot create Encoder with more than 256 data+parity shards"@,
    {
        let total: i128 = self.data_shard as i128 + self.parity_shard as i128;
        if total > MAX_FEC_SHARDS as i128 {
            let mut s = "datashard ".to_owned();
            push_signed(&mut s, self.data_shard);
            s.append(" + parityshard ");
            push_signed(&mut s, self.parity_shard);
            s.append(" exceeds 256: cannot create Encoder with more than 256 data+parity shards");
            return Err(s);
        }
        Ok(())
    }
}

impl ClientConfig {
    /// Rejects `-conn 0` and below.
    pub fn check_conn(&self) -> (r: Result<(), String>)
        ensures
            r is Err <==> self.conn <= 0,
            r matches Err(s) ==> s@ == "conn must be greater than 0"@,
    {
        if self.conn <= 0 {
            return Err("conn must be greater than 0".to_owned());
        }
        Ok(())
    }
}

// ---------------------------------------------------------------------------------------
// JSON overlay
// ---------------------------------------------------------------------------------------
impl BaseConfig {
    /// The value of the shared field with a name.
    pub open spec fn base_field(self, name: Seq<char>) -> Option<FieldValue> {
        if name == "key"@ {
            Some(FieldValue::Text(self.key@))
        } else if name == "crypt"@ {
            Some(FieldValue::Text(self.crypt@))
        } else if name == "mode"@ {
            Some(FieldValue::Text(self.mode@))
        } else if name == "mtu"@ {
            Some(FieldValue::Int(self.mtu as int))
        } else if name == "ratelimit"@ {
            Some(FieldValue::Int(self.rate_limit as int))
        } else if name == "sndwnd"@ {
            Some(FieldValue::Int(self.snd_wnd as int))
        } else if name == "rcvwnd"@ {
            Some(FieldValue::Int(self.rcv_wnd as int))
        } else if name == "datashard"@ {
            Some(FieldValue::Int(self.data_shard as int))
        } else if name == "parityshard"@ {
            Some(FieldValue::Int(self.parity_shard as int))
        } else if name == "dscp"@ {
            Some(FieldValue::Int(self.dscp as int))
        } else if name == "nocomp"@ {
            Some(FieldValue::Flag(self.no_comp))
        } else if name == "acknodelay"@ {
            Some(FieldValue::Flag(self.ack_nodelay))
        } else if name == "nodelay"@ {
            Some(FieldValue::Int(self.no_delay as int))
        } else if name == "interval"@ {
            Some(FieldValue::Int(self.interval as int))
        } else if name == "resend"@ {
            Some(FieldValue::Int(self.resend as int))
        } else if name == "nc"@ {
            Some(FieldValue::Int(self.no_congestion as int))
        } else if name == "sockbuf"@ {
            Some(FieldValue::Int(self.sock_buf as int))
        } else if name == "smuxver"@ {
            Some(FieldValue::Int(self.smux_ver as int))
        } else if name == "smuxbuf"@ {
            Some(FieldValue::Int(self.smux_buf as int))
        } else if name == "framesize"@ {
            Some(FieldValue::Int(self.frame_size as int))
        } else if name == "streambuf"@ {
            Some(FieldValue::Int(self.stream_buf as int))
        } else if name == "keepalive"@ {
            Some(FieldValue::Int(self.keep_alive as int))
        } else if name == "log"@ {
            Some(FieldValue::Text(self.log@))
        } else if name == "snmplog"@ {
            Some(FieldValue::Text(self.snmp_log@))
        } else if name == "snmpperiod"@ {
            Some(FieldValue::Int(self.snmp_period as int))
        } else if name == "quiet"@ {
            Some(FieldValue::Flag(self.quiet))
        } else if name == "tcp"@ {
            Some(FieldValue::Flag(self.tcp))
        } else if name == "pprof"@ {
            Some(FieldValue::Flag(self.pprof))
        } else if name == "qpp"@ {
            Some(FieldValue::Flag(self.qpp))
        } else if name == "qpp-count"@ {
            Some(FieldValue::Int(self.qpp_count as int))
        } else if name == "closewait"@ {
            Some(FieldValue::Int(self.close_wait as int))
        } else {
            None
        }
    }

    /// The kind of the shared field with a name.
    fn base_kind(&self, name: &str) -> (k: Option<FieldKind>)
        ensures
            k is Some <==> self.base_field(name@) is Some,
            k is Some ==> k->0 == self.base_field(name@)->0.kind(),
    {
        if str_eq(name, "key") {
            Some(FieldKind::Text)
        } else if str_eq(name, "crypt") {
            Some(FieldKind::Text)
        } else if str_eq(name, "mode") {
            Some(FieldKind::Text)
        } else if str_eq(name, "mtu") {
            Some(FieldKind::Int)
        } else if str_eq(name, "ratelimit") {
            Some(FieldKind::Int)
        } else if str_eq(name, "sndwnd") {
            Some(FieldKind::Int)
        } else if str_eq(name, "rcvwnd") {
            Some(FieldKind::Int)
        } else if str_eq(name, "datashard") {
            Some(FieldKind::Int)
        } else if str_eq(name, "parityshard") {
            Some(FieldKind::Int)
        } else if str_eq(name, "dscp") {
            Some(FieldKind::Int)
        } else if str_eq(name, "nocomp") {
            Some(FieldKind::Flag)
        } else if str_eq(name, "acknodelay") {
            Some(FieldKind::Flag)
        } else if str_eq(name, "nodelay") {
            Some(FieldKind::Int)
        } else if str_eq(name, "interval") {
            Some(FieldKind::Int)
        } else if str_eq(name, "resend") {
            Some(FieldKind::Int)
        } else if str_eq(name, "nc") {
            Some(FieldKind::Int)
        } else if str_eq(name, "sockbuf") {
            Some(FieldKind::Int)
        } else if str_eq(name, "smuxver") {
            Some(FieldKind::Int)
        } else if str_eq(name, "smuxbuf") {
            Some(FieldKind::Int)
        } else if str_eq(name, "framesize") {
            Some(FieldKind::Int)
        } else if str_eq(name, "streambuf") {
            Some(FieldKind::Int)
        } else if str_eq(name, "keepalive") {
            Some(FieldKind::Int)
        } else if str_eq(name, "log") {
            Some(FieldKind::Text)
        } else if str_eq(name, "snmplog") {
            Some(FieldKind::Text)
        } else if str_eq(name, "snmpperiod") {
            Some(FieldKind::Int)
        } else if str_eq(name, "quiet") {
            Some(FieldKind::Flag)
        } else if str_eq(name, "tcp") {
            Some(FieldKind::Flag)
        } else if str_eq(name, "pprof") {
            Some(FieldKind::Flag)
        } else if str_eq(name, "qpp") {
            Some(FieldKind::Flag)
        } else if str_eq(name, "qpp-count") {
            Some(FieldKind::Int)
        } else if str_eq(name, "closewait") {
            Some(FieldKind::Int)
        } else {
            None
        }
    }

    /// Sets the shared text field with a name, and no other.
    fn set_text_field(&mut self, name: &str, value: String)
        requires
            old(self).base_field(name@) is Some,
            old(self).base_field(name@)->0 is Text,
        ensures
            final(self).base_field(name@) == Some(FieldValue::Text(value@)),
            forall|n: Seq<char>|
                n != name@ ==> #[trigger] final(self).base_field(n) == old(self).base_field(n),
    {
        if str_eq(name, "key") {
            self.key = value;
        } else if str_eq(name, "crypt") {
            self.crypt = value;
        } else if str_eq(name, "mode") {
            self.mode = value;
        } else if str_eq(name, "log") {
            self.log = value;
        } else if str_eq(name, "snmplog") {
            self.snmp_log = value;
        }
    }

    /// Sets the shared int field with a name, and no other.
    fn set_int_field(&mut self, name: &str, value: i64)
        requires
            old(self).base_field(name@) is Some,
            old(self).base_field(name@)->0 is Int,
        ensures
            final(self).base_field(name@) == Some(FieldValue::Int(value as int)),
            forall|n: Seq<char>|
                n != name@ ==> #[trigger] final(self).base_field(n) == old(self).base_field(n),
    {
        if str_eq(name, "mtu") {
            self.mtu = value;
        } else if str_eq(name, "ratelimit") {
            self.rate_limit = value;
        } else if str_eq(name, "sndwnd") {
            self.snd_wnd = value;
        } else if str_eq(name, "rcvwnd") {
            self.rcv_wnd = value;
        } else if str_eq(name, "datashard") {
            self.data_shard = value;
        } else if str_eq(name, "parityshard") {
            self.parity_shard = value;
        } else if str_eq(name, "dscp") {
            self.dscp = value;
        } else if str_eq(name, "nodelay") {
            self.no_delay = value;
        } else if str_eq(name, "interval") {
            self.interval = value;
        } else if str_eq(name, "resend") {
            self.resend = value;
        } else if str_eq(name, "nc") {
            self.no_congestion = value;
        } else if str_eq(name, "sockbuf") {
            self.sock_buf = value;
        } else if str_eq(name, "smuxver") {
            self.smux_ver = value;
        } else if str_eq(name, "smuxbuf") {
            self.smux_buf = value;
        } else if str_eq(name, "framesize") {
            self.frame_size = value;
        } else if str_eq(name, "streambuf") {
            self.stream_buf = value;
        } else if str_eq(name, "keepalive") {
            self.keep_alive = value;
        } else if str_eq(name, "snmpperiod") {
            self.snmp_period = value;
        } else if str_eq(name, "qpp-count") {
            self.qpp_count = value;
        } else if str_eq(name, "closewait") {
            self.close_wait = value;
        }
    }

    /// Sets the shared flag field with a name, and no other.
    fn set_flag_field(&mut self, name: &str, value: bool)
        requires
            old(self).base_field(name@) is Some,
            old(self).base_field(name@)->0 is Flag,
        ensures
            final(self).base_field(name@) == Some(FieldValue::Flag(value)),
            forall|n: Seq<char>|
                n != name@ ==> #[trigger] final(self).base_field(n) == old(self).base_field(n),
    {
        if str_eq(name, "nocomp") {
            self.no_comp = value;
        } else if str_eq(name, "acknodelay") {
            self.ack_nodelay = value;
        } else if str_eq(name, "quiet") {
            self.quiet = value;
        } else if str_eq(name, "tcp") {
            self.tcp = value;
        } else if str_eq(name, "pprof") {
            self.pprof = value;
        } else if str_eq(name, "qpp") {
            self.qpp = value;
        }
    }

    /// Sets the shared field with a name, and no other.
    fn set_base(&mut self, name: &str, value: Setting)
        requires
            old(self).base_field(name@) is Some,
            old(self).base_field(name@)->0.kind() == value@.kind(),
        ensures
            final(self).base_field(name@) == Some(value@),
            forall|n: Seq<char>|
                n != name@ ==> #[trigger] final(self).base_field(n) == old(self).base_field(n),
    {
        match value {
            Setting::Text(s) => self.set_text_field(name, s),
            Setting::Int(n) => self.set_int_field(name, n),
            Setting::Flag(b) => self.set_flag_field(name, b),
        }
    }
}

impl JsonStruct for ClientConfig {
    open spec fn field(&self, name: Seq<char>) -> Option<FieldValue> {
        if name == "localaddr"@ {
            Some(FieldValue::Text(self.local_addr@))
        } else if name == "remoteaddr"@ {
            Some(FieldValue::Text(self.remote_addr@))
        } else if name == "conn"@ {
            Some(FieldValue::Int(self.conn as int))
        } else if name == "autoexpire"@ {
            Some(FieldValue::Int(self.auto_expire as int))
        } else if name == "scavengettl"@ {
            Some(FieldValue::Int(self.scavenge_ttl as int))
        } else {
            self.base.base_field(name)
        }
    }

    fn kind(&self, name: &str) -> (k: Option<FieldKind>) {
        if str_eq(name, "localaddr") {
            Some(FieldKind::Text)
        } else if str_eq(name, "remoteaddr") {
            Some(FieldKind::Text)
        } else if str_eq(name, "conn") {
            Some(FieldKind::Int)
        } else if str_eq(name, "autoexpire") {
            Some(FieldKind::Int)
        } else if str_eq(name, "scavengettl") {
            Some(FieldKind::Int)
        } else {
            self.base.base_kind(name)
        }
    }

    fn set(&mut self, name: &str, value: Setting) {
        if str_eq(name, "localaddr") {
            if let Setting::Text(v) = value {
                self.local_addr = v;
            }
        } else if str_eq(name, "remoteaddr") {
            if let Setting::Text(v) = value {
                self.remote_addr = v;
            }
        } else if str_eq(name, "conn") {
            if let Setting::Int(v) = value {
                self.conn = v;
            }
        } else if str_eq(name, "autoexpire") {
            if let Setting::Int(v) = value {
                self.auto_expire = v;
            }
        } else if str_eq(name, "scavengettl") {
            if let Setting::Int(v) = value {
                self.scavenge_ttl = v;
            }
        } else {
            self.base.set_base(name, value);
        }
    }
}

impl JsonStruct for ServerConfig {
    open spec fn field(&self, name: Seq<char>) -> Option<FieldValue> {
        if name == "listen"@ {
            Some(FieldValue::Text(self.listen@))
        } else if name == "target"@ {
            Some(FieldValue::Text(self.target@))
        } else {
            self.base.base_field(name)
        }
    }

    fn kind(&self, name: &str) -> (k: Option<FieldKind>) {
        if str_eq(name, "listen") {
            Some(FieldKind::Text)
        } else if str_eq(name, "target") {
            Some(FieldKind::Text)
        } else {
            self.base.base_kind(name)
        }
    }

    fn set(&mut self, name: &str, value: Setting) {
        if str_eq(name, "listen") {
            if let Setting::Text(v) = value {
                self.listen = v;
            }
        } else if str_eq(name, "target") {
            if let Setting::Text(v) = value {
                self.target = v;
            }
        } else {
            self.base.set_base(name, value);
        }
    }
}

/// The keys of the client's configuration.
pub fn client_keys() -> (v: Vec<&'static str>)
    ensures
        v.len() == 36,
        forall|c: ClientConfig, name: Seq<char>| #[trigger]
            c.field(name) is Some <==> exists|i: int| 0 <= i < v.len() && #[trigger] v@[i]@ == name,
{
    let mut v: Vec<&'static str> = Vec::new();
    v.push("key");
    v.push("crypt");
    v.push("mode");
    v.push("mtu");
    v.push("ratelimit");
    v.push("sndwnd");
    v.push("rcvwnd");
    v.push("datashard");
    v.push("parityshard");
    v.push("dscp");
    v.push("nocomp");
    v.push("acknodelay");
    v.push("nodelay");
    v.push("interval");
    v.push("resend");
    v.push("nc");
    v.push("sockbuf");
    v.push("smuxver");
    v.push("smuxbuf");
    v.push("framesize");
    v.push("streambuf");
    v.push("keepalive");
    v.push("log");
    v.push("snmplog");
    v.push("snmpperiod");
    v.push("quiet");
    v.push("tcp");
    v.push("pprof");
    v.push("qpp");
    v.push("qpp-count");
    v.push("closewait");
    v.push("localaddr");
    v.push("remoteaddr");
    v.push("conn");
    v.push("autoexpire");
    v.push("scavengettl");
    assert(v@[0]@ == "key"@);
    assert(v@[1]@ == "crypt"@);
    assert(v@[2]@ == "mode"@);
    assert(v@[3]@ == "mtu"@);
    assert(v@[4]@ == "ratelimit"@);
    assert(v@[5]@ == "sndwnd"@);
    assert(v@[6]@ == "rcvwnd"@);
    assert(v@[7]@ == "datashard"@);
    assert(v@[8]@ == "parityshard"@);
    assert(v@[9]@ == "dscp"@);
    assert(v@[10]@ == "nocomp"@);
    assert(v@[11]@ == "acknodelay"@);
    assert(v@[12]@ == "nodelay"@);
    assert(v@[13]@ == "interval"@);
    assert(v@[14]@ == "resend"@);
    assert(v@[15]@ == "nc"@);
    assert(v@[16]@ == "sockbuf"@);
    assert(v@[17]@ == "smuxver"@);
    assert(v@[18]@ == "smuxbuf"@);
    assert(v@[19]@ == "framesize"@);
    assert(v@[20]@ == "streambuf"@);
    assert(v@[21]@ == "keepalive"@);
    assert(v@[22]@ == "log"@);
    assert(v@[23]@ == "snmplog"@);
    assert(v@[24]@ == "snmpperiod"@);
    assert(v@[25]@ == "quiet"@);
    assert(v@[26]@ == "tcp"@);
    assert(v@[27]@ == "pprof"@);
    assert(v@[28]@ == "qpp"@);
    assert(v@[29]@ == "qpp-count"@);
    assert(v@[30]@ == "closewait"@);
    assert(v@[31]@ == "localaddr"@);
    assert(v@[32]@ == "remoteaddr"@);
    assert(v@[33]@ == "conn"@);
    assert(v@[34]@ == "autoexpire"@);
    assert(v@[35]@ == "scavengettl"@);
    v
}

/// The keys of the server's configuration.
pub fn server_keys() -> (v: Vec<&'static str>)
    ensures
        v.len() == 33,
        forall|c: ServerConfig, name: Seq<char>| #[trigger]
            c.field(name) is Some <==> exists|i: int| 0 <= i < v.len() && #[trigger] v@[i]@ == name,
{
    let mut v: Vec<&'static str> = Vec::new();
    v.push("key");
    v.push("crypt");
    v.push("mode");
    v.push("mtu");
    v.push("ratelimit");
    v.push("sndwnd");
    v.push("rcvwnd");
    v.push("datashard");
    v.push("parityshard");
    v.push("dscp");
    v.push("nocomp");
    v.push("acknodelay");
    v.push("nodelay");
    v.push("interval");
    v.push("resend");
    v.push("nc");
    v.push("sockbuf");
    v.push("smuxver");
    v.push("smuxbuf");
    v.push("framesize");
    v.push("streambuf");
    v.push("keepalive");
    v.push("log");
    v.push("snmplog");
    v.push("snmpperiod");
    v.push("quiet");
    v.push("tcp");
    v.push("pprof");
    v.push("qpp");
    v.push("qpp-count");
    v.push("closewait");
    v.push("listen");
    v.push("target");
    assert(v@[0]@ == "key"@);
    assert(v@[1]@ == "crypt"@);
    assert(v@[2]@ == "mode"@);
    assert(v@[3]@ == "mtu"@);
    assert(v@[4]@ == "ratelimit"@);
    assert(v@[5]@ == "sndwnd"@);
    assert(v@[6]@ == "rcvwnd"@);
    assert(v@[7]@ == "datashard"@);
    assert(v@[8]@ == "parityshard"@);
    assert(v@[9]@ == "dscp"@);
    assert(v@[10]@ == "nocomp"@);
    assert(v@[11]@ == "acknodelay"@);
    assert(v@[12]@ == "nodelay"@);
    assert(v@[13]@ == "interval"@);
    assert(v@[14]@ == "resend"@);
    assert(v@[15]@ == "nc"@);
    assert(v@[16]@ == "sockbuf"@);
    assert(v@[17]@ == "smuxver"@);
    assert(v@[18]@ == "smuxbuf"@);
    assert(v@[19]@ == "framesize"@);
    assert(v@[20]@ == "streambuf"@);
    assert(v@[21]@ == "keepalive"@);
    assert(v@[22]@ == "log"@);
    assert(v@[23]@ == "snmplog"@);
    assert(v@[24]@ == "snmpperiod"@);
    assert(v@[25]@ == "quiet"@);
    assert(v@[26]@ == "tcp"@);
    assert(v@[27]@ == "pprof"@);
    assert(v@[28]@ == "qpp"@);
    assert(v@[29]@ == "qpp-count"@);
    assert(v@[30]@ == "closewait"@);
    assert(v@[31]@ == "listen"@);
    assert(v@[32]@ == "target"@);
    v
}

/// Why a configuration file could not be applied.
#[derive(Debug, Clone, PartialEq, Eq)]
pub enum ConfigFileError {
    /// The file could not be opened.
    Open { path: String, err: String },
    /// The file could not be read.
    Read { path: String, err: String },
    /// The file is not valid JSON.
    Syntax(SyntaxError),
    /// A value does not fit its field.
    Unmarshal(UnmarshalError),
}

impl ConfigFileError {
    /// The text of the error.
    pub fn message(&self) -> (s: String)
        ensures
            match *self {
                ConfigFileError::Open { path, err } => s@ == "open "@ + path@ + ": "@ + err@,
                ConfigFileError::Read { path, err } => s@ == "read "@ + path@ + ": "@ + err@,
                ConfigFileError::Syntax(e) => s@ == e.text(),
                ConfigFileError::Unmarshal(e) => s@ == e.text(),
            },
    {
        match self {
            ConfigFileError::Open { path, err } => {
                let mut s = "open ".to_owned();
                s.append(path.as_str());
                s.append(": ");
                s.append(err.as_str());
                s
            },
            ConfigFileError::Read { path, err } => {
                let mut s = "read ".to_owned();
                s.append(path.as_str());
                s.append(": ");
                s.append(err.as_str());
                s
            },
            ConfigFileError::Syntax(e) => e.message(),
            ConfigFileError::Unmarshal(e) => e.message(),
        }
    }
}

/// Overlays the JSON document `data` onto `config`.
///
/// Only the keys that the document holds change anything, so the command line supplies the rest. A
/// syntax error changes nothing; a value that does not fit its field is passed over, and the first
/// one is reported when the others have been assigned.
pub fn parse_json_bytes<C: JsonStruct>(config: &mut C, data: &[u8]) -> (r: Result<
    (),
    ConfigFileError,
>)
    ensures
        match document(data@) {
            Err(fault) => {
                &&& r matches Err(ConfigFileError::Syntax(e)) && e.is_for(fault)
                &&& *final(config) == *old(config)
            },
            Ok(d) => if d.kind == Kind::Object {
                &&& is_overlaid(*final(config), *old(config), d.members)
                &&& match first_misfit(*old(config), d.members) {
                    Some(m) => r matches Err(ConfigFileError::Unmarshal(e)) && e.is_for(m),
                    None => r is Ok,
                }
            } else {
                &&& *final(config) == *old(config)
                &&& if d.kind == Kind::Null {
                    r is Ok
                } else {
                    r matches Err(ConfigFileError::Unmarshal(e)) && e.is_for_document(d.kind)
                }
            },
        },
{
    match gojson::parse(data) {
        Err(e) => Err(ConfigFileError::Syntax(e)),
        Ok(document) => match gojson::decode_struct(config, &document) {
            Err(e) => Err(ConfigFileError::Unmarshal(e)),
            Ok(()) => Ok(()),
        },
    }
}

/// The bytes that the next read of a configuration file asks for: twice as many as the last one,
/// up to a mebibyte.
pub fn next_chunk(chunk: usize) -> (n: usize)
    ensures
        n == (if 2 * chunk > 1048576 { 1048576 } else { 2 * chunk }),
{
    if chunk > 524288 {
        1048576
    } else {
        2 * chunk
    }
}

/// Whether a configuration file is read on: more input may still complete the value, unless the
/// last read found none.
pub fn reads_on(error: &ConfigFileError, last_read: usize) -> (r: bool)
    ensures
        r == (last_read > 0 && (match *error {
            ConfigFileError::Syntax(e) => e is Eof || e is UnexpectedEof,
            _ => false,
        })),
{
    match error {
        ConfigFileError::Syntax(e) => last_read > 0 && e.is_truncation(),
        _ => false,
    }
}

// ---------------------------------------------------------------------------------------
// Flag tables
// ---------------------------------------------------------------------------------------
/// The client's flags, in help order.
pub open spec fn client_flag_table() -> Seq<FlagSpec<'static>> {
    seq![
        FlagSpec {
            name: "localaddr,l",
            default: FlagDefault::Str(":12948"),
            usage: "local listen address",
            env: "",
            hidden: false,
        },
        FlagSpec {
            name: "remoteaddr, r",
            default: FlagDefault::Str("vps:29900"),
            usage: "kcp server address, eg: \"IP:29900\" a for single port, \"IP:minport-maxport\" for port range",
            env: "",
            hidden: false,
        },
        FlagSpec {
            name: "key",
            default: FlagDefault::Str("it's a secrect"),
            usage: "pre-shared secret between client and server",
            env: "KCPTUN_KEY",
            hidden: false,
        },
        FlagSpec {
            name: "crypt",
            default: FlagDefault::Str("aes"),
            usage: "aes, aes-128, aes-128-gcm, aes-192, salsa20, blowfish, twofish, cast5, 3des, tea, xtea, xor, sm4, none, null",
            env: "",
            hidden: false,
        },
        FlagSpec {
            name: "mode",
            default: FlagDefault::Str("fast"),
            usage: "profiles: fast3, fast2, fast, normal, manual",
            env: "",
            hidden: false,
        },
        FlagSpec {
            name: "QPP",
            default: FlagDefault::Bool,
            usage: "enable Quantum Permutation Pads(QPP)",
            env: "",
            hidden: false,
        },
        FlagSpec {
            name: "QPPCount",
            default: FlagDefault::Int(61),
            usage: "the prime number of pads to use for QPP: The more pads you use, the more secure the encryption. Each pad requires 256 bytes.",
            env: "",
            hidden: false,
        },
        FlagSpec {
            name: "conn",
            default: FlagDefault::Int(1),
            usage: "set num of UDP connections to server",
            env: "",
            hidden: false,
        },
        FlagSpec {
            name: "autoexpire",
            default: FlagDefault::Int(0),
            usage: "set auto expiration time(in seconds) for a single UDP connection, 0 to disable",
            env: "",
            hidden: false,
        },
        FlagSpec {
            name: "scavengettl",
            default: FlagDefault::Int(600),
            usage: "set how long an expired connection can live (in seconds)",
            env: "",
            hidden: false,
        },
        FlagSpec {
            name: "mtu",
            default: FlagDefault::Int(1350),
            usage: "set maximum transmission unit for UDP packets",
            env: "",
            hidden: false,
        },
        FlagSpec {
            name: "ratelimit",
            default: FlagDefault::Int(0),
            usage: "set maximum outgoing speed (in bytes per second) for a single KCP connection, 0 to disable. Also known as packet pacing",
            env: "",
            hidden: false,
        },
        FlagSpec {
            name: "sndwnd",
            default: FlagDefault::Int(128),
            usage: "set send window size(num of packets)",
            env: "",
            hidden: false,
        },
        FlagSpec {
            name: "rcvwnd",
            default: FlagDefault::Int(512),
            usage: "set receive window size(num of packets)",
            env: "",
            hidden: false,
        },
        FlagSpec {
            name: "datashard,ds",
            default: FlagDefault::Int(10),
            usage: "set reed-solomon erasure coding - datashard",
            env: "",
            hidden: false,
        },
        FlagSpec {
            name: "parityshard,ps",
            default: FlagDefault::Int(3),
            usage: "set reed-solomon erasure coding - parityshard",
            env: "",
            hidden: false,
        },
        FlagSpec {
            name: "dscp",
            default: FlagDefault::Int(0),
            usage: "set DSCP(6bit)",
            env: "",
            hidden: false,
        },
        FlagSpec {
            name: "nocomp",
            default: FlagDefault::Bool,
            usage: "disable compression",
            env: "",
            hidden: false,
        },
        FlagSpec {
            name: "acknodelay",
            default: FlagDefault::Bool,
            usage: "flush ack immediately when a packet is received",
            env: "",
            hidden: true,
        },
        FlagSpec {
            name: "nodelay",
            default: FlagDefault::Int(0),
            usage: "",
            env: "",
            hidden: true,
        },
        FlagSpec {
            name: "interval",
            default: FlagDefault::Int(50),
            usage: "",
            env: "",
            hidden: true,
        },
        FlagSpec {
            name: "resend",
            default: FlagDefault::Int(0),
            usage: "",
            env: "",
            hidden: true,
        },
        FlagSpec {
            name: "nc",
            default: FlagDefault::Int(0),
            usage: "",
            env: "",
            hidden: true,
        },
        FlagSpec {
            name: "sockbuf",
            default: FlagDefault::Int(4194304),
            usage: "per-socket buffer in bytes",
            env: "",
            hidden: false,
        },
        FlagSpec {
            name: "smuxver",
            default: FlagDefault::Int(2),
            usage: "specify smux version, available 1,2",
            env: "",
            hidden: false,
        },
        FlagSpec {
            name: "smuxbuf",
            default: FlagDefault::Int(4194304),
            usage: "the overall de-mux buffer in bytes",
            env: "",
            hidden: false,
        },
        FlagSpec {
            name: "framesize",
            default: FlagDefault::Int(8192),
            usage: "smux max frame size",
            env: "",
            hidden: false,
        },
        FlagSpec {
            name: "streambuf",
            default: FlagDefault::Int(2097152),
            usage: "per stream receive buffer in bytes, smux v2+",
            env: "",
            hidden: false,
        },
        FlagSpec {
            name: "keepalive",
            default: FlagDefault::Int(10),
            usage: "seconds between heartbeats",
            env: "",
            hidden: false,
        },
        FlagSpec {
            name: "closewait",
            default: FlagDefault::Int(0),
            usage: "the seconds to wait before tearing down a connection",
            env: "",
            hidden: false,
        },
        FlagSpec {
            name: "snmplog",
            default: FlagDefault::Str(""),
            usage: "collect snmp to file, aware of timeformat in golang, like: ./snmp-20060102.log",
            env: "",
            hidden: false,
        },
        FlagSpec {
            name: "snmpperiod",
            default: FlagDefault::Int(60),
            usage: "snmp collect period, in seconds",
            env: "",
            hidden: false,
        },
        FlagSpec {
            name: "log",
            default: FlagDefault::Str(""),
            usage: "specify a log file to output, default goes to stderr",
            env: "",
            hidden: false,
        },
        FlagSpec {
            name: "quiet",
            default: FlagDefault::Bool,
            usage: "to suppress the 'stream open/close' messages",
            env: "",
            hidden: false,
        },
        FlagSpec {
            name: "tcp",
            default: FlagDefault::Bool,
            usage: "to emulate a TCP connection(linux)",
            env: "",
            hidden: false,
        },
        FlagSpec {
            name: "c",
            default: FlagDefault::Str(""),
            usage: "config from json file, which will override the command from shell",
            env: "",
            hidden: false,
        },
        FlagSpec {
            name: "pprof",
            default: FlagDefault::Bool,
            usage: "start profiling server on :6060",
            env: "",
            hidden: false,
        },
    ]
}

/// The server's flags, in help order.
pub open spec fn server_flag_table() -> Seq<FlagSpec<'static>> {
    seq![
        FlagSpec {
            name: "listen,l",
            default: FlagDefault::Str(":29900"),
            usage: "kcp server listen address, eg: \"IP:29900\" for a single port, \"IP:minport-maxport\" for port range",
            env: "",
            hidden: false,
        },
        FlagSpec {
            name: "target, t",
            default: FlagDefault::Str("127.0.0.1:12948"),
            usage: "target server address, or path/to/unix_socket",
            env: "",
            hidden: false,
        },
        FlagSpec {
            name: "key",
            default: FlagDefault::Str("it's a secrect"),
            usage: "pre-shared secret between client and server",
            env: "KCPTUN_KEY",
            hidden: false,
        },
        FlagSpec {
            name: "crypt",
            default: FlagDefault::Str("aes"),
            usage: "aes, aes-128, aes-128-gcm, aes-192, salsa20, blowfish, twofish, cast5, 3des, tea, xtea, xor, sm4, none, null",
            env: "",
            hidden: false,
        },
        FlagSpec {
            name: "QPP",
            default: FlagDefault::Bool,
            usage: "enable Quantum Permutation Pads(QPP)",
            env: "",
            hidden: false,
        },
        FlagSpec {
            name: "QPPCount",
            default: FlagDefault::Int(61),
            usage: "the prime number of pads to use for QPP: The more pads you use, the more secure the encryption. Each pad requires 256 bytes.",
            env: "",
            hidden: false,
        },
        FlagSpec {
            name: "mode",
            default: FlagDefault::Str("fast"),
            usage: "profiles: fast3, fast2, fast, normal, manual",
            env: "",
            hidden: false,
        },
        FlagSpec {
            name: "mtu",
            default: FlagDefault::Int(1350),
            usage: "set maximum transmission unit for UDP packets",
            env: "",
            hidden: false,
        },
        FlagSpec {
            name: "ratelimit",
            default: FlagDefault::Int(0),
            usage: "set maximum outgoing speed (in bytes per second) for a single KCP connection, 0 to disable. Also known as packet pacing.",
            env: "",
            hidden: false,
        },
        FlagSpec {
            name: "sndwnd",
            default: FlagDefault::Int(1024),
            usage: "set send window size(num of packets)",
            env: "",
            hidden: false,
        },
        FlagSpec {
            name: "rcvwnd",
            default: FlagDefault::Int(1024),
            usage: "set receive window size(num of packets)",
            env: "",
            hidden: false,
        },
        FlagSpec {
            name: "datashard,ds",
            default: FlagDefault::Int(10),
            usage: "set reed-solomon erasure coding - datashard",
            env: "",
            hidden: false,
        },
        FlagSpec {
            name: "parityshard,ps",
            default: FlagDefault::Int(3),
            usage: "set reed-solomon erasure coding - parityshard",
            env: "",
            hidden: false,
        },
        FlagSpec {
            name: "dscp",
            default: FlagDefault::Int(0),
            usage: "set DSCP(6bit)",
            env: "",
            hidden: false,
        },
        FlagSpec {
            name: "nocomp",
            default: FlagDefault::Bool,
            usage: "disable compression",
            env: "",
            hidden: false,
        },
        FlagSpec {
            name: "acknodelay",
            default: FlagDefault::Bool,
            usage: "flush ack immediately when a packet is received",
            env: "",
            hidden: true,
        },
        FlagSpec {
            name: "nodelay",
            default: FlagDefault::Int(0),
            usage: "",
            env: "",
            hidden: true,
        },
        FlagSpec {
            name: "interval",
            default: FlagDefault::Int(50),
            usage: "",
            env: "",
            hidden: true,
        },
        FlagSpec {
            name: "resend",
            default: FlagDefault::Int(0),
            usage: "",
            env: "",
            hidden: true,
        },
        FlagSpec {
            name: "nc",
            default: FlagDefault::Int(0),
            usage: "",
            env: "",
            hidden: true,
        },
        FlagSpec {
            name: "sockbuf",
            default: FlagDefault::Int(4194304),
            usage: "per-socket buffer in bytes",
            env: "",
            hidden: false,
        },
        FlagSpec {
            name: "smuxver",
            default: FlagDefault::Int(2),
            usage: "specify smux version, available 1,2",
            env: "",
            hidden: false,
        },
        FlagSpec {
            name: "smuxbuf",
            default: FlagDefault::Int(4194304),
            usage: "the overall de-mux buffer in bytes",
            env: "",
            hidden: false,
        },
        FlagSpec {
            name: "framesize",
            default: FlagDefault::Int(8192),
            usage: "smux max frame size",
            env: "",
            hidden: false,
        },
        FlagSpec {
            name: "streambuf",
            default: FlagDefault::Int(2097152),
            usage: "per stream receive buffer in bytes, smux v2+",
            env: "",
            hidden: false,
        },
        FlagSpec {
            name: "keepalive",
            default: FlagDefault::Int(10),
            usage: "seconds between heartbeats",
            env: "",
            hidden: false,
        },
        FlagSpec {
            name: "closewait",
            default: FlagDefault::Int(30),
            usage: "the seconds to wait before tearing down a connection",
            env: "",
            hidden: false,
        },
        FlagSpec {
            name: "snmplog",
            default: FlagDefault::Str(""),
            usage: "collect snmp to file, aware of timeformat in golang, like: ./snmp-20060102.log",
            env: "",
            hidden: false,
        },
        FlagSpec {
            name: "snmpperiod",
            default: FlagDefault::Int(60),
            usage: "snmp collect period, in seconds",
            env: "",
            hidden: false,
        },
        FlagSpec {
            name: "pprof",
            default: FlagDefault::Bool,
            usage: "start profiling server on :6060",
            env: "",
            hidden: false,
        },
        FlagSpec {
            name: "log",
            default: FlagDefault::Str(""),
            usage: "specify a log file to output, default goes to stderr",
            env: "",
            hidden: false,
        },
        FlagSpec {
            name: "quiet",
            default: FlagDefault::Bool,
            usage: "to suppress the 'stream open/close' messages",
            env: "",
            hidden: false,
        },
        FlagSpec {
            name: "tcp",
            default: FlagDefault::Bool,
            usage: "to emulate a TCP connection(linux)",
            env: "",
            hidden: false,
        },
        FlagSpec {
            name: "c",
            default: FlagDefault::Str(""),
            usage: "config from json file, which will override the command from shell",
            env: "",
            hidden: false,
        },
    ]
}

/// The client's flag table, in help order.
pub fn client_flags() -> (flags: Vec<FlagSpec<'static>>)
    ensures
        flags@ == client_flag_table(),
{
    let mut flags: Vec<FlagSpec<'static>> = Vec::new();
    flags.push(
        FlagSpec::str_flag("localaddr,l", ":12948", "local listen address"),
    );
    flags.push(
        FlagSpec::str_flag("remoteaddr, r", "vps:29900", "kcp server address, eg: \"IP:29900\" a for single port, \"IP:minport-maxport\" for port range"),
    );
    flags.push(
        FlagSpec::str_flag("key", "it's a secrect", "pre-shared secret between client and server").env("KCPTUN_KEY"),
    );
    flags.push(
        FlagSpec::str_flag("crypt", "aes", "aes, aes-128, aes-128-gcm, aes-192, salsa20, blowfish, twofish, cast5, 3des, tea, xtea, xor, sm4, none, null"),
    );
    flags.push(
        FlagSpec::str_flag("mode", "fast", "profiles: fast3, fast2, fast, normal, manual"),
    );
    flags.push(
        FlagSpec::bool_flag("QPP", "enable Quantum Permutation Pads(QPP)"),
    );
    flags.push(
        FlagSpec::int_flag("QPPCount", 61, "the prime number of pads to use for QPP: The more pads you use, the more secure the encryption. Each pad requires 256 bytes."),
    );
    flags.push(
        FlagSpec::int_flag("conn", 1, "set num of UDP connections to server"),
    );
    flags.push(
        FlagSpec::int_flag("autoexpire", 0, "set auto expiration time(in seconds) for a single UDP connection, 0 to disable"),
    );
    flags.push(
        FlagSpec::int_flag("scavengettl", 600, "set how long an expired connection can live (in seconds)"),
    );
    flags.push(
        FlagSpec::int_flag("mtu", 1350, "set maximum transmission unit for UDP packets"),
    );
    flags.push(
        FlagSpec::int_flag("ratelimit", 0, "set maximum outgoing speed (in bytes per second) for a single KCP connection, 0 to disable. Also known as packet pacing"),
    );
    flags.push(
        FlagSpec::int_flag("sndwnd", 128, "set send window size(num of packets)"),
    );
    flags.push(
        FlagSpec::int_flag("rcvwnd", 512, "set receive window size(num of packets)"),
    );
    flags.push(
        FlagSpec::int_flag("datashard,ds", 10, "set reed-solomon erasure coding - datashard"),
    );
    flags.push(
        FlagSpec::int_flag("parityshard,ps", 3, "set reed-solomon erasure coding - parityshard"),
    );
    flags.push(
        FlagSpec::int_flag("dscp", 0, "set DSCP(6bit)"),
    );
    flags.push(
        FlagSpec::bool_flag("nocomp", "disable compression"),
    );
    flags.push(
        FlagSpec::bool_flag("acknodelay", "flush ack immediately when a packet is received").hidden(),
    );
    flags.push(
        FlagSpec::int_flag("nodelay", 0, "").hidden(),
    );
    flags.push(
        FlagSpec::int_flag("interval", 50, "").hidden(),
    );
    flags.push(
        FlagSpec::int_flag("resend", 0, "").hidden(),
    );
    flags.push(
        FlagSpec::int_flag("nc", 0, "").hidden(),
    );
    flags.push(
        FlagSpec::int_flag("sockbuf", 4194304, "per-socket buffer in bytes"),
    );
    flags.push(
        FlagSpec::int_flag("smuxver", 2, "specify smux version, available 1,2"),
    );
    flags.push(
        FlagSpec::int_flag("smuxbuf", 4194304, "the overall de-mux buffer in bytes"),
    );
    flags.push(
        FlagSpec::int_flag("framesize", 8192, "smux max frame size"),
    );
    flags.push(
        FlagSpec::int_flag("streambuf", 2097152, "per stream receive buffer in bytes, smux v2+"),
    );
    flags.push(
        FlagSpec::int_flag("keepalive", 10, "seconds between heartbeats"),
    );
    flags.push(
        FlagSpec::int_flag("closewait", 0, "the seconds to wait before tearing down a connection"),
    );
    flags.push(
        FlagSpec::str_flag("snmplog", "", "collect snmp to file, aware of timeformat in golang, like: ./snmp-20060102.log"),
    );
    flags.push(
        FlagSpec::int_flag("snmpperiod", 60, "snmp collect period, in seconds"),
    );
    flags.push(
        FlagSpec::str_flag("log", "", "specify a log file to output, default goes to stderr"),
    );
    flags.push(
        FlagSpec::bool_flag("quiet", "to suppress the 'stream open/close' messages"),
    );
    flags.push(
        FlagSpec::bool_flag("tcp", "to emulate a TCP connection(linux)"),
    );
    flags.push(
        FlagSpec::str_flag("c", "", "config from json file, which will override the command from shell"),
    );
    flags.push(
        FlagSpec::bool_flag("pprof", "start profiling server on :6060"),
    );
    assert(flags@ =~= client_flag_table());
    flags
}

/// The server's flag table, in help order.
pub fn server_flags() -> (flags: Vec<FlagSpec<'static>>)
    ensures
        flags@ == server_flag_table(),
{
    let mut flags: Vec<FlagSpec<'static>> = Vec::new();
    flags.push(
        FlagSpec::str_flag("listen,l", ":29900", "kcp server listen address, eg: \"IP:29900\" for a single port, \"IP:minport-maxport\" for port range"),
    );
    flags.push(
        FlagSpec::str_flag("target, t", "127.0.0.1:12948", "target server address, or path/to/unix_socket"),
    );
    flags.push(
        FlagSpec::str_flag("key", "it's a secrect", "pre-shared secret between client and server").env("KCPTUN_KEY"),
    );
    flags.push(
        FlagSpec::str_flag("crypt", "aes", "aes, aes-128, aes-128-gcm, aes-192, salsa20, blowfish, twofish, cast5, 3des, tea, xtea, xor, sm4, none, null"),
    );
    flags.push(
        FlagSpec::bool_flag("QPP", "enable Quantum Permutation Pads(QPP)"),
    );
    flags.push(
        FlagSpec::int_flag("QPPCount", 61, "the prime number of pads to use for QPP: The more pads you use, the more secure the encryption. Each pad requires 256 bytes."),
    );
    flags.push(
        FlagSpec::str_flag("mode", "fast", "profiles: fast3, fast2, fast, normal, manual"),
    );
    flags.push(
        FlagSpec::int_flag("mtu", 1350, "set maximum transmission unit for UDP packets"),
    );
    flags.push(
        FlagSpec::int_flag("ratelimit", 0, "set maximum outgoing speed (in bytes per second) for a single KCP connection, 0 to disable. Also known as packet pacing."),
    );
    flags.push(
        FlagSpec::int_flag("sndwnd", 1024, "set send window size(num of packets)"),
    );
    flags.push(
        FlagSpec::int_flag("rcvwnd", 1024, "set receive window size(num of packets)"),
    );
    flags.push(
        FlagSpec::int_flag("datashard,ds", 10, "set reed-solomon erasure coding - datashard"),
    );
    flags.push(
        FlagSpec::int_flag("parityshard,ps", 3, "set reed-solomon erasure coding - parityshard"),
    );
    flags.push(
        FlagSpec::int_flag("dscp", 0, "set DSCP(6bit)"),
    );
    flags.push(
        FlagSpec::bool_flag("nocomp", "disable compression"),
    );
    flags.push(
        FlagSpec::bool_flag("acknodelay", "flush ack immediately when a packet is received").hidden(),
    );
    flags.push(
        FlagSpec::int_flag("nodelay", 0, "").hidden(),
    );
    flags.push(
        FlagSpec::int_flag("interval", 50, "").hidden(),
    );
    flags.push(
        FlagSpec::int_flag("resend", 0, "").hidden(),
    );
    flags.push(
        FlagSpec::int_flag("nc", 0, "").hidden(),
    );
    flags.push(
        FlagSpec::int_flag("sockbuf", 4194304, "per-socket buffer in bytes"),
    );
    flags.push(
        FlagSpec::int_flag("smuxver", 2, "specify smux version, available 1,2"),
    );
    flags.push(
        FlagSpec::int_flag("smuxbuf", 4194304, "the overall de-mux buffer in bytes"),
    );
    flags.push(
        FlagSpec::int_flag("framesize", 8192, "smux max frame size"),
    );
    flags.push(
        FlagSpec::int_flag("streambuf", 2097152, "per stream receive buffer in bytes, smux v2+"),
    );
    flags.push(
        FlagSpec::int_flag("keepalive", 10, "seconds between heartbeats"),
    );
    flags.push(
        FlagSpec::int_flag("closewait", 30, "the seconds to wait before tearing down a connection"),
    );
    flags.push(
        FlagSpec::str_flag("snmplog", "", "collect snmp to file, aware of timeformat in golang, like: ./snmp-20060102.log"),
    );
    flags.push(
        FlagSpec::int_flag("snmpperiod", 60, "snmp collect period, in seconds"),
    );
    flags.push(
        FlagSpec::bool_flag("pprof", "start profiling server on :6060"),
    );
    flags.push(
        FlagSpec::str_flag("log", "", "specify a log file to output, default goes to stderr"),
    );
    flags.push(
        FlagSpec::bool_flag("quiet", "to suppress the 'stream open/close' messages"),
    );
    flags.push(
        FlagSpec::bool_flag("tcp", "to emulate a TCP connection(linux)"),
    );
    flags.push(
        FlagSpec::str_flag("c", "", "config from json file, which will override the command from shell"),
    );
    assert(flags@ =~= server_flag_table());
    flags
}

/// Whether `app` is the application with the given usage, version and flags. The flag that shows the
/// version is there only if there is one.
pub open spec fn is_app_of<'a>(
    app: App<'a>,
    help_name: Seq<char>,
    usage: Seq<char>,
    version: Seq<char>,
    flags: Seq<FlagSpec<'static>>,
) -> bool {
    &&& app.name@ == "kcptun"@
    &&& app.help_name@ == help_name
    &&& app.usage@ == usage
    &&& app.version@ == version
    &&& app.flags@ == (if version.len() > 0 {
        appended(appended(flags, help_flag()), version_flag())
    } else {
        appended(flags, help_flag())
    })
}

/// Whether `app` is the application of this version with the given usage and flags.
pub open spec fn is_app(
    app: App<'static>,
    help_name: Seq<char>,
    usage: Seq<char>,
    flags: Seq<FlagSpec<'static>>,
) -> bool {
    is_app_of(app, help_name, usage, VERSION@, flags)
}

/// The client application of the given version. `help_name` is shown in the USAGE line.
pub fn client_app_for<'a>(help_name: &str, version: &'a str) -> (app: App<'a>)
    ensures
        is_app_of(app, help_name@, "client(with SMUX)"@, version@, client_flag_table()),
{
    App::new("kcptun", help_name, "client(with SMUX)", version, client_flags())
}

/// The server application of the given version.
pub fn server_app_for<'a>(help_name: &str, version: &'a str) -> (app: App<'a>)
    ensures
        is_app_of(app, help_name@, "server(with SMUX)"@, version@, server_flag_table()),
{
    App::new("kcptun", help_name, "server(with SMUX)", version, server_flags())
}

/// The client application of this version.
pub fn client_app(help_name: &str) -> (app: App<'static>)
    ensures
        is_app(app, help_name@, "client(with SMUX)"@, client_flag_table()),
{
    client_app_for(help_name, VERSION)
}

/// The server application of this version.
pub fn server_app(help_name: &str) -> (app: App<'static>)
    ensures
        is_app(app, help_name@, "server(with SMUX)"@, server_flag_table()),
{
    server_app_for(help_name, VERSION)
}

impl ClientConfig {
    /// Every setting is the value of its flag.
    pub open spec fn is_of(self, p: Parsed) -> bool {
        &&& self.base.is_of(p)
        &&& self.local_addr@ == p.string("localaddr"@)
        &&& self.remote_addr@ == p.string("remoteaddr"@)
        &&& self.conn == p.integer("conn"@)
        &&& self.auto_expire == p.integer("autoexpire"@)
        &&& self.scavenge_ttl == p.integer("scavengettl"@)
    }

    /// Copies every flag into the configuration.
    pub fn from_context(c: &Context) -> (r: Self)
        ensures
            r.is_of(c@),
    {
        ClientConfig {
            base: BaseConfig::from_context(c),
            local_addr: c.string("localaddr"),
            remote_addr: c.string("remoteaddr"),
            conn: c.integer("conn"),
            auto_expire: c.integer("autoexpire"),
            scavenge_ttl: c.integer("scavengettl"),
        }
    }
}

impl ServerConfig {
    /// Every setting is the value of its flag.
    pub open spec fn is_of(self, p: Parsed) -> bool {
        &&& self.base.is_of(p)
        &&& self.listen@ == p.string("listen"@)
        &&& self.target@ == p.string("target"@)
    }

    /// Copies every flag into the configuration.
    pub fn from_context(c: &Context) -> (r: Self)
        ensures
            r.is_of(c@),
    {
        ServerConfig {
            base: BaseConfig::from_context(c),
            listen: c.string("listen"),
            target: c.string("target"),
        }
    }
}

/// The client table does not define the built-in flags itself.
proof fn lemma_client_flags()
    ensures
        appended(appended(client_flag_table(), help_flag()), version_flag()) == client_flag_table().push(
            help_flag(),
        ).push(version_flag()),
{
    let t = client_flag_table();
    let h = help_flag();
    let v = version_flag();
    reveal_strlit("help, h");
    reveal_strlit("version, v");
    reveal_strlit("localaddr,l");
    reveal_strlit("remoteaddr, r");
    reveal_strlit("key");
    reveal_strlit("crypt");
    reveal_strlit("mode");
    reveal_strlit("QPP");
    reveal_strlit("QPPCount");
    reveal_strlit("conn");
    reveal_strlit("autoexpire");
    reveal_strlit("scavengettl");
    reveal_strlit("mtu");
    reveal_strlit("ratelimit");
    reveal_strlit("sndwnd");
    reveal_strlit("rcvwnd");
    reveal_strlit("datashard,ds");
    reveal_strlit("parityshard,ps");
    reveal_strlit("dscp");
    reveal_strlit("nocomp");
    reveal_strlit("acknodelay");
    reveal_strlit("nodelay");
    reveal_strlit("interval");
    reveal_strlit("resend");
    reveal_strlit("nc");
    reveal_strlit("sockbuf");
    reveal_strlit("smuxver");
    reveal_strlit("smuxbuf");
    reveal_strlit("framesize");
    reveal_strlit("streambuf");
    reveal_strlit("keepalive");
    reveal_strlit("closewait");
    reveal_strlit("snmplog");
    reveal_strlit("snmpperiod");
    reveal_strlit("log");
    reveal_strlit("quiet");
    reveal_strlit("tcp");
    reveal_strlit("c");
    reveal_strlit("pprof");
    assert(h.name@.len() == 7 && h.name@[0] == 'h');
    assert(v.name@.len() == 10 && v.name@[0] == 'v');
    assert(t[0].name@.len() == 11 && t[0].name@[0] == 'l');
    assert(t[1].name@.len() == 13 && t[1].name@[0] == 'r');
    assert(t[2].name@.len() == 3 && t[2].name@[0] == 'k');
    assert(t[3].name@.len() == 5 && t[3].name@[0] == 'c');
    assert(t[4].name@.len() == 4 && t[4].name@[0] == 'm');
    assert(t[5].name@.len() == 3 && t[5].name@[0] == 'Q');
    assert(t[6].name@.len() == 8 && t[6].name@[0] == 'Q');
    assert(t[7].name@.len() == 4 && t[7].name@[0] == 'c');
    assert(t[8].name@.len() == 10 && t[8].name@[0] == 'a');
    assert(t[9].name@.len() == 11 && t[9].name@[0] == 's');
    assert(t[10].name@.len() == 3 && t[10].name@[0] == 'm');
    assert(t[11].name@.len() == 9 && t[11].name@[0] == 'r');
    assert(t[12].name@.len() == 6 && t[12].name@[0] == 's');
    assert(t[13].name@.len() == 6 && t[13].name@[0] == 'r');
    assert(t[14].name@.len() == 12 && t[14].name@[0] == 'd');
    assert(t[15].name@.len() == 14 && t[15].name@[0] == 'p');
    assert(t[16].name@.len() == 4 && t[16].name@[0] == 'd');
    assert(t[17].name@.len() == 6 && t[17].name@[0] == 'n');
    assert(t[18].name@.len() == 10 && t[18].name@[0] == 'a');
    assert(t[19].name@.len() == 7 && t[19].name@[0] == 'n');
    assert(t[20].name@.len() == 8 && t[20].name@[0] == 'i');
    assert(t[21].name@.len() == 6 && t[21].name@[0] == 'r');
    assert(t[22].name@.len() == 2 && t[22].name@[0] == 'n');
    assert(t[23].name@.len() == 7 && t[23].name@[0] == 's');
    assert(t[24].name@.len() == 7 && t[24].name@[0] == 's');
    assert(t[25].name@.len() == 7 && t[25].name@[0] == 's');
    assert(t[26].name@.len() == 9 && t[26].name@[0] == 'f');
    assert(t[27].name@.len() == 9 && t[27].name@[0] == 's');
    assert(t[28].name@.len() == 9 && t[28].name@[0] == 'k');
    assert(t[29].name@.len() == 9 && t[29].name@[0] == 'c');
    assert(t[30].name@.len() == 7 && t[30].name@[0] == 's');
    assert(t[31].name@.len() == 10 && t[31].name@[0] == 's');
    assert(t[32].name@.len() == 3 && t[32].name@[0] == 'l');
    assert(t[33].name@.len() == 5 && t[33].name@[0] == 'q');
    assert(t[34].name@.len() == 3 && t[34].name@[0] == 't');
    assert(t[35].name@.len() == 1 && t[35].name@[0] == 'c');
    assert(t[36].name@.len() == 5 && t[36].name@[0] == 'p');
    assert forall|i: int| 0 <= i < t.len() implies (#[trigger] t[i]).name@ != h.name@
        && t[i].name@ != v.name@ by {
        assert(t[i].name@[0] != 'h' && t[i].name@[0] != 'v');
    }
    let u = t.push(h);
    assert(appended(t, h) == u);
    assert(h.name@ != v.name@);
    assert forall|i: int| 0 <= i < u.len() implies (#[trigger] u[i]).name@ != v.name@ by {
        if i < t.len() {
            assert(u[i] == t[i]);
        }
    }
    assert(appended(u, v) == u.push(v));
}

/// The server table does not define the built-in flags itself.
proof fn lemma_server_flags()
    ensures
        appended(appended(server_flag_table(), help_flag()), version_flag()) == server_flag_table().push(
            help_flag(),
        ).push(version_flag()),
{
    let t = server_flag_table();
    let h = help_flag();
    let v = version_flag();
    reveal_strlit("help, h");
    reveal_strlit("version, v");
    reveal_strlit("listen,l");
    reveal_strlit("target, t");
    reveal_strlit("key");
    reveal_strlit("crypt");
    reveal_strlit("QPP");
    reveal_strlit("QPPCount");
    reveal_strlit("mode");
    reveal_strlit("mtu");
    reveal_strlit("ratelimit");
    reveal_strlit("sndwnd");
    reveal_strlit("rcvwnd");
    reveal_strlit("datashard,ds");
    reveal_strlit("parityshard,ps");
    reveal_strlit("dscp");
    reveal_strlit("nocomp");
    reveal_strlit("acknodelay");
    reveal_strlit("nodelay");
    reveal_strlit("interval");
    reveal_strlit("resend");
    reveal_strlit("nc");
    reveal_strlit("sockbuf");
    reveal_strlit("smuxver");
    reveal_strlit("smuxbuf");
    reveal_strlit("framesize");
    reveal_strlit("streambuf");
    reveal_strlit("keepalive");
    reveal_strlit("closewait");
    reveal_strlit("snmplog");
    reveal_strlit("snmpperiod");
    reveal_strlit("pprof");
    reveal_strlit("log");
    reveal_strlit("quiet");
    reveal_strlit("tcp");
    reveal_strlit("c");
    assert(h.name@.len() == 7 && h.name@[0] == 'h');
    assert(v.name@.len() == 10 && v.name@[0] == 'v');
    assert(t[0].name@.len() == 8 && t[0].name@[0] == 'l');
    assert(t[1].name@.len() == 9 && t[1].name@[0] == 't');
    assert(t[2].name@.len() == 3 && t[2].name@[0] == 'k');
    assert(t[3].name@.len() == 5 && t[3].name@[0] == 'c');
    assert(t[4].name@.len() == 3 && t[4].name@[0] == 'Q');
    assert(t[5].name@.len() == 8 && t[5].name@[0] == 'Q');
    assert(t[6].name@.len() == 4 && t[6].name@[0] == 'm');
    assert(t[7].name@.len() == 3 && t[7].name@[0] == 'm');
    assert(t[8].name@.len() == 9 && t[8].name@[0] == 'r');
    assert(t[9].name@.len() == 6 && t[9].name@[0] == 's');
    assert(t[10].name@.len() == 6 && t[10].name@[0] == 'r');
    assert(t[11].name@.len() == 12 && t[11].name@[0] == 'd');
    assert(t[12].name@.len() == 14 && t[12].name@[0] == 'p');
    assert(t[13].name@.len() == 4 && t[13].name@[0] == 'd');
    assert(t[14].name@.len() == 6 && t[14].name@[0] == 'n');
    assert(t[15].name@.len() == 10 && t[15].name@[0] == 'a');
    assert(t[16].name@.len() == 7 && t[16].name@[0] == 'n');
    assert(t[17].name@.len() == 8 && t[17].name@[0] == 'i');
    assert(t[18].name@.len() == 6 && t[18].name@[0] == 'r');
    assert(t[19].name@.len() == 2 && t[19].name@[0] == 'n');
    assert(t[20].name@.len() == 7 && t[20].name@[0] == 's');
    assert(t[21].name@.len() == 7 && t[21].name@[0] == 's');
    assert(t[22].name@.len() == 7 && t[22].name@[0] == 's');
    assert(t[23].name@.len() == 9 && t[23].name@[0] == 'f');
    assert(t[24].name@.len() == 9 && t[24].name@[0] == 's');
    assert(t[25].name@.len() == 9 && t[25].name@[0] == 'k');
    assert(t[26].name@.len() == 9 && t[26].name@[0] == 'c');
    assert(t[27].name@.len() == 7 && t[27].name@[0] == 's');
    assert(t[28].name@.len() == 10 && t[28].name@[0] == 's');
    assert(t[29].name@.len() == 5 && t[29].name@[0] == 'p');
    assert(t[30].name@.len() == 3 && t[30].name@[0] == 'l');
    assert(t[31].name@.len() == 5 && t[31].name@[0] == 'q');
    assert(t[32].name@.len() == 3 && t[32].name@[0] == 't');
    assert(t[33].name@.len() == 1 && t[33].name@[0] == 'c');
    assert forall|i: int| 0 <= i < t.len() implies (#[trigger] t[i]).name@ != h.name@
        && t[i].name@ != v.name@ by {
        assert(t[i].name@[0] != 'h' && t[i].name@[0] != 'v');
    }
    let u = t.push(h);
    assert(appended(t, h) == u);
    assert(h.name@ != v.name@);
    assert forall|i: int| 0 <= i < u.len() implies (#[trigger] u[i]).name@ != v.name@ by {
        if i < t.len() {
            assert(u[i] == t[i]);
        }
    }
    assert(appended(u, v) == u.push(v));
}

/// Runs `app` with no arguments and no environment, which yields the defaults.
fn default_context(app: &App<'static>) -> (ctx: Context)
    requires
        exists|flags: Seq<FlagSpec<'static>>|
            app.flags@ == #[trigger] flags.push(help_flag()).push(version_flag()),
    ensures
        app.ran(seq!["kcptun"@], ()).outcome == Ok::<Parsed, int>(ctx@),
{
    let mut argv: Vec<String> = Vec::new();
    argv.push("kcptun".to_owned());
    proof {
        let flags = choose|flags: Seq<FlagSpec<'static>>|
            app.flags@ == #[trigger] flags.push(help_flag()).push(version_flag());
        an_empty_command_line_runs_the_action(*app, flags);
        assert(strings(argv@) =~= seq!["kcptun"@]);
    }
    match app.run(argv.as_slice(), &()).outcome {
        RunOutcome::Action(ctx) => ctx,
        RunOutcome::Exit(_) => vstd::pervasive::unreached(),
    }
}

impl ClientConfig {
    /// The configuration that an empty client command line produces (every flag at its default).
    pub fn defaults() -> (r: Self)
        ensures
            exists|app: App<'static>| #[trigger]
                is_app(app, "kcptun-client"@, "client(with SMUX)"@, client_flag_table())
                    && app.ran(seq!["kcptun"@], ()).outcome is Ok && r.is_of(
                    app.ran(seq!["kcptun"@], ()).outcome->Ok_0,
                ),
            r.is_default(),
    {
        let app = client_app("kcptun-client");
        proof {
            reveal_strlit("SELFBUILD");
            lemma_client_flags();
        }
        let r = Self::from_context(&default_context(&app));
        proof {
            defaults::lemma_client_defaults(app, "kcptun-client"@, r);
        }
        r
    }
}

impl ServerConfig {
    /// The configuration that an empty server command line produces (every flag at its default).
    pub fn defaults() -> (r: Self)
        ensures
            exists|app: App<'static>| #[trigger]
                is_app(app, "kcptun-server"@, "server(with SMUX)"@, server_flag_table())
                    && app.ran(seq!["kcptun"@], ()).outcome is Ok && r.is_of(
                    app.ran(seq!["kcptun"@], ()).outcome->Ok_0,
                ),
            r.is_default(),
    {
        let app = server_app("kcptun-server");
        proof {
            reveal_strlit("SELFBUILD");
            lemma_server_flags();
        }
        let r = Self::from_context(&default_context(&app));
        proof {
            defaults::lemma_server_defaults(app, "kcptun-server"@, r);
        }
        r
    }
}

// ---------------------------------------------------------------------------------------
// Laws
// ---------------------------------------------------------------------------------------
/// A preset decides the four knobs alone, whatever the command line and the file have set, and
/// applying it again changes nothing.
pub proof fn a_preset_wins(a: BaseConfig, b: BaseConfig)
    requires
        a.mode@ == b.mode@,
        mode_params(a.mode@) is Some,
    ensures
        a.with_mode().no_delay == b.with_mode().no_delay,
        a.with_mode().interval == b.with_mode().interval,
        a.with_mode().resend == b.with_mode().resend,
        a.with_mode().no_congestion == b.with_mode().no_congestion,
        a.with_mode().with_mode() == a.with_mode(),
{
}

/// A rate limit is not negative once it has been normalized, and a second time changes nothing.
pub proof fn a_rate_limit_is_not_negative(c: BaseConfig)
    ensures
        c.with_rate_limit().rate_limit >= 0,
        c.with_rate_limit().with_rate_limit() == c.with_rate_limit(),
{
}

/// A number that tells the names of the fields apart.
spec fn code(s: Seq<char>) -> int {
    ((s.len() * 256 + s[0] as int) * 256 + s[s.len() as int / 2] as int) * 256 + s.last() as int
}

proof fn lemma_codes()
    ensures
        code("key"@) == 57369977,
        code("crypt"@) == 90405236,
        code("mode"@) == 74277989,
        code("mtu"@) == 57504885,
        code("ratelimit"@) == 158493812,
        code("sndwnd"@) == 108230500,
        code("rcvwnd"@) == 108164964,
        code("datashard"@) == 157578084,
        code("parityshard"@) == 191920484,
        code("dscp"@) == 73687920,
        code("nocomp"@) == 107900784,
        code("acknodelay"@) == 174154873,
        code("nodelay"@) == 124675449,
        code("interval"@) == 141128300,
        code("resend"@) == 108160356,
        code("nc"@) == 40788835,
        code("sockbuf"@) == 125004646,
        code("smuxver"@) == 125007986,
        code("smuxbuf"@) == 125007974,
        code("framesize"@) == 157705573,
        code("streambuf"@) == 158556518,
        code("keepalive"@) == 158032229,
        code("log"@) == 57438055,
        code("snmplog"@) == 125005927,
        code("snmpperiod"@) == 175334756,
        code("quiet"@) == 91318644,
        code("tcp"@) == 57959280,
        code("pprof"@) == 91255398,
        code("qpp"@) == 57766000,
        code("qpp-count"@) == 158425972,
        code("closewait"@) == 157508980,
        code("localaddr"@) == 158100594,
        code("remoteaddr"@) == 175269234,
        code("conn"@) == 73625198,
        code("autoexpire"@) == 174159973,
        code("scavengettl"@) == 192114284,
        code("listen"@) == 107770990,
        code("target"@) == 108291956,
{
    assert(code("key"@) == 57369977) by {
        reveal_strlit("key");
    }
    assert(code("crypt"@) == 90405236) by {
        reveal_strlit("crypt");
    }
    assert(code("mode"@) == 74277989) by {
        reveal_strlit("mode");
    }
    assert(code("mtu"@) == 57504885) by {
        reveal_strlit("mtu");
    }
    assert(code("ratelimit"@) == 158493812) by {
        reveal_strlit("ratelimit");
    }
    assert(code("sndwnd"@) == 108230500) by {
        reveal_strlit("sndwnd");
    }
    assert(code("rcvwnd"@) == 108164964) by {
        reveal_strlit("rcvwnd");
    }
    assert(code("datashard"@) == 157578084) by {
        reveal_strlit("datashard");
    }
    assert(code("parityshard"@) == 191920484) by {
        reveal_strlit("parityshard");
    }
    assert(code("dscp"@) == 73687920) by {
        reveal_strlit("dscp");
    }
    assert(code("nocomp"@) == 107900784) by {
        reveal_strlit("nocomp");
    }
    assert(code("acknodelay"@) == 174154873) by {
        reveal_strlit("acknodelay");
    }
    assert(code("nodelay"@) == 124675449) by {
        reveal_strlit("nodelay");
    }
    assert(code("interval"@) == 141128300) by {
        reveal_strlit("interval");
    }
    assert(code("resend"@) == 108160356) by {
        reveal_strlit("resend");
    }
    assert(code("nc"@) == 40788835) by {
        reveal_strlit("nc");
    }
    assert(code("sockbuf"@) == 125004646) by {
        reveal_strlit("sockbuf");
    }
    assert(code("smuxver"@) == 125007986) by {
        reveal_strlit("smuxver");
    }
    assert(code("smuxbuf"@) == 125007974) by {
        reveal_strlit("smuxbuf");
    }
    assert(code("framesize"@) == 157705573) by {
        reveal_strlit("framesize");
    }
    assert(code("streambuf"@) == 158556518) by {
        reveal_strlit("streambuf");
    }
    assert(code("keepalive"@) == 158032229) by {
        reveal_strlit("keepalive");
    }
    assert(code("log"@) == 57438055) by {
        reveal_strlit("log");
    }
    assert(code("snmplog"@) == 125005927) by {
        reveal_strlit("snmplog");
    }
    assert(code("snmpperiod"@) == 175334756) by {
        reveal_strlit("snmpperiod");
    }
    assert(code("quiet"@) == 91318644) by {
        reveal_strlit("quiet");
    }
    assert(code("tcp"@) == 57959280) by {
        reveal_strlit("tcp");
    }
    assert(code("pprof"@) == 91255398) by {
        reveal_strlit("pprof");
    }
    assert(code("qpp"@) == 57766000) by {
        reveal_strlit("qpp");
    }
    assert(code("qpp-count"@) == 158425972) by {
        reveal_strlit("qpp-count");
    }
    assert(code("closewait"@) == 157508980) by {
        reveal_strlit("closewait");
    }
    assert(code("localaddr"@) == 158100594) by {
        reveal_strlit("localaddr");
    }
    assert(code("remoteaddr"@) == 175269234) by {
        reveal_strlit("remoteaddr");
    }
    assert(code("conn"@) == 73625198) by {
        reveal_strlit("conn");
    }
    assert(code("autoexpire"@) == 174159973) by {
        reveal_strlit("autoexpire");
    }
    assert(code("scavengettl"@) == 192114284) by {
        reveal_strlit("scavengettl");
    }
    assert(code("listen"@) == 107770990) by {
        reveal_strlit("listen");
    }
    assert(code("target"@) == 108291956) by {
        reveal_strlit("target");
    }
}

/// Every key of the client's file names the field that it is meant for.
pub proof fn every_key_names_its_field_of_the_client(c: ClientConfig)
    ensures
        c.field("key"@) == Some(FieldValue::Text(c.base.key@)),
        c.field("crypt"@) == Some(FieldValue::Text(c.base.crypt@)),
        c.field("mode"@) == Some(FieldValue::Text(c.base.mode@)),
        c.field("mtu"@) == Some(FieldValue::Int(c.base.mtu as int)),
        c.field("ratelimit"@) == Some(FieldValue::Int(c.base.rate_limit as int)),
        c.field("sndwnd"@) == Some(FieldValue::Int(c.base.snd_wnd as int)),
        c.field("rcvwnd"@) == Some(FieldValue::Int(c.base.rcv_wnd as int)),
        c.field("datashard"@) == Some(FieldValue::Int(c.base.data_shard as int)),
        c.field("parityshard"@) == Some(FieldValue::Int(c.base.parity_shard as int)),
        c.field("dscp"@) == Some(FieldValue::Int(c.base.dscp as int)),
        c.field("nocomp"@) == Some(FieldValue::Flag(c.base.no_comp)),
        c.field("acknodelay"@) == Some(FieldValue::Flag(c.base.ack_nodelay)),
        c.field("nodelay"@) == Some(FieldValue::Int(c.base.no_delay as int)),
        c.field("interval"@) == Some(FieldValue::Int(c.base.interval as int)),
        c.field("resend"@) == Some(FieldValue::Int(c.base.resend as int)),
        c.field("nc"@) == Some(FieldValue::Int(c.base.no_congestion as int)),
        c.field("sockbuf"@) == Some(FieldValue::Int(c.base.sock_buf as int)),
        c.field("smuxver"@) == Some(FieldValue::Int(c.base.smux_ver as int)),
        c.field("smuxbuf"@) == Some(FieldValue::Int(c.base.smux_buf as int)),
        c.field("framesize"@) == Some(FieldValue::Int(c.base.frame_size as int)),
        c.field("streambuf"@) == Some(FieldValue::Int(c.base.stream_buf as int)),
        c.field("keepalive"@) == Some(FieldValue::Int(c.base.keep_alive as int)),
        c.field("log"@) == Some(FieldValue::Text(c.base.log@)),
        c.field("snmplog"@) == Some(FieldValue::Text(c.base.snmp_log@)),
        c.field("snmpperiod"@) == Some(FieldValue::Int(c.base.snmp_period as int)),
        c.field("quiet"@) == Some(FieldValue::Flag(c.base.quiet)),
        c.field("tcp"@) == Some(FieldValue::Flag(c.base.tcp)),
        c.field("pprof"@) == Some(FieldValue::Flag(c.base.pprof)),
        c.field("qpp"@) == Some(FieldValue::Flag(c.base.qpp)),
        c.field("qpp-count"@) == Some(FieldValue::Int(c.base.qpp_count as int)),
        c.field("closewait"@) == Some(FieldValue::Int(c.base.close_wait as int)),
        c.field("localaddr"@) == Some(FieldValue::Text(c.local_addr@)),
        c.field("remoteaddr"@) == Some(FieldValue::Text(c.remote_addr@)),
        c.field("conn"@) == Some(FieldValue::Int(c.conn as int)),
        c.field("autoexpire"@) == Some(FieldValue::Int(c.auto_expire as int)),
        c.field("scavengettl"@) == Some(FieldValue::Int(c.scavenge_ttl as int)),
{
    lemma_codes();
}

/// Every key of the server's file names the field that it is meant for.
pub proof fn every_key_names_its_field_of_the_server(c: ServerConfig)
    ensures
        c.field("key"@) == Some(FieldValue::Text(c.base.key@)),
        c.field("crypt"@) == Some(FieldValue::Text(c.base.crypt@)),
        c.field("mode"@) == Some(FieldValue::Text(c.base.mode@)),
        c.field("mtu"@) == Some(FieldValue::Int(c.base.mtu as int)),
        c.field("ratelimit"@) == Some(FieldValue::Int(c.base.rate_limit as int)),
        c.field("sndwnd"@) == Some(FieldValue::Int(c.base.snd_wnd as int)),
        c.field("rcvwnd"@) == Some(FieldValue::Int(c.base.rcv_wnd as int)),
        c.field("datashard"@) == Some(FieldValue::Int(c.base.data_shard as int)),
        c.field("parityshard"@) == Some(FieldValue::Int(c.base.parity_shard as int)),
        c.field("dscp"@) == Some(FieldValue::Int(c.base.dscp as int)),
        c.field("nocomp"@) == Some(FieldValue::Flag(c.base.no_comp)),
        c.field("acknodelay"@) == Some(FieldValue::Flag(c.base.ack_nodelay)),
        c.field("nodelay"@) == Some(FieldValue::Int(c.base.no_delay as int)),
        c.field("interval"@) == Some(FieldValue::Int(c.base.interval as int)),
        c.field("resend"@) == Some(FieldValue::Int(c.base.resend as int)),
        c.field("nc"@) == Some(FieldValue::Int(c.base.no_congestion as int)),
        c.field("sockbuf"@) == Some(FieldValue::Int(c.base.sock_buf as int)),
        c.field("smuxver"@) == Some(FieldValue::Int(c.base.smux_ver as int)),
        c.field("smuxbuf"@) == Some(FieldValue::Int(c.base.smux_buf as int)),
        c.field("framesize"@) == Some(FieldValue::Int(c.base.frame_size as int)),
        c.field("streambuf"@) == Some(FieldValue::Int(c.base.stream_buf as int)),
        c.field("keepalive"@) == Some(FieldValue::Int(c.base.keep_alive as int)),
        c.field("log"@) == Some(FieldValue::Text(c.base.log@)),
        c.field("snmplog"@) == Some(FieldValue::Text(c.base.snmp_log@)),
        c.field("snmpperiod"@) == Some(FieldValue::Int(c.base.snmp_period as int)),
        c.field("quiet"@) == Some(FieldValue::Flag(c.base.quiet)),
        c.field("tcp"@) == Some(FieldValue::Flag(c.base.tcp)),
        c.field("pprof"@) == Some(FieldValue::Flag(c.base.pprof)),
        c.field("qpp"@) == Some(FieldValue::Flag(c.base.qpp)),
        c.field("qpp-count"@) == Some(FieldValue::Int(c.base.qpp_count as int)),
        c.field("closewait"@) == Some(FieldValue::Int(c.base.close_wait as int)),
        c.field("listen"@) == Some(FieldValue::Text(c.listen@)),
        c.field("target"@) == Some(FieldValue::Text(c.target@)),
{
    lemma_codes();
}

} // verus!
