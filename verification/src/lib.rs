//! Building blocks of the kcptun client and server.
pub mod cli;
pub mod comp;
pub mod config;
pub mod crypt;
pub mod goaddr;
pub mod gojson;
pub mod gotime;
pub mod internals;
pub mod log;
pub mod mainutil;
pub mod multiport;
pub mod pipe;
pub mod pprof;
pub mod qpp;
pub mod runtime;
pub mod signal;
pub mod smuxcfg;
pub mod smuxio;
pub mod snmp;
pub mod text;
pub mod version;

pub use version::{
    is_selfbuild, is_selfbuild_version, version_line, version_string, APP_NAME, SELFBUILD, VERSION,
};
