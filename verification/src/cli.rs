//! Command-line parsing and help rendering in the dialect of Go's `flag` package.
//!
//! Users rely on that dialect: `-mode fast3`, `-mtu=1400`, `-nocomp`, `-mtu 01350` (octal 744),
//! an environment variable as the default of a flag, parsing that stops at the first argument
//! that is not a flag.
pub mod app;
pub mod flags;
pub mod laws;
pub mod number;
pub mod quote;
pub mod runs;
pub mod tabwriter;
pub mod values;

pub use app::{
    filepath_base, stringify_flag, App, Context, Run, RunOutcome, NO_HELP_TOPIC_EXIT_CODE,
    USAGE_ERROR_EXIT_CODE,
};
pub use flags::{each_name, Env, FlagDefault, FlagSpec, UsageError, Value};
pub use number::{parse_bool, parse_int_base0, parse_uint_base0, underscore_ok, NumError};
pub use quote::{go_is_print, go_quote};
