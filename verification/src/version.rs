//! The version that the binaries report, and the one thing that it switches on.
use vstd::prelude::*;
use vstd::string::*;

use crate::text::str_eq;

verus! {

/// The first word of the `-v` line and of the help's NAME section.
pub const APP_NAME: &'static str = "kcptun";

/// The version that an unstamped build reports, and the value that turns on `file:line` in the log.
pub const SELFBUILD: &'static str = "SELFBUILD";

/// The version of a build that no version was stamped on. A stamped program hands its own version to
/// [`is_selfbuild_version`], [`version_line`], [`crate::log::flags_for_version`],
/// [`crate::config::client_app_for`] and [`crate::config::server_app_for`].
pub const VERSION: &'static str = "SELFBUILD";

/// Whether a version is that of an unstamped build, which is what makes log lines carry
/// `file:line`.
pub fn is_selfbuild_version(version: &str) -> (r: bool)
    ensures
        r == (version@ == SELFBUILD@),
{
    str_eq(version, SELFBUILD)
}

/// Whether [`VERSION`] is that of an unstamped build.
pub fn is_selfbuild() -> (r: bool)
    ensures
        r == (VERSION@ == SELFBUILD@),
{
    is_selfbuild_version(VERSION)
}

/// The line that `-v` prints for a version, without its trailing newline.
pub fn version_line(version: &str) -> (s: String)
    ensures
        s@ == APP_NAME@ + " version "@ + version@,
{
    let mut s = APP_NAME.to_owned();
    s.append(" version ");
    s.append(version);
    s
}

/// The line that `-v` prints for [`VERSION`], without its trailing newline.
pub fn version_string() -> (s: String)
    ensures
        s@ == APP_NAME@ + " version "@ + VERSION@,
{
    version_line(VERSION)
}

} // verus!
