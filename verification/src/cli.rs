//! What the program runs with: its arguments, its fatal-error categories and
//! their exit codes, and the least severity it logs. Argument parsing and
//! process exit live outside the library; they hand values in and read the
//! code out.

use vstd::prelude::*;
use crate::address::WanAddress;
use crate::wan_ip_query::WanIpError;

verus! {

/// The arguments the program runs with.
pub struct AppArgs {
    /// API key for DigitalOcean.
    pub do_api_key: String,
    /// How often (in minutes) to check the WAN address and update records.
    /// Absent means the records are updated once and the program exits.
    pub update_interval: Option<i64>,
    /// When unset the program only validates the records and previews the
    /// changes it would make; when set it applies them.
    pub apply: bool,
    /// The fully qualified domain names to keep updated.
    pub domains: Vec<String>,
    /// Skip the ten-second warning shown before applying record changes.
    pub skip_warning: bool,
}

/// A fatal condition the program ends with.
#[derive(Debug)]
pub enum AppError {
    /// The provider rejected the credential.
    TestFailedDOKeyValidation,
    /// The WAN address could not be resolved.
    TestFailedToQueryWanIp(WanIpError),
    /// The resolved WAN address is carrier-grade NAT: no public address to
    /// publish, and retrying cannot mend it.
    CgNatWanIp(WanAddress),
    /// Any other fatal condition, described in words.
    OtherError(String),
}

/// The exit code of each fatal category: 1 for a rejected credential, 2 for
/// a WAN-address failure (carrier-grade NAT included), 3 for the rest.
pub open spec fn spec_error_code(e: AppError) -> int {
    match e {
        AppError::TestFailedDOKeyValidation => 1,
        AppError::TestFailedToQueryWanIp(_) => 2,
        AppError::CgNatWanIp(_) => 2,
        AppError::OtherError(_) => 3,
    }
}

impl AppError {
    /// The process exit code this fatal condition maps to.
    pub fn error_code(&self) -> (r: i32)
        ensures
            r as int == spec_error_code(*self),
    {
        match self {
            AppError::TestFailedDOKeyValidation => 1,
            AppError::TestFailedToQueryWanIp(_) => 2,
            AppError::CgNatWanIp(_) => 2,
            AppError::OtherError(_) => 3,
        }
    }
}

/// How much the program logs.
#[derive(PartialEq, Eq, Structural, Clone, Copy, Debug)]
pub enum LogLevel {
    Debug,
    Info,
}

/// The least severity worth logging: everything in a debug build, informative
/// messages and up otherwise.
pub fn get_minimum_log_level(debug_build: bool) -> (r: LogLevel)
    ensures
        r == (if debug_build {
            LogLevel::Debug
        } else {
            LogLevel::Info
        }),
{
    if debug_build {
        LogLevel::Debug
    } else {
        LogLevel::Info
    }
}

} // verus!

