//! The run's resolved invocation. Parsing the command line and reading the
//! environment happen outside the library; the resolved values are handed
//! in through these types.
use crate::log::LogLevel;
use crate::pattern::Pattern;
use vstd::prelude::*;

verus! {

/// Directory roots, resolved from the environment by the caller, with the
/// documented defaults applied there.
pub struct EnvVars {
    pub spec_path: String,
    pub tmpl_path: String,
    pub out_path: String,
    pub log_path: String,
}

/// Selection pattern, verbosity and directory roots for one run.
pub struct Args {
    pub devices: Pattern,
    pub loglevel: LogLevel,
    pub env: EnvVars,
}

} // verus!
