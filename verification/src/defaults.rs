//! General default values used by the configuration search.
use vstd::prelude::*;

verus! {

/// Default path to look for properties files in.
pub const DEFAULT_CAPO_PATH: &'static str = "/home/casa/capo:/home/ssa/capo";

/// Name of the environment variable carrying the CAPO profile.
pub const CAPO_ENV_VAR: &'static str = "CAPO_PROFILE";

/// Name of the environment variable carrying the CAPO path.
pub const CAPO_PATH_VAR: &'static str = "CAPO_PATH";

} // verus!
