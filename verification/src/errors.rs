//! Error values for the ways configuration resolution can fail.
use vstd::prelude::*;

verus! {

/// Encapsulates an error message with its associated status code.
///
/// Each fatal condition carries a distinct status code, so a caller can map
/// it to a distinct process exit status and message.
#[derive(Debug)]
pub struct CapoError {
    pub status_code: i32,
    pub error_msg: String,
}

impl CapoError {
    /// Error for when the profile can't be determined.
    pub fn profile_error() -> (r: CapoError)
        ensures
            r.status_code == 2,
            r.error_msg@ == "ERROR: RustCAPO can't deduce the 'profile', give it the -P argument or set the CAPO_PROFILE environment variable!"@,
    {
        CapoError {
            status_code: 2,
            error_msg: "ERROR: RustCAPO can't deduce the 'profile', give it the -P argument or set the CAPO_PROFILE environment variable!".to_owned(),
        }
    }

    /// Error for when an option argument is missing.
    pub fn option_error() -> (r: CapoError)
        ensures
            r.status_code == 3,
            r.error_msg@ == "ERROR: either -A or a list of settings is needed!"@,
    {
        CapoError {
            status_code: 3,
            error_msg: "ERROR: either -A or a list of settings is needed!".to_owned(),
        }
    }

    /// Error for when a setting is missing.
    pub fn setting_error() -> (r: CapoError)
        ensures
            r.status_code == 4,
            r.error_msg@ == "ERROR: missing setting "@,
    {
        CapoError { status_code: 4, error_msg: "ERROR: missing setting ".to_owned() }
    }

    /// Error for when no properties file can be found anywhere in the path.
    pub fn path_error() -> (r: CapoError)
        ensures
            r.status_code == 5,
            r.error_msg@ == "Error: unable to locate CAPO files in the required path using the current Pofile"@,
    {
        CapoError {
            status_code: 5,
            error_msg: "Error: unable to locate CAPO files in the required path using the current Pofile".to_owned(),
        }
    }

    /// Error for when the user's home directory can't be found.
    pub fn home_dir_error() -> (r: CapoError)
        ensures
            r.status_code == 6,
            r.error_msg@ == "ERROR: Unable to find the user's home directory"@,
    {
        CapoError {
            status_code: 6,
            error_msg: "ERROR: Unable to find the user's home directory".to_owned(),
        }
    }
}

} // verus!
