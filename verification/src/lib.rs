//! Resolution of CAPO configuration profiles.
//!
//! A profile names a `.properties` file that is searched for in an ordered
//! list of directories.  Every file found is parsed and its key/value pairs
//! are merged into one case-normalized table, later directories overriding
//! earlier ones key by key, while a parallel table records which file last
//! set each key.

pub mod casefold;
pub mod config;
pub mod config_file;
pub mod defaults;
pub mod errors;
pub mod laws;
pub mod numparse;
pub mod strmap;
