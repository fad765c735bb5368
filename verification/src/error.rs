//! The errors of fan discovery, sysfs access and service control.
use vstd::prelude::*;

use crate::text::IntErrorKind;

verus! {

/// What went wrong, with the details as plain text.
#[derive(Clone, Debug, PartialEq, Eq)]
pub enum FanControlError {
    NoFans,
    Glob(String),
    GlobWalk(String),
    Io { path: String, message: String },
    ParseInt { path: String, source: IntErrorKind },
    InvalidFanPath(String),
    ProcessSpawn(String),
    CommandFailed { command: String, stderr: String },
    Protocol(String),
}

} // verus!
