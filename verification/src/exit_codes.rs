//! Process exit codes of the command-line tool.
use vstd::prelude::*;

verus! {

/// Success.
pub const OK: i32 = 0;

/// A generic error.
pub const GENERIC_ERROR: i32 = 1;

/// Bad flags or missing arguments.
pub const USAGE_ERROR: i32 = 2;

/// An input file is missing or invalid.
pub const INPUT_FILE_ERROR: i32 = 3;

/// The device port is missing or ambiguous.
pub const DEVICE_UNAVAILABLE: i32 = 4;

/// A preset is invalid for its mode and cannot be encoded.
pub const ENCODE_ERROR: i32 = 5;

/// A message was sent but no acknowledgement came within the timeout.
pub const SYNC_NO_ACK: i32 = 6;

/// The device answered with a retry or error response.
pub const DEVICE_RETRY: i32 = 7;

} // verus!
