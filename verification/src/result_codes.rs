//! The stable codes under which outcomes are reported across a foreign-call boundary.

use crate::audiosink::AudioSinkError;
use crate::sync::SyncError;
use crate::timespans::TimeSpansSaveError;
use vstd::prelude::*;

verus! {

pub type ResultCode = u32;

pub const ALASS_SUCCESS: ResultCode = 0;

pub const ALASS_INTERNAL_ERROR: ResultCode = 1;

pub const ALASS_INVALID_PARAMS: ResultCode = 2;

pub const ALASS_SINK_CLOSED: ResultCode = 3;

pub const ALASS_UNSUPPORTED_FORMAT: ResultCode = 4;

pub const ALASS_READ_ERROR: ResultCode = 5;

pub const ALASS_FILE_DOES_NOT_EXIST: ResultCode = 6;

pub const ALASS_PERMISSION_DENIED: ResultCode = 7;

pub const ALASS_PARSE_ERROR: ResultCode = 8;

pub const ALASS_WRITE_ERROR: ResultCode = 9;

pub const ALASS_SERIALIZE_ERROR: ResultCode = 10;

pub const ALASS_LOG_ALREADY_CONFIGURED: ResultCode = 11;

/// The code of each kind of synchronization error.
pub fn sync_error_code(e: &SyncError) -> (code: ResultCode)
    ensures
        code == match e {
            SyncError::UnsupportedFormat { .. } => ALASS_UNSUPPORTED_FORMAT,
            SyncError::ReadError { .. } => ALASS_READ_ERROR,
            SyncError::DoesNotExist { .. } => ALASS_FILE_DOES_NOT_EXIST,
            SyncError::PermissionDenied { .. } => ALASS_PERMISSION_DENIED,
            SyncError::ParseError { .. } => ALASS_PARSE_ERROR,
            SyncError::WriteError { .. } => ALASS_WRITE_ERROR,
            SyncError::SerializeError { .. } => ALASS_SERIALIZE_ERROR,
            SyncError::InternalError { .. } => ALASS_INTERNAL_ERROR,
        },
{
    match e {
        SyncError::UnsupportedFormat { .. } => ALASS_UNSUPPORTED_FORMAT,
        SyncError::ReadError { .. } => ALASS_READ_ERROR,
        SyncError::DoesNotExist { .. } => ALASS_FILE_DOES_NOT_EXIST,
        SyncError::PermissionDenied { .. } => ALASS_PERMISSION_DENIED,
        SyncError::ParseError { .. } => ALASS_PARSE_ERROR,
        SyncError::WriteError { .. } => ALASS_WRITE_ERROR,
        SyncError::SerializeError { .. } => ALASS_SERIALIZE_ERROR,
        SyncError::InternalError { .. } => ALASS_INTERNAL_ERROR,
    }
}

/// The code of an error of the audio sink: a closed sink has a code of its own, everything
/// else is an internal error.
pub fn sink_error_code(e: &AudioSinkError) -> (code: ResultCode)
    ensures
        code == match e {
            AudioSinkError::SinkClosed => ALASS_SINK_CLOSED,
            _ => ALASS_INTERNAL_ERROR,
        },
{
    match e {
        AudioSinkError::SinkClosed => ALASS_SINK_CLOSED,
        _ => ALASS_INTERNAL_ERROR,
    }
}

/// The code of an error met while timespans were saved.
pub fn save_error_code(e: &TimeSpansSaveError) -> (code: ResultCode)
    ensures
        code == match e {
            TimeSpansSaveError::SerializeError { .. } => ALASS_SERIALIZE_ERROR,
            TimeSpansSaveError::WriteError { .. } => ALASS_WRITE_ERROR,
        },
{
    match e {
        TimeSpansSaveError::SerializeError { .. } => ALASS_SERIALIZE_ERROR,
        TimeSpansSaveError::WriteError { .. } => ALASS_WRITE_ERROR,
    }
}

} // verus!
