//! The pipeline's fatal errors.
use vstd::prelude::*;

verus! {

/// Why a cycle, or the whole run, failed.
///
/// A malformed connection record is fatal to the run; so are an empty
/// record file at startup and time moving backwards.
#[derive(Clone, Copy, Debug, PartialEq, Eq, Structural)]
pub enum StatsError {
    /// A connection record is not a JSON object.
    NotObject,
    /// A connection record has no `connection_id` field.
    MissingConnectionId,
    /// The `connection_id` field is not a string.
    ConnectionIdNotText,
    /// A connection record has no `timestamp` field.
    MissingTimestamp,
    /// The `timestamp` field is not a string.
    TimestampNotText,
    /// The `timestamp` field is not a valid RFC 3339 timestamp.
    BadTimestamp,
    /// A cycle's wall time lies before the first cycle's.
    NonMonotonicTime,
    /// The record file to replay is empty.
    EmptyRecordFile,
    /// The clock went backwards while measuring an age.
    ClockWentBackwards,
}

impl StatsError {
    /// A short description of the error.
    pub fn message(&self) -> (s: String)
        ensures
            s@ == match *self {
                StatsError::NotObject => "not a JSON object"@,
                StatsError::MissingConnectionId => "missing 'connection_id'"@,
                StatsError::ConnectionIdNotText => "'connection_id' is not a JSON string"@,
                StatsError::MissingTimestamp => "missing 'timestamp'"@,
                StatsError::TimestampNotText => "'timestamp' is not a JSON string"@,
                StatsError::BadTimestamp => "failed to parse 'timestamp'"@,
                StatsError::NonMonotonicTime => "time went backwards between cycles"@,
                StatsError::EmptyRecordFile => "empty record file"@,
                StatsError::ClockWentBackwards => "clock went backwards"@,
            },
    {
        match self {
            StatsError::NotObject => "not a JSON object".to_owned(),
            StatsError::MissingConnectionId => "missing 'connection_id'".to_owned(),
            StatsError::ConnectionIdNotText => "'connection_id' is not a JSON string".to_owned(),
            StatsError::MissingTimestamp => "missing 'timestamp'".to_owned(),
            StatsError::TimestampNotText => "'timestamp' is not a JSON string".to_owned(),
            StatsError::BadTimestamp => "failed to parse 'timestamp'".to_owned(),
            StatsError::NonMonotonicTime => "time went backwards between cycles".to_owned(),
            StatsError::EmptyRecordFile => "empty record file".to_owned(),
            StatsError::ClockWentBackwards => "clock went backwards".to_owned(),
        }
    }
}

} // verus!
