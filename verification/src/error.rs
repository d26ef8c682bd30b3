//! The errors the calendar library reports, and the spec-level outcome of
//! an operation that may also stop the program.

use vstd::prelude::*;

verus! {

/// What went wrong in a calendar operation.
#[derive(Clone, Copy, Debug, PartialEq, Eq, Structural)]
pub enum SaturnError {
    /// A number could not be read.
    InvalidNumber,
    /// A recurrence frequency other than daily, weekly, monthly or yearly.
    InvalidFrequency,
    /// A recurrence rule without a usable frequency and interval.
    RecurrenceUnparsable,
    /// A date could not be read.
    CannotParseDate,
    /// A time could not be read.
    CannotParseTime,
    /// The word after the date was none of `at`, `from` or `all`.
    TimeMustBeFromOrAt,
    /// A duration could not be read.
    InvalidDuration,
    /// A search was not well formed.
    InvalidSyntax,
    /// A date range search was not `from <date> to <date>`.
    DateRangeSyntax,
    /// A time range search was not `from <time> to <time>`.
    TimeRangeSyntax,
    /// A field search named a value but no key.
    FieldSearchWithoutKey,
    /// A database type other than `google` or `unixfile`.
    InvalidDbType,
    /// An export format other than json, yaml or cbor.
    InvalidExportFormat,
    /// No record has the requested key.
    NoRecordFound,
    /// Numbers that name no day of the calendar.
    InvalidDate,
    /// Numbers that name no time of day.
    InvalidTime,
    /// A value outside the range the reader handles.
    OutOfRange,
    /// The remote calendar was asked for while another database is set.
    NotRemoteDatabase,
    /// The remote calendar's client credentials are not set.
    NoClientInfo,
    /// No access token for the remote calendar was captured.
    NoAccessToken,
    /// A repetition shorter than the remote calendar's one-day granularity.
    RecurrenceTooShort,
    /// An event without repetition rules was read as a recurrence.
    NoRecurrenceData,
    /// None of an event's repetition rules could be read.
    NoRecurrenceFound,
}

impl SaturnError {
    /// The message shown to the user for this error.
    pub open spec fn text(self) -> Seq<char> {
        match self {
            SaturnError::InvalidNumber => "invalid digit found in string"@,
            SaturnError::InvalidFrequency => "Invalid frequency"@,
            SaturnError::RecurrenceUnparsable => "Recurring data cannot be parsed"@,
            SaturnError::CannotParseDate => "Cannot parse date"@,
            SaturnError::CannotParseTime => "Cannot parse time"@,
            SaturnError::TimeMustBeFromOrAt => "Time must be 'from' or 'at'"@,
            SaturnError::InvalidDuration => "Invalid duration"@,
            SaturnError::InvalidSyntax => "Invalid syntax"@,
            SaturnError::DateRangeSyntax => "syntax: from <date> to <date>"@,
            SaturnError::TimeRangeSyntax => "syntax: from <time> to <time>"@,
            SaturnError::FieldSearchWithoutKey => "Cannot search fields without a key"@,
            SaturnError::InvalidDbType => "Invalid db type: valid types are `google` and `unixfile`"@,
            SaturnError::InvalidExportFormat => "Invalid export format type; must be one of [json, yaml, cbor]"@,
            SaturnError::NoRecordFound => "No Record Found"@,
            SaturnError::InvalidDate => "Invalid Date"@,
            SaturnError::InvalidTime => "Invalid Time"@,
            SaturnError::OutOfRange => "Value out of range"@,
            SaturnError::NotRemoteDatabase => "DBType must be set to google"@,
            SaturnError::NoClientInfo => "Must have client information configured"@,
            SaturnError::NoAccessToken => "Must have access token captured"@,
            SaturnError::RecurrenceTooShort => "Google Calendar supports a minimum granularity of 1 day"@,
            SaturnError::NoRecurrenceData => "No recurrence data for this event"@,
            SaturnError::NoRecurrenceFound => "No recurrence data found for event"@,
        }
    }

    /// The message shown to the user for this error.
    pub fn message(&self) -> (res: String)
        ensures
            res@ == self.text(),
    {
        let s: &str = match self {
            SaturnError::InvalidNumber => "invalid digit found in string",
            SaturnError::InvalidFrequency => "Invalid frequency",
            SaturnError::RecurrenceUnparsable => "Recurring data cannot be parsed",
            SaturnError::CannotParseDate => "Cannot parse date",
            SaturnError::CannotParseTime => "Cannot parse time",
            SaturnError::TimeMustBeFromOrAt => "Time must be 'from' or 'at'",
            SaturnError::InvalidDuration => "Invalid duration",
            SaturnError::InvalidSyntax => "Invalid syntax",
            SaturnError::DateRangeSyntax => "syntax: from <date> to <date>",
            SaturnError::TimeRangeSyntax => "syntax: from <time> to <time>",
            SaturnError::FieldSearchWithoutKey => "Cannot search fields without a key",
            SaturnError::InvalidDbType => "Invalid db type: valid types are `google` and `unixfile`",
            SaturnError::InvalidExportFormat => "Invalid export format type; must be one of [json, yaml, cbor]",
            SaturnError::NoRecordFound => "No Record Found",
            SaturnError::InvalidDate => "Invalid Date",
            SaturnError::InvalidTime => "Invalid Time",
            SaturnError::OutOfRange => "Value out of range",
            SaturnError::NotRemoteDatabase => "DBType must be set to google",
            SaturnError::NoClientInfo => "Must have client information configured",
            SaturnError::NoAccessToken => "Must have access token captured",
            SaturnError::RecurrenceTooShort => "Google Calendar supports a minimum granularity of 1 day",
            SaturnError::NoRecurrenceData => "No recurrence data for this event",
            SaturnError::NoRecurrenceFound => "No recurrence data found for event",
        };
        s.to_owned()
    }
}

/// How an operation ends: with a value, with an error, or by stopping the
/// program.
pub enum Outcome<T> {
    Value(T),
    Fail(SaturnError),
    Halt,
}

} // verus!
