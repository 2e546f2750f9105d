//! Instants, and their text in names and logs. The library never reads the clock:
//! whoever calls it hands in the instant.

use vstd::prelude::*;

verus! {

/// An instant: whole seconds since the Unix epoch, and the nanoseconds past them.
#[derive(Clone, Copy, Debug, PartialEq, Eq, Structural)]
pub struct Timestamp {
    pub secs: i64,
    pub nanos: u32,
}

/// The layout of the stamp in the name of a conflict copy: `YYYYMMDDHHMMSS`.
pub open spec fn compact_layout() -> Seq<char> {
    "%Y%m%d%H%M%S"@
}

/// The layout of the stamp in a line of the sync log.
pub open spec fn log_layout() -> Seq<char> {
    "%Y-%m-%d %H:%M:%S UTC"@
}

/// The text of the instant `secs` seconds and `nanos` nanoseconds after the Unix
/// epoch, in UTC and in the strftime layout `layout`; nothing for an instant
/// outside the range of the calendar.
pub uninterp spec fn utc_text(secs: int, nanos: int, layout: Seq<char>) -> Option<Seq<char>>;

/// The text of `at` in one of the two layouts that the library uses, if the calendar
/// holds the instant.
///
/// Trusted: builds the instant with `chrono::DateTime::from_timestamp`, calls
/// `chrono::DateTime::format` on it and renders the result. The text is a function
/// of the instant and the layout alone; the contract gives it a name and claims
/// nothing else of it. The layout is held to the two known ones because rendering
/// panics on an unknown specifier.
#[verifier::external_body]
pub(crate) fn format_utc(at: Timestamp, layout: &str) -> (text: Option<String>)
    requires
        layout@ == compact_layout() || layout@ == log_layout(),
    ensures
        (match text {
            Some(t) => Some(t@),
            None => None,
        }) == utc_text(at.secs as int, at.nanos as int, layout@),
{
    match chrono::DateTime::from_timestamp(at.secs, at.nanos) {
        Some(instant) => Some(instant.format(layout).to_string()),
        None => None,
    }
}

impl Timestamp {
    /// The stamp of this instant in the name of a conflict copy. An instant that
    /// the calendar does not hold is stamped as the epoch.
    pub open spec fn compact_text(self) -> Seq<char> {
        match utc_text(self.secs as int, self.nanos as int, compact_layout()) {
            Some(text) => text,
            None => "19700101000000"@,
        }
    }

    /// The stamp of this instant in a line of the sync log. An instant that the
    /// calendar does not hold is stamped as the epoch.
    pub open spec fn log_text(self) -> Seq<char> {
        match utc_text(self.secs as int, self.nanos as int, log_layout()) {
            Some(text) => text,
            None => "1970-01-01 00:00:00 UTC"@,
        }
    }

    /// The stamp of this instant in the name of a conflict copy: `YYYYMMDDHHMMSS`.
    pub fn conflict_stamp(self) -> (text: String)
        ensures
            text@ == self.compact_text(),
    {
        match format_utc(self, "%Y%m%d%H%M%S") {
            Some(text) => text,
            None => "19700101000000".to_string(),
        }
    }

    /// The stamp of this instant in a line of the sync log.
    pub fn log_stamp(self) -> (text: String)
        ensures
            text@ == self.log_text(),
    {
        match format_utc(self, "%Y-%m-%d %H:%M:%S UTC") {
            Some(text) => text,
            None => "1970-01-01 00:00:00 UTC".to_string(),
        }
    }
}

} // verus!
