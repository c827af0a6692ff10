//! The lines of a log: a timestamp, a level, and the content between
//! quotes. Writing them out is left to the caller.

use vstd::prelude::*;
use vstd::string::StringExecFns;

verus! {

pub const LOGGER_FORMAT_DATE: &'static str =
    "[year padding:zero]-[month padding:zero]-[day padding:zero]";

pub const LOGGER_FORMAT_TIME: &'static str =
    "[hour padding:zero]:[minute padding:zero]:[second padding:zero].[subsecond digits:6]";

/// The description of a timestamp: the date, a space, and the time.
pub fn logger_dt_format() -> (format: String)
    ensures
        format@ == LOGGER_FORMAT_DATE@ + " "@ + LOGGER_FORMAT_TIME@,
{
    let mut format = String::from_str(LOGGER_FORMAT_DATE);
    format.append(" ");
    format.append(LOGGER_FORMAT_TIME);
    format
}

/// The text of the moment `nanos` nanoseconds after the start of 1970, in
/// universal time, written as `description` asks; nothing where the
/// description is not one, or the moment is out of the calendar's range.
pub uninterp spec fn timestamp_text(nanos: i128, description: Seq<char>) -> Option<Seq<char>>;

/// `time::OffsetDateTime::format`, on the moment that
/// `OffsetDateTime::from_unix_timestamp_nanos` makes of `nanos` and the
/// items that `format_description::parse_borrowed::<1>` reads in
/// `description`. The three are functions of their arguments alone, and the
/// moment is in universal time; what they give is not stated here, only
/// named.
#[verifier::external_body]
fn format_timestamp(nanos: i128, description: &str) -> (r: Option<String>)
    ensures
        match r {
            Some(s) => timestamp_text(nanos, description@) == Some(s@),
            None => timestamp_text(nanos, description@) is None,
        },
{
    let items = time::format_description::parse_borrowed::<1>(description).ok()?;
    let moment = time::OffsetDateTime::from_unix_timestamp_nanos(nanos).ok()?;
    moment.format(&items).ok()
}

/// How much a line of the log matters.
#[derive(Debug, Clone, Copy, PartialEq, Eq, Structural)]
pub enum Level {
    Info,
    Warn,
    Debug,
    Error,
}

/// The label of a level, five characters wide.
pub open spec fn level_label(level: Level) -> Seq<char> {
    match level {
        Level::Info => "INFO "@,
        Level::Warn => "WARN "@,
        Level::Debug => "DEBUG"@,
        Level::Error => "ERROR"@,
    }
}

/// A line of the log: the timestamp, the label, and the content between
/// single quotes.
pub open spec fn log_line(dt: Seq<char>, level: Level, content: Seq<char>) -> Seq<char> {
    dt + " "@ + level_label(level) + " '"@ + content + "'"@
}

pub struct Logger {}

impl Logger {
    /// The timestamp of a line, from the nanoseconds since the start of
    /// 1970.
    pub fn formatted_dt(nanos: i128) -> (r: Option<String>)
        ensures
            match r {
                Some(s) => timestamp_text(
                    nanos,
                    LOGGER_FORMAT_DATE@ + " "@ + LOGGER_FORMAT_TIME@,
                ) == Some(s@),
                None => timestamp_text(nanos, LOGGER_FORMAT_DATE@ + " "@ + LOGGER_FORMAT_TIME@)
                    is None,
            },
    {
        let dtf = logger_dt_format();
        format_timestamp(nanos, dtf.as_str())
    }

    /// A line of the log.
    pub fn line(dt: &str, level: Level, content: &str) -> (s: String)
        ensures
            s@ == log_line(dt@, level, content@),
    {
        let mut s = String::from_str(dt);
        s.append(" ");
        s.append(
            match level {
                Level::Info => "INFO ",
                Level::Warn => "WARN ",
                Level::Debug => "DEBUG",
                Level::Error => "ERROR",
            },
        );
        s.append(" '");
        s.append(content);
        s.append("'");
        s
    }

    /// The line for `content` at the moment `nanos`; nothing where the
    /// moment has no timestamp.
    pub fn entry(nanos: i128, level: Level, content: &str) -> (r: Option<String>)
        ensures
            match timestamp_text(nanos, LOGGER_FORMAT_DATE@ + " "@ + LOGGER_FORMAT_TIME@) {
                Some(dt) => r matches Some(s) && s@ == log_line(dt, level, content@),
                None => r is None,
            },
    {
        match Logger::formatted_dt(nanos) {
            Some(dt) => Some(Logger::line(dt.as_str(), level, content)),
            None => None,
        }
    }
}

} // verus!
