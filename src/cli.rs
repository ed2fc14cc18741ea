//! The command-line request: what to do, which time format to use, and the
//! date-time text given to `set`.

use vstd::prelude::*;

verus! {

/// What the program is asked to do.
#[derive(Clone, Copy, Debug, PartialEq, Eq, Structural)]
pub enum Action {
    /// Print the current local time.
    Get,
    /// Set the local clock.
    SetTime,
    /// Estimate the local clock's offset from a set of time servers.
    CheckNtp,
}

/// The representation used to print or read a time.
#[derive(Clone, Copy, Debug, PartialEq, Eq, Structural)]
pub enum TimeStandard {
    /// A date-time with offset, as in RFC 3339.
    Rfc3339,
    /// The email-header date format of RFC 2822.
    Rfc2822,
    /// Whole seconds since 1 Jan 1970 UTC.
    Timestamp,
}

/// A parsed command line.
pub struct Cli {
    pub action: Action,
    pub standard: TimeStandard,
    pub datetime: Option<String>,
}

impl Cli {
    pub fn new(action: Action, standard: TimeStandard, datetime: Option<String>) -> (r: Cli)
        ensures
            r.action == action,
            r.standard == standard,
            r.datetime == datetime,
    {
        Cli { action, standard, datetime }
    }

    /// The requested action.
    pub fn get_action(&self) -> (r: &Action)
        ensures
            *r == self.action,
    {
        &self.action
    }

    /// The requested time standard.
    pub fn get_std(&self) -> (r: &TimeStandard)
        ensures
            *r == self.standard,
    {
        &self.standard
    }

    /// The date-time text, where one was given.
    pub fn get_datetime(&self) -> (r: Option<&str>)
        ensures
            r.is_some() == self.datetime.is_some(),
            r matches Some(s) ==> s@ == self.datetime->Some_0@,
    {
        match &self.datetime {
            Some(datetime) => Some(datetime.as_str()),
            None => None,
        }
    }
}

} // verus!
