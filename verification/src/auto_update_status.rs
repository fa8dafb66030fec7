//! Where the background update check stands; the text form is shown in the
//! corner of the main screen.
use vstd::prelude::*;

use crate::text::push_str;

verus! {

/// Where the background update check stands.
#[derive(Debug, Clone, PartialEq, Eq)]
pub enum AutoUpdateStatus {
    /// A check is running.
    Checking,
    /// No check has run yet.
    NotChecked,
    /// The given version is current.
    UpToDate(String),
    /// A newer release exists.
    OutOfDate,
    /// The program updated itself to the given version.
    Updated(String),
    /// The check failed with the given message.
    Error(String),
}

/// Display text of an update status.
pub open spec fn spec_status_text(s: AutoUpdateStatus) -> Seq<char> {
    match s {
        AutoUpdateStatus::Checking => "Checking"@,
        AutoUpdateStatus::NotChecked => "Not Checked"@,
        AutoUpdateStatus::UpToDate(ver) => "Up to date: "@ + ver@,
        AutoUpdateStatus::OutOfDate => "Out of date"@,
        AutoUpdateStatus::Updated(ver) => "Updated: "@ + ver@,
        AutoUpdateStatus::Error(err) => "Error: "@ + err@,
    }
}

impl Default for AutoUpdateStatus {
    /// Before anything ran, nothing was checked.
    fn default() -> (r: Self)
        ensures
            r == AutoUpdateStatus::NotChecked,
    {
        AutoUpdateStatus::NotChecked
    }
}

impl AutoUpdateStatus {
    /// Display text of this status.
    pub fn to_text(&self) -> (r: String)
        ensures
            r@ == spec_status_text(*self),
    {
        match self {
            AutoUpdateStatus::Checking => "Checking".to_owned(),
            AutoUpdateStatus::NotChecked => "Not Checked".to_owned(),
            AutoUpdateStatus::UpToDate(ver) => {
                let mut s = "Up to date: ".to_owned();
                push_str(&mut s, ver.as_str());
                s
            },
            AutoUpdateStatus::OutOfDate => "Out of date".to_owned(),
            AutoUpdateStatus::Updated(ver) => {
                let mut s = "Updated: ".to_owned();
                push_str(&mut s, ver.as_str());
                s
            },
            AutoUpdateStatus::Error(err) => {
                let mut s = "Error: ".to_owned();
                push_str(&mut s, err.as_str());
                s
            },
        }
    }
}

} // verus!
