//! One parsed tracking entry: a time range, a project label and notes.

use vstd::prelude::*;
use crate::time::{Time, TimeModel, spec_duration};

verus! {

/// The mathematical value of a `TimeEntry`.
#[verifier::ext_equal]
pub ghost struct EntryModel {
    pub start: TimeModel,
    pub end: TimeModel,
    pub project: Seq<char>,
    pub notes: Seq<Seq<char>>,
}

/// A time period with its project label and ordered notes.  An empty
/// `project` marks an entry whose line carried no label; such an entry still
/// counts toward the totals but joins no per-project summary.
#[derive(Debug, Clone)]
pub struct TimeEntry {
    pub start: Time,
    pub end: Time,
    pub project: String,
    pub notes: Vec<String>,
}

impl View for TimeEntry {
    type V = EntryModel;

    open spec fn view(&self) -> EntryModel {
        EntryModel {
            start: self.start@,
            end: self.end@,
            project: self.project@,
            notes: self.notes.deep_view(),
        }
    }
}

impl DeepView for TimeEntry {
    type V = EntryModel;

    open spec fn deep_view(&self) -> EntryModel {
        self.view()
    }
}

impl TimeEntry {
    /// Duration in minutes of the entry's own span.
    pub fn duration_minutes(&self) -> (r: u32)
        ensures
            r as int == spec_duration(self@.start, self@.end),
            r <= 719,
    {
        self.start.duration_minutes(&self.end) as u32
    }
}

} // verus!
