//! The aggregated record of one parsed log, and the validation passes that
//! append anomaly warnings to it.

use vstd::prelude::*;
use vstd::string::StringExecFns;
use crate::format::{format_time, spec_format_time};
use crate::project_summary::{ProjectSummary, SummaryModel};
use crate::text::{spec_num_string, num_to_string};
use crate::time::{Time, TimeModel, spec_duration, spec_chronological, spec_duration_text,
    spec_decimal_text};
use crate::time_entry::{TimeEntry, EntryModel};

verus! {

/// An entry whose own span exceeds this many minutes draws a warning, since
/// so long a sitting more likely means the input is out of order.
pub const LONG_ENTRY_WARNING_MINUTES: u32 = 480;

/// A gap between consecutive entries longer than this many minutes draws a
/// warning.
pub const LONG_GAP_WARNING_MINUTES: u32 = 360;

/// The mathematical value of a `TimeTrackingData`.
#[verifier::ext_equal]
pub ghost struct TtdModel {
    pub total: int,
    pub dead: int,
    pub projects: Seq<SummaryModel>,
    pub warnings: Seq<Seq<char>>,
    pub start: Option<TimeModel>,
    pub end: Option<TimeModel>,
}

/// The record of one parse: totals, name-sorted project summaries, warnings
/// in emission order, and the overall start and end time.
#[derive(Debug, Clone)]
pub struct TimeTrackingData {
    pub total_minutes: u32,
    pub dead_time_minutes: u32,
    pub projects: Vec<ProjectSummary>,
    pub warnings: Vec<String>,
    pub start_time: Option<Time>,
    pub end_time: Option<Time>,
}

impl View for TimeTrackingData {
    type V = TtdModel;

    open spec fn view(&self) -> TtdModel {
        TtdModel {
            total: self.total_minutes as int,
            dead: self.dead_time_minutes as int,
            projects: self.projects.deep_view(),
            warnings: self.warnings.deep_view(),
            start: self.start_time.deep_view(),
            end: self.end_time.deep_view(),
        }
    }
}

impl DeepView for TimeTrackingData {
    type V = TtdModel;

    open spec fn deep_view(&self) -> TtdModel {
        self.view()
    }
}

/// The record before anything has been parsed into it.
pub open spec fn spec_empty_data() -> TtdModel {
    TtdModel {
        total: 0,
        dead: 0,
        projects: Seq::empty(),
        warnings: Seq::empty(),
        start: None,
        end: None,
    }
}

/// Warning text for an entry whose own span exceeds the long-entry bound.
pub open spec fn spec_long_entry_warning(start: TimeModel, end: TimeModel) -> Seq<char> {
    "Time period "@ + spec_format_time(start) + "-"@ + spec_format_time(end)
        + " appears to be longer than "@ + spec_num_string(LONG_ENTRY_WARNING_MINUTES as int / 60)
        + " hours. Input may not be in correct order."@
}

/// Builds the long-entry warning text.
fn long_entry_warning_string(start: &Time, end: &Time) -> (r: String)
    ensures
        r@ == spec_long_entry_warning(start@, end@),
{
    let mut w = String::from_str("Time period ");
    let fs = format_time(start);
    w.append(fs.as_str());
    w.append("-");
    let fe = format_time(end);
    w.append(fe.as_str());
    w.append(" appears to be longer than ");
    let bound = num_to_string((LONG_ENTRY_WARNING_MINUTES / 60) as u64);
    w.append(bound.as_str());
    w.append(" hours. Input may not be in correct order.");
    proof {
        assert(w@ =~= spec_long_entry_warning(start@, end@));
    }
    w
}

/// Warning text for a gap between consecutive entries that exceeds the
/// long-gap bound.
pub open spec fn spec_long_gap_warning(prev_end: TimeModel, next_start: TimeModel) -> Seq<char> {
    "Gap from "@ + spec_format_time(prev_end) + " to "@ + spec_format_time(next_start)
        + " appears to be longer than "@ + spec_num_string(LONG_GAP_WARNING_MINUTES as int / 60)
        + " hours. Input may not be in correct order."@
}

/// Builds the long-gap warning text.
fn long_gap_warning_string(prev_end: &Time, next_start: &Time) -> (r: String)
    ensures
        r@ == spec_long_gap_warning(prev_end@, next_start@),
{
    let mut w = String::from_str("Gap from ");
    let fs = format_time(prev_end);
    w.append(fs.as_str());
    w.append(" to ");
    let fe = format_time(next_start);
    w.append(fe.as_str());
    w.append(" appears to be longer than ");
    let bound = num_to_string((LONG_GAP_WARNING_MINUTES / 60) as u64);
    w.append(bound.as_str());
    w.append(" hours. Input may not be in correct order.");
    proof {
        assert(w@ =~= spec_long_gap_warning(prev_end@, next_start@));
    }
    w
}

/// The long-entry warnings of an entry list, in entry order.
pub open spec fn spec_long_entry_warnings(entries: Seq<EntryModel>) -> Seq<Seq<char>>
    decreases entries.len(),
{
    if entries.len() == 0 {
        Seq::empty()
    } else {
        spec_long_entry_warnings(entries.drop_last()) + (if spec_duration(
            entries.last().start,
            entries.last().end,
        ) > LONG_ENTRY_WARNING_MINUTES as int {
            seq![spec_long_entry_warning(entries.last().start, entries.last().end)]
        } else {
            Seq::empty()
        })
    }
}

/// The long-gap warnings of an entry list, one for each consecutive pair in
/// input order whose forward gap exceeds the bound.
pub open spec fn spec_long_gap_warnings(entries: Seq<EntryModel>) -> Seq<Seq<char>>
    decreases entries.len(),
{
    if entries.len() < 2 {
        Seq::empty()
    } else {
        spec_long_gap_warnings(entries.drop_last()) + (if spec_chronological(
            entries[entries.len() - 2].end,
            entries.last().start,
        ) > LONG_GAP_WARNING_MINUTES as int {
            seq![spec_long_gap_warning(entries[entries.len() - 2].end, entries.last().start)]
        } else {
            Seq::empty()
        })
    }
}

/// All validation warnings of an entry list: the long-entry warnings, then
/// the long-gap warnings.
pub open spec fn spec_validation_warnings(entries: Seq<EntryModel>) -> Seq<Seq<char>> {
    spec_long_entry_warnings(entries) + spec_long_gap_warnings(entries)
}

/// The sum of the entries' own durations.
pub open spec fn spec_total_minutes(entries: Seq<EntryModel>) -> int
    decreases entries.len(),
{
    if entries.len() == 0 {
        0
    } else {
        spec_total_minutes(entries.drop_last()) + spec_duration(
            entries.last().start,
            entries.last().end,
        )
    }
}

/// The sum of the forward gaps between consecutive entries, with no bound
/// applied.  A gap is never negative, and equal times contribute nothing,
/// so this is the total idle time between entries.
pub open spec fn spec_dead_time_minutes(entries: Seq<EntryModel>) -> int
    decreases entries.len(),
{
    if entries.len() < 2 {
        0
    } else {
        spec_dead_time_minutes(entries.drop_last()) + spec_chronological(
            entries[entries.len() - 2].end,
            entries.last().start,
        )
    }
}

impl TimeTrackingData {
    /// A record holding nothing yet.
    pub fn new() -> (r: TimeTrackingData)
        ensures
            r@ == spec_empty_data(),
    {
        let r = TimeTrackingData {
            total_minutes: 0,
            dead_time_minutes: 0,
            projects: Vec::new(),
            warnings: Vec::new(),
            start_time: None,
            end_time: None,
        };
        proof {
            assert(r@ =~= spec_empty_data());
        }
        r
    }

    /// The overall start time as text, or `N/A` when nothing was parsed.
    pub fn formatted_start_time(&self) -> (r: String)
        ensures
            (match self@.start {
                Some(t) => r@ == spec_format_time(t),
                None => r@ == "N/A"@,
            }),
    {
        match &self.start_time {
            Some(t) => format_time(t),
            None => String::from_str("N/A"),
        }
    }

    /// The overall end time as text, or `N/A` when nothing was parsed.
    pub fn formatted_end_time(&self) -> (r: String)
        ensures
            (match self@.end {
                Some(t) => r@ == spec_format_time(t),
                None => r@ == "N/A"@,
            }),
    {
        match &self.end_time {
            Some(t) => format_time(t),
            None => String::from_str("N/A"),
        }
    }

    /// The total working time as `H:MM`.
    pub fn formatted_total_minutes(&self) -> (r: String)
        ensures
            r@ == spec_duration_text(self@.total),
    {
        Time::format_duration_minutes(self.total_minutes)
    }

    /// The total dead time as `H:MM`.
    pub fn formatted_dead_time_minutes(&self) -> (r: String)
        ensures
            r@ == spec_duration_text(self@.dead),
    {
        Time::format_duration_minutes(self.dead_time_minutes)
    }

    /// The total working time as decimal hours.
    pub fn formatted_total_decimal(&self) -> (r: String)
        ensures
            r@ == spec_decimal_text(self@.total),
    {
        Time::format_duration_decimal(self.total_minutes)
    }

    /// The total dead time as decimal hours.
    pub fn formatted_dead_decimal(&self) -> (r: String)
        ensures
            r@ == spec_decimal_text(self@.dead),
    {
        Time::format_duration_decimal(self.dead_time_minutes)
    }

    /// Runs both read-only validation passes over the entry list, appending
    /// their warnings; nothing else in the record changes.
    pub fn validate_entries(&mut self, entries: &[TimeEntry])
        ensures
            final (self)@ == (TtdModel {
                warnings: old(self)@.warnings + spec_validation_warnings(entries.deep_view()),
                ..old(self)@
            }),
    {
        self.validate_durations(entries);
        self.validate_dead_time(entries);
        proof {
            assert(old(self)@.warnings + spec_long_entry_warnings(entries.deep_view())
                + spec_long_gap_warnings(entries.deep_view()) =~= old(self)@.warnings
                + spec_validation_warnings(entries.deep_view()));
        }
    }

    /// Appends a warning for each entry whose own span exceeds the
    /// long-entry bound.
    #[verifier::rlimit(50)]
    fn validate_durations(&mut self, entries: &[TimeEntry])
        ensures
            final (self)@ == (TtdModel {
                warnings: old(self)@.warnings + spec_long_entry_warnings(entries.deep_view()),
                ..old(self)@
            }),
    {
        let n = entries.len();
        let mut i: usize = 0;
        while i < n
            invariant
                0 <= i <= n == entries@.len(),
                self@ == (TtdModel {
                    warnings: old(self)@.warnings + spec_long_entry_warnings(
                        entries.deep_view().take(i as int),
                    ),
                    ..old(self)@
                }),
            decreases n - i,
        {
            let entry = &entries[i];
            let duration = entry.duration_minutes();
            proof {
                assert(entry@ == entries.deep_view()[i as int]);
                assert(entries.deep_view().take(i + 1 as int).drop_last() =~= entries.deep_view()
                    .take(i as int));
                assert(entries.deep_view().take(i + 1 as int).last() == entries.deep_view()[i as int]);
            }
            if duration > LONG_ENTRY_WARNING_MINUTES {
                let w = long_entry_warning_string(&entry.start, &entry.end);
                let ghost pre = self.warnings.deep_view();
                self.warnings.push(w);
                proof {
                    assert(self.warnings.deep_view() =~= pre.push(w@));
                    assert(pre.push(w@) =~= old(self)@.warnings + spec_long_entry_warnings(
                        entries.deep_view().take(i + 1 as int),
                    ));
                }
            } else {
                proof {
                    assert(spec_long_entry_warnings(entries.deep_view().take(i + 1 as int))
                        =~= spec_long_entry_warnings(entries.deep_view().take(i as int)));
                    assert(self.warnings.deep_view() =~= old(self)@.warnings
                        + spec_long_entry_warnings(entries.deep_view().take(i + 1 as int)));
                }
            }
            i += 1;
        }
        proof {
            assert(entries.deep_view().take(n as int) =~= entries.deep_view());
        }
    }

    /// Appends a warning for each consecutive pair of entries whose forward
    /// gap exceeds the long-gap bound.
    #[verifier::rlimit(50)]
    fn validate_dead_time(&mut self, entries: &[TimeEntry])
        ensures
            final (self)@ == (TtdModel {
                warnings: old(self)@.warnings + spec_long_gap_warnings(entries.deep_view()),
                ..old(self)@
            }),
    {
        let n = entries.len();
        if n < 2 {
            return ;
        }
        let mut i: usize = 1;
        while i < n
            invariant
                1 <= i <= n == entries@.len(),
                self@ == (TtdModel {
                    warnings: old(self)@.warnings + spec_long_gap_warnings(
                        entries.deep_view().take(i as int),
                    ),
                    ..old(self)@
                }),
            decreases n - i,
        {
            let first = &entries[i - 1];
            let second = &entries[i];
            let gap = first.end.chronological_duration_minutes(&second.start);
            proof {
                assert(first@ == entries.deep_view()[i - 1 as int]);
                assert(second@ == entries.deep_view()[i as int]);
                assert(entries.deep_view().take(i + 1 as int).drop_last() =~= entries.deep_view()
                    .take(i as int));
                assert(entries.deep_view().take(i + 1 as int).last() == entries.deep_view()[i as int]);
                assert(entries.deep_view().take(i + 1 as int)[i - 1 as int] == entries.deep_view()[i
                    - 1 as int]);
            }
            if gap > LONG_GAP_WARNING_MINUTES as i32 {
                let w = long_gap_warning_string(&first.end, &second.start);
                let ghost pre = self.warnings.deep_view();
                self.warnings.push(w);
                proof {
                    assert(self.warnings.deep_view() =~= pre.push(w@));
                    assert(pre.push(w@) =~= old(self)@.warnings + spec_long_gap_warnings(
                        entries.deep_view().take(i + 1 as int),
                    ));
                }
            } else {
                proof {
                    assert(spec_long_gap_warnings(entries.deep_view().take(i + 1 as int))
                        =~= spec_long_gap_warnings(entries.deep_view().take(i as int)));
                    assert(self.warnings.deep_view() =~= old(self)@.warnings
                        + spec_long_gap_warnings(entries.deep_view().take(i + 1 as int)));
                }
            }
            i += 1;
        }
        proof {
            assert(entries.deep_view().take(n as int) =~= entries.deep_view());
        }
    }
}

impl Default for TimeTrackingData {
    /// The empty record; `TimeTrackingData::new` returns the same value.
    fn default() -> (r: TimeTrackingData)
        ensures
            r@ == spec_empty_data(),
    {
        TimeTrackingData::new()
    }
}

} // verus!
