//! Human-readable rendering of times and of the aggregated record.

use vstd::prelude::*;
use vstd::string::StringExecFns;
use crate::text::{spec_num_string, spec_two_digits, num_to_string, push_char, two_digits_string};
use crate::time::{Time, TimeModel, spec_duration_text, spec_decimal_text};
use crate::time_tracking_data::{TimeTrackingData, TtdModel};
use crate::project_summary::SummaryModel;

verus! {

/// A time rendered as `H:MM`: the hour without padding, the minute
/// zero-padded to two digits.
pub open spec fn spec_format_time(t: TimeModel) -> Seq<char> {
    spec_num_string(t.hour) + seq![':'] + spec_two_digits(t.minute)
}

/// As `spec_format_time`, except that the alias hour 0 is rendered `00`.
pub open spec fn spec_format_time_option(t: TimeModel) -> Seq<char> {
    if t.hour == 0 {
        seq!['0', '0', ':'] + spec_two_digits(t.minute)
    } else {
        spec_format_time(t)
    }
}

/// Renders a time as `H:MM`.
pub fn format_time(time: &Time) -> (r: String)
    ensures
        r@ == spec_format_time(time@),
{
    let mut s = num_to_string(time.hour.get() as u64);
    push_char(&mut s, ':');
    let mm = two_digits_string(time.minute.get() as u64);
    s.append(mm.as_str());
    proof {
        assert(s@ =~= spec_format_time(time@));
    }
    s
}

/// Renders an optional time as `H:MM` (with hour 0 zero-padded), or the
/// fallback text when the time is absent.
pub fn format_time_option(time: Option<&Time>, fallback: &str) -> (r: String)
    ensures
        (match time {
            Some(t) => r@ == spec_format_time_option(t@),
            None => r@ == fallback@,
        }),
{
    match time {
        None => fallback.to_owned(),
        Some(t) => {
            if t.hour.get() == 0 {
                let mut s = String::from_str("00:");
                let mm = two_digits_string(t.minute.get() as u64);
                s.append(mm.as_str());
                proof {
                    reveal_strlit("00:");
                    assert(s@ =~= spec_format_time_option(t@));
                }
                s
            } else {
                format_time(t)
            }
        },
    }
}

/// The note lines of one project block: each note on its own `- note` line.
pub open spec fn spec_note_lines(notes: Seq<Seq<char>>) -> Seq<char>
    decreases notes.len(),
{
    if notes.len() == 0 {
        Seq::empty()
    } else {
        spec_note_lines(notes.drop_last()) + "- "@ + notes.last() + "\n"@
    }
}

/// One project block: the billing-code line followed by the note lines and
/// a blank line.
pub open spec fn spec_project_block(p: SummaryModel) -> Seq<char> {
    "Billing Code: "@ + p.name + " - "@ + spec_duration_text(p.total) + " ("@ + spec_decimal_text(
        p.total,
    ) + " hrs)\n"@ + spec_note_lines(p.notes) + "\n"@
}

/// The concatenated project blocks, in order.
pub open spec fn spec_project_blocks(ps: Seq<SummaryModel>) -> Seq<char>
    decreases ps.len(),
{
    if ps.len() == 0 {
        Seq::empty()
    } else {
        spec_project_blocks(ps.drop_last()) + spec_project_block(ps.last())
    }
}

/// The report's head: a start/end header when both are present, the two
/// totals lines, and a blank line.
pub open spec fn spec_report_head(d: TtdModel) -> Seq<char> {
    (match (d.start, d.end) {
        (Some(s), Some(e)) => "Start Time: "@ + spec_format_time(s) + " End Time: "@
            + spec_format_time(e) + "\n"@,
        _ => Seq::<char>::empty(),
    }) + "Total Working Time: "@ + spec_duration_text(d.total) + " ("@ + spec_decimal_text(d.total)
        + " hrs)\n"@ + "Total dead time: "@ + spec_duration_text(d.dead) + " ("@
        + spec_decimal_text(d.dead) + " hrs)\n"@ + "\n"@
}

/// The complete textual report: the head followed by one block per project.
pub open spec fn spec_sample_output(d: TtdModel) -> Seq<char> {
    spec_report_head(d) + spec_project_blocks(d.projects)
}

/// Renders the aggregated record as human-readable text.
pub fn generate_sample_output(data: &TimeTrackingData) -> (r: String)
    ensures
        r@ == spec_sample_output(data@),
{
    let mut out = String::new();
    match (&data.start_time, &data.end_time) {
        (Some(s), Some(e)) => {
            out.append("Start Time: ");
            let fs = format_time(s);
            out.append(fs.as_str());
            out.append(" End Time: ");
            let fe = format_time(e);
            out.append(fe.as_str());
            out.append("\n");
        },
        _ => {},
    }
    out.append("Total Working Time: ");
    let t1 = Time::format_duration_minutes(data.total_minutes);
    out.append(t1.as_str());
    out.append(" (");
    let t2 = Time::format_duration_decimal(data.total_minutes);
    out.append(t2.as_str());
    out.append(" hrs)\n");
    out.append("Total dead time: ");
    let t3 = Time::format_duration_minutes(data.dead_time_minutes);
    out.append(t3.as_str());
    out.append(" (");
    let t4 = Time::format_duration_decimal(data.dead_time_minutes);
    out.append(t4.as_str());
    out.append(" hrs)\n");
    out.append("\n");
    proof {
        assert(out@ =~= spec_report_head(data@));
    }
    let ghost prefix: Seq<char> = out@;
    let n = data.projects.len();
    let mut i: usize = 0;
    while i < n
        invariant
            0 <= i <= n == data.projects@.len(),
            out@ == prefix + spec_project_blocks(data@.projects.take(i as int)),
        decreases n - i,
    {
        let p = &data.projects[i];
        out.append("Billing Code: ");
        out.append(p.name.as_str());
        out.append(" - ");
        let d1 = Time::format_duration_minutes(p.total_minutes);
        out.append(d1.as_str());
        out.append(" (");
        let d2 = Time::format_duration_decimal(p.total_minutes);
        out.append(d2.as_str());
        out.append(" hrs)\n");
        let ghost block_head: Seq<char> = out@;
        let m = p.notes.len();
        let mut j: usize = 0;
        while j < m
            invariant
                0 <= j <= m == p.notes@.len(),
                out@ == block_head + spec_note_lines(p.notes.deep_view().take(j as int)),
            decreases m - j,
        {
            out.append("- ");
            out.append(p.notes[j].as_str());
            out.append("\n");
            proof {
                assert(p.notes.deep_view().take(j + 1 as int).drop_last() =~= p.notes.deep_view()
                    .take(j as int));
                assert(p.notes.deep_view().take(j + 1 as int).last() == p.notes.deep_view()[j as int]);
            }
            j += 1;
        }
        out.append("\n");
        proof {
            assert(p.notes.deep_view().take(m as int) =~= p.notes.deep_view());
            assert(data@.projects.take(i + 1 as int).drop_last() =~= data@.projects.take(i as int));
            assert(data@.projects.take(i + 1 as int).last() == data@.projects[i as int]);
            assert(out@ =~= prefix + spec_project_blocks(data@.projects.take(i + 1 as int)));
        }
        i += 1;
    }
    proof {
        assert(data@.projects.take(n as int) =~= data@.projects);
        assert(out@ =~= spec_sample_output(data@));
    }
    out
}

} // verus!
