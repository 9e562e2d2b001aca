//! The line classifier and entry parser: a single forward pass over the
//! input that locates the tracking block, builds the ordered entry list and
//! the parse warnings, and then derives totals, validation warnings,
//! per-project summaries and the overall time span.

use vstd::prelude::*;
use vstd::string::StringExecFns;
use crate::project_summary::{ProjectSummary, SummaryModel};
use crate::text::{
    spec_is_digit, spec_trim, spec_find_char, spec_starts_with, spec_split_lines, spec_lex_le,
    lemma_find_char_props, lemma_split_lines_count, lemma_char_vec_deep_view, trim_chars,
    sub_chars, find_char, starts_with_chars, chars_to_string, str_to_chars, str_then_chars,
    split_lines, lex_le, push_dv,
};
use crate::time::{Time, TimeModel, spec_duration, spec_from_strings};
use crate::time::hour::parse_hour_chars;
use crate::time::minute::parse_minute_chars;
use crate::time_entry::{TimeEntry, EntryModel};
use crate::time_tracking_data::{
    TimeTrackingData, TtdModel, spec_validation_warnings, spec_total_minutes,
    spec_dead_time_minutes,
};

verus! {

/// The view of an optional marker string.
pub open spec fn spec_opt_view(o: Option<Vec<char>>) -> Option<Seq<char>> {
    match o {
        Some(v) => Some(v@),
        None => None,
    }
}

/// The view of an optional marker argument.
pub open spec fn spec_opt_str_view(o: Option<&str>) -> Option<Seq<char>> {
    match o {
        Some(s) => Some(s@),
        None => None,
    }
}

/// Where a clock-time token (one or two digits, optionally `:` and two more
/// digits) that starts at `i` ends, or -1 when none starts there.
pub open spec fn spec_match_time_at(line: Seq<char>, i: int) -> int {
    if 0 <= i < line.len() && spec_is_digit(line[i]) {
        let j = if i + 1 < line.len() && spec_is_digit(line[i + 1]) {
            i + 2
        } else {
            i + 1
        };
        if j + 3 <= line.len() && line[j] == ':' && spec_is_digit(line[j + 1]) && spec_is_digit(
            line[j + 2],
        ) {
            j + 3
        } else {
            j
        }
    } else {
        -1
    }
}

/// Whether a line begins with a bare time range such as `7-8` or
/// `10:30-3:45`; such a line can begin the tracking block.
pub open spec fn spec_is_entry_pattern(line: Seq<char>) -> bool {
    let a = spec_match_time_at(line, 0);
    a >= 0 && a < line.len() && line[a] == '-' && spec_match_time_at(line, a + 1) >= 0
}

/// Whether a line begins the tracking block: it starts with the prefix
/// marker when one was supplied, and otherwise with a bare time range.
pub open spec fn spec_is_start_line(line: Seq<char>, prefix: Option<Seq<char>>) -> bool {
    match prefix {
        Some(p) => spec_starts_with(line, p),
        None => spec_is_entry_pattern(line),
    }
}

/// Whether a line continues the tracking block once it has started.  With a
/// suffix marker, every line before the marker continues.  Without one, a
/// line continues when it begins with a digit or a note marker; the first
/// line that does not is the start of the document's footer.
pub open spec fn spec_continues(line: Seq<char>, suffix: Option<Seq<char>>) -> bool {
    match suffix {
        Some(p) => !spec_starts_with(line, p),
        None => line.len() > 0 && (spec_is_digit(line[0]) || line[0] == '-' || line[0] == '*'),
    }
}

fn match_time_at(line: &Vec<char>, i: usize) -> (r: Option<usize>)
    requires
        i <= line@.len(),
    ensures
        (match r {
            Some(j) => spec_match_time_at(line@, i as int) == j as int && i < j <= line@.len(),
            None => spec_match_time_at(line@, i as int) == -1,
        }),
{
    let n = line.len();
    if i < n && '0' <= line[i] && line[i] <= '9' {
        let j = if i + 1 < n && '0' <= line[i + 1] && line[i + 1] <= '9' {
            i + 2
        } else {
            i + 1
        };
        if j < n && n - j >= 3 && line[j] == ':' && '0' <= line[j + 1] && line[j + 1] <= '9'
            && '0' <= line[j + 2] && line[j + 2] <= '9' {
            Some(j + 3)
        } else {
            Some(j)
        }
    } else {
        None
    }
}

fn is_entry_pattern(line: &Vec<char>) -> (r: bool)
    ensures
        r == spec_is_entry_pattern(line@),
{
    match match_time_at(line, 0) {
        None => false,
        Some(a) => {
            if a < line.len() && line[a] == '-' {
                match match_time_at(line, a + 1) {
                    Some(_) => true,
                    None => false,
                }
            } else {
                false
            }
        },
    }
}

/// Decides whether a line begins the tracking block.
fn is_time_tracking_line(line: &Vec<char>, prefix: &Option<Vec<char>>) -> (r: bool)
    ensures
        r == spec_is_start_line(line@, spec_opt_view(*prefix)),
{
    match prefix {
        Some(p) => starts_with_chars(line, p),
        None => is_entry_pattern(line),
    }
}

/// Decides whether parsing continues at this line.
fn should_continue_parsing(line: &Vec<char>, suffix: &Option<Vec<char>>) -> (r: bool)
    ensures
        r == spec_continues(line@, spec_opt_view(*suffix)),
{
    match suffix {
        Some(p) => !starts_with_chars(line, p),
        None => {
            if line.len() == 0 {
                false
            } else {
                let c = line[0];
                ('0' <= c && c <= '9') || c == '-' || c == '*'
            }
        },
    }
}

/// The result of reading a time token such as `7:30` or `7`: the text
/// before the first `:` is the hour, the text between the first and second
/// `:` (or the end) is the minute, and an absent minute defaults to `00`.
pub open spec fn spec_parse_time(s: Seq<char>) -> Result<TimeModel, Seq<char>> {
    let i = spec_find_char(s, ':');
    if i == -1 {
        spec_from_strings(s, seq!['0', '0'])
    } else {
        let rest = s.skip(i + 1);
        let j = spec_find_char(rest, ':');
        spec_from_strings(s.take(i), if j == -1 {
            rest
        } else {
            rest.take(j)
        })
    }
}

/// The result of reading a time-range token such as `7:30-8`: the text is
/// split at its first `-`, and each side, trimmed, is read as a time.
pub open spec fn spec_parse_time_range(tok: Seq<char>) -> Result<(TimeModel, TimeModel), Seq<
    char,
>> {
    let i = spec_find_char(tok, '-');
    if i == -1 {
        Err("Invalid time range format: "@ + tok)
    } else {
        match spec_parse_time(spec_trim(tok.take(i))) {
            Err(e) => Err(e),
            Ok(s) => match spec_parse_time(spec_trim(tok.skip(i + 1))) {
                Err(e) => Err(e),
                Ok(t) => Ok((s, t)),
            },
        }
    }
}

fn parse_time_tokens(hour_tok: &Vec<char>, minute_tok: &Vec<char>) -> (r: Result<Time, String>)
    ensures
        (match r {
            Ok(t) => spec_from_strings(hour_tok@, minute_tok@) == Ok::<TimeModel, Seq<char>>(t@),
            Err(e) => spec_from_strings(hour_tok@, minute_tok@) == Err::<TimeModel, Seq<char>>(e@),
        }),
{
    let h = match parse_hour_chars(hour_tok) {
        Ok(h) => h,
        Err(e) => {
            return Err(e);
        },
    };
    let m = match parse_minute_chars(minute_tok) {
        Ok(m) => m,
        Err(e) => {
            return Err(e);
        },
    };
    Ok(Time { hour: h, minute: m })
}

/// Reads a time token like `7:30` or `7`.
fn parse_time(tok: &Vec<char>) -> (r: Result<Time, String>)
    ensures
        (match r {
            Ok(t) => spec_parse_time(tok@) == Ok::<TimeModel, Seq<char>>(t@),
            Err(e) => spec_parse_time(tok@) == Err::<TimeModel, Seq<char>>(e@),
        }),
{
    match find_char(tok, ':') {
        None => {
            let mut minute_tok: Vec<char> = Vec::new();
            minute_tok.push('0');
            minute_tok.push('0');
            proof {
                assert(minute_tok@ =~= seq!['0', '0']);
            }
            parse_time_tokens(tok, &minute_tok)
        },
        Some(i) => {
            let n = tok.len();
            proof {
                lemma_find_char_props(tok@, ':');
                assert((i as int) < (n as int));
            }
            let hour_tok = sub_chars(tok, 0, i);
            let rest = sub_chars(tok, i + 1, n);
            proof {
                assert(hour_tok@ =~= tok@.take(i as int));
                assert(rest@ =~= tok@.skip(i + 1 as int));
            }
            match find_char(&rest, ':') {
                None => parse_time_tokens(&hour_tok, &rest),
                Some(j) => {
                    proof {
                        lemma_find_char_props(rest@, ':');
                    }
                    let minute_tok = sub_chars(&rest, 0, j);
                    proof {
                        assert(minute_tok@ =~= rest@.take(j as int));
                    }
                    parse_time_tokens(&hour_tok, &minute_tok)
                },
            }
        },
    }
}

/// Reads a time-range token like `7:30-8`.
fn parse_time_range(tok: &Vec<char>) -> (r: Result<(Time, Time), String>)
    ensures
        (match r {
            Ok(t) => spec_parse_time_range(tok@) == Ok::<(TimeModel, TimeModel), Seq<char>>(
                (t.0@, t.1@),
            ),
            Err(e) => spec_parse_time_range(tok@) == Err::<(TimeModel, TimeModel), Seq<char>>(e@),
        }),
{
    match find_char(tok, '-') {
        None => Err(str_then_chars("Invalid time range format: ", tok)),
        Some(i) => {
            let n = tok.len();
            proof {
                lemma_find_char_props(tok@, '-');
                assert((i as int) < (n as int));
            }
            let left_raw = sub_chars(tok, 0, i);
            let right_raw = sub_chars(tok, i + 1, n);
            proof {
                assert(left_raw@ =~= tok@.take(i as int));
                assert(right_raw@ =~= tok@.skip(i + 1 as int));
            }
            let left = trim_chars(&left_raw);
            let right = trim_chars(&right_raw);
            let s = match parse_time(&left) {
                Ok(t) => t,
                Err(e) => {
                    return Err(e);
                },
            };
            let t = match parse_time(&right) {
                Ok(t) => t,
                Err(e) => {
                    return Err(e);
                },
            };
            Ok((s, t))
        },
    }
}

/// The text of a note line: one leading `-` or `*` marker is removed
/// (whichever matches, at most one), and the rest is trimmed.
pub open spec fn spec_note_text(line: Seq<char>) -> Seq<char> {
    if line.len() > 0 && (line[0] == '-' || line[0] == '*') {
        spec_trim(line.drop_first())
    } else {
        spec_trim(line)
    }
}

fn note_text(line: &Vec<char>) -> (r: Vec<char>)
    ensures
        r@ == spec_note_text(line@),
{
    if line.len() > 0 && (line[0] == '-' || line[0] == '*') {
        let rest = sub_chars(line, 1, line.len());
        proof {
            assert(rest@ =~= line@.drop_first());
        }
        trim_chars(&rest)
    } else {
        trim_chars(line)
    }
}

/// Warning text for an entry line that carries no project label.
pub open spec fn spec_missing_project_warning(line: Seq<char>) -> Seq<char> {
    "Line missing project name: "@ + line
}

fn missing_project_warning(line: &Vec<char>) -> (r: String)
    ensures
        r@ == spec_missing_project_warning(line@),
{
    str_then_chars("Line missing project name: ", line)
}

/// Warning text for a time-range token that could not be read.
pub open spec fn spec_range_error_warning(tok: Seq<char>, msg: Seq<char>) -> Seq<char> {
    "Error parsing time range '"@ + tok + "': "@ + msg
}

fn range_error_warning(tok: &Vec<char>, msg: &String) -> (r: String)
    ensures
        r@ == spec_range_error_warning(tok@, msg@),
{
    let mut w = String::from_str("Error parsing time range '");
    let t = chars_to_string(tok);
    w.append(t.as_str());
    w.append("': ");
    w.append(msg.as_str());
    proof {
        assert(w@ =~= spec_range_error_warning(tok@, msg@));
    }
    w
}

/// The state of the line scan: whether the tracking block has started and
/// ended, the entry still open, and the finished entries and warnings.
#[verifier::ext_equal]
pub ghost struct ScanState {
    pub started: bool,
    pub done: bool,
    pub cur: Option<EntryModel>,
    pub entries: Seq<EntryModel>,
    pub warnings: Seq<Seq<char>>,
}

/// The scan state before any line has been read.
pub open spec fn spec_scan_init() -> ScanState {
    ScanState {
        started: false,
        done: false,
        cur: None,
        entries: Seq::empty(),
        warnings: Seq::empty(),
    }
}

/// Finalizes the open entry, if any, onto the entry list.
pub open spec fn spec_close_entry(st: ScanState) -> ScanState {
    match st.cur {
        Some(e) => ScanState { cur: None, entries: st.entries.push(e), ..st },
        None => st,
    }
}

/// One entry line: the open entry is finalized; the line is split at its
/// first space into a time-range token and a label.  A line without a label
/// draws a warning and, when its range still parses, opens an entry with an
/// empty project.  A range that does not parse draws a warning and opens no
/// entry.
pub open spec fn spec_entry_line_step(st: ScanState, line: Seq<char>) -> ScanState {
    let st1 = spec_close_entry(st);
    let i = spec_find_char(line, ' ');
    if i == -1 {
        let st2 = ScanState {
            warnings: st1.warnings.push(spec_missing_project_warning(line)),
            ..st1
        };
        match spec_parse_time_range(line) {
            Ok(se) => ScanState {
                cur: Some(
                    EntryModel {
                        start: se.0,
                        end: se.1,
                        project: Seq::empty(),
                        notes: Seq::empty(),
                    },
                ),
                ..st2
            },
            Err(m) => ScanState {
                warnings: st2.warnings.push(spec_range_error_warning(line, m)),
                ..st2
            },
        }
    } else {
        let tok = line.take(i);
        let proj = spec_trim(line.skip(i + 1));
        match spec_parse_time_range(tok) {
            Ok(se) => ScanState {
                cur: Some(
                    EntryModel { start: se.0, end: se.1, project: proj, notes: Seq::empty() },
                ),
                ..st1
            },
            Err(m) => ScanState {
                warnings: st1.warnings.push(spec_range_error_warning(tok, m)),
                ..st1
            },
        }
    }
}

/// One note line: appended to the open entry's notes; with no open entry
/// the note is discarded.
pub open spec fn spec_note_line_step(st: ScanState, line: Seq<char>) -> ScanState {
    match st.cur {
        Some(e) => ScanState {
            cur: Some(EntryModel { notes: e.notes.push(spec_note_text(line)), ..e }),
            ..st
        },
        None => st,
    }
}

/// One trimmed, non-blank line once the block has started: stop at a line
/// that does not continue the block, read an entry from a line that begins
/// with a digit, and otherwise take the line as a note.
pub open spec fn spec_body_step(st: ScanState, line: Seq<char>, suffix: Option<Seq<char>>) -> ScanState {
    if !spec_continues(line, suffix) {
        ScanState { done: true, ..st }
    } else if spec_is_digit(line[0]) {
        spec_entry_line_step(st, line)
    } else {
        spec_note_line_step(st, line)
    }
}

/// One raw input line: blank lines are skipped; before the block starts,
/// lines are skipped up to the start line (a prefix marker line is itself
/// skipped); after the stop condition everything is ignored.
pub open spec fn spec_scan_step(
    st: ScanState,
    raw_line: Seq<char>,
    prefix: Option<Seq<char>>,
    suffix: Option<Seq<char>>,
) -> ScanState {
    if st.done {
        st
    } else {
        let line = spec_trim(raw_line);
        if line.len() == 0 {
            st
        } else if !st.started {
            if spec_is_start_line(line, prefix) {
                let st1 = ScanState { started: true, ..st };
                if prefix is Some {
                    st1
                } else {
                    spec_body_step(st1, line, suffix)
                }
            } else {
                st
            }
        } else {
            spec_body_step(st, line, suffix)
        }
    }
}

/// The scan state after reading the given lines, starting from `st`.
pub open spec fn spec_scan_from(
    st: ScanState,
    lines: Seq<Seq<char>>,
    prefix: Option<Seq<char>>,
    suffix: Option<Seq<char>>,
) -> ScanState
    decreases lines.len(),
{
    if lines.len() == 0 {
        st
    } else {
        spec_scan_step(spec_scan_from(st, lines.drop_last(), prefix, suffix), lines.last(), prefix, suffix)
    }
}

/// The scan state after reading the given lines from the initial state.
pub open spec fn spec_scan(
    lines: Seq<Seq<char>>,
    prefix: Option<Seq<char>>,
    suffix: Option<Seq<char>>,
) -> ScanState {
    spec_scan_from(spec_scan_init(), lines, prefix, suffix)
}

/// The final entry list of a scan: the finished entries, then the entry
/// still open at the end of input, if any.
pub open spec fn spec_scan_entries(st: ScanState) -> Seq<EntryModel> {
    st.entries + (match st.cur {
        Some(e) => seq![e],
        None => Seq::<EntryModel>::empty(),
    })
}

/// Reading a concatenation of line lists reads the first, then the second.
pub proof fn lemma_scan_from_concat(
    st: ScanState,
    a: Seq<Seq<char>>,
    b: Seq<Seq<char>>,
    prefix: Option<Seq<char>>,
    suffix: Option<Seq<char>>,
)
    ensures
        spec_scan_from(st, a + b, prefix, suffix) == spec_scan_from(
            spec_scan_from(st, a, prefix, suffix),
            b,
            prefix,
            suffix,
        ),
    decreases b.len(),
{
    if b.len() == 0 {
        assert(a + b =~= a);
    } else {
        lemma_scan_from_concat(st, a, b.drop_last(), prefix, suffix);
        assert((a + b).drop_last() =~= a + b.drop_last());
        assert((a + b).last() == b.last());
    }
}

/// Once the scan is done, further lines change nothing.
pub proof fn lemma_scan_done(
    st: ScanState,
    lines: Seq<Seq<char>>,
    prefix: Option<Seq<char>>,
    suffix: Option<Seq<char>>,
)
    requires
        st.done,
    ensures
        spec_scan_from(st, lines, prefix, suffix) == st,
    decreases lines.len(),
{
    if lines.len() > 0 {
        lemma_scan_done(st, lines.drop_last(), prefix, suffix);
    }
}

/// How many entries an optional open entry stands for.
pub open spec fn spec_open_count(cur: Option<TimeEntry>) -> int {
    match cur {
        Some(_) => 1,
        None => 0,
    }
}

/// Handles one trimmed, non-blank line inside the tracking block, updating
/// the scan state as `spec_body_step` describes.
fn scan_body_line(
    line: &Vec<char>,
    suffix: &Option<Vec<char>>,
    stopped: &mut bool,
    cur: &mut Option<TimeEntry>,
    entries: &mut Vec<TimeEntry>,
    warnings: &mut Vec<String>,
)
    requires
        line@.len() > 0,
    ensures
        ({
            let st0 = ScanState {
                started: true,
                done: *old(stopped),
                cur: old(cur).deep_view(),
                entries: old(entries).deep_view(),
                warnings: old(warnings).deep_view(),
            };
            let st1 = spec_body_step(st0, line@, spec_opt_view(*suffix));
            &&& *final (stopped) == st1.done
            &&& final (cur).deep_view() == st1.cur
            &&& final (entries).deep_view() == st1.entries
            &&& final (warnings).deep_view() == st1.warnings
            &&& final (entries)@.len() + spec_open_count(*final (cur)) <= old(entries)@.len()
                + spec_open_count(*old(cur)) + 1
        }),
{
    let ghost st0 = ScanState {
        started: true,
        done: *stopped,
        cur: cur.deep_view(),
        entries: entries.deep_view(),
        warnings: warnings.deep_view(),
    };
    let ghost st1 = spec_body_step(st0, line@, spec_opt_view(*suffix));
    if !should_continue_parsing(line, suffix) {
        *stopped = true;
        return ;
    }
    let c0 = line[0];
    if '0' <= c0 && c0 <= '9' {
        let mut prev: Option<TimeEntry> = None;
        core::mem::swap(cur, &mut prev);
        match prev {
            Some(e) => {
                push_dv(entries, e);
            },
            None => {},
        }
        match find_char(line, ' ') {
            None => {
                let w = missing_project_warning(line);
                push_dv(warnings, w);
                match parse_time_range(line) {
                    Ok(se) => {
                        let e = TimeEntry {
                            start: se.0,
                            end: se.1,
                            project: String::new(),
                            notes: Vec::new(),
                        };
                        proof {
                            assert(e@.project =~= Seq::<char>::empty());
                            assert(e@.notes =~= Seq::<Seq<char>>::empty());
                        }
                        *cur = Some(e);
                    },
                    Err(m) => {
                        let w2 = range_error_warning(line, &m);
                        push_dv(warnings, w2);
                        *cur = None;
                    },
                }
            },
            Some(sp) => {
                let n = line.len();
                proof {
                    lemma_find_char_props(line@, ' ');
                    assert((sp as int) < (n as int));
                }
                let tok = sub_chars(line, 0, sp);
                let proj_raw = sub_chars(line, sp + 1, n);
                let proj = trim_chars(&proj_raw);
                proof {
                    assert(tok@ =~= line@.take(sp as int));
                    assert(proj_raw@ =~= line@.skip(sp + 1 as int));
                }
                match parse_time_range(&tok) {
                    Ok(se) => {
                        let e = TimeEntry {
                            start: se.0,
                            end: se.1,
                            project: chars_to_string(&proj),
                            notes: Vec::new(),
                        };
                        proof {
                            assert(e@.notes =~= Seq::<Seq<char>>::empty());
                        }
                        *cur = Some(e);
                    },
                    Err(m) => {
                        let w2 = range_error_warning(&tok, &m);
                        push_dv(warnings, w2);
                        *cur = None;
                    },
                }
            },
        }
        proof {
            assert(cur.deep_view() =~= st1.cur);
            assert(entries.deep_view() =~= st1.entries);
            assert(warnings.deep_view() =~= st1.warnings);
        }
    } else {
        let mut prev: Option<TimeEntry> = None;
        core::mem::swap(cur, &mut prev);
        match prev {
            Some(e) => {
                let mut e = e;
                let txt = note_text(line);
                let s = chars_to_string(&txt);
                push_dv(&mut e.notes, s);
                *cur = Some(e);
            },
            None => {},
        }
        proof {
            assert(cur.deep_view() =~= st1.cur);
            assert(entries.deep_view() =~= st1.entries);
            assert(warnings.deep_view() =~= st1.warnings);
        }
    }
}

/// Runs the line scan over the split input: the ordered entry list and the
/// parse warnings of the tracking block.
fn scan_lines(
    lines: &Vec<Vec<char>>,
    prefix: &Option<Vec<char>>,
    suffix: &Option<Vec<char>>,
) -> (r: (Vec<TimeEntry>, Vec<String>))
    ensures
        ({
            let sc = spec_scan(lines.deep_view(), spec_opt_view(*prefix), spec_opt_view(*suffix));
            &&& r.0.deep_view() == spec_scan_entries(sc)
            &&& r.1.deep_view() == sc.warnings
            &&& r.0@.len() <= lines@.len()
        }),
{
    broadcast use lemma_char_vec_deep_view;

    let ghost p = spec_opt_view(*prefix);
    let ghost s = spec_opt_view(*suffix);
    let ghost ldv = lines.deep_view();
    let mut started: bool = false;
    let mut stopped: bool = false;
    let mut cur: Option<TimeEntry> = None;
    let mut entries: Vec<TimeEntry> = Vec::new();
    let mut warnings: Vec<String> = Vec::new();
    let n = lines.len();
    let mut i: usize = 0;
    proof {
        assert(ldv.take(0) =~= Seq::<Seq<char>>::empty());
        assert(entries.deep_view() =~= Seq::<EntryModel>::empty());
        assert(warnings.deep_view() =~= Seq::<Seq<char>>::empty());
    }
    while i < n && !stopped
        invariant
            0 <= i <= n == lines@.len(),
            ldv == lines.deep_view(),
            p == spec_opt_view(*prefix),
            s == spec_opt_view(*suffix),
            ({
                let sc = spec_scan_from(spec_scan_init(), ldv.take(i as int), p, s);
                &&& started == sc.started
                &&& stopped == sc.done
                &&& cur.deep_view() == sc.cur
                &&& entries.deep_view() == sc.entries
                &&& warnings.deep_view() == sc.warnings
            }),
            entries@.len() + spec_open_count(cur) <= i,
        decreases n - i,
    {
        let ghost sc = spec_scan_from(spec_scan_init(), ldv.take(i as int), p, s);
        proof {
            assert(ldv.take(i + 1 as int).drop_last() =~= ldv.take(i as int));
            assert(ldv.take(i + 1 as int).last() == ldv[i as int]);
        }
        let ghost sc1 = spec_scan_step(sc, ldv[i as int], p, s);
        proof {
            assert(spec_scan_from(spec_scan_init(), ldv.take(i + 1 as int), p, s) == sc1);
            assert(lines@[i as int].deep_view() == lines@[i as int]@);
            assert(ldv[i as int] == lines@[i as int]@);
        }
        let line = trim_chars(&lines[i]);
        if line.len() == 0 {
            proof {
                assert(sc1 =~= sc);
            }
        } else if !started {
            if is_time_tracking_line(&line, prefix) {
                started = true;
                if prefix.is_some() {
                    proof {
                        assert(sc1 =~= (ScanState { started: true, ..sc }));
                    }
                } else {
                    scan_body_line(&line, suffix, &mut stopped, &mut cur, &mut entries,
                        &mut warnings);
                }
            } else {
                proof {
                    assert(sc1 =~= sc);
                }
            }
        } else {
            scan_body_line(&line, suffix, &mut stopped, &mut cur, &mut entries, &mut warnings);
        }
        i += 1;
    }
    let ghost sc_end = spec_scan_from(spec_scan_init(), ldv.take(i as int), p, s);
    proof {
        if stopped {
            lemma_scan_from_concat(spec_scan_init(), ldv.take(i as int), ldv.skip(i as int), p, s);
            assert(ldv.take(i as int) + ldv.skip(i as int) =~= ldv);
            lemma_scan_done(sc_end, ldv.skip(i as int), p, s);
            assert(spec_scan(ldv, p, s) == sc_end);
        } else {
            assert(ldv.take(i as int) =~= ldv);
        }
    }
    let mut prev: Option<TimeEntry> = None;
    core::mem::swap(&mut cur, &mut prev);
    match prev {
        Some(e) => {
            push_dv(&mut entries, e);
        },
        None => {},
    }
    proof {
        assert(entries.deep_view() =~= spec_scan_entries(spec_scan(ldv, p, s)));
    }
    (entries, warnings)
}

/// Index of the first summary with the given name, or -1 when none has it.
pub open spec fn spec_find_summary(ps: Seq<SummaryModel>, name: Seq<char>) -> int
    decreases ps.len(),
{
    if ps.len() == 0 {
        -1
    } else if ps[0].name == name {
        0
    } else {
        let r = spec_find_summary(ps.drop_first(), name);
        if r == -1 {
            -1
        } else {
            r + 1
        }
    }
}

proof fn lemma_find_summary_at(ps: Seq<SummaryModel>, name: Seq<char>, j: int)
    requires
        0 <= j < ps.len(),
        ps[j].name == name,
        forall|i: int| 0 <= i < j ==> ps[i].name != name,
    ensures
        spec_find_summary(ps, name) == j,
    decreases ps.len(),
{
    if j > 0 {
        assert(ps[0].name != name);
        lemma_find_summary_at(ps.drop_first(), name, j - 1);
    }
}

proof fn lemma_find_summary_none(ps: Seq<SummaryModel>, name: Seq<char>)
    requires
        forall|i: int| 0 <= i < ps.len() ==> ps[i].name != name,
    ensures
        spec_find_summary(ps, name) == -1,
    decreases ps.len(),
{
    if ps.len() > 0 {
        lemma_find_summary_none(ps.drop_first(), name);
    }
}

/// The per-project summaries of an entry list, one per distinct non-empty
/// project label in order of first occurrence: an entry's duration and
/// notes are folded into its label's summary, and entries with an empty
/// label join no summary.
pub open spec fn spec_aggregate(entries: Seq<EntryModel>) -> Seq<SummaryModel>
    decreases entries.len(),
{
    if entries.len() == 0 {
        Seq::empty()
    } else {
        let pre = spec_aggregate(entries.drop_last());
        let e = entries.last();
        if e.project.len() == 0 {
            pre
        } else {
            let i = spec_find_summary(pre, e.project);
            if i == -1 {
                pre.push(
                    SummaryModel {
                        name: e.project,
                        total: spec_duration(e.start, e.end),
                        notes: e.notes,
                    },
                )
            } else {
                pre.update(
                    i,
                    SummaryModel {
                        name: pre[i].name,
                        total: pre[i].total + spec_duration(e.start, e.end),
                        notes: pre[i].notes + e.notes,
                    },
                )
            }
        }
    }
}

fn find_summary(ps: &Vec<ProjectSummary>, name: &String) -> (r: Option<usize>)
    ensures
        (match r {
            Some(k) => spec_find_summary(ps.deep_view(), name@) == k as int && k < ps@.len(),
            None => spec_find_summary(ps.deep_view(), name@) == -1,
        }),
{
    let n = ps.len();
    let mut k: usize = 0;
    while k < n
        invariant
            0 <= k <= n == ps@.len(),
            forall|j: int| 0 <= j < k ==> ps.deep_view()[j].name != name@,
        decreases n - k,
    {
        if ps[k].name == *name {
            proof {
                lemma_find_summary_at(ps.deep_view(), name@, k as int);
            }
            return Some(k);
        }
        k += 1;
    }
    proof {
        lemma_find_summary_none(ps.deep_view(), name@);
    }
    None
}

/// Folds the entry list into per-project summaries, in order of first
/// occurrence of each label.
fn aggregate_entries(entries: &Vec<TimeEntry>) -> (r: Vec<ProjectSummary>)
    requires
        entries@.len() <= 4000001,
    ensures
        r.deep_view() == spec_aggregate(entries.deep_view()),
{
    let ghost edv = entries.deep_view();
    let mut agg: Vec<ProjectSummary> = Vec::new();
    let n = entries.len();
    let mut i: usize = 0;
    proof {
        assert(edv.take(0) =~= Seq::<EntryModel>::empty());
        assert(agg.deep_view() =~= Seq::<SummaryModel>::empty());
    }
    while i < n
        invariant
            0 <= i <= n == entries@.len() <= 4000001,
            edv == entries.deep_view(),
            agg.deep_view() == spec_aggregate(edv.take(i as int)),
            forall|k: int|
                0 <= k < agg@.len() ==> 0 <= #[trigger] agg.deep_view()[k].total <= 719 * (
                i as int),
        decreases n - i,
    {
        let entry = &entries[i];
        proof {
            assert(entry@ == edv[i as int]);
            assert(edv.take(i + 1 as int).drop_last() =~= edv.take(i as int));
            assert(edv.take(i + 1 as int).last() == edv[i as int]);
        }
        if entry.project.as_str().is_empty() {
        } else {
            let d = entry.duration_minutes();
            match find_summary(&agg, &entry.project) {
                Some(k) => {
                    let ghost pre_dv = agg.deep_view();
                    let ghost pre_v = agg@;
                    let mut s = agg.remove(k);
                    proof {
                        assert(s@ == pre_dv[k as int]);
                        assert(s@.total <= 719 * (i as int));
                        assert(719 * (i as int) + 719 <= u32::MAX) by (nonlinear_arith)
                            requires
                                0 <= i as int <= 4000001,
                        ;
                    }
                    s.add_time(d);
                    s.add_notes(entry.notes.clone());
                    let ghost sm = s@;
                    agg.insert(k, s);
                    proof {
                        assert(sm == (SummaryModel {
                            name: pre_dv[k as int].name,
                            total: pre_dv[k as int].total + d,
                            notes: pre_dv[k as int].notes + entry@.notes,
                        }));
                        assert forall|j: int| 0 <= j < pre_dv.len() && j != k implies agg@[j]
                            == pre_v[j] by {
                            if j < k {
                                assert(agg@[j] == pre_v.remove(k as int).insert(k as int, s)[j]);
                            }
                        }
                        assert(agg.deep_view() =~= pre_dv.update(k as int, sm));
                        assert(agg.deep_view() =~= spec_aggregate(edv.take(i + 1 as int)));
                    }
                },
                None => {
                    let mut s = ProjectSummary::new(entry.project.clone());
                    s.add_time(d);
                    s.add_notes(entry.notes.clone());
                    let ghost sm = s@;
                    let ghost pre_dv = agg.deep_view();
                    push_dv(&mut agg, s);
                    proof {
                        assert(sm == (SummaryModel {
                            name: entry@.project,
                            total: spec_duration(entry@.start, entry@.end),
                            notes: Seq::<Seq<char>>::empty() + entry@.notes,
                        }));
                        assert(Seq::<Seq<char>>::empty() + entry@.notes =~= entry@.notes);
                        assert(agg.deep_view() =~= spec_aggregate(edv.take(i + 1 as int)));
                    }
                },
            }
        }
        i += 1;
    }
    proof {
        assert(edv.take(n as int) =~= edv);
    }
    agg
}

/// Where a summary belongs in a name-sorted list: after every summary whose
/// name is not greater, before the rest.
pub open spec fn spec_insert_sorted(x: SummaryModel, ps: Seq<SummaryModel>) -> Seq<SummaryModel>
    decreases ps.len(),
{
    if ps.len() == 0 {
        seq![x]
    } else if spec_lex_le(ps[0].name, x.name) {
        seq![ps[0]] + spec_insert_sorted(x, ps.drop_first())
    } else {
        seq![x] + ps
    }
}

/// The summaries rearranged into ascending name order.
pub open spec fn spec_sort_by_name(ps: Seq<SummaryModel>) -> Seq<SummaryModel>
    decreases ps.len(),
{
    if ps.len() == 0 {
        Seq::empty()
    } else {
        spec_insert_sorted(ps.last(), spec_sort_by_name(ps.drop_last()))
    }
}

proof fn lemma_insert_sorted_split(ps: Seq<SummaryModel>, x: SummaryModel, k: int)
    requires
        0 <= k <= ps.len(),
        forall|j: int| 0 <= j < k ==> spec_lex_le(#[trigger] ps[j].name, x.name),
        k < ps.len() ==> !spec_lex_le(ps[k].name, x.name),
    ensures
        spec_insert_sorted(x, ps) == ps.take(k) + seq![x] + ps.skip(k),
    decreases ps.len(),
{
    if ps.len() == 0 {
        assert(spec_insert_sorted(x, ps) =~= ps.take(k) + seq![x] + ps.skip(k));
    } else if k == 0 {
        assert(!spec_lex_le(ps[0].name, x.name));
        assert(ps.take(0) =~= Seq::<SummaryModel>::empty());
        assert(ps.skip(0) =~= ps);
        assert(spec_insert_sorted(x, ps) =~= ps.take(0) + seq![x] + ps.skip(0));
    } else {
        assert(spec_lex_le(ps[0].name, x.name));
        lemma_insert_sorted_split(ps.drop_first(), x, k - 1);
        assert(ps.drop_first().take(k - 1) =~= ps.take(k).drop_first());
        assert(ps.drop_first().skip(k - 1) =~= ps.skip(k));
        assert(seq![ps[0]] + (ps.take(k).drop_first() + seq![x] + ps.skip(k)) =~= ps.take(k)
            + seq![x] + ps.skip(k));
    }
}

/// Inserts a summary into a name-sorted list at its place.
fn insert_sorted(out: &mut Vec<ProjectSummary>, x: ProjectSummary)
    ensures
        final (out).deep_view() == spec_insert_sorted(x.deep_view(), old(out).deep_view()),
{
    let ghost xm = x.deep_view();
    let n = out.len();
    let mut k: usize = 0;
    while k < n && lex_le(out[k].name.as_str(), x.name.as_str())
        invariant
            0 <= k <= n == out@.len(),
            out@ == old(out)@,
            xm == x.deep_view(),
            forall|j: int|
                0 <= j < k ==> spec_lex_le(#[trigger] out.deep_view()[j].name, xm.name),
        decreases n - k,
    {
        k += 1;
    }
    proof {
        lemma_insert_sorted_split(out.deep_view(), xm, k as int);
    }
    let ghost pre_dv = out.deep_view();
    let ghost pre_v = out@;
    out.insert(k, x);
    proof {
        assert(out.deep_view() =~= pre_dv.take(k as int) + seq![xm] + pre_dv.skip(k as int));
    }
}

/// Rearranges the summaries into ascending name order.
fn sort_summaries(agg: Vec<ProjectSummary>) -> (r: Vec<ProjectSummary>)
    ensures
        r.deep_view() == spec_sort_by_name(agg.deep_view()),
{
    let ghost orig = agg.deep_view();
    let mut rest = agg;
    let mut out: Vec<ProjectSummary> = Vec::new();
    proof {
        assert(orig.take(0) =~= Seq::<SummaryModel>::empty());
        assert(out.deep_view() =~= spec_sort_by_name(orig.take(0)));
        assert(rest.deep_view() =~= orig.skip(0));
    }
    while rest.len() > 0
        invariant
            rest@.len() <= orig.len(),
            rest.deep_view() == orig.skip(orig.len() - rest@.len()),
            out.deep_view() == spec_sort_by_name(orig.take(orig.len() - rest@.len())),
        decreases rest@.len(),
    {
        let ghost done = orig.len() - rest@.len();
        let ghost pre_dv = rest.deep_view();
        let ghost pre_v = rest@;
        let s = rest.remove(0);
        proof {
            assert(s.deep_view() == pre_dv[0]);
            assert(pre_dv[0] == orig[done]);
            assert(rest.deep_view() =~= pre_dv.drop_first());
            assert(pre_dv.drop_first() =~= orig.skip(done + 1));
            assert(orig.take(done + 1).drop_last() =~= orig.take(done));
            assert(orig.take(done + 1).last() == orig[done]);
        }
        insert_sorted(&mut out, s);
        proof {
            assert(out.deep_view() == spec_sort_by_name(orig.take(done + 1)));
        }
    }
    proof {
        assert(orig.take(orig.len() as int) =~= orig);
    }
    out
}

/// The aggregated record of one input: the scan's entries determine the
/// totals, the time span and the summaries, and its warnings are followed
/// by the validation warnings.
pub open spec fn spec_parse_lines(
    lines: Seq<Seq<char>>,
    prefix: Option<Seq<char>>,
    suffix: Option<Seq<char>>,
) -> TtdModel {
    let sc = spec_scan(lines, prefix, suffix);
    let entries = spec_scan_entries(sc);
    TtdModel {
        total: spec_total_minutes(entries),
        dead: spec_dead_time_minutes(entries),
        projects: spec_sort_by_name(spec_aggregate(entries)),
        warnings: sc.warnings + spec_validation_warnings(entries),
        start: if entries.len() > 0 {
            Some(entries[0].start)
        } else {
            None
        },
        end: if entries.len() > 0 {
            Some(entries.last().end)
        } else {
            None
        },
    }
}

/// The aggregated record of a raw input text.
pub open spec fn spec_parse(
    input: Seq<char>,
    prefix: Option<Seq<char>>,
    suffix: Option<Seq<char>>,
) -> TtdModel {
    spec_parse_lines(spec_split_lines(input), prefix, suffix)
}

/// Parses a complete work log: locates the tracking block between the
/// optional markers (or by its shape), reads entries and notes, collects
/// parse and validation warnings, and aggregates totals, dead time and
/// name-sorted per-project summaries.
///
/// The input length bound keeps every accumulated minute count within
/// `u32`.
pub fn parse_time_tracking_data(input: &str, prefix: Option<&str>, suffix: Option<&str>) -> (data:
    TimeTrackingData)
    requires
        input@.len() < 4000000,
    ensures
        data@ == spec_parse(input@, spec_opt_str_view(prefix), spec_opt_str_view(suffix)),
{
    broadcast use lemma_char_vec_deep_view;

    let ghost p = spec_opt_str_view(prefix);
    let ghost s = spec_opt_str_view(suffix);
    let chars = str_to_chars(input);
    let lines = split_lines(&chars);
    proof {
        lemma_split_lines_count(input@);
    }
    let pfx: Option<Vec<char>> = match prefix {
        Some(m) => Some(str_to_chars(m)),
        None => None,
    };
    let sfx: Option<Vec<char>> = match suffix {
        Some(m) => Some(str_to_chars(m)),
        None => None,
    };
    proof {
        assert(spec_opt_view(pfx) == p);
        assert(spec_opt_view(sfx) == s);
    }
    let (entries, warnings) = scan_lines(&lines, &pfx, &sfx);
    let ghost edv = entries.deep_view();
    let ghost model = spec_parse(input@, p, s);
    proof {
        assert(lines.deep_view() == spec_split_lines(input@));
        assert(edv == spec_scan_entries(spec_scan(spec_split_lines(input@), p, s)));
        assert(entries@.len() <= 4000001);
    }
    let mut data = TimeTrackingData::new();
    data.warnings = warnings;
    let entries_slice = entries.as_slice();
    data.validate_entries(entries_slice);
    proof {
        assert(entries_slice.deep_view() =~= edv);
        assert(data@.warnings == model.warnings);
    }
    let n = entries.len();
    if n > 0 {
        data.start_time = Some(entries[0].start);
        data.end_time = Some(entries[n - 1].end);
    }
    proof {
        assert(data@.start == model.start);
        assert(data@.end == model.end);
    }
    let mut total: u32 = 0;
    let mut i: usize = 0;
    while i < n
        invariant
            0 <= i <= n == entries@.len() <= 4000001,
            edv == entries.deep_view(),
            total as int == spec_total_minutes(edv.take(i as int)),
            total <= 719 * (i as int),
        decreases n - i,
    {
        let d = entries[i].duration_minutes();
        proof {
            assert(edv.take(i + 1 as int).drop_last() =~= edv.take(i as int));
            assert(edv.take(i + 1 as int).last() == edv[i as int]);
            assert(entries@[i as int]@ == edv[i as int]);
            assert(719 * (i + 1 as int) <= 719 * 4000001) by (nonlinear_arith)
                requires
                    i + 1 <= 4000001,
            ;
        }
        total = total + d;
        i += 1;
    }
    proof {
        assert(edv.take(n as int) =~= edv);
    }
    data.total_minutes = total;
    let mut dead: u32 = 0;
    if n >= 2 {
        let mut i: usize = 1;
        proof {
            assert(spec_dead_time_minutes(edv.take(1)) == 0);
        }
        while i < n
            invariant
                1 <= i <= n == entries@.len() <= 4000001,
                edv == entries.deep_view(),
                dead as int == spec_dead_time_minutes(edv.take(i as int)),
                dead <= 719 * (i as int),
            decreases n - i,
        {
            let gap = entries[i - 1].end.chronological_duration_minutes(&entries[i].start);
            proof {
                assert(edv.take(i + 1 as int).drop_last() =~= edv.take(i as int));
                assert(edv.take(i + 1 as int).last() == edv[i as int]);
                assert(edv.take(i + 1 as int)[i - 1 as int] == edv[i - 1 as int]);
                assert(entries@[i as int]@ == edv[i as int]);
                assert(entries@[i - 1 as int]@ == edv[i - 1 as int]);
                assert(719 * (i + 1 as int) <= 719 * 4000001) by (nonlinear_arith)
                    requires
                        i + 1 <= 4000001,
                ;
            }
            if gap > 0 {
                dead = dead + (gap as u32);
            }
            i += 1;
        }
        proof {
            assert(edv.take(n as int) =~= edv);
        }
    } else {
        proof {
            assert(edv.take(n as int) =~= edv);
        }
    }
    data.dead_time_minutes = dead;
    let agg = aggregate_entries(&entries);
    let projects = sort_summaries(agg);
    data.projects = projects;
    proof {
        assert(data@.total == model.total);
        assert(data@.dead == model.dead);
        assert(data@.projects == model.projects);
        assert(data@ =~= model);
    }
    data
}

} // verus!
