//! General properties of the library, stated and proved over the same
//! specification functions that the public contracts use.

use vstd::prelude::*;
use crate::format::spec_format_time;
use crate::parser::{
    spec_parse_time, spec_parse_lines, spec_parse, spec_scan, spec_scan_from, spec_scan_init,
    spec_scan_entries, spec_scan_step, spec_is_start_line, spec_continues, ScanState,
    lemma_scan_from_concat, lemma_scan_done, spec_aggregate, spec_find_summary,
    spec_insert_sorted, spec_sort_by_name,
};
use crate::project_summary::SummaryModel;
use crate::text::{
    spec_is_digit, spec_is_digits, spec_digits_val, spec_num_string, spec_two_digits, spec_trim,
    spec_lex_le, lemma_find_char_at, lemma_find_char_none,
};
use crate::time::{TimeModel, spec_to_minutes, spec_duration};

verus! {

/// Writing one decimal digit and reading it back yields the same value.
pub proof fn lemma_digit_round_trip(d: int)
    requires
        0 <= d <= 9,
    ensures
        crate::text::spec_digit_val(crate::text::spec_digit_char(d)) == d,
        spec_is_digit(crate::text::spec_digit_char(d)),
{
    if d == 0 {
    } else if d == 1 {
    } else if d == 2 {
    } else if d == 3 {
    } else if d == 4 {
    } else if d == 5 {
    } else if d == 6 {
    } else if d == 7 {
    } else if d == 8 {
    } else {
        assert(d == 9);
    }
}

/// The decimal rendering of a non-negative number is a digit run whose
/// value is the number itself.
pub proof fn lemma_num_string_digits(n: int)
    requires
        n >= 0,
    ensures
        spec_is_digits(spec_num_string(n)),
        spec_digits_val(spec_num_string(n)) == n,
    decreases n,
{
    if n < 10 {
        lemma_digit_round_trip(n);
        crate::text::lemma_digits_val_single(crate::text::spec_digit_char(n));
    } else {
        lemma_digit_round_trip(n % 10);
        lemma_num_string_digits(n / 10);
        let pre = spec_num_string(n / 10);
        let c = crate::text::spec_digit_char(n % 10);
        let s = pre.push(c);
        assert(s.drop_last() =~= pre);
        assert(s.last() == c);
        assert forall|i: int| 0 <= i < s.len() implies spec_is_digit(s[i]) by {
            if i < pre.len() {
                assert(s[i] == pre[i]);
            }
        }
        assert(spec_digits_val(s) == spec_digits_val(pre) * 10 + crate::text::spec_digit_val(c));
    }
}

/// Formatting a valid time as `H:MM` and parsing the text back yields the
/// same time: the `H:MM` rendering loses nothing.
pub proof fn lemma_format_time_round_trip(t: TimeModel)
    requires
        0 <= t.hour <= 12,
        0 <= t.minute <= 59,
    ensures
        spec_parse_time(spec_format_time(t)) == Ok::<TimeModel, Seq<char>>(t),
{
    let hs = spec_num_string(t.hour);
    let ms = spec_two_digits(t.minute);
    let f = spec_format_time(t);
    lemma_num_string_digits(t.hour);
    assert(f.len() == hs.len() + 3);
    assert(f[hs.len() as int] == ':');
    assert forall|i: int| 0 <= i < hs.len() implies f[i] != ':' by {
        assert(f[i] == hs[i]);
        assert(spec_is_digit(hs[i]));
    }
    lemma_find_char_at(f, ':', hs.len() as int);
    assert(f.take(hs.len() as int) =~= hs);
    let rest = f.skip(hs.len() as int + 1);
    assert(rest =~= ms);
    assert(spec_is_digit(ms[0]));
    assert(spec_is_digit(ms[1]));
    lemma_find_char_none(ms, ':');
    assert(spec_is_digits(ms));
    lemma_digit_round_trip(t.minute / 10);
    lemma_digit_round_trip(t.minute % 10);
    crate::text::lemma_digits_val_pair(
        crate::text::spec_digit_char(t.minute / 10),
        crate::text::spec_digit_char(t.minute % 10),
    );
    assert(spec_digits_val(ms) == (t.minute / 10) * 10 + (t.minute % 10));
    assert(spec_digits_val(ms) == t.minute);
    assert(spec_parse_time(f) == Ok::<TimeModel, Seq<char>>(
        TimeModel { hour: t.hour, minute: t.minute },
    ));
    assert(TimeModel { hour: t.hour, minute: t.minute } =~= t);
}

/// Hour 12 maps to minute 0 of the 12-hour period: `12:MM` occupies the
/// same minute bucket as an hour value of zero.
pub proof fn lemma_hour_twelve_to_minutes(m: int)
    requires
        0 <= m <= 59,
    ensures
        spec_to_minutes(TimeModel { hour: 12, minute: m }) == m,
        spec_to_minutes(TimeModel { hour: 0, minute: m }) == m,
{
}

/// A span from a time to itself lasts no minutes at all.
pub proof fn lemma_duration_same_time(t: TimeModel)
    ensures
        spec_duration(t, t) == 0,
{
}

/// Lines that neither begin the tracking block nor are blank leave the
/// scan waiting exactly where it was.
proof fn lemma_header_skipped(
    st: ScanState,
    lines: Seq<Seq<char>>,
    prefix: Option<Seq<char>>,
    suffix: Option<Seq<char>>,
)
    requires
        !st.started,
        !st.done,
        forall|i: int|
            0 <= i < lines.len() ==> {
                let l = spec_trim(#[trigger] lines[i]);
                l.len() == 0 || !spec_is_start_line(l, prefix)
            },
    ensures
        spec_scan_from(st, lines, prefix, suffix) == st,
    decreases lines.len(),
{
    if lines.len() > 0 {
        lemma_header_skipped(st, lines.drop_last(), prefix, suffix);
        assert(lines.drop_last().len() < lines.len());
        let l = spec_trim(lines.last());
        assert(l.len() == 0 || !spec_is_start_line(l, prefix));
    }
}

/// Once the block has started, blank lines followed by a line that fails
/// the continuation condition end the scan without touching the entries,
/// the open entry, or the warnings; anything after that line is ignored.
proof fn lemma_footer_ignored(
    st: ScanState,
    footer: Seq<Seq<char>>,
    k: int,
    prefix: Option<Seq<char>>,
    suffix: Option<Seq<char>>,
)
    requires
        st.started,
        !st.done,
        0 <= k <= footer.len(),
        forall|i: int| 0 <= i < k ==> spec_trim(#[trigger] footer[i]).len() == 0,
        k < footer.len() ==> {
            let l = spec_trim(footer[k]);
            l.len() > 0 && !spec_continues(l, suffix)
        },
    ensures
        spec_scan_from(st, footer, prefix, suffix) == (ScanState {
            done: k < footer.len(),
            ..st
        }),
    decreases footer.len(),
{
    if footer.len() == 0 {
        assert(spec_scan_from(st, footer, prefix, suffix) =~= (ScanState { done: false, ..st }));
    } else {
        let rest = footer.drop_last();
        if k == footer.len() {
            lemma_footer_ignored(st, rest, k - 1, prefix, suffix);
            assert(spec_trim(footer.last()).len() == 0);
            assert(spec_scan_from(st, footer, prefix, suffix) =~= (ScanState {
                done: false,
                ..st
            }));
        } else if k == footer.len() - 1 {
            lemma_footer_ignored(st, rest, k, prefix, suffix);
            let st2 = spec_scan_from(st, rest, prefix, suffix);
            assert(st2 == (ScanState { done: false, ..st }));
            let l = spec_trim(footer.last());
            assert(footer.last() == footer[k]);
            assert(spec_scan_step(st2, footer.last(), prefix, suffix) =~= (ScanState {
                done: true,
                ..st
            }));
        } else {
            lemma_footer_ignored(st, rest, k, prefix, suffix);
            assert(spec_scan_from(st, rest, prefix, suffix) == (ScanState { done: true, ..st }));
        }
    }
}

/// Text surrounding a valid tracking block does not change what is parsed:
/// with a header whose lines are blank or fail start detection, a body
/// whose scan starts the block, and a footer whose first non-blank line
/// (if any line at all follows the body) stops it, the whole document
/// yields the same record as the body alone.  `k` locates that first
/// non-blank footer line; `k == footer.len()` means the footer is all
/// blank.
pub proof fn lemma_surrounding_text_ignored(
    header: Seq<Seq<char>>,
    body: Seq<Seq<char>>,
    footer: Seq<Seq<char>>,
    k: int,
    prefix: Option<Seq<char>>,
    suffix: Option<Seq<char>>,
)
    requires
        forall|i: int|
            0 <= i < header.len() ==> {
                let l = spec_trim(#[trigger] header[i]);
                l.len() == 0 || !spec_is_start_line(l, prefix)
            },
        spec_scan(body, prefix, suffix).started,
        0 <= k <= footer.len(),
        forall|i: int| 0 <= i < k ==> spec_trim(#[trigger] footer[i]).len() == 0,
        k < footer.len() ==> {
            let l = spec_trim(footer[k]);
            l.len() > 0 && !spec_continues(l, suffix)
        },
    ensures
        spec_parse_lines(header + body + footer, prefix, suffix) == spec_parse_lines(
            body,
            prefix,
            suffix,
        ),
{
    let init = spec_scan_init();
    lemma_scan_from_concat(init, header + body, footer, prefix, suffix);
    lemma_scan_from_concat(init, header, body, prefix, suffix);
    lemma_header_skipped(init, header, prefix, suffix);
    let sb = spec_scan(body, prefix, suffix);
    assert(spec_scan_from(init, header + body, prefix, suffix) == sb);
    let sc_full = spec_scan(header + body + footer, prefix, suffix);
    assert(sc_full == spec_scan_from(sb, footer, prefix, suffix));
    if sb.done {
        lemma_scan_done(sb, footer, prefix, suffix);
        assert(sc_full == sb);
    } else {
        lemma_footer_ignored(sb, footer, k, prefix, suffix);
        assert(sc_full == (ScanState { done: k < footer.len(), ..sb }));
    }
    assert(spec_scan_entries(sc_full) == spec_scan_entries(sb));
    assert(sc_full.warnings == sb.warnings);
    assert(spec_parse_lines(header + body + footer, prefix, suffix) =~= spec_parse_lines(
        body,
        prefix,
        suffix,
    ));
}

/// The lexicographic order relates any two names, one way or the other.
proof fn lemma_lex_le_total(a: Seq<char>, b: Seq<char>)
    ensures
        spec_lex_le(a, b) || spec_lex_le(b, a),
    decreases a.len(),
{
    if a.len() > 0 && b.len() > 0 && a[0] == b[0] {
        lemma_lex_le_total(a.drop_first(), b.drop_first());
    }
}

/// The lexicographic order is transitive.
proof fn lemma_lex_le_trans(a: Seq<char>, b: Seq<char>, c: Seq<char>)
    requires
        spec_lex_le(a, b),
        spec_lex_le(b, c),
    ensures
        spec_lex_le(a, c),
    decreases a.len(),
{
    if a.len() > 0 && b.len() > 0 && c.len() > 0 && a[0] == b[0] && b[0] == c[0] {
        lemma_lex_le_trans(a.drop_first(), b.drop_first(), c.drop_first());
    }
}

/// A summary list in ascending name order.
pub open spec fn spec_sorted_by_name(ps: Seq<SummaryModel>) -> bool {
    forall|i: int, j: int|
        0 <= i < j < ps.len() ==> spec_lex_le(#[trigger] ps[i].name, #[trigger] ps[j].name)
}

/// Inserting leaves a one-longer list whose entries are the inserted
/// summary and the old entries.
proof fn lemma_insert_sorted_membership(x: SummaryModel, s: Seq<SummaryModel>)
    ensures
        spec_insert_sorted(x, s).len() == s.len() + 1,
        forall|k: int|
            0 <= k < s.len() + 1 ==> (#[trigger] spec_insert_sorted(x, s)[k] == x || (exists|m: int|
                0 <= m < s.len() && s[m] == spec_insert_sorted(x, s)[k])),
    decreases s.len(),
{
    let r = spec_insert_sorted(x, s);
    if s.len() == 0 {
    } else if spec_lex_le(s[0].name, x.name) {
        lemma_insert_sorted_membership(x, s.drop_first());
        let rr = spec_insert_sorted(x, s.drop_first());
        assert forall|k: int| 0 <= k < s.len() + 1 implies (r[k] == x || (exists|m: int|
            0 <= m < s.len() && s[m] == r[k])) by {
            if k == 0 {
                assert(r[0] == s[0]);
                assert(s[0] == r[0]);
            } else {
                assert(r[k] == rr[k - 1]);
                if rr[k - 1] == x {
                } else {
                    let m = choose|m: int| 0 <= m < s.drop_first().len() && s.drop_first()[m]
                        == rr[k - 1];
                    assert(s[m + 1] == r[k]);
                }
            }
        }
    } else {
        assert forall|k: int| 0 <= k < s.len() + 1 implies (r[k] == x || (exists|m: int|
            0 <= m < s.len() && s[m] == r[k])) by {
            if k > 0 {
                assert(s[k - 1] == r[k]);
            }
        }
    }
}

/// Inserting into a name-sorted list keeps it name-sorted.
proof fn lemma_insert_sorted_stays_sorted(x: SummaryModel, s: Seq<SummaryModel>)
    requires
        spec_sorted_by_name(s),
    ensures
        spec_sorted_by_name(spec_insert_sorted(x, s)),
    decreases s.len(),
{
    let r = spec_insert_sorted(x, s);
    if s.len() == 0 {
    } else if spec_lex_le(s[0].name, x.name) {
        let rest = s.drop_first();
        assert(spec_sorted_by_name(rest)) by {
            assert forall|i: int, j: int| 0 <= i < j < rest.len() implies spec_lex_le(
                rest[i].name,
                rest[j].name,
            ) by {
                assert(rest[i] == s[i + 1]);
                assert(rest[j] == s[j + 1]);
            }
        }
        lemma_insert_sorted_stays_sorted(x, rest);
        lemma_insert_sorted_membership(x, rest);
        let rr = spec_insert_sorted(x, rest);
        assert forall|i: int, j: int| 0 <= i < j < r.len() implies spec_lex_le(
            r[i].name,
            r[j].name,
        ) by {
            if i == 0 {
                assert(r[0] == s[0]);
                assert(r[j] == rr[j - 1]);
                if rr[j - 1] == x {
                } else {
                    let m = choose|m: int| 0 <= m < rest.len() && rest[m] == rr[j - 1];
                    assert(rest[m] == s[m + 1]);
                    assert(spec_lex_le(s[0].name, s[m + 1].name));
                }
            } else {
                assert(r[i] == rr[i - 1]);
                assert(r[j] == rr[j - 1]);
            }
        }
    } else {
        lemma_lex_le_total(s[0].name, x.name);
        assert forall|i: int, j: int| 0 <= i < j < r.len() implies spec_lex_le(
            r[i].name,
            r[j].name,
        ) by {
            if i == 0 {
                assert(r[0] == x);
                assert(r[j] == s[j - 1]);
                if j - 1 > 0 {
                    assert(spec_lex_le(s[0].name, s[j - 1].name));
                    lemma_lex_le_trans(x.name, s[0].name, s[j - 1].name);
                } else {
                    assert(spec_lex_le(x.name, s[0].name));
                }
            } else {
                assert(r[i] == s[i - 1]);
                assert(r[j] == s[j - 1]);
            }
        }
    }
}

/// Sorting the summaries by name leaves them in ascending name order.
pub proof fn lemma_sort_by_name_sorted(ps: Seq<SummaryModel>)
    ensures
        spec_sorted_by_name(spec_sort_by_name(ps)),
    decreases ps.len(),
{
    if ps.len() > 0 {
        lemma_sort_by_name_sorted(ps.drop_last());
        lemma_insert_sorted_stays_sorted(ps.last(), spec_sort_by_name(ps.drop_last()));
    }
}

/// The project summaries of every parsed record come out in ascending name
/// order, whatever the input.
pub proof fn lemma_parse_projects_sorted(
    input: Seq<char>,
    prefix: Option<Seq<char>>,
    suffix: Option<Seq<char>>,
)
    ensures
        spec_sorted_by_name(spec_parse(input, prefix, suffix).projects),
{
    let entries = spec_scan_entries(spec_scan(crate::text::spec_split_lines(input), prefix, suffix));
    lemma_sort_by_name_sorted(spec_aggregate(entries));
}

/// Names found at no index are absent, and a found index holds the name.
proof fn lemma_find_summary_props(ps: Seq<SummaryModel>, name: Seq<char>)
    ensures
        spec_find_summary(ps, name) == -1 ==> (forall|i: int|
            0 <= i < ps.len() ==> ps[i].name != name),
        spec_find_summary(ps, name) != -1 ==> {
            let r = spec_find_summary(ps, name);
            0 <= r < ps.len() && ps[r].name == name
        },
    decreases ps.len(),
{
    if ps.len() > 0 && ps[0].name != name {
        lemma_find_summary_props(ps.drop_first(), name);
        let r0 = spec_find_summary(ps.drop_first(), name);
        if r0 == -1 {
            assert forall|i: int| 0 <= i < ps.len() implies ps[i].name != name by {
                if i > 0 {
                    assert(ps.drop_first()[i - 1].name != name);
                }
            }
        } else {
            assert(ps[r0 + 1] == ps.drop_first()[r0]);
        }
    }
}

/// A summary list with no two summaries of the same name.
pub open spec fn spec_distinct_names(ps: Seq<SummaryModel>) -> bool {
    forall|i: int, j: int|
        0 <= i < j < ps.len() ==> (#[trigger] ps[i].name) != (#[trigger] ps[j].name)
}

/// Aggregation makes exactly one summary per distinct project label: no
/// label ever appears twice.
pub proof fn lemma_aggregate_distinct_names(entries: Seq<crate::time_entry::EntryModel>)
    ensures
        spec_distinct_names(spec_aggregate(entries)),
    decreases entries.len(),
{
    if entries.len() > 0 {
        lemma_aggregate_distinct_names(entries.drop_last());
        let pre = spec_aggregate(entries.drop_last());
        let e = entries.last();
        let r = spec_aggregate(entries);
        if e.project.len() == 0 {
        } else {
            lemma_find_summary_props(pre, e.project);
            let f = spec_find_summary(pre, e.project);
            if f == -1 {
                assert forall|i: int, j: int| 0 <= i < j < r.len() implies r[i].name != r[j].name by {
                    if j < pre.len() {
                        assert(r[i] == pre[i] && r[j] == pre[j]);
                    } else {
                        assert(r[i] == pre[i]);
                        assert(r[j].name == e.project);
                        assert(pre[i].name != e.project);
                    }
                }
            } else {
                assert forall|i: int, j: int| 0 <= i < j < r.len() implies r[i].name != r[j].name by {
                    assert(r[i].name == pre[i].name);
                    assert(r[j].name == pre[j].name);
                }
            }
        }
    }
}

/// Aggregation covers exactly the labels seen: a name has a summary after
/// aggregation when, and only when, some entry bears it as its non-empty
/// project label.
pub proof fn lemma_aggregate_covers_labels(
    entries: Seq<crate::time_entry::EntryModel>,
    name: Seq<char>,
)
    requires
        name.len() > 0,
    ensures
        (exists|i: int|
            0 <= i < spec_aggregate(entries).len() && (#[trigger] spec_aggregate(entries)[i].name)
                == name) <==> (exists|k: int|
            0 <= k < entries.len() && (#[trigger] entries[k].project) == name),
    decreases entries.len(),
{
    let r = spec_aggregate(entries);
    if entries.len() == 0 {
    } else {
        lemma_aggregate_covers_labels(entries.drop_last(), name);
        let rest = entries.drop_last();
        let pre = spec_aggregate(rest);
        let e = entries.last();
        let in_pre = exists|i: int| 0 <= i < pre.len() && (#[trigger] pre[i].name) == name;
        let in_rest = exists|k: int| 0 <= k < rest.len() && (#[trigger] rest[k].project) == name;
        assert forall|k: int| 0 <= k < rest.len() implies rest[k].project == entries[k].project by {
            assert(rest[k] == entries[k]);
        }
        if e.project.len() == 0 {
            if in_pre {
                let k = choose|k: int| 0 <= k < rest.len() && (#[trigger] rest[k].project) == name;
                assert(entries[k].project == name);
            }
            if exists|k: int| 0 <= k < entries.len() && (#[trigger] entries[k].project) == name {
                let k = choose|k: int|
                    0 <= k < entries.len() && (#[trigger] entries[k].project) == name;
                assert(k < rest.len());
                assert(rest[k].project == name);
                let i = choose|i: int| 0 <= i < pre.len() && (#[trigger] pre[i].name) == name;
                assert(r[i].name == name);
            }
        } else {
            lemma_find_summary_props(pre, e.project);
            let f = spec_find_summary(pre, e.project);
            if f == -1 {
                assert(r == pre.push(
                    SummaryModel {
                        name: e.project,
                        total: spec_duration(e.start, e.end),
                        notes: e.notes,
                    },
                ));
                if e.project == name {
                    assert(r[pre.len() as int].name == name);
                    assert(entries[entries.len() - 1].project == name);
                } else {
                    if exists|i: int| 0 <= i < r.len() && (#[trigger] r[i].name) == name {
                        let i = choose|i: int| 0 <= i < r.len() && (#[trigger] r[i].name) == name;
                        assert(i < pre.len());
                        assert(pre[i].name == name);
                        let k = choose|k: int|
                            0 <= k < rest.len() && (#[trigger] rest[k].project) == name;
                        assert(entries[k].project == name);
                    }
                    if exists|k: int| 0 <= k < entries.len() && (#[trigger] entries[k].project)
                        == name {
                        let k = choose|k: int|
                            0 <= k < entries.len() && (#[trigger] entries[k].project) == name;
                        assert(k < rest.len());
                        assert(rest[k].project == name);
                        let i = choose|i: int|
                            0 <= i < pre.len() && (#[trigger] pre[i].name) == name;
                        assert(r[i].name == name);
                    }
                }
            } else {
                assert forall|i: int| 0 <= i < r.len() implies r[i].name == pre[i].name by {
                    if i != f {
                        assert(r[i] == pre[i]);
                    }
                }
                if e.project == name {
                    assert(r[f].name == name);
                    assert(entries[entries.len() - 1].project == name);
                }
                if in_pre {
                    let i = choose|i: int| 0 <= i < pre.len() && (#[trigger] pre[i].name) == name;
                    assert(r[i].name == name);
                    let k = choose|k: int|
                        0 <= k < rest.len() && (#[trigger] rest[k].project) == name;
                    assert(entries[k].project == name);
                }
                if exists|i: int| 0 <= i < r.len() && (#[trigger] r[i].name) == name {
                    let i = choose|i: int| 0 <= i < r.len() && (#[trigger] r[i].name) == name;
                    assert(pre[i].name == name);
                }
                if exists|k: int| 0 <= k < entries.len() && (#[trigger] entries[k].project)
                    == name {
                    let k = choose|k: int|
                        0 <= k < entries.len() && (#[trigger] entries[k].project) == name;
                    if k < rest.len() {
                        assert(rest[k].project == name);
                        let i = choose|i: int|
                            0 <= i < pre.len() && (#[trigger] pre[i].name) == name;
                        assert(r[i].name == name);
                    } else {
                        assert(entries[k] == e);
                        assert(r[f].name == name);
                    }
                }
            }
        }
    }
}

} // verus!
