//! How the metrics of a project are shown. Rates are computed elsewhere and
//! come here as the text of their value.

use crate::text::{
    byte_boundary, byte_prefix, dec, dec_i64, dec_int, dec_u64, dec_usize, join, joined,
    left_aligned, opt_str, opt_text, pad_right, push_text, take_bytes, texts,
};
use crate::time::{minute_time, utc_time, MINUTE_FORMAT};
use vstd::prelude::*;
use vstd::string::*;

verus! {

/// A count out of a total. The value is missing where there is no total.
pub struct Rate {
    pub numerator: u64,
    pub denominator: u64,
    /// The value as it is shown: in whole percent, or with two decimals where
    /// the rate is an average.
    pub value: Option<String>,
}

/// The middle of some spans of time, and how many there were.
#[derive(Clone, Copy, PartialEq, Eq, Structural, Debug)]
pub struct MedianSeconds {
    pub median_seconds: Option<i64>,
    pub sample_size: u64,
}

/// A name and how often it occurs.
pub struct NamedCount {
    pub name: String,
    pub count: u64,
}

/// How often a command ran, by what ran it.
pub struct CallCounts {
    pub command: String,
    pub total: u64,
    pub explicit: u64,
    pub hook: u64,
    pub unknown: u64,
}

/// What was used in a window of time.
pub struct EventsMetrics {
    pub window_days: u32,
    pub use_sessions_with_context: Rate,
    pub use_search_hit_rate: Rate,
    pub use_search_before_write: Rate,
    pub auto_read_rate: Rate,
    pub auto_write_rate: Rate,
    pub calls: Vec<CallCounts>,
    pub by_actor: Vec<NamedCount>,
    pub latency_ms_p50: Option<i64>,
    pub tokens_out_p50: Option<i64>,
}

/// A commit: its id and its time.
pub struct CommitRef {
    pub sha: String,
    pub time: i64,
}

/// The metrics of a project at one point.
pub struct Snapshot {
    pub schema: String,
    pub project: String,
    pub commit: Option<CommitRef>,
    pub window_days: u32,
    pub model_id: String,
    pub dim: usize,
    pub precision: String,
    pub entries_in_window: Vec<NamedCount>,
    pub commit_coverage: Option<Rate>,
    pub unanchored_rate: Option<Rate>,
    pub supersede_rate: Rate,
    pub time_to_supersede: MedianSeconds,
    pub open_question_age: MedianSeconds,
    pub near_duplicate_rate: Rate,
    pub excluded_without_vector: u64,
    pub unresolved_conflicts: u64,
    pub lines_per_decision: Option<Rate>,
    pub review_items_per_day: Rate,
    pub tokens_context_estimate: u64,
    pub events: EventsMetrics,
}

/// The metrics that `status` shows.
pub struct StatusMetricsSummary {
    pub window_days: u32,
    pub entries_in_window: Vec<NamedCount>,
    pub commit_coverage: Option<Rate>,
    pub superseded: u64,
    pub time_to_supersede: Option<i64>,
    pub review_items_per_day: Option<String>,
    pub open_questions: u64,
    pub open_question_age: Option<i64>,
    pub unresolved_conflicts: u64,
    pub events: EventsMetrics,
}

// ---- values ----------------------------------------------------------------

/// A span of seconds in its largest unit, a minute at least.
pub open spec fn duration_text(secs: int) -> Seq<char> {
    let s = if secs > 0 {
        secs
    } else {
        0
    };
    if s < 3600 {
        dec_int(
            if s / 60 > 1 {
                s / 60
            } else {
                1
            },
        ) + "m"@
    } else if s < 86400 {
        dec_int(s / 3600) + "h"@
    } else {
        dec_int(s / 86400) + "d"@
    }
}

/// A span of seconds in its largest unit.
pub fn format_duration(secs: i64) -> (r: String)
    ensures
        r@ == duration_text(secs as int),
{
    let s: i64 = if secs > 0 {
        secs
    } else {
        0
    };
    if s < 3600 {
        let m: i64 = s / 60;
        let at_least: i64 = if m > 1 {
            m
        } else {
            1
        };
        dec_i64(at_least).concat("m")
    } else if s < 86400 {
        dec_i64(s / 3600).concat("h")
    } else {
        dec_i64(s / 86400).concat("d")
    }
}

/// A median, or that there is none.
pub open spec fn bare_duration_text(median: Option<i64>) -> Seq<char> {
    match median {
        Some(secs) => duration_text(secs as int),
        None => "n/a"@,
    }
}

/// A median, or that there is none.
pub fn format_bare_duration(median_seconds: Option<i64>) -> (r: String)
    ensures
        r@ == bare_duration_text(median_seconds),
{
    match median_seconds {
        Some(secs) => format_duration(secs),
        None => "n/a".to_owned(),
    }
}

/// A median and the number of samples.
pub open spec fn median_text(m: MedianSeconds) -> Seq<char> {
    bare_duration_text(m.median_seconds) + "  (n="@ + dec(m.sample_size as nat) + ")"@
}

/// A median and the number of samples.
pub fn format_median_duration(m: &MedianSeconds) -> (r: String)
    ensures
        r@ == median_text(*m),
{
    format_bare_duration(m.median_seconds).concat("  (n=").concat(
        dec_u64(m.sample_size).as_str(),
    ).concat(")")
}

/// A rate: the two counts, and the percentage where there is one. None is ever
/// made up.
pub open spec fn pct_text(numerator: nat, denominator: nat, percent: Option<Seq<char>>) -> Seq<char> {
    dec(numerator) + "/"@ + dec(denominator) + (match percent {
        Some(p) => "  ("@ + p + "%)"@,
        None => Seq::<char>::empty(),
    })
}

/// A rate, by its counts and its percentage.
pub fn format_pct_value(numerator: u64, denominator: u64, percent: Option<&str>) -> (r: String)
    ensures
        r@ == pct_text(numerator as nat, denominator as nat, opt_str(percent)),
{
    let tail = match percent {
        Some(p) => "  (".to_owned().concat(p).concat("%)"),
        None => String::new(),
    };
    dec_u64(numerator).concat("/").concat(dec_u64(denominator).as_str()).concat(tail.as_str())
}

/// A rate in percent.
pub open spec fn rate_text(r: Rate) -> Seq<char> {
    pct_text(r.numerator as nat, r.denominator as nat, opt_text(r.value))
}

/// A rate in percent.
pub fn format_pct(r: &Rate) -> (s: String)
    ensures
        s@ == rate_text(*r),
{
    format_pct_value(r.numerator, r.denominator, crate::text::opt_as_str(&r.value))
}

/// A rate as an average.
pub open spec fn avg_text(r: Rate) -> Seq<char> {
    dec(r.numerator as nat) + "/"@ + dec(r.denominator as nat) + (match r.value {
        Some(v) => "  ("@ + v@ + ")"@,
        None => Seq::<char>::empty(),
    })
}

/// A rate as an average.
pub fn format_avg(r: &Rate) -> (s: String)
    ensures
        s@ == avg_text(*r),
{
    let tail = match &r.value {
        Some(v) => "  (".to_owned().concat(v.as_str()).concat(")"),
        None => String::new(),
    };
    dec_u64(r.numerator).concat("/").concat(dec_u64(r.denominator).as_str()).concat(tail.as_str())
}

/// How many bytes of a commit's id are shown.
pub const SHORT_SHA: usize = 12;

/// The beginning of a commit's id.
pub fn short_sha(sha: &str) -> (r: String)
    requires
        byte_boundary(sha@, SHORT_SHA as int),
    ensures
        r@ == byte_prefix(sha@, SHORT_SHA as int),
{
    take_bytes(sha, SHORT_SHA)
}

/// A time to the minute, or the bare seconds where it is no time.
pub open spec fn timestamp_text(shown: Option<Seq<char>>, ts: i64) -> Seq<char> {
    match shown {
        Some(t) => t,
        None => dec_int(ts as int),
    }
}

/// A time as it was written, or the bare seconds where it was not.
pub fn timestamp_or_secs(shown: Option<String>, ts: i64) -> (r: String)
    ensures
        r@ == timestamp_text(opt_text(shown), ts),
{
    match shown {
        Some(t) => t,
        None => dec_i64(ts),
    }
}

/// A time to the minute, or the bare seconds where it is no time.
pub fn format_timestamp(ts: i64) -> (r: String)
    ensures
        r@ == timestamp_text(utc_time(ts, MINUTE_FORMAT@), ts),
{
    timestamp_or_secs(minute_time(ts), ts)
}

/// An optional number, or that there is none.
pub open spec fn number_text(n: Option<i64>) -> Seq<char> {
    match n {
        Some(v) => dec_int(v as int),
        None => "n/a"@,
    }
}

fn format_number(n: Option<i64>) -> (r: String)
    ensures
        r@ == number_text(n),
{
    match n {
        Some(v) => dec_i64(v),
        None => "n/a".to_owned(),
    }
}

/// Those of the first `n` counts that are not zero, as `name:count`.
pub open spec fn nonzero_upto(counts: Seq<NamedCount>, n: int) -> Seq<Seq<char>>
    decreases n,
{
    if n <= 0 {
        Seq::<Seq<char>>::empty()
    } else {
        let before = nonzero_upto(counts, n - 1);
        let c = counts[n - 1];
        if c.count > 0 {
            before.push(c.name@ + ":"@ + dec(c.count as nat))
        } else {
            before
        }
    }
}

/// The counts that are not zero in one line, or that there are none.
pub open spec fn counts_text(counts: Seq<NamedCount>) -> Seq<char> {
    let items = nonzero_upto(counts, counts.len() as int);
    if items.len() == 0 {
        "none"@
    } else {
        joined(items, " "@)
    }
}

fn format_counts(counts: &Vec<NamedCount>) -> (r: String)
    ensures
        r@ == counts_text(counts@),
{
    let mut items: Vec<String> = Vec::new();
    let mut i: usize = 0;
    assert(texts(items@) =~= Seq::<Seq<char>>::empty());
    while i < counts.len()
        invariant
            i <= counts.len(),
            texts(items@) == nonzero_upto(counts@, i as int),
        decreases counts.len() - i,
    {
        let c = &counts[i];
        if c.count > 0 {
            push_text(
                &mut items,
                c.name.clone().concat(":").concat(dec_u64(c.count).as_str()),
            );
        }
        i = i + 1;
    }
    assert(texts(items@).len() == items.len());
    if items.len() == 0 {
        "none".to_owned()
    } else {
        join(&items, " ")
    }
}

// ---- events ----------------------------------------------------------------

/// The line of one command's calls.
pub open spec fn call_line(c: CallCounts) -> Seq<char> {
    "  calls."@ + left_aligned(c.command@, 20) + " "@ + dec(c.total as nat) + " (explicit "@ + dec(
        c.explicit as nat,
    ) + ", hook "@ + dec(c.hook as nat) + ", unknown "@ + dec(c.unknown as nat) + ")"@
}

/// The lines of the events of a window.
pub open spec fn events_lines(e: EventsMetrics) -> Seq<Seq<char>> {
    seq![
        "events ("@ + dec(e.window_days as nat) + "d window)"@,
        "  use.sessions_with_context    "@ + rate_text(e.use_sessions_with_context),
        "  use.search_hit_rate          "@ + rate_text(e.use_search_hit_rate),
        "  use.search_before_write      "@ + rate_text(e.use_search_before_write),
        "  auto.read_rate               "@ + rate_text(e.auto_read_rate),
        "  auto.write_rate              "@ + rate_text(e.auto_write_rate),
    ] + e.calls@.map_values(|c: CallCounts| call_line(c)) + seq![
        "  by_actor                     "@ + counts_text(e.by_actor@),
        "  latency_ms_p50               "@ + number_text(e.latency_ms_p50),
        "  tokens_out_p50               "@ + number_text(e.tokens_out_p50),
    ]
}

/// The lines of the events of a window.
pub fn print_events_summary(e: &EventsMetrics) -> (r: Vec<String>)
    ensures
        texts(r@) == events_lines(*e),
{
    let ghost want = events_lines(*e);
    let mut out: Vec<String> = Vec::new();
    assert(texts(out@) =~= Seq::<Seq<char>>::empty());
    push_text(
        &mut out,
        "events (".to_owned().concat(dec_u64(e.window_days as u64).as_str()).concat("d window)"),
    );
    push_text(
        &mut out,
        "  use.sessions_with_context    ".to_owned().concat(
            format_pct(&e.use_sessions_with_context).as_str(),
        ),
    );
    push_text(
        &mut out,
        "  use.search_hit_rate          ".to_owned().concat(
            format_pct(&e.use_search_hit_rate).as_str(),
        ),
    );
    push_text(
        &mut out,
        "  use.search_before_write      ".to_owned().concat(
            format_pct(&e.use_search_before_write).as_str(),
        ),
    );
    push_text(
        &mut out,
        "  auto.read_rate               ".to_owned().concat(
            format_pct(&e.auto_read_rate).as_str(),
        ),
    );
    push_text(
        &mut out,
        "  auto.write_rate              ".to_owned().concat(
            format_pct(&e.auto_write_rate).as_str(),
        ),
    );
    let mut i: usize = 0;
    assert(texts(out@) =~= want.take(6));
    while i < e.calls.len()
        invariant
            i <= e.calls.len(),
            want == events_lines(*e),
            texts(out@) == want.take(i + 6),
        decreases e.calls.len() - i,
    {
        let c = &e.calls[i];
        let line = "  calls.".to_owned().concat(pad_right(c.command.as_str(), 20).as_str()).concat(
            " ",
        ).concat(dec_u64(c.total).as_str()).concat(" (explicit ").concat(
            dec_u64(c.explicit).as_str(),
        ).concat(", hook ").concat(dec_u64(c.hook).as_str()).concat(", unknown ").concat(
            dec_u64(c.unknown).as_str(),
        ).concat(")");
        proof {
            assert(want[i + 6] == call_line(*c));
            assert(want.take(i + 7) =~= want.take(i + 6).push(line@));
        }
        push_text(&mut out, line);
        i = i + 1;
    }
    push_text(
        &mut out,
        "  by_actor                     ".to_owned().concat(format_counts(&e.by_actor).as_str()),
    );
    push_text(
        &mut out,
        "  latency_ms_p50               ".to_owned().concat(
            format_number(e.latency_ms_p50).as_str(),
        ),
    );
    push_text(
        &mut out,
        "  tokens_out_p50               ".to_owned().concat(
            format_number(e.tokens_out_p50).as_str(),
        ),
    );
    assert(texts(out@) =~= want);
    out
}

/// Whether anything ran at all.
pub open spec fn any_calls(calls: Seq<CallCounts>) -> bool {
    exists|i: int| 0 <= i < calls.len() && (#[trigger] calls[i]).total > 0
}

/// One row of the table of use.
pub open spec fn use_row(a: Seq<char>, b: Seq<char>, c: Seq<char>, d: Seq<char>) -> Seq<char> {
    "  "@ + left_aligned(a, 14) + "  "@ + left_aligned(b, 8) + "  "@ + left_aligned(c, 8) + "  "@
        + left_aligned(d, 8)
}

fn format_use_row(a: &str, b: &str, c: &str, d: &str) -> (r: String)
    ensures
        r@ == use_row(a@, b@, c@, d@),
{
    "  ".to_owned().concat(pad_right(a, 14).as_str()).concat("  ").concat(
        pad_right(b, 8).as_str(),
    ).concat("  ").concat(pad_right(c, 8).as_str()).concat("  ").concat(pad_right(d, 8).as_str())
}

/// The rows of the first `n` commands that ran.
pub open spec fn use_rows(calls: Seq<CallCounts>, n: int) -> Seq<Seq<char>>
    decreases n,
{
    if n <= 0 {
        Seq::<Seq<char>>::empty()
    } else {
        let before = use_rows(calls, n - 1);
        let c = calls[n - 1];
        if c.total == 0 {
            before
        } else {
            before.push(
                use_row(
                    c.command@,
                    dec(c.explicit as nat),
                    dec(c.hook as nat),
                    dec(c.unknown as nat),
                ),
            )
        }
    }
}

/// The table of use; nothing for a project where nothing ran yet.
pub open spec fn use_lines(e: EventsMetrics) -> Seq<Seq<char>> {
    if any_calls(e.calls@) {
        seq![
            "\nUse, last "@ + dec(e.window_days as nat) + "d"@,
            use_row("command"@, "explicit"@, "hook"@, "unknown"@),
        ] + use_rows(e.calls@, e.calls@.len() as int) + seq![
            "  automation     read "@ + rate_text(e.auto_read_rate) + "  write "@ + rate_text(
                e.auto_write_rate,
            ),
        ]
    } else {
        Seq::<Seq<char>>::empty()
    }
}

fn has_calls(calls: &Vec<CallCounts>) -> (r: bool)
    ensures
        r == any_calls(calls@),
{
    let mut i: usize = 0;
    while i < calls.len()
        invariant
            i <= calls.len(),
            forall|k: int| 0 <= k < i ==> (#[trigger] calls@[k]).total == 0,
        decreases calls.len() - i,
    {
        if calls[i].total > 0 {
            assert(calls@[i as int].total > 0);
            return true;
        }
        i = i + 1;
    }
    false
}

/// The table of use; nothing for a project where nothing ran yet.
pub fn print_status_use_section(e: &EventsMetrics) -> (r: Vec<String>)
    ensures
        texts(r@) == use_lines(*e),
{
    let mut out: Vec<String> = Vec::new();
    assert(texts(out@) =~= Seq::<Seq<char>>::empty());
    if !has_calls(&e.calls) {
        return out;
    }
    push_text(
        &mut out,
        "\nUse, last ".to_owned().concat(dec_u64(e.window_days as u64).as_str()).concat("d"),
    );
    push_text(&mut out, format_use_row("command", "explicit", "hook", "unknown"));
    let ghost head = texts(out@);
    let mut i: usize = 0;
    assert(head =~= head + use_rows(e.calls@, 0));
    while i < e.calls.len()
        invariant
            i <= e.calls.len(),
            texts(out@) == head + use_rows(e.calls@, i as int),
        decreases e.calls.len() - i,
    {
        let c = &e.calls[i];
        let ghost rows = use_rows(e.calls@, i as int);
        if c.total != 0 {
            let row = format_use_row(
                c.command.as_str(),
                dec_u64(c.explicit).as_str(),
                dec_u64(c.hook).as_str(),
                dec_u64(c.unknown).as_str(),
            );
            assert((head + rows).push(row@) =~= head + rows.push(row@));
            push_text(&mut out, row);
        }
        i = i + 1;
    }
    push_text(
        &mut out,
        "  automation     read ".to_owned().concat(format_pct(&e.auto_read_rate).as_str()).concat(
            "  write ",
        ).concat(format_pct(&e.auto_write_rate).as_str()),
    );
    assert(texts(out@) =~= use_lines(*e));
    out
}

// ---- summaries -------------------------------------------------------------

/// The metrics under the status of a project.
pub open spec fn summary_lines(s: StatusMetricsSummary) -> Seq<Seq<char>> {
    seq![
        "Metrics ("@ + dec(s.window_days as nat) + "d window)"@,
        "  entries      "@ + counts_text(s.entries_in_window@),
        match s.commit_coverage {
            Some(r) => "  commits      "@ + rate_text(r) + " covered"@,
            None => "  commits      (not a git repository)"@,
        },
        "  superseded   "@ + dec(s.superseded as nat) + "  (median time to supersede: "@
            + bare_duration_text(s.time_to_supersede) + ")"@,
        "  review/day   "@ + (match s.review_items_per_day {
            Some(v) => v@,
            None => "n/a"@,
        }),
        "  open qs      "@ + dec(s.open_questions as nat) + "  (median age: "@ + bare_duration_text(
            s.open_question_age,
        ) + ")"@,
        "  conflicts    "@ + dec(s.unresolved_conflicts as nat),
    ] + use_lines(s.events)
}

fn append_texts(out: &mut Vec<String>, more: Vec<String>)
    ensures
        texts(final(out)@) == texts(old(out)@) + texts(more@),
{
    let ghost first = texts(out@);
    let ghost rest = texts(more@);
    let mut tail = more;
    out.append(&mut tail);
    assert(texts(out@) =~= first + rest);
}

/// The metrics under the status of a project.
pub fn print_status_summary(s: &StatusMetricsSummary) -> (r: Vec<String>)
    ensures
        texts(r@) == summary_lines(*s),
{
    let mut out: Vec<String> = Vec::new();
    assert(texts(out@) =~= Seq::<Seq<char>>::empty());
    push_text(
        &mut out,
        "Metrics (".to_owned().concat(dec_u64(s.window_days as u64).as_str()).concat("d window)"),
    );
    push_text(
        &mut out,
        "  entries      ".to_owned().concat(format_counts(&s.entries_in_window).as_str()),
    );
    let commits = match &s.commit_coverage {
        Some(r) => "  commits      ".to_owned().concat(format_pct(r).as_str()).concat(" covered"),
        None => "  commits      (not a git repository)".to_owned(),
    };
    push_text(&mut out, commits);
    push_text(
        &mut out,
        "  superseded   ".to_owned().concat(dec_u64(s.superseded).as_str()).concat(
            "  (median time to supersede: ",
        ).concat(format_bare_duration(s.time_to_supersede).as_str()).concat(")"),
    );
    let review = match &s.review_items_per_day {
        Some(v) => v.clone(),
        None => "n/a".to_owned(),
    };
    push_text(&mut out, "  review/day   ".to_owned().concat(review.as_str()));
    push_text(
        &mut out,
        "  open qs      ".to_owned().concat(dec_u64(s.open_questions).as_str()).concat(
            "  (median age: ",
        ).concat(format_bare_duration(s.open_question_age).as_str()).concat(")"),
    );
    push_text(
        &mut out,
        "  conflicts    ".to_owned().concat(dec_u64(s.unresolved_conflicts).as_str()),
    );
    let used = print_status_use_section(&s.events);
    append_texts(&mut out, used);
    assert(texts(out@) =~= summary_lines(*s));
    out
}

/// The first `n` kinds that have entries, one line each.
pub open spec fn kind_lines(counts: Seq<NamedCount>, n: int) -> Seq<Seq<char>>
    decreases n,
{
    if n <= 0 {
        Seq::<Seq<char>>::empty()
    } else {
        let before = kind_lines(counts, n - 1);
        let c = counts[n - 1];
        if c.count > 0 {
            before.push("  "@ + left_aligned(c.name@, 12) + " "@ + dec(c.count as nat))
        } else {
            before
        }
    }
}

/// The lines above the metrics of a snapshot: what it is a snapshot of.
pub open spec fn header_lines(s: Snapshot) -> Seq<Seq<char>> {
    seq![
        "inkentry metrics snapshot  (schema "@ + s.schema@ + ")"@,
        "project      "@ + s.project@,
        match s.commit {
            Some(c) => "commit       "@ + byte_prefix(c.sha@, SHORT_SHA as int) + "  ("@
                + timestamp_text(utc_time(c.time, MINUTE_FORMAT@), c.time) + ")"@,
            None => "commit       (not a git repository)"@,
        },
        "window       "@ + dec(s.window_days as nat) + " days"@,
        "embedder     "@ + s.model_id@ + "  dim="@ + dec(s.dim as nat) + "  "@ + s.precision@,
        Seq::<char>::empty(),
        "rec.entries (in window, by kind)"@,
    ]
}

/// A rate that only a git repository has.
pub open spec fn git_rate_text(r: Option<Rate>) -> Seq<char> {
    match r {
        Some(r) => rate_text(r),
        None => "(not a git repository)"@,
    }
}

/// An average that only a git repository has.
pub open spec fn git_avg_text(r: Option<Rate>) -> Seq<char> {
    match r {
        Some(r) => avg_text(r),
        None => "(not a git repository)"@,
    }
}

/// The lines of the rates of a snapshot.
pub open spec fn rates_lines(s: Snapshot) -> Seq<Seq<char>> {
    seq![
        "rec.commit_coverage         "@ + git_rate_text(s.commit_coverage),
        "rec.unanchored_rate          "@ + git_rate_text(s.unanchored_rate),
        "rec.supersede_rate           "@ + rate_text(s.supersede_rate),
        "rec.time_to_supersede_p50    "@ + median_text(s.time_to_supersede),
        "rec.open_question_age_p50    "@ + median_text(s.open_question_age),
        "rec.near_duplicate_rate      "@ + rate_text(s.near_duplicate_rate) + "  ["@ + dec(
            s.excluded_without_vector as nat,
        ) + " excluded: no vector]"@,
        "rec.unresolved_conflicts     "@ + dec(s.unresolved_conflicts as nat),
        "cmp.lines_per_decision       "@ + git_avg_text(s.lines_per_decision),
        "cmp.review_items_per_day     "@ + avg_text(s.review_items_per_day),
        "cmp.tokens_context_estimate  "@ + dec(s.tokens_context_estimate as nat),
        Seq::<char>::empty(),
    ]
}

/// The lines of a snapshot.
pub open spec fn snapshot_lines(s: Snapshot) -> Seq<Seq<char>> {
    header_lines(s) + kind_lines(s.entries_in_window@, s.entries_in_window@.len() as int)
        + rates_lines(s) + events_lines(s.events)
}

fn git_rate(r: &Option<Rate>) -> (s: String)
    ensures
        s@ == git_rate_text(*r),
{
    match r {
        Some(r) => format_pct(r),
        None => "(not a git repository)".to_owned(),
    }
}

fn git_avg(r: &Option<Rate>) -> (s: String)
    ensures
        s@ == git_avg_text(*r),
{
    match r {
        Some(r) => format_avg(r),
        None => "(not a git repository)".to_owned(),
    }
}

fn snapshot_header(s: &Snapshot) -> (r: Vec<String>)
    requires
        s.commit is Some ==> byte_boundary(s.commit->0.sha@, SHORT_SHA as int),
    ensures
        texts(r@) == header_lines(*s),
{
    let mut out: Vec<String> = Vec::new();
    assert(texts(out@) =~= Seq::<Seq<char>>::empty());
    push_text(
        &mut out,
        "inkentry metrics snapshot  (schema ".to_owned().concat(s.schema.as_str()).concat(")"),
    );
    push_text(&mut out, "project      ".to_owned().concat(s.project.as_str()));
    let commit = match &s.commit {
        Some(c) => "commit       ".to_owned().concat(short_sha(c.sha.as_str()).as_str()).concat(
            "  (",
        ).concat(format_timestamp(c.time).as_str()).concat(")"),
        None => "commit       (not a git repository)".to_owned(),
    };
    push_text(&mut out, commit);
    push_text(
        &mut out,
        "window       ".to_owned().concat(dec_u64(s.window_days as u64).as_str()).concat(" days"),
    );
    push_text(
        &mut out,
        "embedder     ".to_owned().concat(s.model_id.as_str()).concat("  dim=").concat(
            dec_usize(s.dim).as_str(),
        ).concat("  ").concat(s.precision.as_str()),
    );
    push_text(&mut out, String::new());
    push_text(&mut out, "rec.entries (in window, by kind)".to_owned());
    assert(texts(out@) =~= header_lines(*s));
    out
}

fn snapshot_rates(s: &Snapshot) -> (r: Vec<String>)
    ensures
        texts(r@) == rates_lines(*s),
{
    let mut out: Vec<String> = Vec::new();
    assert(texts(out@) =~= Seq::<Seq<char>>::empty());
    push_text(
        &mut out,
        "rec.commit_coverage         ".to_owned().concat(git_rate(&s.commit_coverage).as_str()),
    );
    push_text(
        &mut out,
        "rec.unanchored_rate          ".to_owned().concat(git_rate(&s.unanchored_rate).as_str()),
    );
    push_text(
        &mut out,
        "rec.supersede_rate           ".to_owned().concat(format_pct(&s.supersede_rate).as_str()),
    );
    push_text(
        &mut out,
        "rec.time_to_supersede_p50    ".to_owned().concat(
            format_median_duration(&s.time_to_supersede).as_str(),
        ),
    );
    push_text(
        &mut out,
        "rec.open_question_age_p50    ".to_owned().concat(
            format_median_duration(&s.open_question_age).as_str(),
        ),
    );
    push_text(
        &mut out,
        "rec.near_duplicate_rate      ".to_owned().concat(
            format_pct(&s.near_duplicate_rate).as_str(),
        ).concat("  [").concat(dec_u64(s.excluded_without_vector).as_str()).concat(
            " excluded: no vector]",
        ),
    );
    push_text(
        &mut out,
        "rec.unresolved_conflicts     ".to_owned().concat(
            dec_u64(s.unresolved_conflicts).as_str(),
        ),
    );
    push_text(
        &mut out,
        "cmp.lines_per_decision       ".to_owned().concat(git_avg(&s.lines_per_decision).as_str()),
    );
    push_text(
        &mut out,
        "cmp.review_items_per_day     ".to_owned().concat(
            format_avg(&s.review_items_per_day).as_str(),
        ),
    );
    push_text(
        &mut out,
        "cmp.tokens_context_estimate  ".to_owned().concat(
            dec_u64(s.tokens_context_estimate).as_str(),
        ),
    );
    push_text(&mut out, String::new());
    assert(texts(out@) =~= rates_lines(*s));
    out
}

/// The lines of a snapshot. The id of a commit is cut after a number of bytes,
/// and so must be such that this cuts no character.
pub fn print_snapshot_summary(s: &Snapshot) -> (r: Vec<String>)
    requires
        s.commit is Some ==> byte_boundary(s.commit->0.sha@, SHORT_SHA as int),
    ensures
        texts(r@) == snapshot_lines(*s),
{
    let mut out = snapshot_header(s);
    let ghost head = texts(out@);
    let mut i: usize = 0;
    assert(head =~= head + kind_lines(s.entries_in_window@, 0));
    while i < s.entries_in_window.len()
        invariant
            i <= s.entries_in_window.len(),
            texts(out@) == head + kind_lines(s.entries_in_window@, i as int),
        decreases s.entries_in_window.len() - i,
    {
        let c = &s.entries_in_window[i];
        let ghost rows = kind_lines(s.entries_in_window@, i as int);
        if c.count > 0 {
            let row = "  ".to_owned().concat(pad_right(c.name.as_str(), 12).as_str()).concat(
                " ",
            ).concat(dec_u64(c.count).as_str());
            assert((head + rows).push(row@) =~= head + rows.push(row@));
            push_text(&mut out, row);
        }
        i = i + 1;
    }
    append_texts(&mut out, snapshot_rates(s));
    append_texts(&mut out, print_events_summary(&s.events));
    out
}

/// What is said once the recorded events are gone.
pub fn cleared_message(cleared: usize) -> (r: String)
    ensures
        r@ == "Cleared "@ + dec(cleared as nat) + " recorded event(s)."@,
{
    "Cleared ".to_owned().concat(dec_usize(cleared).as_str()).concat(" recorded event(s).")
}

// ---- what the lines tell ---------------------------------------------------

/// A span is told in whole units that have passed, the largest that has, and as a
/// minute where none has.
pub proof fn law_a_span_is_told_in_whole_units(secs: int)
    ensures
        secs < 120 ==> duration_text(secs) == dec_int(1) + "m"@,
        120 <= secs < 3600 ==> exists|q: int|
            60 * q <= secs < 60 * (q + 1) && duration_text(secs) == #[trigger] dec_int(q) + "m"@,
        3600 <= secs < 86400 ==> exists|q: int|
            3600 * q <= secs < 3600 * (q + 1) && duration_text(secs) == #[trigger] dec_int(q)
                + "h"@,
        86400 <= secs ==> exists|q: int|
            86400 * q <= secs < 86400 * (q + 1) && duration_text(secs) == #[trigger] dec_int(q)
                + "d"@,
{
    if 120 <= secs < 3600 {
        assert(duration_text(secs) == dec_int(secs / 60) + "m"@);
    } else if 3600 <= secs < 86400 {
        assert(duration_text(secs) == dec_int(secs / 3600) + "h"@);
    } else if 86400 <= secs {
        assert(duration_text(secs) == dec_int(secs / 86400) + "d"@);
    }
}

/// What is not known is said to be so, and nothing is made up for it.
pub proof fn law_what_is_missing_is_not_made_up(ts: i64, r: Rate)
    ensures
        bare_duration_text(None) == "n/a"@,
        number_text(None) == "n/a"@,
        number_text(Some(ts)) == dec_int(ts as int),
        bare_duration_text(Some(ts)) == duration_text(ts as int),
        git_rate_text(None) == "(not a git repository)"@,
        git_avg_text(None) == "(not a git repository)"@,
        git_rate_text(Some(r)) == rate_text(r),
        git_avg_text(Some(r)) == avg_text(r),
        timestamp_text(None, ts) == dec_int(ts as int),
{
}

/// A rate begins with its two counts, and ends with its value where it has one: in
/// percent, or as it is where it is an average.
pub proof fn law_a_rate_shows_its_counts(r: Rate)
    ensures
        (dec(r.numerator as nat) + "/"@ + dec(r.denominator as nat)).is_prefix_of(rate_text(r)),
        (dec(r.numerator as nat) + "/"@ + dec(r.denominator as nat)).is_prefix_of(avg_text(r)),
        r.value is Some ==> ("("@ + r.value->0@ + "%)"@).is_suffix_of(rate_text(r)),
        r.value is Some ==> ("("@ + r.value->0@ + ")"@).is_suffix_of(avg_text(r)),
        r.value is None ==> rate_text(r) == dec(r.numerator as nat) + "/"@ + dec(
            r.denominator as nat,
        ) && avg_text(r) == rate_text(r),
{
    let a = dec(r.numerator as nat) + "/"@ + dec(r.denominator as nat);
    let (t, v) = (rate_text(r), avg_text(r));
    assert(t.subrange(0, a.len() as int) =~= a);
    assert(v.subrange(0, a.len() as int) =~= a);
    if let Some(x) = r.value {
        reveal_strlit("  (");
        reveal_strlit("(");
        assert("  ("@ =~= seq![' ', ' '] + "("@);
        let p = "("@ + x@ + "%)"@;
        let q = "("@ + x@ + ")"@;
        assert(t.subrange(t.len() - p.len(), t.len() as int) =~= p);
        assert(v.subrange(v.len() - q.len(), v.len() as int) =~= q);
    } else {
        assert(t =~= a);
        assert(v =~= a);
    }
}

/// A median shows how many samples it is of.
pub proof fn law_a_median_shows_its_samples(m: MedianSeconds)
    ensures
        bare_duration_text(m.median_seconds).is_prefix_of(median_text(m)),
        ("(n="@ + dec(m.sample_size as nat) + ")"@).is_suffix_of(median_text(m)),
{
    let t = median_text(m);
    let a = bare_duration_text(m.median_seconds);
    let b = "(n="@ + dec(m.sample_size as nat) + ")"@;
    reveal_strlit("  (n=");
    reveal_strlit("(n=");
    assert("  (n="@ =~= seq![' ', ' '] + "(n="@);
    assert(t.subrange(0, a.len() as int) =~= a);
    assert(t.subrange(t.len() - b.len(), t.len() as int) =~= b);
}

/// A name is listed if and only if its count is not zero, and with that count; the
/// names keep their order.
pub proof fn law_counts_that_are_not_zero_are_listed(counts: Seq<NamedCount>, n: int)
    requires
        0 <= n <= counts.len(),
    ensures
        nonzero_upto(counts, n) == counts.take(n).filter(|c: NamedCount| c.count > 0).map_values(
            |c: NamedCount| c.name@ + ":"@ + dec(c.count as nat),
        ),
        kind_lines(counts, n) == counts.take(n).filter(|c: NamedCount| c.count > 0).map_values(
            |c: NamedCount| "  "@ + left_aligned(c.name@, 12) + " "@ + dec(c.count as nat),
        ),
        counts_text(counts) == "none"@ || nonzero_upto(counts, counts.len() as int).len() > 0,
    decreases n,
{
    reveal(Seq::filter);
    let f = |c: NamedCount| c.name@ + ":"@ + dec(c.count as nat);
    let g = |c: NamedCount| "  "@ + left_aligned(c.name@, 12) + " "@ + dec(c.count as nat);
    let keep = |c: NamedCount| c.count > 0;
    if n > 0 {
        law_counts_that_are_not_zero_are_listed(counts, n - 1);
        assert(counts.take(n).drop_last() =~= counts.take(n - 1));
        assert(counts.take(n).last() == counts[n - 1]);
        let kept = counts.take(n - 1).filter(keep);
        assert(kept.push(counts[n - 1]).map_values(f) =~= kept.map_values(f).push(
            f(counts[n - 1]),
        ));
        assert(kept.push(counts[n - 1]).map_values(g) =~= kept.map_values(g).push(
            g(counts[n - 1]),
        ));
    } else {
        assert(nonzero_upto(counts, n) =~= counts.take(n).filter(keep).map_values(f));
        assert(kind_lines(counts, n) =~= counts.take(n).filter(keep).map_values(g));
    }
}

/// A command's line names it and tells its calls apart by what made them.
pub proof fn law_calls_are_told_apart(c: CallCounts)
    ensures
        ("  calls."@ + left_aligned(c.command@, 20) + " "@ + dec(c.total as nat)).is_prefix_of(
            call_line(c),
        ),
        ("(explicit "@ + dec(c.explicit as nat) + ", hook "@ + dec(c.hook as nat) + ", unknown "@
            + dec(c.unknown as nat) + ")"@).is_suffix_of(call_line(c)),
{
    let t = call_line(c);
    let a = "  calls."@ + left_aligned(c.command@, 20) + " "@ + dec(c.total as nat);
    let b = "(explicit "@ + dec(c.explicit as nat) + ", hook "@ + dec(c.hook as nat)
        + ", unknown "@ + dec(c.unknown as nat) + ")"@;
    reveal_strlit(" (explicit ");
    reveal_strlit("(explicit ");
    assert(" (explicit "@ =~= seq![' '] + "(explicit "@);
    assert(t.subrange(0, a.len() as int) =~= a);
    assert(t.subrange(t.len() - b.len(), t.len() as int) =~= b);
}

/// The events of a window stand each in a line of its own, behind its own name.
#[verifier::rlimit(60)]
pub proof fn law_each_event_has_its_line(e: EventsMetrics, i: int)
    ensures
        ({
            let ls = events_lines(e);
            let n = ls.len();
            &&& n == 9 + e.calls@.len()
            &&& ls[0] == "events ("@ + dec(e.window_days as nat) + "d window)"@
            &&& ls[1] == "  use.sessions_with_context    "@ + rate_text(
                e.use_sessions_with_context,
            )
            &&& ls[2] == "  use.search_hit_rate          "@ + rate_text(e.use_search_hit_rate)
            &&& ls[3] == "  use.search_before_write      "@ + rate_text(e.use_search_before_write)
            &&& ls[4] == "  auto.read_rate               "@ + rate_text(e.auto_read_rate)
            &&& ls[5] == "  auto.write_rate              "@ + rate_text(e.auto_write_rate)
            &&& 0 <= i < e.calls@.len() ==> ls[6 + i] == call_line(e.calls@[i])
            &&& ls[n - 3] == "  by_actor                     "@ + counts_text(e.by_actor@)
            &&& ls[n - 2] == "  latency_ms_p50               "@ + number_text(e.latency_ms_p50)
            &&& ls[n - 1] == "  tokens_out_p50               "@ + number_text(e.tokens_out_p50)
        }),
{
}

/// The table of use has a row for each command that ran, and none where nothing ran.
pub proof fn law_the_table_of_use_has_what_ran(e: EventsMetrics, n: int)
    requires
        0 <= n <= e.calls@.len(),
    ensures
        use_rows(e.calls@, n) == e.calls@.take(n).filter(|c: CallCounts| c.total > 0).map_values(
            |c: CallCounts|
                use_row(
                    c.command@,
                    dec(c.explicit as nat),
                    dec(c.hook as nat),
                    dec(c.unknown as nat),
                ),
        ),
        use_lines(e).len() == 0 <==> forall|i: int|
            0 <= i < e.calls@.len() ==> (#[trigger] e.calls@[i]).total == 0,
        use_lines(e).len() > 0 ==> use_lines(e).len() == 3 + use_rows(
            e.calls@,
            e.calls@.len() as int,
        ).len(),
    decreases n,
{
    reveal(Seq::filter);
    let ran = |c: CallCounts| c.total > 0;
    let row = |c: CallCounts|
        use_row(c.command@, dec(c.explicit as nat), dec(c.hook as nat), dec(c.unknown as nat));
    let calls = e.calls@;
    if n > 0 {
        law_the_table_of_use_has_what_ran(e, n - 1);
        assert(calls.take(n).drop_last() =~= calls.take(n - 1));
        assert(calls.take(n).last() == calls[n - 1]);
        let kept = calls.take(n - 1).filter(ran);
        assert(kept.push(calls[n - 1]).map_values(row) =~= kept.map_values(row).push(
            row(calls[n - 1]),
        ));
    } else {
        assert(use_rows(calls, n) =~= calls.take(n).filter(ran).map_values(row));
    }
}

/// A row of the table of use has its four fields in order, each in a field of its
/// own.
pub proof fn law_a_row_of_use_has_its_fields(
    a: Seq<char>,
    b: Seq<char>,
    c: Seq<char>,
    d: Seq<char>,
)
    ensures
        ("  "@ + left_aligned(a, 14) + "  "@ + left_aligned(b, 8)).is_prefix_of(
            use_row(a, b, c, d),
        ),
        ("  "@ + left_aligned(c, 8) + "  "@ + left_aligned(d, 8)).is_suffix_of(
            use_row(a, b, c, d),
        ),
{
    let t = use_row(a, b, c, d);
    let x = "  "@ + left_aligned(a, 14) + "  "@ + left_aligned(b, 8);
    let y = "  "@ + left_aligned(c, 8) + "  "@ + left_aligned(d, 8);
    assert(t.subrange(0, x.len() as int) =~= x);
    assert(t.subrange(t.len() - y.len(), t.len() as int) =~= y);
}

/// The metrics under a status stand each in a line of its own, behind its own name,
/// and the table of use follows.
#[verifier::rlimit(60)]
pub proof fn law_each_metric_of_a_status_has_its_line(s: StatusMetricsSummary)
    ensures
        ({
            let ls = summary_lines(s);
            &&& ls.len() == 7 + use_lines(s.events).len()
            &&& ls[0] == "Metrics ("@ + dec(s.window_days as nat) + "d window)"@
            &&& ls[1] == "  entries      "@ + counts_text(s.entries_in_window@)
            &&& s.commit_coverage is Some ==> ls[2] == "  commits      "@ + rate_text(
                s.commit_coverage->0,
            ) + " covered"@
            &&& ls[3] == "  superseded   "@ + dec(s.superseded as nat)
                + "  (median time to supersede: "@ + bare_duration_text(s.time_to_supersede)
                + ")"@
            &&& s.review_items_per_day is Some ==> ls[4] == "  review/day   "@
                + s.review_items_per_day->0@
            &&& ls[5] == "  open qs      "@ + dec(s.open_questions as nat) + "  (median age: "@
                + bare_duration_text(s.open_question_age) + ")"@
            &&& ls[6] == "  conflicts    "@ + dec(s.unresolved_conflicts as nat)
            &&& ls.skip(7) == use_lines(s.events)
        }),
{
    assert(summary_lines(s).skip(7) =~= use_lines(s.events));
}

/// A snapshot says what it is of, then the entries by kind, then the rates, each
/// behind its own name, and then the events.
#[verifier::rlimit(60)]
pub proof fn law_a_snapshot_holds_its_parts_in_order(s: Snapshot)
    ensures
        ({
            let all = snapshot_lines(s);
            let kinds = kind_lines(s.entries_in_window@, s.entries_in_window@.len() as int);
            let k = (7 + kinds.len()) as int;
            &&& all[0] == "inkentry metrics snapshot  (schema "@ + s.schema@ + ")"@
            &&& all[1] == "project      "@ + s.project@
            &&& all[3] == "window       "@ + dec(s.window_days as nat) + " days"@
            &&& all[4] == "embedder     "@ + s.model_id@ + "  dim="@ + dec(s.dim as nat) + "  "@
                + s.precision@
            &&& all.subrange(7, k) == kinds
            &&& all[k] == "rec.commit_coverage         "@ + git_rate_text(s.commit_coverage)
            &&& all[k + 1] == "rec.unanchored_rate          "@ + git_rate_text(s.unanchored_rate)
            &&& all[k + 2] == "rec.supersede_rate           "@ + rate_text(s.supersede_rate)
            &&& all[k + 3] == "rec.time_to_supersede_p50    "@ + median_text(s.time_to_supersede)
            &&& all[k + 4] == "rec.open_question_age_p50    "@ + median_text(s.open_question_age)
            &&& ("rec.near_duplicate_rate      "@ + rate_text(
                s.near_duplicate_rate,
            )).is_prefix_of(all[k + 5])
            &&& all[k + 6] == "rec.unresolved_conflicts     "@ + dec(
                s.unresolved_conflicts as nat,
            )
            &&& all[k + 7] == "cmp.lines_per_decision       "@ + git_avg_text(
                s.lines_per_decision,
            )
            &&& all[k + 8] == "cmp.review_items_per_day     "@ + avg_text(s.review_items_per_day)
            &&& all[k + 9] == "cmp.tokens_context_estimate  "@ + dec(
                s.tokens_context_estimate as nat,
            )
            &&& all.skip(k + 11) == events_lines(s.events)
        }),
{
    let all = snapshot_lines(s);
    let kinds = kind_lines(s.entries_in_window@, s.entries_in_window@.len() as int);
    let k = (7 + kinds.len()) as int;
    let head = header_lines(s);
    let rates = rates_lines(s);
    let events = events_lines(s.events);
    assert(head.len() == 7 && rates.len() == 11);
    assert(all == head + kinds + rates + events);
    assert(all.subrange(7, k) =~= kinds);
    assert(all.skip(k + 11) =~= events);
    assert forall|i: int| 0 <= i < 7 implies all[i] == #[trigger] head[i] by {}
    assert forall|i: int| 0 <= i < 11 implies all[k + i] == #[trigger] rates[i] by {}
    assert(all[0] == head[0] && all[1] == head[1] && all[3] == head[3] && all[4] == head[4]);
    assert(all[k] == rates[0] && all[k + 1] == rates[1] && all[k + 2] == rates[2] && all[k + 3]
        == rates[3] && all[k + 4] == rates[4] && all[k + 5] == rates[5]);
    assert(all[k + 6] == rates[6] && all[k + 7] == rates[7] && all[k + 8] == rates[8] && all[k + 9]
        == rates[9]);
    let d = "rec.near_duplicate_rate      "@ + rate_text(s.near_duplicate_rate);
    assert(rates[5].subrange(0, d.len() as int) =~= d);
}

} // verus!
