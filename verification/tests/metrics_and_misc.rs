use inkentry_cli::metrics::{
    cleared_message, format_avg, format_bare_duration, format_duration, format_median_duration,
    format_pct, format_pct_value, format_timestamp, print_events_summary, print_snapshot_summary,
    print_status_summary, print_status_use_section, short_sha, timestamp_or_secs, CallCounts,
    CommitRef, EventsMetrics, MedianSeconds, NamedCount, Rate, Snapshot, StatusMetricsSummary,
};
use inkentry_cli::misc::{
    chunks, index_filter_explanation, languages, ChunksReport, FilterVerdict,
};
use inkentry_cli::search::CodeHit;
use inkentry_cli::ui::{print_chunks_text, short_path, without_styles};

#[test]
fn format_duration_scales_units() {
    assert_eq!(format_duration(30), "1m");
    assert_eq!(format_duration(3_600), "1h");
    assert_eq!(format_duration(90_000), "1d");
}

#[test]
fn format_pct_value_is_none_on_a_null_value_never_a_fabricated_percentage() {
    assert_eq!(format_pct_value(0, 0, None), "0/0");
}

#[test]
fn format_pct_value_renders_a_rounded_percentage() {
    let value: f64 = 0.75;
    let percent = format!("{:.0}", value * 100.0);
    assert_eq!(format_pct_value(3, 4, Some(percent.as_str())), "3/4  (75%)");
}

#[test]
fn durations_are_never_negative() {
    assert_eq!(format_duration(-5), "1m");
    assert_eq!(format_duration(3_599), "59m");
    assert_eq!(format_bare_duration(None), "n/a");
    assert_eq!(format_bare_duration(Some(7_200)), "2h");
    let m = MedianSeconds { median_seconds: Some(86_400), sample_size: 3 };
    assert_eq!(format_median_duration(&m), "1d  (n=3)");
    let none = MedianSeconds { median_seconds: None, sample_size: 0 };
    assert_eq!(format_median_duration(&none), "n/a  (n=0)");
}

#[test]
fn a_time_that_is_none_is_written_as_seconds() {
    assert_eq!(format_timestamp(1_609_459_200), "2021-01-01 00:00 UTC");
    assert_eq!(format_timestamp(i64::MAX), "9223372036854775807");
    assert_eq!(timestamp_or_secs(None, -3), "-3");
}

#[test]
fn a_commit_id_is_cut_after_twelve_bytes() {
    assert_eq!(short_sha("0123456789abcdef"), "0123456789ab");
    assert_eq!(short_sha("0123"), "0123");
    assert_eq!(short_sha("éééééé"), "éééééé");
    assert_eq!(short_sha("ééééééx"), "éééééé");
}

fn rate(n: u64, d: u64, v: Option<&str>) -> Rate {
    Rate { numerator: n, denominator: d, value: v.map(str::to_string) }
}

fn events(total: u64) -> EventsMetrics {
    EventsMetrics {
        window_days: 30,
        use_sessions_with_context: rate(1, 2, Some("50")),
        use_search_hit_rate: rate(0, 0, None),
        use_search_before_write: rate(0, 0, None),
        auto_read_rate: rate(1, 4, Some("25")),
        auto_write_rate: rate(0, 0, None),
        calls: vec![CallCounts {
            command: "search".to_string(),
            total,
            explicit: total,
            hook: 0,
            unknown: 0,
        }],
        by_actor: vec![
            NamedCount { name: "human".to_string(), count: 2 },
            NamedCount { name: "agent".to_string(), count: 0 },
        ],
        latency_ms_p50: Some(12),
        tokens_out_p50: None,
    }
}

#[test]
fn rates_are_shown_with_their_counts() {
    assert_eq!(format_pct(&rate(1, 2, Some("50"))), "1/2  (50%)");
    assert_eq!(format_avg(&rate(1, 2, Some("0.50"))), "1/2  (0.50)");
    assert_eq!(format_avg(&rate(1, 0, None)), "1/0");
}

#[test]
fn the_events_of_a_window() {
    assert_eq!(
        print_events_summary(&events(3)),
        vec![
            "events (30d window)",
            "  use.sessions_with_context    1/2  (50%)",
            "  use.search_hit_rate          0/0",
            "  use.search_before_write      0/0",
            "  auto.read_rate               1/4  (25%)",
            "  auto.write_rate              0/0",
            "  calls.search               3 (explicit 3, hook 0, unknown 0)",
            "  by_actor                     human:2",
            "  latency_ms_p50               12",
            "  tokens_out_p50               n/a",
        ]
    );
}

#[test]
fn the_table_of_use_is_silent_until_something_ran() {
    assert!(print_status_use_section(&events(0)).is_empty());
    assert_eq!(
        print_status_use_section(&events(3)),
        vec![
            "\nUse, last 30d",
            "  command         explicit  hook      unknown ",
            "  search          3         0         0       ",
            "  automation     read 1/4  (25%)  write 0/0",
        ]
    );
}

#[test]
fn the_summary_under_the_status() {
    let s = StatusMetricsSummary {
        window_days: 30,
        entries_in_window: vec![],
        commit_coverage: None,
        superseded: 2,
        time_to_supersede: Some(7_200),
        review_items_per_day: None,
        open_questions: 1,
        open_question_age: None,
        unresolved_conflicts: 0,
        events: events(0),
    };
    assert_eq!(
        print_status_summary(&s),
        vec![
            "Metrics (30d window)",
            "  entries      none",
            "  commits      (not a git repository)",
            "  superseded   2  (median time to supersede: 2h)",
            "  review/day   n/a",
            "  open qs      1  (median age: n/a)",
            "  conflicts    0",
        ]
    );
}

#[test]
fn a_snapshot_in_words() {
    let s = Snapshot {
        schema: "inkentry.metrics/1".to_string(),
        project: "p".to_string(),
        commit: Some(CommitRef { sha: "0123456789abcdef".to_string(), time: 1_609_459_200 }),
        window_days: 30,
        model_id: "m".to_string(),
        dim: 896,
        precision: "fp32".to_string(),
        entries_in_window: vec![
            NamedCount { name: "decision".to_string(), count: 2 },
            NamedCount { name: "note".to_string(), count: 0 },
        ],
        commit_coverage: Some(rate(1, 2, Some("50"))),
        unanchored_rate: None,
        supersede_rate: rate(0, 2, Some("0")),
        time_to_supersede: MedianSeconds { median_seconds: None, sample_size: 0 },
        open_question_age: MedianSeconds { median_seconds: Some(60), sample_size: 1 },
        near_duplicate_rate: rate(0, 1, Some("0")),
        excluded_without_vector: 1,
        unresolved_conflicts: 0,
        lines_per_decision: None,
        review_items_per_day: rate(1, 30, Some("0.03")),
        tokens_context_estimate: 99,
        events: events(0),
    };
    let lines = print_snapshot_summary(&s);
    assert_eq!(lines[2], "commit       0123456789ab  (2021-01-01 00:00 UTC)");
    assert_eq!(lines[4], "embedder     m  dim=896  fp32");
    assert_eq!(lines[7], "  decision     2");
    assert_eq!(lines[8], "rec.commit_coverage         1/2  (50%)");
    assert_eq!(lines[13], "rec.near_duplicate_rate      0/1  (0%)  [1 excluded: no vector]");
    assert_eq!(lines[16], "cmp.review_items_per_day     1/30  (0.03)");
    assert_eq!(lines.len(), 29);
    assert_eq!(cleared_message(4), "Cleared 4 recorded event(s).");
}

#[test]
fn index_filter_explanation_pruned_dir_uses_directory_recipe() {
    let verdict = FilterVerdict::Excluded { pattern: "vendor/".to_string() };
    let msg = index_filter_explanation(&verdict, "vendor/lib/pkg.js", "vendor/lib/pkg.js")
        .expect("excluded path must be explained");
    assert!(msg.contains("built-in index filter"), "{msg}");
    assert!(msg.contains("vendor/"), "names the matched pattern: {msg}");
    assert!(msg.contains("[index]"), "shows the config table: {msg}");
    assert!(
        msg.contains("exclude = [\"!vendor/\", \"!vendor/**\"]"),
        "shows the directory-form re-include recipe: {msg}"
    );
    assert!(
        !msg.contains("[\"!vendor/lib/pkg.js\"]"),
        "must not emit the non-functional full-path recipe: {msg}"
    );
}

#[test]
fn index_filter_explanation_direct_glob_uses_file_recipe() {
    let verdict = FilterVerdict::Excluded { pattern: "*.min.js".to_string() };
    let msg = index_filter_explanation(&verdict, "app.min.js", "app.min.js")
        .expect("excluded path must be explained");
    assert!(msg.contains("built-in index filter"), "{msg}");
    assert!(msg.contains("*.min.js"), "names the matched pattern: {msg}");
    assert!(
        msg.contains("exclude = [\"!app.min.js\"]"),
        "shows the file-form re-include recipe: {msg}"
    );
}

#[test]
fn index_filter_explanation_none_for_normal_path() {
    assert!(index_filter_explanation(&FilterVerdict::Kept, "src/lib.rs", "src/lib.rs").is_none());
}

#[test]
fn a_generated_file_is_explained_by_its_marker() {
    let verdict = FilterVerdict::Generated { marker: "@generated".to_string() };
    let missing = |v: &FilterVerdict, path: &str, norm: &str| {
        match chunks(&vec![], "json", v, path, norm) {
            ChunksReport::Missing(s) => s,
            _ => panic!("there are no chunks"),
        }
    };
    assert_eq!(
        missing(&verdict, "src\\a.rs", "src/a.rs"),
        "No chunks found for 'src\\a.rs': the built-in index filter skipped it because its header \
         declares it generated (`@generated`), so it was never indexed.\nTo index it anyway, add a \
         re-include to [index] in .inkentry/config.toml:\n\n  [index]\n  exclude = \
         [\"!src/a.rs\"]\n"
    );
    assert_eq!(missing(&FilterVerdict::Kept, "a", "a"), "No chunks found for 'a'.\n");
    assert_eq!(
        languages(&vec!["rust".to_string()]),
        vec!["Supported languages:", "  rust"]
    );
}

#[test]
fn chunks_are_shown_with_a_preview() {
    assert_eq!(short_path("a/b/c.rs"), "c.rs");
    assert_eq!(short_path("c.rs"), "c.rs");
    assert_eq!(short_path("a/"), "");
    let c = CodeHit {
        chunk_id: 1,
        file_path: "a".to_string(),
        language: "rust".to_string(),
        start_line: 1,
        end_line: 8,
        node_type: "function".to_string(),
        name: None,
        content: "1\n2\n3\n4\n5\n6\n7\n8\n".to_string(),
        summary: None,
        token_count: 0,
        from_graph: false,
        project_name: None,
        project_path: None,
        governing_specs: vec![],
        distance: 0,
    };
    let lines = print_chunks_text(&vec![c]);
    assert_eq!(
        lines[0].text,
        " 1. \x1b[2mrust:1-8\x1b[0m  \x1b[33m[function: <anonymous>]\x1b[0m"
    );
    assert_eq!(without_styles(&lines[0].text), " 1. rust:1-8  [function: <anonymous>]");
    assert_eq!(lines[6].text, "    6");
    assert_eq!(lines[7].text, "    \x1b[2m… (2 more lines)\x1b[0m");
    assert_eq!(lines.len(), 9);
}
