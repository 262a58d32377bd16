use inkentry_cli::config::SyncMode;
use inkentry_cli::search::EmbedderState;
use inkentry_cli::status::{
    all_projects, count_usage, embed_threads_line, embedder_status_line, embedding_state_line,
    humanize_eta, labelled_pct, last_usage, memory_backend_label, memory_embedding_line, missing_status,
    print_tier_section, project_list, rebuilt_line, status, status_fields, status_view,
    sync_mode_line, sync_status_suffix, usage_cutoff, DepEntry, DriftEntry, IndexStats,
    PendingEmbeds, ProjectEntry, StatusInput, StatusView, TierReport, UsageCount,
};
use inkentry_cli::time::{age_of, day, format_age, iso_time, minute_time};

#[test]
fn embedder_line_loading_advises_warmup() {
    let line = embedder_status_line(&EmbedderState::Loading, None).expect("loading renders a line");
    assert!(line.contains("loading"));
    assert!(line.contains("warming up"));
}

#[test]
fn embedder_line_unavailable_loopback_points_at_local_logs() {
    let line = embedder_status_line(&EmbedderState::Unavailable, None)
        .expect("unavailable renders a line");
    assert!(line.contains("unavailable"));
    assert!(line.contains("failed to load"));
    assert!(line.contains("inkentry server logs"));
}

#[test]
fn embedder_line_unavailable_remote_points_at_that_server_never_local_logs() {
    let line = embedder_status_line(
        &EmbedderState::Unavailable,
        Some("https://team.example:4655"),
    )
    .expect("unavailable renders a line");
    assert!(line.contains("unavailable"));
    assert!(line.contains("https://team.example:4655"), "got: {line}");
    assert!(
        !line.contains("inkentry server logs"),
        "must not point a remote failure at local logs: {line}"
    );
}

#[test]
fn embedder_line_ready_is_plain() {
    let line = embedder_status_line(&EmbedderState::Ready, None).expect("ready renders a line");
    assert!(line.contains("ready"));
}

#[test]
fn embedder_line_disabled_notes_no_native_embedder() {
    let line =
        embedder_status_line(&EmbedderState::Disabled, None).expect("disabled renders a line");
    assert!(line.contains("disabled"));
    assert!(
        !line.contains("external"),
        "the external embedding backend concept no longer exists: {line}"
    );
    assert!(line.contains("native embedder"), "got: {line}");
}

#[test]
fn embedder_line_unknown_renders_nothing() {
    assert!(embedder_status_line(&EmbedderState::Unknown, None).is_none());
    assert!(embedder_status_line(&EmbedderState::Unknown, Some("https://t:1")).is_none());
}

#[test]
fn single_threaded_server_names_the_override_variable() {
    let line = embed_threads_line(Some(1)).expect("a single-threaded budget is worth saying");
    assert!(
        line.contains("INKENTRY_EMBED_THREADS"),
        "the override is the whole point of the line: {line}"
    );
}

#[test]
fn a_multi_threaded_or_unreported_budget_says_nothing() {
    for threads in [Some(2), Some(4), Some(64), None] {
        assert_eq!(
            embed_threads_line(threads),
            None,
            "only a single-threaded budget earns a line; got one for {threads:?}"
        );
    }
}

fn skewed_line(worker_alive: bool, embedder_unavailable: bool) -> Option<String> {
    embedding_state_line(
        worker_alive,
        embedder_unavailable,
        27_734,
        11_813,
        10_000_000,
        7_900_000,
        None,
    )
}

#[test]
fn live_worker_reports_in_progress_with_both_labelled_measures() {
    let line = skewed_line(true, false).expect("pending work renders a line");
    assert!(line.contains("Embedding in progress"));
    assert!(
        line.contains("searchable 11813/27734 chunks (42%)"),
        "coverage stays chunk-shaped and labelled: {line}"
    );
    assert!(
        line.contains("21% of work done"),
        "progress is token-weighted and labelled: {line}"
    );
    assert!(
        !line.contains("may be running"),
        "the hedging parenthetical is deleted, not reworded: {line}"
    );
    assert!(
        !line.contains("resume"),
        "a live worker needs no resume advice: {line}"
    );
}

#[test]
fn no_worker_with_pending_work_reports_incomplete_and_the_resume_command() {
    let line = skewed_line(false, false).expect("pending work renders a line");
    assert!(
        line.contains("Embedding incomplete"),
        "a dead worker is not 'in progress': {line}"
    );
    assert!(!line.contains("Embedding in progress"));
    assert!(
        line.contains("inkentry index ."),
        "must name the resume command: {line}"
    );
    assert!(!line.contains("may be running"));
}

#[test]
fn unavailable_embedder_points_at_server_logs_instead_of_resume() {
    let line = skewed_line(false, true).expect("pending work renders a line");
    assert!(line.contains("Embedding incomplete"));
    assert!(line.contains("unavailable"), "must say so: {line}");
    assert!(
        line.contains("inkentry server logs"),
        "must point at the server logs: {line}"
    );
    assert!(
        !line.contains("resume with"),
        "resuming cannot help while the embedder is unavailable: {line}"
    );
}

#[test]
fn coverage_and_progress_percentages_diverge_and_are_never_bare() {
    let line = skewed_line(true, false).unwrap();
    assert!(line.contains("(42%)") && line.contains("21%"));
    assert!(line.contains("searchable") && line.contains("of work done"));
}

#[test]
fn live_worker_line_carries_the_measured_eta_when_available() {
    let line = embedding_state_line(
        true,
        false,
        27_734,
        11_813,
        10_000_000,
        7_900_000,
        Some(54 * 60),
    )
    .unwrap();
    assert!(line.contains("~54 min left"), "got: {line}");
}

#[test]
fn pre_backfill_index_omits_the_work_clause_instead_of_fabricating_it() {
    let line = embedding_state_line(false, false, 100, 40, 0, 0, None).unwrap();
    assert!(line.contains("searchable 40/100 chunks (40%)"));
    assert!(!line.contains("% of work done"));
    assert!(line.contains("--recount"), "hint at the backfill: {line}");
}

#[test]
fn embedding_state_hidden_when_fully_embedded() {
    assert!(embedding_state_line(true, false, 100, 100, 10, 0, None).is_none());
    assert!(embedding_state_line(true, false, 100, 120, 10, 0, None).is_none());
}

#[test]
fn embedding_state_hidden_for_empty_index() {
    assert!(embedding_state_line(false, false, 0, 0, 0, 0, None).is_none());
}

#[test]
fn humanize_eta_scales_units() {
    assert_eq!(humanize_eta(30), "~30s left");
    assert_eq!(humanize_eta(54 * 60), "~54 min left");
    assert_eq!(humanize_eta(3_300), "~55 min left");
    assert_eq!(humanize_eta(6_000), "~1h40m left");
    assert_eq!(humanize_eta(3_661), "~1h01m left");
    assert_eq!(humanize_eta(61), "~2 min left");
}

#[test]
fn memory_backend_label_maps_resolved_kinds() {
    assert_eq!(memory_backend_label("sqlite"), "sqlite (local)");
    assert_eq!(memory_backend_label("git-notes"), "git-notes (local)");
    assert_eq!(memory_backend_label("remote"), "remote (server)");
}

#[test]
fn memory_backend_label_passes_through_unknown() {
    assert_eq!(memory_backend_label("future-kind"), "future-kind");
}

// ── times ───────────────────────────────────────────────────────────────────

#[test]
fn times_are_written_in_utc() {
    assert_eq!(iso_time(1_609_459_200).as_deref(), Some("2021-01-01T00:00:00Z"));
    assert_eq!(minute_time(1_609_459_260).as_deref(), Some("2021-01-01 00:01 UTC"));
    assert_eq!(day(0).as_deref(), Some("1970-01-01"));
    assert_eq!(iso_time(i64::MAX), None);
}

#[test]
fn ages_go_by_their_largest_unit() {
    let now = 1_700_000_000;
    assert_eq!(format_age(now - 59, now), "59s ago");
    assert_eq!(format_age(now - 60, now), "1m ago");
    assert_eq!(format_age(now - 7_200, now), "2h ago");
    assert_eq!(format_age(now - 3 * 86_400, now), "3d ago");
    assert_eq!(format_age(now + 5, now), "0s ago");
    assert_eq!(format_age(i64::MIN, now), "unknown");
    assert_eq!(age_of(false, 0, now), "unknown");
}

// ── lines ───────────────────────────────────────────────────────────────────

#[test]
fn a_percentage_needs_a_total() {
    assert_eq!(labelled_pct(1, 0), None);
    assert_eq!(labelled_pct(-5, 10), Some(0));
    assert_eq!(labelled_pct(2, 3), Some(66));
    assert_eq!(labelled_pct(i64::MAX, 1), Some(u64::MAX));
}

#[test]
fn missing_vectors_and_rebuilds_are_told() {
    assert_eq!(memory_embedding_line(false, Some(2)), None);
    assert_eq!(memory_embedding_line(true, Some(0)), None);
    assert_eq!(
        memory_embedding_line(true, Some(1)).unwrap(),
        "\x1b[33m[Memory: 1 entry not in semantic search; run 'inkentry memory reindex']\x1b[0m"
    );
    assert!(memory_embedding_line(true, Some(2)).unwrap().contains("2 entries"));
    assert_eq!(rebuilt_line(None), None);
    assert!(rebuilt_line(Some(14)).unwrap().contains("rebuild from schema version 14"));
    assert!(rebuilt_line(Some(0)).unwrap().contains("an older, unstamped schema"));
}

#[test]
fn a_fresh_project_says_nothing_of_sync() {
    assert_eq!(sync_status_suffix(0, None, None, 0), None);
    assert_eq!(
        sync_status_suffix(2, Some(40), None, 100).unwrap(),
        "  \u{b7}  2 pending, last synced 1m ago"
    );
    let long = "x".repeat(100);
    let s = sync_status_suffix(0, None, Some(&long), 0).unwrap();
    assert_eq!(s, format!("  \u{b7}  up to date, sync error: {}", "x".repeat(80)));
}

#[test]
fn the_mode_is_shown_where_one_is_set() {
    assert_eq!(sync_mode_line(false, false, SyncMode::LocalFirst, None), None);
    assert_eq!(
        sync_mode_line(true, false, SyncMode::LocalFirst, Some("  \u{b7}  1 pending")).unwrap(),
        "  mode            local_first  \u{b7}  1 pending"
    );
    assert_eq!(
        sync_mode_line(false, true, SyncMode::Offline, Some(" no")).unwrap(),
        "  mode            offline"
    );
}

#[test]
fn the_tier_section_names_the_server() {
    let t = TierReport::Server {
        url: "http://127.0.0.1:4655".to_string(),
        auto_discovered: true,
        semantic: true,
        embedder_state: EmbedderState::Ready,
    };
    let lines = print_tier_section(&t, None, "sqlite (local)");
    let texts: Vec<&str> = lines.iter().map(|l| l.text.as_str()).collect();
    assert_eq!(
        texts,
        vec![
            "Capability tier:  \x1b[32mServer\x1b[0m  \x1b[2m(http://127.0.0.1:4655  \x1b[2m(local, auto)\x1b[0m)\x1b[0m",
            "  search          text + semantic",
            "  embedder        ready",
            "  memory          sqlite (local)",
            "",
        ]
    );
    let off = TierReport::Offline { hint: " (start one)".to_string() };
    let lines = print_tier_section(&off, Some("  mode".to_string()), "m");
    assert_eq!(lines[1].text, "  mode");
    assert_eq!(lines[2].text, "  search          text (start one)");
}

#[test]
fn views_go_by_the_arguments() {
    assert_eq!(status_view("json", true, true), StatusView::Json);
    assert_eq!(status_view("text", true, true), StatusView::List);
    assert_eq!(status_view("text", true, false), StatusView::All);
    assert_eq!(status_view("text", false, false), StatusView::Current);
    assert_eq!(missing_status(true).len(), 2);
    assert_eq!(missing_status(false).len(), 1);
}

fn project() -> ProjectEntry {
    ProjectEntry {
        root_path: "/p".to_string(),
        root_exists: false,
        db_path: "/p/.inkentry/index.db".to_string(),
        registered_at: 1_000,
        stats: Some(IndexStats {
            file_count: 3,
            chunk_count: 40,
            embedding_count: 5,
            last_indexed: Some(2_000),
        }),
        deps: vec!["/d".to_string()],
    }
}

#[test]
fn projects_are_listed_in_columns() {
    let lines = project_list(&vec![project()], 2_000);
    assert_eq!(lines[0].text, "Files   Chunks    Embeddings  Registered  Root");
    assert_eq!(lines[1].text, "─".repeat(70));
    assert_eq!(lines[2].text, "3       40        5           16m ago     /p [missing]");
    assert!(project_list(&vec![], 0)[0].text.starts_with("No projects registered."));
}

#[test]
fn projects_are_shown_one_by_one() {
    let lines = all_projects(&vec![project()], 2_000);
    let texts: Vec<&str> = lines.iter().map(|l| l.text.as_str()).collect();
    assert_eq!(
        texts,
        vec![
            "\x1b[1m/p\x1b[0m",
            "  \x1b[31m[root path missing from disk]\x1b[0m",
            "  DB: /p/.inkentry/index.db",
            "  Registered: 16m ago",
            "  Files: 3  Chunks: 40  Embeddings: 5",
            "  Last indexed: 0s ago",
            "  Depends on:",
            "    → /d",
            "",
        ]
    );
}

fn input() -> StatusInput {
    StatusInput {
        tier: TierReport::Offline { hint: String::new() },
        mode_line: None,
        mem_label: "sqlite (local)".to_string(),
        project_root: Some("/p".to_string()),
        db_path: "/p/i.db".to_string(),
        stats: IndexStats {
            file_count: 3,
            chunk_count: 40,
            embedding_count: 5,
            last_indexed: Some(2_000),
        },
        text_only_count: 2,
        rebuilt_from: None,
        pending: Some(PendingEmbeds {
            worker_alive: false,
            embedder_unavailable: false,
            embeddable_count: 38,
            total_tokens: 100,
            pending_tokens: 50,
            eta: None,
            embed_threads: Some(1),
        }),
        memory_exists: true,
        memory_missing: Some(1),
        deps: vec![
            DepEntry { root_path: "/d".to_string(), size: Some((1, 2)) },
            DepEntry { root_path: "/e".to_string(), size: None },
        ],
        drift: vec![DriftEntry { days_behind: 31, caller_count: 0, path: "a.rs".to_string() }],
        usage: vec![
            UsageCount { command: "search".to_string(), count: 4 },
            UsageCount { command: "other".to_string(), count: 1 },
        ],
    }
}

#[test]
fn the_status_of_a_project() {
    let lines = status(&input(), 2_000);
    let texts: Vec<&str> = lines.iter().map(|l| l.text.as_str()).collect();
    assert_eq!(texts[4], "Project: \x1b[1m/p\x1b[0m");
    assert_eq!(texts[8], "Embeddings: 5 (2 chunks full-text only)");
    assert!(texts[9].contains("searchable 5/38 chunks (13%)"));
    assert!(texts[10].contains("INKENTRY_EMBED_THREADS"));
    assert!(texts[11].contains("[Memory: 1 entry"));
    assert_eq!(texts[12], "Last index: 0s ago");
    assert_eq!(texts[13], "\nDependencies:");
    assert_eq!(texts[14], "  → /d  (1 files, 2 chunks)");
    assert_eq!(texts[15], "  → /e  (not indexed)");
    assert_eq!(texts[17], "  Days    Callers   File");
    assert_eq!(texts[19], "  31      —         a.rs");
    assert_eq!(texts[21], "\nUsage (last 7 days)");
    assert_eq!(texts[22], "  search            4 calls");
    assert_eq!(texts.len(), 23);
}

#[test]
fn the_fields_for_programs() {
    let i = input();
    let f = status_fields(&i.tier, &i.stats, 0, 2, SyncMode::LocalFirst, Some(3), Some(60), &i.usage);
    assert_eq!(f.embedding_dim, Some(896));
    assert!(!f.has_semantic_search);
    assert_eq!(f.tier, "offline");
    assert_eq!(f.server_url, None);
    assert_eq!(f.embedder_state, None);
    assert!(f.worker_reported);
    assert_eq!(f.refresh_pending, Some(2));
    assert_eq!(f.last_indexed_at.as_deref(), Some("1970-01-01T00:33:20Z"));
    assert_eq!((f.search_calls, f.memory_search_calls), (4, 0));
    assert_eq!(f.sync_pending, Some(3));
    assert_eq!(f.sync_last_synced_at.as_deref(), Some("1970-01-01T00:01:00Z"));
    let g = status_fields(&i.tier, &i.stats, 0, 0, SyncMode::Offline, Some(3), Some(60), &i.usage);
    assert_eq!((g.sync_pending, g.sync_last_synced_at), (None, None));
    assert_eq!((g.worker_reported, g.refresh_pending), (false, None));
    let twice = vec![
        UsageCount { command: "search".to_string(), count: 1 },
        UsageCount { command: "search".to_string(), count: 2 },
    ];
    assert_eq!((count_usage(&twice, "search"), last_usage(&twice, "search")), (1, 2));
    assert_eq!(count_usage(&i.usage, "other"), 1);
    assert_eq!(usage_cutoff(604_801), 1);
}
