use inkentry_cli::config::{Config, SyncMode};
use inkentry_cli::memory::outbox::{
    ack_due, is_applicable, poll_and_apply, register_and_push, relay_target, relay_url,
    RelayPushResult,
};
use inkentry_cli::memory::sync::local_embed::{
    local_embed_summary, pending_embedding_warning, pull_embed_summary, repair_local_embeddings,
    repair_scope, usable_vector, LocalEmbedPolicy, RepairCounts,
};
use inkentry_cli::memory::sync::pull::{
    parse_iso_to_secs, pull_and_apply, re_pull_due, remote_note, secs_or_now, synced_rows, Drain,
    PullSummary, RemoteEntry,
};
use inkentry_cli::memory::sync::push::{
    batch_items, edges_failed_warning, is_durably_persisted, is_multi_chunk, plan_push,
    progress_line, push_relates_to_edges, push_summary, tombstones, BatchResult, ItemResult,
    PushCourse, PushRun, PushStep, PushSummary, RelatesTo, SyncRow,
};
use inkentry_cli::memory::sync::round::{pull_failure_context, sync_round, RoundStep};
use inkentry_cli::memory::sync::{
    memory_sync, resolve_sync_project, sync_warning, synced_count,
};
use inkentry_cli::plumbing::{
    no_index_error, plumbing, publish_notes, publish_remote, pull, push, require_memory_store,
    require_project_id, resolve_memory_path, MemoryPath, PlumbingKind, PlumbingNeed,
    PublishOutcome,
};

fn cfg_with_project(id: Option<&str>) -> Config {
    Config {
        project_id: id.map(str::to_string),
        ..Default::default()
    }
}

#[test]
fn resolve_sync_project_halts_when_nothing_configured_or_passed() {
    let cfg = cfg_with_project(None);
    let err = resolve_sync_project(None, &cfg).unwrap_err();
    let msg = err.to_string();
    assert!(msg.contains("--project <slug>"), "msg: {msg}");
    assert!(
        msg.contains("never guessed") || msg.contains("git remote"),
        "must state it won't auto-derive: {msg}"
    );
}

#[test]
fn resolve_sync_project_uses_cli_flag_when_passed() {
    let cfg = cfg_with_project(None);
    let slug = resolve_sync_project(Some("acme/app"), &cfg).unwrap();
    assert_eq!(slug, "acme/app");
}

#[test]
fn resolve_sync_project_falls_back_to_configured_id() {
    let cfg = cfg_with_project(Some("team/proj"));
    let slug = resolve_sync_project(None, &cfg).unwrap();
    assert_eq!(slug, "team/proj");
}

#[test]
fn resolve_sync_project_cli_flag_overrides_configured_id() {
    let cfg = cfg_with_project(Some("team/proj"));
    let slug = resolve_sync_project(Some("other/slug"), &cfg).unwrap();
    assert_eq!(slug, "other/slug");
}

#[test]
fn resolve_sync_project_treats_blank_slug_as_absent() {
    let cfg = cfg_with_project(None);
    assert!(resolve_sync_project(Some("   "), &cfg).is_err());
}

fn now() -> i64 {
    chrono::Utc::now().timestamp()
}

#[test]
fn parse_iso_to_secs_handles_utc_z() {
    assert_eq!(parse_iso_to_secs("2021-01-01T00:00:00Z", now()), 1_609_459_200);
}

#[test]
fn parse_iso_to_secs_handles_offset() {
    assert_eq!(
        parse_iso_to_secs("2021-01-01T01:00:00+01:00", now()),
        1_609_459_200
    );
}

#[test]
fn parse_iso_to_secs_falls_back_on_garbage() {
    assert!(parse_iso_to_secs("not-a-timestamp", now()) > 0);
    assert_eq!(secs_or_now(None, 5), 5);
    assert_eq!(secs_or_now(Some(3), 5), 3);
}

// ── push ────────────────────────────────────────────────────────────────────

fn row(id: &str, archived: bool, remote: Option<&str>) -> SyncRow {
    SyncRow {
        id: id.to_string(),
        kind: "note".to_string(),
        title: format!("T{id}"),
        body: if id == "e" { String::new() } else { "b".to_string() },
        source_ref: None,
        archived,
        remote_id: remote.map(str::to_string),
    }
}

fn result(status: &str, ext: Option<&str>, id: Option<&str>) -> ItemResult {
    ItemResult {
        status: status.to_string(),
        external_id: ext.map(str::to_string),
        id: id.map(str::to_string),
    }
}

fn answered(run: &mut PushRun, results: Vec<ItemResult>, sent: &[&str]) -> Vec<(String, String)> {
    let res = BatchResult { created: 9, skipped: 9, failed: 9, results };
    let sent: Vec<String> = sent.iter().map(|s| s.to_string()).collect();
    let n = sent.len();
    run.batch_answered(&res, &sent, n)
        .stamps
        .into_iter()
        .map(|s| (s.id, s.remote_id))
        .collect()
}

#[test]
fn push_local_does_not_stamp_remote_id_for_a_failed_status_item() {
    let mut run = PushRun::new();
    let stamps = answered(&mut run, vec![result("failed", Some("a"), Some("cloud-a"))], &["a"]);
    assert!(stamps.is_empty());
    assert_eq!((run.created, run.skipped, run.failed), (0, 0, 1));
    assert!(run.just_synced.is_empty());
}

#[test]
fn push_local_reconciles_counts_from_results_not_aggregate_ints() {
    let mut run = PushRun::new();
    let stamps = answered(
        &mut run,
        vec![
            result("created", Some("a"), Some("cloud-a")),
            result("skipped", Some("b"), Some("cloud-b")),
        ],
        &["a", "b"],
    );
    assert_eq!((run.created, run.skipped, run.failed), (1, 1, 0));
    assert_eq!(
        stamps,
        vec![
            ("a".to_string(), "cloud-a".to_string()),
            ("b".to_string(), "cloud-b".to_string())
        ]
    );
}

#[test]
fn push_local_partial_failure_reports_the_real_successes() {
    let mut run = PushRun::new();
    let stamps = answered(
        &mut run,
        vec![
            result("created", Some("a"), Some("cloud-a")),
            result("failed", Some("b"), Some("cloud-b")),
        ],
        &["a", "b"],
    );
    assert_eq!((run.created, run.skipped, run.failed), (1, 0, 1));
    assert_eq!(stamps, vec![("a".to_string(), "cloud-a".to_string())]);
}

#[test]
fn push_local_total_failure_reports_zero_created_and_skipped() {
    let mut run = PushRun::new();
    let stamps = answered(
        &mut run,
        vec![result("failed", Some("a"), None), result("failed", Some("b"), None)],
        &["a", "b"],
    );
    assert!(stamps.is_empty());
    assert_eq!((run.created, run.skipped, run.failed), (0, 0, 2));
}

#[test]
fn totals_count_only_without_answers_per_row() {
    let mut run = PushRun::new();
    let res = BatchResult { created: 2, skipped: 1, failed: 3, results: vec![] };
    let out = run.batch_answered(&res, &vec![], 6);
    assert_eq!((run.created, run.skipped, run.failed, run.next), (2, 1, 3, 6));
    assert!(out.stamps.is_empty() && out.lines.is_empty());
}

#[test]
fn failed_rows_are_named_and_strangers_are_not_stamped() {
    let mut run = PushRun::new();
    let res = BatchResult {
        created: 0,
        skipped: 0,
        failed: 0,
        results: vec![
            result("failed", Some("a"), None),
            result("failed", None, None),
            result("odd", Some("b"), None),
            result("created", Some("zz"), Some("cloud-z")),
        ],
    };
    let out = run.batch_answered(&res, &vec!["a".to_string(), "b".to_string()], 2);
    assert_eq!(out.lines, vec!["  [push-fail] a", "  [push-fail] <unknown>"]);
    assert!(out.stamps.is_empty());
    assert_eq!((run.created, run.failed), (1, 3));
}

#[test]
fn force_reoffers_synced_rows_and_sends_their_remote_id_as_id() {
    let rows = vec![row("1", false, Some("r1")), row("2", false, Some("r2"))];
    let normal = plan_push(&rows, false);
    assert_eq!((normal.live.len(), normal.already_synced), (0, 2));
    let forced = plan_push(&rows, true);
    assert_eq!((forced.live.clone(), forced.already_synced), (vec![0, 1], 0));
    let items = batch_items(&rows, &forced.live, 0, 2, true, false, &vec![true, true]);
    let ids: Vec<Option<&str>> = items.iter().map(|i| i.id.as_deref()).collect();
    assert_eq!(ids, vec![Some("r1"), Some("r2")]);
}

#[test]
fn normal_push_never_sends_an_id_field() {
    let rows = vec![row("1", false, None), row("e", false, None), row("3", true, None)];
    let plan = plan_push(&rows, false);
    assert_eq!(plan.live, vec![0, 1]);
    let items = batch_items(&rows, &plan.live, 0, 2, false, true, &vec![true, false]);
    assert!(items.iter().all(|i| i.id.is_none()));
    assert_eq!(items[0].body.as_deref(), Some("b"));
    assert_eq!(items[1].body, None);
    assert_eq!(items[0].external_id, "1");
    assert!(items[0].with_vector && !items[1].with_vector);
    let plain = batch_items(&rows, &plan.live, 0, 1, false, false, &vec![true, true]);
    assert!(!plain[0].with_vector);
}

#[test]
fn batches_follow_one_another() {
    let mut run = PushRun::new();
    assert_eq!(run.next_chunk(120), Some((0, 50)));
    run.next = 50;
    assert_eq!(run.next_chunk(120), Some((50, 100)));
    run.next = 100;
    assert_eq!(run.next_chunk(120), Some((100, 120)));
    run.next = 120;
    assert_eq!(run.next_chunk(120), None);
    run.next = 50;
    run.batch_failed("overloaded");
    assert_eq!(run.next_chunk(120), None);
    assert_eq!(run.interrupted.as_deref(), Some("overloaded"));
    assert!(is_multi_chunk(51) && !is_multi_chunk(50));
    assert_eq!(progress_line(50, 120), "Pushed 50/120…");
}

#[test]
fn a_push_repairs_then_sends_then_deletes_then_relates() {
    let totals = |c, s, f| BatchResult { created: c, skipped: s, failed: f, results: vec![] };
    let mut course = PushCourse::new(70);
    assert_eq!(course.current(), PushStep::Repair);
    course.advance();
    assert_eq!(course.current(), PushStep::Send { from: 0, to: 50 });
    let (_, progress) = course.batch_answered(&totals(40, 7, 3), &vec![]);
    assert_eq!(progress.as_deref(), Some("Pushed 47/70…"));
    assert_eq!(course.current(), PushStep::Send { from: 50, to: 70 });
    let (_, progress) = course.batch_answered(&totals(20, 0, 0), &vec![]);
    assert_eq!(progress.as_deref(), Some("Pushed 67/70…"));
    assert_eq!(course.current(), PushStep::Delete);
    course.advance();
    assert_eq!(course.current(), PushStep::Relate);
    course.advance();
    assert_eq!(course.current(), PushStep::Finish);
    assert_eq!((course.run.created, course.run.skipped, course.run.failed), (60, 7, 3));
}

#[test]
fn a_single_batch_tells_no_progress() {
    let mut course = PushCourse::new(50);
    course.advance();
    let res = BatchResult {
        created: 0,
        skipped: 0,
        failed: 0,
        results: vec![result("created", Some("a"), Some("cloud-a"))],
    };
    let (outcome, progress) = course.batch_answered(&res, &vec!["a".to_string()]);
    assert_eq!(progress, None);
    assert_eq!(outcome.stamps.len(), 1);
    assert_eq!(course.run.just_synced, vec!["a"]);
    assert_eq!(course.current(), PushStep::Delete);
}

#[test]
fn an_interrupted_push_neither_deletes_nor_relates() {
    let mut course = PushCourse::new(51);
    course.advance();
    course.batch_failed("overloaded");
    assert_eq!(course.current(), PushStep::Finish);
    assert_eq!(course.run.interrupted.as_deref(), Some("overloaded"));
    let mut empty = PushCourse::new(0);
    empty.advance();
    assert_eq!(empty.current(), PushStep::Delete);
}

#[test]
fn what_follows_the_batches() {
    let rows = vec![row("1", true, Some("r1")), row("2", true, None), row("3", false, Some("r3"))];
    assert_eq!(tombstones(&rows, true, false), vec!["r1"]);
    assert!(tombstones(&rows, true, true).is_empty());
    assert!(tombstones(&rows, false, false).is_empty());
    let edges = vec![
        RelatesTo { from_id: "1".to_string(), to_id: "2".to_string() },
        RelatesTo { from_id: "3".to_string(), to_id: "4".to_string() },
        RelatesTo { from_id: "5".to_string(), to_id: "1".to_string() },
    ];
    let sent = push_relates_to_edges(&edges, &vec!["1".to_string()]);
    assert_eq!(sent.len(), 2);
    assert!(sent.iter().all(|e| e.kind == "relates_to"));
    assert_eq!(sent[1].from_external_id, "5");
    assert!(push_relates_to_edges(&edges, &vec![]).is_empty());
    assert!(edges_failed_warning("c").ends_with("cloud: c"));
    let plan = plan_push(&rows, false);
    let mut run = PushRun::new();
    run.batch_failed("x");
    let s = push_summary(&plan, run, RepairCounts { embedded: 1, without_vector: 2 }, 5, 0);
    assert_eq!((s.attempted, s.already_synced, s.edges_pushed), (0, 1, 0));
    assert_eq!((s.embedded_locally, s.without_local_vector), (1, 2));
    assert!(is_durably_persisted("created") && !is_durably_persisted("failed"));
}

// ── vectors ─────────────────────────────────────────────────────────────────

#[test]
fn vectors_are_repaired_where_the_store_is_local() {
    let local = LocalEmbedPolicy::resolve(&Config::default(), "/p");
    assert!(matches!(&local, LocalEmbedPolicy::Repair { project_root } if project_root == "/p"));
    let remote = Config {
        server_url: Some("u".to_string()),
        mode: SyncMode::CloudFirst,
        ..Default::default()
    };
    let skip = LocalEmbedPolicy::resolve(&remote, "/p");
    assert!(matches!(skip, LocalEmbedPolicy::Skip));
    let floats = vec![Some(896), None, Some(768)];
    assert_eq!(repair_scope(&local, &floats), vec![1, 2]);
    assert!(repair_scope(&skip, &floats).is_empty());
    assert!(usable_vector(Some(896)) && !usable_vector(Some(895)) && !usable_vector(None));
    let c = repair_local_embeddings(3, &Some(vec![true, false, true]));
    assert_eq!((c.embedded, c.without_vector), (2, 1));
    let c = repair_local_embeddings(3, &None);
    assert_eq!((c.embedded, c.without_vector), (0, 3));
}

#[test]
fn what_is_said_of_vectors() {
    let p = |e, w| PullSummary { applied: 0, embedded_locally: e, without_local_vector: w };
    assert_eq!(pull_embed_summary(&p(0, 0)), "");
    assert_eq!(pull_embed_summary(&p(2, 0)), " Embedded 2 synced entries locally.");
    assert_eq!(pull_embed_summary(&p(0, 2)), " 2 synced entries pending embedding.");
    assert_eq!(
        pull_embed_summary(&p(1, 2)),
        " Embedded 1 synced entries locally, 2 pending embedding."
    );
    let warning = pending_embedding_warning(2);
    assert!(warning.contains("2 synced entries"), "{warning}");
    assert!(warning.contains("retries automatically"), "{warning}");
    assert!(pending_embedding_warning(1).contains("1 synced entry could not"));
    assert!(pending_embedding_warning(1).contains("surface it semantically"));
}

// ── pull ────────────────────────────────────────────────────────────────────

#[test]
fn a_walk_ends_at_the_first_short_page() {
    let full: Vec<String> = (0..100).map(|i| format!("id{i}")).collect();
    let mut d = Drain::from(None);
    d.take_page(&full, 90, Some(140));
    assert!(!d.done);
    assert_eq!(d.cursor.as_deref(), Some("id99"));
    d.take_page(&full[..40].to_vec(), 40, None);
    assert!(d.done);
    assert_eq!((d.applied, d.total), (130, Some(140)));
    assert_eq!(d.cursor.as_deref(), Some("id99"));
    let mut e = Drain::from(Some("c".to_string()));
    e.take_page(&vec![], 0, None);
    assert!(e.done);
    assert_eq!((e.applied, e.total, e.cursor.as_deref()), (0, None, Some("c")));
    e.take_page(&full, 0, None);
    assert!(e.done);
    assert_eq!(e.cursor.as_deref(), Some("id99"));
}

#[test]
fn a_sync_moves_what_was_applied_and_what_was_created() {
    let pulled = PullSummary { applied: 4, embedded_locally: 1, without_local_vector: 1 };
    let sent = PushSummary { created: 3, skipped: 9, ..pushed() };
    assert_eq!(synced_count(&sent, &pulled), 7);
}

#[test]
fn everything_is_pulled_again_only_when_the_server_has_more() {
    assert!(re_pull_due(Some(3), 1));
    assert!(!re_pull_due(Some(1), 1));
    assert!(!re_pull_due(None, 1));
    let s = pull_and_apply(2, Some(3), RepairCounts { embedded: 1, without_vector: 4 });
    assert_eq!((s.applied, s.embedded_locally, s.without_local_vector), (5, 1, 4));
    let both = s.merge(PullSummary { applied: 1, embedded_locally: 2, without_local_vector: 0 });
    assert_eq!((both.applied, both.embedded_locally, both.without_local_vector), (6, 3, 0));
    let rows = vec![row("1", false, None), row("2", false, Some("r"))];
    assert_eq!(synced_rows(&rows), vec![1]);
}

#[test]
fn a_remote_entry_is_applied_as_it_is() {
    let e = RemoteEntry {
        id: "r".to_string(),
        kind: "note".to_string(),
        title: "T".to_string(),
        body: None,
        source_commit: Some("s".to_string()),
        created_at: "2021-01-01T00:00:00Z".to_string(),
        archived: true,
    };
    let n = remote_note(&e, 7);
    assert_eq!((n.remote_id.as_str(), n.body.as_str(), n.archived), ("r", "", true));
    assert_eq!(n.created_secs, 1_609_459_200);
    assert_eq!(n.source_commit.as_deref(), Some("s"));
    let odd = RemoteEntry { created_at: "x".to_string(), ..e };
    assert_eq!(remote_note(&odd, 7).created_secs, 7);
}

// ── rounds ──────────────────────────────────────────────────────────────────

fn pushed() -> PushSummary {
    PushSummary {
        attempted: 3,
        created: 1,
        skipped: 1,
        failed: 0,
        already_synced: 4,
        interrupted: None,
        embedded_locally: 0,
        without_local_vector: 0,
        edges_pushed: 0,
        anchors_pushed: 0,
    }
}

fn pulled() -> PullSummary {
    PullSummary { applied: 2, embedded_locally: 0, without_local_vector: 0 }
}

#[test]
fn sync_round_established_client_keeps_pull_before_push_order() {
    let steps = sync_round(&Some("c".to_string()));
    assert_eq!(steps.len(), 3);
    assert!(matches!(&steps[0], RoundStep::Pull(Some(c)) if c == "c"));
    assert!(matches!(&steps[1], RoundStep::Push));
    assert!(matches!(&steps[2], RoundStep::Pull(Some(c)) if c == "c"));
    let first = sync_round(&None);
    assert!(matches!(&first[0], RoundStep::Push));
    assert!(matches!(&first[1], RoundStep::Pull(None)));
    assert_eq!(first.len(), 2);
    let ctx = pull_failure_context(true, &pushed());
    assert!(ctx.contains("post-push pull failed") && ctx.contains("1 created"));
    assert!(pull_failure_context(false, &pushed()).starts_with("confirmation pull failed"));
}

#[test]
fn a_sync_says_how_it_ended() {
    assert_eq!(
        memory_sync(&pushed(), &pulled()).unwrap(),
        "Sync complete. Pushed 3 entries (created 1, skipped 1), applied 2 new remote entries."
    );
    let some_failed = PushSummary { failed: 1, edges_pushed: 2, anchors_pushed: 1, ..pushed() };
    assert_eq!(
        memory_sync(&some_failed, &pulled()).unwrap(),
        "Sync complete. Pushed 3 entries (created 1, skipped 1, 1 failed), applied 2 new remote \
         entries. Linked 2 relationship edge(s). Sent 1 anchor update(s)."
    );
    let nothing = PushSummary { attempted: 0, ..pushed() };
    assert_eq!(
        memory_sync(&nothing, &pulled()).unwrap(),
        "Nothing to push: 4 entries already synced. Applied 2 new remote entries."
    );
    let stopped = PushSummary { interrupted: Some("busy".to_string()), ..pushed() };
    assert_eq!(
        memory_sync(&stopped, &pulled()).unwrap_err(),
        "Pushed 2 of 3 entries, then stopped: busy. Re-run to resume (already-pushed entries are \
         skipped). Pull applied 2 new remote entries."
    );
    let failed = PushSummary { created: 0, skipped: 0, failed: 3, ..pushed() };
    assert_eq!(
        memory_sync(&failed, &pulled()).unwrap_err(),
        "Sync failed: 0 of 3 push entries reached the server (3 failed); pull still applied 2 new \
         remote entries."
    );
    let vectors = PushSummary { embedded_locally: 2, without_local_vector: 1, ..pushed() };
    assert_eq!(
        local_embed_summary(&vectors),
        " Embedded 2 locally, 1 without a local embedding."
    );
    assert_eq!(sync_warning(&pushed(), &pulled()), None);
    assert!(sync_warning(&vectors, &pulled()).unwrap().contains("1 synced entry"));
    let later = PullSummary { without_local_vector: 5, ..pulled() };
    assert!(sync_warning(&vectors, &later).unwrap().contains("5 synced entries"));
}

// ── the relay ───────────────────────────────────────────────────────────────

#[test]
fn a_relay_works_for_a_local_store_with_a_server_and_a_project() {
    let full = Config {
        server_url: Some("https://t".to_string()),
        project_id: Some("p".to_string()),
        mode: SyncMode::LocalFirst,
    };
    let t = relay_target(&full).unwrap();
    assert_eq!((t.server_url.as_str(), t.project_id.as_str()), ("https://t", "p"));
    assert!(relay_target(&Config { mode: SyncMode::Offline, ..full }).is_none());
    assert!(relay_target(&cfg_with_project(Some("p"))).is_none());
    assert_eq!(relay_url(4655, "push"), "http://127.0.0.1:4655/local/relay/push");
}

#[test]
fn what_waits_is_handed_over() {
    let mut rows: Vec<SyncRow> = (0..250).map(|i| row(&i.to_string(), false, None)).collect();
    rows.insert(0, row("x", true, None));
    rows.insert(0, row("y", false, Some("r")));
    let entries = register_and_push(&rows);
    assert_eq!(entries.len(), 200);
    assert_eq!(entries[0].external_id, "0");
    assert_eq!(entries[199].external_id, "199");
    assert!(register_and_push(&vec![]).is_empty());
}

#[test]
fn only_what_the_store_took_is_acknowledged() {
    let r = |ext: &str, remote: Option<&str>, status: &str| RelayPushResult {
        external_id: ext.to_string(),
        remote_id: remote.map(str::to_string),
        status: status.to_string(),
    };
    let results = vec![
        r("a", Some("1"), "created"),
        r("b", Some("2"), "failed"),
        r("c", None, "skipped"),
        r("d", Some("4"), "skipped"),
    ];
    assert!(is_applicable(&results[0]) && !is_applicable(&results[1]) && !is_applicable(&results[2]));
    let ids = vec!["p".to_string(), "q".to_string()];
    let o = poll_and_apply(&results, &vec![true, true, true, false], &ids, &vec![false, true], Some(9), Some("e".into()));
    assert_eq!(o.acked_push_ids, vec!["a"]);
    assert_eq!(o.acked_pull_ids, vec!["q"]);
    assert_eq!((o.applied_pushes, o.applied_pulls), (1, 1));
    assert!(ack_due(&o));
    let none = poll_and_apply(&results, &vec![false; 4], &ids, &vec![false, false], None, None);
    assert_eq!((o.last_synced_at, o.last_error.as_deref()), (Some(9), Some("e")));
    assert!(!ack_due(&none));
}

// ── for programs ────────────────────────────────────────────────────────────

#[test]
fn commands_for_programs_need_what_they_use() {
    assert_eq!(plumbing(PlumbingKind::Embed), PlumbingNeed::Nothing);
    assert_eq!(plumbing(PlumbingKind::Push), PlumbingNeed::ExistingStore);
    assert_eq!(plumbing(PlumbingKind::Pull), PlumbingNeed::Store);
    assert_eq!(plumbing(PlumbingKind::Knn), PlumbingNeed::Index);
    assert!(no_index_error().starts_with("No index found"));
    assert!(matches!(resolve_memory_path(true, true, "/g"), MemoryPath::BesideGiven));
    assert!(matches!(resolve_memory_path(false, true, "/g"), MemoryPath::InProject));
    assert!(matches!(resolve_memory_path(false, false, "/g"), MemoryPath::Global(n)
        if n.ends_with("store at /g")));
    assert!(require_memory_store("/m", true, &Config::default()).is_ok());
    assert!(require_memory_store("/m", false, &Config::default())
        .unwrap_err()
        .starts_with("No memory store found at /m."));
    assert_eq!(require_project_id(&cfg_with_project(Some("p"))).unwrap(), "p");
    assert!(require_project_id(&cfg_with_project(None)).is_err());
}

#[test]
fn transfers_for_programs_exit_by_what_moved() {
    let end = push(&pushed()).unwrap();
    assert_eq!((end.exit_code, end.report.created, end.report.interrupted), (0, 1, false));
    let known = PushSummary { created: 0, ..pushed() };
    assert_eq!(push(&known).unwrap().exit_code, 1);
    let failed = PushSummary { created: 0, skipped: 0, failed: 2, ..pushed() };
    assert_eq!(
        push(&failed).unwrap_err(),
        "push failed: 0 of 3 entries reached the server (2 failed)."
    );
    let stopped = PushSummary { interrupted: Some("busy".to_string()), ..pushed() };
    assert!(push(&stopped).unwrap_err().starts_with("pushed 2 of 3 entries, then stopped: busy."));
    assert_eq!(pull(&pulled()), 0);
    assert_eq!(pull(&PullSummary::default()), 1);
}

#[test]
fn publishing_fails_softly_in_a_hook() {
    assert_eq!(publish_remote(None), "origin");
    assert_eq!(publish_remote(Some("up")), "up");
    let ok = publish_notes(PublishOutcome::Published { attempts: 2 }, "origin", false)
        .ok()
        .unwrap();
    assert!(ok.report.published && ok.lines.is_empty());
    assert_eq!(ok.report.attempts, Some(2));
    let locked = PublishOutcome::Skipped { reason: "lock".to_string(), lock_unavailable: true };
    let skipped = publish_notes(locked, "origin", false).ok().unwrap();
    assert_eq!(skipped.lines.len(), 2);
    assert_eq!(skipped.report.skipped.as_deref(), Some("lock"));
    let soft = publish_notes(PublishOutcome::Failed("e".to_string()), "up", true).ok().unwrap();
    assert_eq!(soft.lines[1], "inkentry: your code push is unaffected. Retry with: git push up refs/notes/inkentry");
    let hard = publish_notes(PublishOutcome::Failed("e".to_string()), "up", false);
    assert_eq!(hard.err().unwrap(), "e");
}
