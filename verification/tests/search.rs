use inkentry_cli::search::{
    annotate_dep_results, annotate_specs, budget_line, corpus_notices, embed_degraded, emit_budget,
    empty_message, graph_new_ids, graph_wanted, index_path, linearrag_fetch, memory_missing_count,
    memory_warmup_notice, merge_hits, output_format, pack_budget, print_empty, print_unified_text,
    refresh_pending_notice, resolve_project_and_deps, result_list, search,
    search_all_dbs_linearrag, search_plan,
    semantic_unavailable_message, stale_warning, token_source, unified_token_estimate,
    warmup_notice_partial, warmup_notice_zero, CodeHit, Corpora, EmbedderState, DepHits, MemoryHit,
    OfflineReason, OutputFormat, SearchReport, Tier, TokenSource, UnifiedResult,
};

#[test]
fn empty_message_is_bare_when_every_in_scope_corpus_is_complete() {
    let m = empty_message(true, true, false, Some((100, 100)), 0, 0, None);
    assert_eq!(m, "No results found.");
}

#[test]
fn empty_message_only_text_is_always_bare() {
    let m = empty_message(true, true, true, Some((0, 100)), 5, 9, None);
    assert_eq!(m, "No results found.");
}

#[test]
fn empty_message_names_partial_code_coverage_and_fraction() {
    let m = empty_message(true, true, false, Some((40, 100)), 0, 0, None);
    assert!(m.starts_with("No results found ("), "qualified: {m}");
    assert!(m.contains("40/100"), "names the fraction: {m}");
    assert_ne!(m, "No results found.");
}

#[test]
fn empty_message_names_pending_freshness_so_it_is_not_unqualified() {
    let m = empty_message(true, true, false, Some((100, 100)), 3, 0, None);
    assert_ne!(m, "No results found.");
    assert!(m.contains("re-embedding"), "names refinement-pending: {m}");
    assert!(m.contains("rankings may still shift"), "{m}");
}

#[test]
fn empty_message_names_partial_memory() {
    let m = empty_message(true, true, false, Some((100, 100)), 0, 2, None);
    assert_ne!(m, "No results found.");
    assert!(m.contains("2 memory entries not embedded yet"), "{m}");
}

#[test]
fn empty_message_ignores_out_of_scope_corpus_incompleteness() {
    let m = empty_message(true, false, false, Some((100, 100)), 0, 7, None);
    assert_eq!(m, "No results found.");
    let m = empty_message(false, true, false, Some((0, 100)), 4, 0, None);
    assert_eq!(m, "No results found.");
}

#[test]
fn empty_message_names_a_rebuilt_index_that_was_never_repopulated() {
    let m = empty_message(true, true, false, Some((0, 0)), 0, 0, Some(15));
    assert_ne!(m, "No results found.");
    assert!(m.contains("rebuilt from schema version 15"), "{m}");
    assert!(m.contains("inkentry index ."), "names the fix: {m}");
}

#[test]
fn empty_message_names_a_rebuilt_index_under_only_text_too() {
    let m = empty_message(true, true, true, Some((0, 0)), 0, 0, Some(15));
    assert!(m.contains("rebuilt from"), "{m}");
}

#[test]
fn empty_message_names_an_unstamped_rebuild_without_inventing_a_version() {
    let m = empty_message(true, true, false, Some((0, 0)), 0, 0, Some(0));
    assert!(m.contains("an older, unstamped schema"), "{m}");
    assert!(!m.contains("version 0"), "no such schema version: {m}");
}

#[test]
fn empty_message_ignores_a_rebuilt_code_index_under_only_memory() {
    let m = empty_message(false, true, false, None, 0, 0, Some(15));
    assert_eq!(m, "No results found.");
}

#[test]
fn empty_message_joins_what_is_missing() {
    let m = empty_message(true, true, false, Some((1, 4)), 2, 1, None);
    assert_eq!(
        m,
        "No results found (code searchable 1/4 chunks; 2 code chunk(s) await re-embedding, so \
         rankings may still shift; 1 memory entry not embedded yet)."
    );
}

#[test]
fn partial_notice_names_coverage_and_its_front_loaded_shape() {
    let n = warmup_notice_partial(11_813, 27_734);
    assert!(n.contains("11813/27734"), "labelled coverage: {n}");
    assert!(n.contains("42%"), "carries the percentage: {n}");
    assert!(
        n.contains("front-loaded by importance and recency"),
        "names the shape: {n}"
    );
    assert!(n.contains("inkentry status"), "actionable: {n}");
}

#[test]
fn zero_notice_uses_fts_not_ast_grep() {
    let n = warmup_notice_zero(27_734);
    assert!(n.contains("0/27734"));
    assert!(n.contains("full-text search"));
    assert!(!n.contains("ast-grep"), "the ast-grep degrade is gone: {n}");
}

#[test]
fn refresh_notice_names_pending_and_shifting_rankings() {
    let n = refresh_pending_notice(12);
    assert!(n.contains("12 chunk(s)"));
    assert!(n.contains("rankings may shift"));
}

#[test]
fn memory_warmup_notice_singular_and_plural() {
    assert!(memory_warmup_notice(1).contains("1 memory entry not yet embedded"));
    assert!(memory_warmup_notice(3).contains("3 memory entries not yet embedded"));
    assert!(memory_warmup_notice(3).contains("full-text search"));
}

#[test]
fn notices_follow_the_corpora_that_are_searched() {
    let all = corpus_notices(true, true, false, Some((0, 5)), 2, 1);
    assert_eq!(all.len(), 3);
    assert!(all[0].contains("0/5 chunks embedded"));
    assert!(corpus_notices(true, true, true, Some((0, 5)), 2, 1).is_empty());
    assert_eq!(corpus_notices(false, true, false, Some((0, 5)), 2, 1).len(), 1);
    assert!(corpus_notices(true, false, false, Some((5, 5)), 0, 1).is_empty());
}

fn server_tier(state: EmbedderState, auto_discovered: bool, url: &str) -> Tier {
    Tier::Server {
        url: url.to_string(),
        auto_discovered,
        embedder_state: state,
    }
}

fn offline(reason: OfflineReason) -> Tier {
    Tier::Offline { reason, advice: None }
}

#[test]
fn unavailable_notice_degrades_to_full_text_never_ast_grep() {
    let mut tiers: Vec<Tier> = [
        EmbedderState::Loading,
        EmbedderState::Unavailable,
        EmbedderState::Ready,
    ]
    .into_iter()
    .map(|s| server_tier(s, true, "http://127.0.0.1:4655"))
    .collect();
    tiers.extend(
        [
            OfflineReason::KillSwitch,
            OfflineReason::ModeOfflineEnv,
            OfflineReason::ModeOfflineConfig,
            OfflineReason::ExplicitServerUnavailable,
            OfflineReason::LocalServerUnusable,
            OfflineReason::RecordedServerUnreachable,
            OfflineReason::NoLocalServer,
        ]
        .into_iter()
        .map(offline),
    );

    for tier in &tiers {
        let msg = semantic_unavailable_message(tier, Some("http://x:1"), false);
        assert!(!msg.is_empty());
        assert!(
            !msg.contains("ast-grep"),
            "no ast-grep degrade remains: {msg}"
        );
    }
}

#[test]
fn unavailable_loopback_points_at_local_logs() {
    let tier = server_tier(EmbedderState::Unavailable, true, "http://127.0.0.1:4655");
    let msg = semantic_unavailable_message(&tier, Some("http://x:1"), false);
    assert!(msg.contains("failed to load"));
    assert!(msg.contains("inkentry server logs"));
}

#[test]
fn unavailable_remote_names_that_server_never_local_logs() {
    let tier = server_tier(EmbedderState::Unavailable, false, "https://team.example:4655");
    let msg = semantic_unavailable_message(&tier, Some("http://x:1"), false);
    assert!(msg.contains("https://team.example:4655"), "got: {msg}");
    assert!(
        !msg.contains("inkentry server logs"),
        "must not point a remote failure at local logs: {msg}"
    );
}

#[test]
fn no_server_with_configured_url_names_it_and_windows_hint_only_on_windows() {
    let tier = offline(OfflineReason::ExplicitServerUnavailable);
    let win = semantic_unavailable_message(&tier, Some("https://team.example:4655"), true);
    assert!(win.contains("https://team.example:4655"));
    assert!(win.contains("no server reachable"));
    assert!(win.contains("Firewall"));
    assert!(win.contains("overriding"));
    let unix = semantic_unavailable_message(&tier, Some("https://team.example:4655"), false);
    assert!(!unix.contains("Firewall"));
}

#[test]
fn no_server_no_url_suggests_starting_one() {
    let tier = offline(OfflineReason::NoLocalServer);
    let msg = semantic_unavailable_message(&tier, None, false);
    assert!(msg.contains("inkentry server start"));
}

const NO_LOCAL_SERVER_NOTICE: &str = "[no server running \u{2014} start one with \
     `inkentry server start` to enable semantic ranking; using full-text search]";

#[test]
fn genuinely_no_server_and_no_server_url_keeps_its_existing_text() {
    let tier = offline(OfflineReason::NoLocalServer);
    assert_eq!(
        semantic_unavailable_message(&tier, None, false),
        NO_LOCAL_SERVER_NOTICE
    );
}

#[test]
fn a_loopback_offline_reason_never_names_the_configured_server_url() {
    for reason in [
        OfflineReason::NoLocalServer,
        OfflineReason::LocalServerUnusable,
        OfflineReason::RecordedServerUnreachable,
    ] {
        let tier = offline(reason);
        let msg = semantic_unavailable_message(&tier, Some("https://team.example:4655"), false);
        assert!(
            !msg.contains("https://team.example:4655"),
            "{reason:?} names a server the inference probe never contacted: {msg}"
        );
    }
}

#[test]
fn shared_advice_goes_before_the_reason() {
    let tier = Tier::Offline {
        reason: OfflineReason::KillSwitch,
        advice: Some("offline by choice".to_string()),
    };
    assert_eq!(
        semantic_unavailable_message(&tier, Some("https://t:1"), false),
        "[offline by choice; using full-text search]"
    );
}

// ── the plan ────────────────────────────────────────────────────────────────

#[test]
fn a_plan_asks_for_enough_and_never_too_much() {
    let p = search_plan(false, false, false, 10, None);
    assert!(p.want_code && p.want_memory && p.embed_code && p.embed_memory);
    assert_eq!((p.fetch_limit, p.fuse_cap), (10, 10));
    let p = search_plan(false, false, false, 500, None);
    assert_eq!((p.fetch_limit, p.fuse_cap, p.attach_limit), (100, 100, 100));
    let p = search_plan(true, false, false, 10, Some(100));
    assert_eq!((p.fetch_limit, p.fuse_cap), (20, 40));
    assert!(!p.want_memory && !p.embed_memory);
    let p = search_plan(false, true, false, 10, Some(2_500));
    assert_eq!(p.fetch_limit, 50);
    assert!(!p.want_code);
    let p = search_plan(false, false, true, 10, Some(1_000_000));
    assert_eq!(p.fetch_limit, 100);
    assert!(!p.embed_code && !p.embed_memory);
}

#[test]
fn ranking_is_degraded_only_where_it_was_wanted() {
    assert!(embed_degraded(false, true, true, false, false, false));
    assert!(!embed_degraded(false, true, true, true, true, true));
    assert!(embed_degraded(false, true, true, true, true, false));
    assert!(!embed_degraded(true, true, true, false, false, false));
    assert!(!embed_degraded(false, true, false, true, true, false));
}

#[test]
fn fetches_are_at_least_ten_more() {
    assert_eq!(linearrag_fetch(3), 13);
    assert_eq!(linearrag_fetch(10), 20);
    assert_eq!(linearrag_fetch(40), 80);
}

#[test]
fn a_missing_store_has_no_missing_entries() {
    assert_eq!(memory_missing_count(false, Some(3)), 0);
    assert_eq!(memory_missing_count(true, None), 0);
    assert_eq!(memory_missing_count(true, Some(3)), 3);
}

#[test]
fn a_stale_index_is_warned_of() {
    assert_eq!(stale_warning(0, 20), None);
    assert_eq!(
        stale_warning(3, 20).unwrap(),
        "warning: index may be stale (3/20 sampled files changed). Run `inkentry index .` to refresh."
    );
}

#[test]
fn formats_that_are_not_known_are_text() {
    assert_eq!(output_format("json"), OutputFormat::Json);
    assert_eq!(output_format("jsonl"), OutputFormat::Jsonl);
    assert_eq!(output_format("yaml"), OutputFormat::Text);
    assert_eq!(
        print_empty("json", true, true, false, Some((1, 2)), 0, 0, None).as_deref(),
        Some("[]")
    );
    assert_eq!(print_empty("jsonl", true, true, false, Some((1, 2)), 0, 0, None), None);
    assert_eq!(
        print_empty("text", true, true, false, Some((2, 2)), 0, 0, None).as_deref(),
        Some("No results found.")
    );
}

#[test]
fn an_index_is_needed_only_for_code() {
    assert_eq!(index_path(None, "p", "r"), "p");
    assert_eq!(index_path(Some("x"), "p", "r"), "r");
    assert_eq!(resolve_project_and_deps(false, "p", false, false).unwrap(), "p");
    assert!(resolve_project_and_deps(false, "p", true, false)
        .unwrap_err()
        .starts_with("No index found"));
    assert_eq!(
        resolve_project_and_deps(true, "/p.db", true, false).unwrap_err(),
        "Database not found at '/p.db'. Run `inkentry index <path>` first."
    );
}

// ── packing ─────────────────────────────────────────────────────────────────

#[test]
fn packing_skips_what_does_not_fit_and_stops_when_little_is_left() {
    let p = pack_budget(&vec![50, 60, 30, 15, 1], 100);
    assert_eq!(p.kept, vec![0, 2, 3]);
    assert_eq!((p.used, p.remaining), (95, 5));
    let p = pack_budget(&vec![], 7);
    assert_eq!((p.kept.len(), p.used, p.remaining), (0, 0, 7));
    let p = pack_budget(&vec![20, 0], 5);
    assert!(p.kept.is_empty());
    assert_eq!(budget_line(95, 100), "tokens used: 95/100");
}

fn hit(id: i64, path: &str, start: usize, end: usize, distance: i32) -> CodeHit {
    CodeHit {
        chunk_id: id,
        file_path: path.to_string(),
        language: "rust".to_string(),
        start_line: start,
        end_line: end,
        node_type: "function".to_string(),
        name: Some("f".to_string()),
        content: "a\nb\nc\nd\ne".to_string(),
        summary: None,
        token_count: 0,
        from_graph: false,
        project_name: None,
        project_path: None,
        governing_specs: vec![],
        distance,
    }
}

#[test]
fn merged_hits_are_nearest_first_and_each_span_once() {
    let hits = vec![
        hit(1, "b.rs", 1, 9, 5),
        hit(2, "a.rs", 1, 9, 5),
        hit(3, "b.rs", 1, 9, 2),
        hit(4, "c.rs", 1, 9, -1),
        hit(5, "a.rs", 1, 8, 5),
    ];
    assert_eq!(merge_hits(&hits, 10), vec![3, 2, 4, 1]);
    assert_eq!(merge_hits(&hits, 2), vec![3, 2]);
    assert_eq!(merge_hits(&vec![], 2), Vec::<usize>::new());
}

#[test]
fn equal_distances_go_by_path_then_place_then_number() {
    let hits = vec![
        hit(9, "a.rs", 2, 3, 0),
        hit(7, "a.rs", 1, 3, 0),
        hit(5, "a", 4, 4, 0),
        hit(3, "é.rs", 1, 1, 0),
    ];
    assert_eq!(merge_hits(&hits, 10), vec![2, 1, 0, 3]);
}

#[test]
fn linked_results_carry_their_project() {
    let mut hits = vec![hit(1, "a", 1, 1, 0), hit(2, "b", 1, 1, 0)];
    annotate_dep_results(&mut hits, Some("dep".to_string()), "/dep".to_string());
    assert!(hits.iter().all(|h| h.project_name.as_deref() == Some("dep")));
    assert!(hits.iter().all(|h| h.project_path.as_deref() == Some("/dep")));
    assert_eq!(hits[1].chunk_id, 2);
}

#[test]
fn specs_are_put_where_a_lookup_worked() {
    let mut hits = vec![hit(1, "a", 1, 1, 0), hit(2, "b", 1, 1, 0)];
    hits[1].governing_specs = vec!["old".to_string()];
    let per = vec![Some(vec!["s".to_string()]), None];
    annotate_specs(&mut hits, false, &per);
    assert!(hits[0].governing_specs.is_empty());
    annotate_specs(&mut hits, true, &per);
    assert_eq!(hits[0].governing_specs, vec!["s".to_string()]);
    assert_eq!(hits[1].governing_specs, vec!["old".to_string()]);
}

#[test]
fn the_appendix_is_bounded_and_new() {
    assert!(graph_wanted(true, true, 1, 1));
    assert!(!graph_wanted(true, true, 1, 0));
    assert!(!graph_wanted(true, false, 1, 1));
    assert_eq!(graph_new_ids(&vec![4, 1, 5, 6], &vec![1, 2], 2), vec![4, 5]);
    let a: Vec<MemoryHit> = (0..3)
        .map(|i| MemoryHit {
            id: i.to_string(),
            kind: "note".to_string(),
            title: "t".to_string(),
            body: "b".to_string(),
            source_project: None,
        })
        .collect();
    let ranked = UnifiedResult { code: Some(hit(1, "a", 1, 1, 0)), memory: None, fused_rank: Some(0) };
    let all = result_list(
        vec![ranked],
        vec![hit(2, "b", 1, 1, 0)],
        a,
        &search_plan(false, false, false, 2, None),
    );
    assert_eq!(all.len(), 4);
    assert_eq!(all.iter().filter(|u| u.fused_rank.is_some()).count(), 1);
    assert!(all[0].fused_rank.is_some() && !all[0].code.as_ref().unwrap().from_graph);
    assert!(all[1].code.as_ref().unwrap().from_graph);
    assert!(all[2].memory.is_some() && all[3].memory.is_some());
}

#[test]
fn several_indexes_give_one_list() {
    let dep = DepHits {
        project_name: "lib".to_string(),
        project_path: "/lib".to_string(),
        hits: vec![hit(7, "a", 1, 2, 1), hit(8, "c", 1, 2, 0)],
    };
    let primary = vec![hit(1, "a", 1, 2, 3), hit(2, "b", 1, 2, 2)];
    let all = search_all_dbs_linearrag(primary, vec![dep], 10);
    let got: Vec<(i64, Option<&str>)> =
        all.iter().map(|h| (h.chunk_id, h.project_name.as_deref())).collect();
    assert_eq!(got, vec![(8, Some("lib")), (7, Some("lib")), (2, None)]);
    assert_eq!(all[0].project_path.as_deref(), Some("/lib"));
}

#[test]
fn no_more_than_a_hundred_results_are_ranked() {
    let many = |n: usize| -> Vec<UnifiedResult> {
        (0..n)
            .map(|i| UnifiedResult {
                code: Some(hit(i as i64, "a", i, i, 0)),
                memory: None,
                fused_rank: Some(i),
            })
            .collect()
    };
    let plan = search_plan(false, false, false, 150, None);
    assert_eq!(result_list(many(150), vec![], vec![], &plan).len(), 100);
    let plan = search_plan(false, false, false, 7, None);
    assert_eq!(result_list(many(150), vec![], vec![], &plan).len(), 7);
}

#[test]
fn tokens_are_known_or_estimated() {
    let mut h = hit(1, "a", 1, 1, 0);
    h.token_count = 7;
    let u = UnifiedResult { code: Some(h), memory: None, fused_rank: Some(0) };
    assert!(matches!(token_source(&u), TokenSource::Known(7)));
    let m = UnifiedResult {
        code: None,
        memory: Some(MemoryHit {
            id: "1".to_string(),
            kind: "note".to_string(),
            title: "T".to_string(),
            body: "B".to_string(),
            source_project: None,
        }),
        fused_rank: None,
    };
    let src = token_source(&m);
    assert!(matches!(&src, TokenSource::Estimate(s) if s == "T\nB"));
    assert_eq!(unified_token_estimate(&src, 12), 12);
    assert_eq!(unified_token_estimate(&TokenSource::Known(7), 12), 7);
    let none = UnifiedResult { code: None, memory: None, fused_rank: None };
    assert!(matches!(token_source(&none), TokenSource::Known(0)));
}

#[test]
fn results_are_labelled_with_their_corpus() {
    let mut c = hit(1, "src/a.rs", 3, 9, 0);
    c.summary = Some("does a".to_string());
    c.project_name = Some("dep".to_string());
    let code = UnifiedResult { code: Some(c), memory: None, fused_rank: Some(1) };
    let memory = UnifiedResult {
        code: None,
        memory: Some(MemoryHit {
            id: "42".to_string(),
            kind: "decision".to_string(),
            title: "T".to_string(),
            body: "x\r\ny\nz".to_string(),
            source_project: Some("p".to_string()),
        }),
        fused_rank: None,
    };
    let all = vec![code, memory];
    let lines = print_unified_text(&all);
    let texts: Vec<&str> = lines.iter().map(|l| l.text.as_str()).collect();
    assert_eq!(
        texts,
        vec![
            "\x1b[2m[code]\x1b[0m \x1b[36m[dep]\x1b[0m \x1b[1msrc/a.rs\x1b[0m  \x1b[2mrust:3-9\x1b[0m  \x1b[33m[function: f]\x1b[0m",
            "    Summary: does a",
            "    a",
            "    b",
            "    c",
            "    d",
            "",
            "\x1b[2m[memory · attached]\x1b[0m \x1b[33m[decision]\x1b[0m #42  \x1b[1mT\x1b[0m  \x1b[36m[from: p]\x1b[0m",
            "    x",
            "    y",
            "",
        ]
    );
    assert!(lines[0].styled && !lines[1].styled);
    let corpora = Corpora {
        want_code: true,
        want_memory: true,
        only_text: false,
        code_coverage: Some((1, 2)),
        code_refresh_pending: 0,
        memory_missing: 0,
        rebuilt_unpopulated: None,
    };
    let costs = vec![90, 20];
    match emit_budget("text", &all, &costs, 100) {
        SearchReport::Text { lines } => {
            assert_eq!(lines.last().unwrap().text, "tokens used: 90/100");
            assert_eq!(lines.len(), 8);
        }
        _ => panic!("text was asked for"),
    }
    match search("json", &all, Some(100), &costs, &corpora) {
        SearchReport::Json { kept, frame: Some(f) } => {
            assert_eq!(kept, vec![0]);
            assert_eq!((f.token_budget, f.tokens_used, f.tokens_remaining), (100, 90, 10));
        }
        _ => panic!("an object was asked for"),
    }
    assert!(matches!(search("jsonl", &all, None, &costs, &corpora),
        SearchReport::Jsonl { kept } if kept == vec![0, 1]));
    assert!(matches!(search("json", &all, None, &costs, &corpora),
        SearchReport::Json { frame: None, .. }));
    assert!(matches!(search("text", &all, None, &costs, &corpora),
        SearchReport::Text { lines: l } if l.len() == lines.len()));
    assert!(matches!(search("text", &vec![], Some(5), &vec![], &corpora),
        SearchReport::Empty { line: Some(l) } if l == "No results found (code searchable 1/2 chunks)."));
    assert!(matches!(search("jsonl", &vec![], None, &vec![], &corpora),
        SearchReport::Empty { line: None }));
}
