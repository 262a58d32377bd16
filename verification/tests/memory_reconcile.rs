use inkentry_cli::memory::anchor::{
    anchor_note_now, anchor_now_error, claim_pending, claims, commit_revision, find_unique_match,
    first_parent_revision, reconcile_orphaned_anchors, reconcile_pending_rows, resolve_note,
    rev_parse, source_of, AnchorEvent, AnchorStep, NotedRecord, PendingAnchor,
};
use inkentry_cli::memory::import::{
    git_note_row, git_notes_source_ref, git_notes_step, import_git_notes_into_memory, import_row, read_path_start, reconcile_source_ref,
    select_new_notes, stored_status, tracking_merge_due, working_import_due, GitNotesImport,
    GitNotesStep, ImportAction, NotesWrite, ImportBatch, ImportEvent, ReadPathStart, GIT_NOTES_IMPORT_LIMIT,
};
use inkentry_cli::memory::note::Note;
use inkentry_cli::memory::reconcile::{
    build_supersede_edges, collapse_candidates, count_reconcilable, count_vectorless,
    empty_summary, print_human_summary, import_failed, link_supersedes, local_ids, no_projects_message,
    nudge_message, plan_reconcile, reconcile_project, source_unreadable, split_csv,
    summary_after_import, ReconcileStep, ServerNote, StoredNote,
};
use inkentry_cli::order::order_by_key;
use inkentry_cli::text::{
    contains, dec_i64, ends_with, lines, pad_left, pad_right, replace, split_on, starts_with,
    take_bytes, trim,
};

#[test]
fn lists_are_trimmed_and_empty_items_left_out() {
    assert_eq!(split_csv(" a, ,b ,,"), vec!["a", "b"]);
    assert_eq!(split_csv(""), Vec::<String>::new());
}

fn note(id: i64, entity: &str, tags: &str, at: i64, status: &str, succ: Option<i64>) -> ServerNote {
    ServerNote {
        id,
        entity_id: entity.to_string(),
        kind: "decision".to_string(),
        title: format!("title {entity}"),
        body: format!("body {entity}"),
        tags: tags.to_string(),
        linked_files: "f.rs".to_string(),
        created_at: at,
        status: status.to_string(),
        superseded_by: succ,
    }
}

fn stored(entity: &str, id: &str) -> StoredNote {
    StoredNote { entity_id: entity.to_string(), id: id.to_string() }
}

fn candidates() -> Vec<ServerNote> {
    vec![
        note(1, "a", "x,y", 30, "active", None),
        note(2, "b", "", 20, "archived", Some(3)),
        note(3, "c", "z", 10, "active", None),
        note(4, "a", "y, w", 5, "archived", Some(9)),
        note(5, "d", "", 10, "active", None),
    ]
}

#[test]
fn rows_of_one_identity_fold() {
    let merged = collapse_candidates(&candidates());
    assert_eq!(
        merged.iter().map(|m| m.entity_id.as_str()).collect::<Vec<_>>(),
        vec!["a", "b", "c", "d"]
    );
    let a = &merged[0];
    assert_eq!(a.tags, vec!["x", "y", "w"]);
    assert_eq!(a.linked_files, vec!["f.rs"]);
    assert_eq!((a.created_at, a.status.as_str(), a.rows), (5, "archived", 2));
}

#[test]
fn the_plan_is_oldest_first_and_its_counts_partition() {
    let local = local_ids(&vec![stored("c", "L3"), stored("c", "L4")]);
    let plan = plan_reconcile(&candidates(), &local);
    assert_eq!(
        plan.to_import.iter().map(|m| m.entity_id.as_str()).collect::<Vec<_>>(),
        vec!["a", "d", "b"]
    );
    assert_eq!(plan.present.len(), 1);
    assert_eq!((plan.already_present, plan.collapsed_duplicates), (1, 1));
    assert_eq!(plan.already_present + plan.collapsed_duplicates + plan.to_import.len(), 5);
    assert_eq!(local.get("c").as_deref(), Some("L3"));
    assert_eq!(count_reconcilable(&candidates(), &local), Some(3));
    assert_eq!(count_reconcilable(&vec![], &local), None);
    let all = local_ids(&vec![stored("a", "1"), stored("b", "2"), stored("c", "3"), stored("d", "4")]);
    assert_eq!(count_reconcilable(&candidates(), &all), None);
}

#[test]
fn edges_cross_by_identity() {
    let edges = build_supersede_edges(&candidates());
    assert_eq!(edges.get("b").as_deref(), Some("c"));
    assert_eq!(edges.get("a"), None);
    let mut cs = candidates();
    cs.push(note(6, "b", "", 1, "active", Some(1)));
    assert_eq!(build_supersede_edges(&cs).get("b").as_deref(), Some("c"));
}

#[test]
fn links_are_set_where_the_successor_is_known() {
    let cs = candidates();
    let local = local_ids(&vec![stored("c", "L3")]);
    let plan = plan_reconcile(&cs, &local);
    let ids = vec!["N1".to_string(), "N2".to_string(), "N3".to_string()];
    let links = link_supersedes(&plan.to_import, &ids, local, &cs);
    assert_eq!(links.links.len(), 1);
    assert_eq!((links.links[0].old_id.as_str(), links.links[0].new_id.as_str()), ("N3", "L3"));
    assert_eq!(links.unresolved, 0);
    let same = vec![note(1, "s", "", 1, "archived", Some(2)), note(2, "s", "", 2, "active", None)];
    let plan = plan_reconcile(&same, &local_ids(&vec![]));
    let links =
        link_supersedes(&plan.to_import, &vec!["N".to_string()], local_ids(&vec![]), &same);
    assert!(links.links.is_empty());
    assert_eq!(links.unresolved, 0);
}

#[test]
fn a_dry_run_only_counts() {
    let cs = candidates();
    let held = vec![stored("c", "L3")];
    match reconcile_project("s.db", "p", &cs, &held, true) {
        ReconcileStep::Report(s) => {
            assert_eq!((s.candidates, s.would_import, s.imported), (5, 3, 0));
            assert_eq!(
                print_human_summary(&s, true),
                vec!["[inkentry] reconcile (dry-run): source=s.db project=p candidates=5 already_present=1 would_import=3"]
            );
        }
        _ => panic!("a dry run applies nothing"),
    }
    assert!(matches!(
        reconcile_project("s.db", "p", &vec![], &held, false),
        ReconcileStep::Report(_)
    ));
}

#[test]
fn a_reconcile_merges_and_imports() {
    let cs = candidates();
    match reconcile_project("s.db", "p", &cs, &vec![stored("c", "L3")], false) {
        ReconcileStep::Apply { summary, merges, to_import, local } => {
            assert_eq!(merges.len(), 1);
            assert_eq!((merges[0].local_id.as_str(), merges[0].tags.len()), ("L3", 1));
            assert_eq!(to_import.len(), 3);
            assert!(local.has("c"));
            let done = summary_after_import(summary, 3, 1, 0, 1);
            assert_eq!(
                done.candidates,
                done.already_present + done.collapsed_duplicates + done.imported
            );
            assert_eq!(
                print_human_summary(&done, false),
                vec!["[inkentry] reconcile: source=s.db project=p candidates=5 already_present=1 imported=3 without_embedding=1 supersede_unresolved=1"]
            );
            let again = reconcile_project(
                "s.db",
                "p",
                &cs,
                &vec![stored("c", "1"), stored("a", "2"), stored("b", "3"), stored("d", "4")],
                true,
            );
            assert!(matches!(again, ReconcileStep::Report(s) if s.would_import == 0));
        }
        _ => panic!("there is something to import"),
    }
}

#[test]
fn failures_of_a_reconcile_are_told() {
    let f = source_unreadable("s.db", "p", "locked");
    assert_eq!(f.error, "could not open source db: locked");
    assert_eq!(
        print_human_summary(&f.summary, false)[1],
        "[inkentry] reconcile error (open_source_db): locked"
    );
    let f = import_failed(empty_summary("s.db", "p"), 2, "full");
    assert_eq!(f.error, "inserting notes into memory.db: full");
    assert_eq!(f.summary.errors[0].stage, "import_transaction");
    assert_eq!(f.summary.imported_without_embedding, 2);
    assert_eq!(count_vectorless(&vec![None, Some(vec![1]), None]), 2);
    assert_eq!(no_projects_message(true), None);
    assert!(no_projects_message(false).is_some());
    assert!(nudge_message(false, false, Some(3)).unwrap().starts_with("[inkentry] 3 note(s)"));
    assert_eq!(nudge_message(true, false, Some(3)), None);
    assert_eq!(nudge_message(false, true, Some(3)), None);
    assert_eq!(nudge_message(false, false, None), None);
}

// ── the transaction ─────────────────────────────────────────────────────────

#[test]
fn an_import_commits_every_note() {
    let mut b = ImportBatch::new();
    let emb = vec![true, false];
    assert!(matches!(b.import_batch(ImportEvent::Start, 2, &emb), ImportAction::Begin));
    assert!(matches!(b.import_batch(ImportEvent::Done, 2, &emb), ImportAction::Insert(0)));
    assert!(matches!(
        b.import_batch(ImportEvent::Inserted("x".to_string()), 2, &emb),
        ImportAction::StoreEmbedding(0, id) if id == "x"
    ));
    assert!(matches!(b.import_batch(ImportEvent::Done, 2, &emb), ImportAction::Insert(1)));
    assert!(matches!(
        b.import_batch(ImportEvent::Inserted("y".to_string()), 2, &emb),
        ImportAction::Commit
    ));
    match b.import_batch(ImportEvent::Done, 2, &emb) {
        ImportAction::Finished(ids) => assert_eq!(ids, vec!["x", "y"]),
        _ => panic!("the import is committed"),
    }
    assert!(matches!(b.import_batch(ImportEvent::Start, 2, &emb), ImportAction::Ignored));
}

#[test]
fn a_failed_import_is_rolled_back() {
    let mut b = ImportBatch::new();
    let emb = vec![true];
    b.import_batch(ImportEvent::Start, 1, &emb);
    b.import_batch(ImportEvent::Done, 1, &emb);
    b.import_batch(ImportEvent::Inserted("x".to_string()), 1, &emb);
    assert!(matches!(
        b.import_batch(ImportEvent::Failed("disk".to_string()), 1, &emb),
        ImportAction::Rollback
    ));
    assert!(matches!(
        b.import_batch(ImportEvent::Failed("again".to_string()), 1, &emb),
        ImportAction::Failed(e) if e == "disk"
    ));
    let mut c = ImportBatch::new();
    c.import_batch(ImportEvent::Start, 0, &vec![]);
    assert!(matches!(
        c.import_batch(ImportEvent::Failed("busy".to_string()), 0, &vec![]),
        ImportAction::Failed(e) if e == "beginning import transaction: busy"
    ));
    let mut d = ImportBatch::new();
    d.import_batch(ImportEvent::Start, 0, &vec![]);
    assert!(matches!(d.import_batch(ImportEvent::Done, 0, &vec![]), ImportAction::Commit));
    assert!(matches!(
        d.import_batch(ImportEvent::Failed("busy".to_string()), 0, &vec![]),
        ImportAction::Failed(e) if e == "committing import transaction: busy"
    ));
}

#[test]
fn an_imported_row_says_where_it_came_from() {
    let m = &collapse_candidates(&candidates())[0];
    let row = import_row(m);
    assert_eq!(row.source_ref, "reconcile:server.db");
    assert_eq!((row.status.as_str(), row.created_at), ("archived", 5));
    assert_eq!(stored_status("draft"), "active");
    assert_eq!(reconcile_source_ref(), "reconcile:server.db");
    assert_eq!(git_notes_source_ref(), "init:git-notes");
    assert_eq!(GIT_NOTES_IMPORT_LIMIT, 500);
}

// ── git notes ───────────────────────────────────────────────────────────────

#[test]
fn git_notes_are_imported_once() {
    let ids: Vec<String> = ["a", "b", "a", "c"].iter().map(|s| s.to_string()).collect();
    assert_eq!(select_new_notes(&ids, &vec!["b".to_string()]), vec![0, 3]);
    let held: Vec<String> = ["b", "a", "c"].iter().map(|s| s.to_string()).collect();
    assert!(select_new_notes(&ids, &held).is_empty());
    assert_eq!(git_notes_step(0, false, 0, 0, 0), GitNotesStep::Nothing);
    assert_eq!(git_notes_step(0, true, 0, 0, 0), GitNotesStep::MarkOnly);
    assert_eq!(git_notes_step(3, true, 0, 0, 0), GitNotesStep::MarkOnly);
    assert_eq!(git_notes_step(3, true, 0, 0, 1), GitNotesStep::Write);
    assert_eq!(GitNotesImport::default().imported, 0);
}

#[test]
fn a_carried_note_is_stored_as_it_is() {
    let s = |x: &str| x.to_string();
    let note = |status: &str| Note {
        id: s("1"),
        entity_id: s("e"),
        handle: s("h"),
        kind: s("decision"),
        title: s("T"),
        body: s("B"),
        tags: vec![s("t")],
        linked_files: vec![s("f")],
        created_at: 9,
        status: s(status),
        valid_at: None,
        invalid_at: None,
        superseded_by: None,
        source_ref: Some(s("abc")),
        source_project: None,
        source_project_path: None,
        score: None,
        distance: None,
    };
    let row = git_note_row(&note("archived"));
    assert_eq!((row.kind.as_str(), row.title.as_str(), row.body.as_str()), ("decision", "T", "B"));
    assert_eq!((row.tags, row.linked_files, row.created_at), (vec![s("t")], vec![s("f")], 9));
    assert_eq!((row.source_ref.as_str(), row.status.as_str()), ("init:git-notes", "archived"));
    assert_eq!(git_note_row(&note("draft")).status, "active");
}

#[test]
fn edges_follow_the_notes_in_one_transaction() {
    let ids: Vec<String> = ["a", "b"].iter().map(|s| s.to_string()).collect();
    let mut run = import_git_notes_into_memory(&ids, &vec!["a".to_string()]);
    let mut steps = Vec::new();
    while let Some(step) = run.current() {
        steps.push(step);
        run.advance();
    }
    assert_eq!(
        steps,
        vec![
            NotesWrite::Begin,
            NotesWrite::Insert(1),
            NotesWrite::Edges,
            NotesWrite::SupersedeEdges,
            NotesWrite::Mark,
            NotesWrite::Commit,
        ]
    );
    let out = run.outcome((2, 1), (4, 3));
    assert_eq!((out.imported, out.edges_applied, out.edges_unresolved), (1, 2, 1));
    assert_eq!((out.supersede_edges_applied, out.supersede_edges_unresolved), (4, 3));
}

#[test]
fn a_second_import_of_the_same_notes_counts_nothing() {
    let ids: Vec<String> = ["a", "b"].iter().map(|s| s.to_string()).collect();
    let first = import_git_notes_into_memory(&ids, &vec![]);
    assert_eq!(first.outcome((1, 0), (1, 0)).imported, 2);
    let mut again = import_git_notes_into_memory(&ids, &ids);
    while let Some(step) = again.current() {
        assert!(!matches!(step, NotesWrite::Insert(_)));
        again.advance();
    }
    let out = again.outcome((0, 2), (0, 1));
    assert_eq!((out.imported, out.edges_applied, out.supersede_edges_applied), (0, 0, 0));
    assert_eq!((out.edges_unresolved, out.supersede_edges_unresolved), (2, 1));
}

#[test]
fn the_source_is_the_earliest_anchor_that_can_be_reached() {
    let anchors: Vec<String> = ["c1", "c2", "c3"].iter().map(|s| s.to_string()).collect();
    assert_eq!(source_of(&anchors, &vec![false, true, true]), Some(1));
    assert_eq!(source_of(&anchors, &vec![true, false, true]), Some(0));
    assert_eq!(source_of(&anchors, &vec![false, false, false]), Some(0));
    assert_eq!(source_of(&vec![], &vec![]), None);
}

#[test]
fn an_anchor_sets_the_source_and_drops_the_waiting_row() {
    let anchors: Vec<String> = ["c1", "c2"].iter().map(|s| s.to_string()).collect();
    let mut run = anchor_note_now();
    assert_eq!(run.step, AnchorStep::WriteRecord);
    run.after(AnchorEvent::Done);
    assert_eq!(run.step, AnchorStep::ReadAnchors);
    run.anchors_read(&anchors, &vec![false, true]);
    assert_eq!(run.step, AnchorStep::SetSource(1));
    run.after(AnchorEvent::Failed);
    assert_eq!(run.step, AnchorStep::DropPending);
    run.after(AnchorEvent::Failed);
    assert_eq!(run.step, AnchorStep::Over);
    let mut bare = anchor_note_now();
    bare.after(AnchorEvent::Done);
    bare.anchors_read(&vec![], &vec![]);
    assert_eq!(bare.step, AnchorStep::DropPending);
}

#[test]
fn a_failed_anchor_changes_nothing() {
    let mut unwritten = anchor_note_now();
    unwritten.after(AnchorEvent::Failed);
    assert_eq!(unwritten.step, AnchorStep::Over);
    unwritten.after(AnchorEvent::Done);
    assert_eq!(unwritten.step, AnchorStep::Over);
    let mut unread = anchor_note_now();
    unread.after(AnchorEvent::Done);
    unread.after(AnchorEvent::Failed);
    assert_eq!(unread.step, AnchorStep::Over);
}

#[test]
fn a_failed_import_of_notes_is_rolled_back_once_it_began() {
    let none: Vec<String> = vec![];
    let mut run = import_git_notes_into_memory(&none, &none);
    assert!(!run.fail("busy"));
    assert_eq!(run.failed.as_deref(), Some("beginning git-notes import transaction: busy"));
    let mut run = import_git_notes_into_memory(&none, &none);
    run.advance();
    assert!(run.fail("bad edge"));
    assert_eq!(run.failed.as_deref(), Some("bad edge"));
    assert_eq!(run.current(), None);
    let mut run = import_git_notes_into_memory(&none, &none);
    while run.current() != Some(NotesWrite::Commit) {
        run.advance();
    }
    assert!(!run.fail("busy"));
    assert_eq!(run.failed.as_deref(), Some("committing git-notes import transaction: busy"));
}

#[test]
fn refs_that_did_not_move_are_left_alone() {
    let s = |x: &str| Some(x.to_string());
    assert_eq!(read_path_start(Some("git-notes"), true, true), ReadPathStart::MergeOnly);
    assert_eq!(read_path_start(None, true, true), ReadPathStart::Skip);
    assert_eq!(read_path_start(None, true, false), ReadPathStart::Compare);
    assert_eq!(tracking_merge_due(&None, &None, &s("x")), None);
    assert_eq!(tracking_merge_due(&s("x"), &None, &s("x")), Some(false));
    assert_eq!(tracking_merge_due(&s("y"), &None, &s("x")), Some(true));
    assert_eq!(tracking_merge_due(&None, &s("w"), &None), Some(false));
    assert!(working_import_due(&s("w"), &None, true));
    assert!(!working_import_due(&s("w"), &s("w"), true));
    assert!(!working_import_due(&s("w"), &None, false));
}

// ── anchors ─────────────────────────────────────────────────────────────────

#[test]
fn a_commit_claims_by_ancestry_or_amend() {
    assert!(claims("h", Some(true), &None));
    assert!(!claims("h", Some(false), &None));
    assert!(claims("h", Some(false), &Some("h".to_string())));
    assert!(!claims("h", None, &Some("g".to_string())));
    assert_eq!(resolve_note(true, &vec!["7".to_string()]).as_deref(), Some("7"));
    assert_eq!(resolve_note(true, &vec!["7".to_string(), "8".to_string()]), None);
    assert_eq!(resolve_note(false, &vec!["7".to_string()]), None);
    assert_eq!(rev_parse(true, "abc\n").as_deref(), Some("abc"));
    assert_eq!(rev_parse(true, "\n"), None);
    assert_eq!(rev_parse(false, "abc"), None);
    assert_eq!(commit_revision("HEAD"), "HEAD^{commit}");
    assert_eq!(first_parent_revision("abc"), "abc~1");
}

#[test]
fn only_one_commit_with_the_same_change_is_a_match() {
    let p = |x: &str| Some(x.to_string());
    assert_eq!(find_unique_match(&vec![None, p("a"), p("b")], "a"), Some(1));
    assert_eq!(find_unique_match(&vec![p("a"), p("a")], "a"), None);
    assert_eq!(find_unique_match(&vec![p("a"), p("a"), p("a")], "a"), None);
    assert_eq!(find_unique_match(&vec![None], "a"), None);
}

#[test]
fn orphaned_anchors_are_found() {
    let r = |c: &str, op: Option<&str>, p: Option<&str>| NotedRecord {
        commit: c.to_string(),
        op: op.map(str::to_string),
        patch_id: p.map(str::to_string),
    };
    let records = vec![
        r("gone", Some("anchor"), Some("p")),
        r("here", Some("anchor"), Some("p")),
        r("gone", None, Some("p")),
        r("gone", Some("anchor"), None),
    ];
    let reachable = vec!["here".to_string(), "new".to_string()];
    let patches = vec![None, Some("p".to_string())];
    let moved = reconcile_orphaned_anchors(&records, &reachable, &patches);
    assert_eq!(moved.len(), 1);
    assert_eq!((moved[0].row, moved[0].commit), (0, 1));
    let twice = vec![Some("p".to_string()), Some("p".to_string())];
    assert!(reconcile_orphaned_anchors(&records, &reachable, &twice).is_empty());
    let waiting = |head: &str| PendingAnchor {
        entity_id: "e".to_string(),
        head_at_write: head.to_string(),
    };
    let pending = vec![waiting("here"), waiting("gone"), waiting("lost")];
    let own = vec![Some("p".to_string()), Some("p".to_string()), None];
    let moved = reconcile_pending_rows(&pending, &own, &reachable, &patches);
    assert_eq!(moved.len(), 1);
    assert_eq!((moved[0].row, moved[0].commit), (1, 1));
    let claimed = claim_pending(
        &pending,
        &vec![Some(true), Some(false), None],
        &Some("lost".to_string()),
    );
    assert_eq!(claimed, vec![0, 2]);
    assert!(anchor_now_error("1", "t", false).contains("vanished"));
    assert!(anchor_now_error("1", "t", true).contains("could not resolve 't'"));
}

// ── text ────────────────────────────────────────────────────────────────────

#[test]
fn text_operations_agree_with_std() {
    for s in ["", "a", " a b ", "a,b", ",", "x\r\ny\n", "\u{3000}é\u{85}", "a\r", "\n\n", "\r\n"] {
        assert_eq!(trim(s), s.trim());
        assert_eq!(split_on(s, ','), s.split(',').collect::<Vec<_>>());
        assert_eq!(lines(s), s.lines().collect::<Vec<_>>());
        assert_eq!(replace(s, "a", "bb"), s.replace("a", "bb"));
        assert_eq!(contains(s, "b"), s.contains("b"));
        assert_eq!(starts_with(s, " a"), s.starts_with(" a"));
        assert_eq!(ends_with(s, "\n"), s.ends_with('\n'));
        assert_eq!(pad_left(s, 4), format!("{s:>4}"));
        assert_eq!(pad_right(s, 4), format!("{s:<4}"));
    }
    for n in [0, 7, -7, 10, 1234567890, i64::MAX, i64::MIN] {
        assert_eq!(dec_i64(n), n.to_string());
    }
    assert_eq!(take_bytes("aé", 2), "a");
    assert_eq!(take_bytes("aé", 3), "aé");
}

#[test]
fn every_white_space_is_trimmed() {
    for c in (0..=0x10FFFFu32).filter_map(char::from_u32) {
        if c.is_whitespace() || !c.is_control() && c as u32 <= 0x3100 {
            let s = c.to_string();
            assert_eq!(trim(&s).is_empty(), c.is_whitespace(), "{:?}", c);
        }
    }
}

#[test]
fn orders_are_stable() {
    assert_eq!(order_by_key(&vec![3, 1, 3, 2], false), vec![1, 3, 0, 2]);
    assert_eq!(order_by_key(&vec![3, 1, 3, 2], true), vec![0, 2, 3, 1]);
}
