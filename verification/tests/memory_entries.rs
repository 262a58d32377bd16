use inkentry_cli::args::{
    deprecation_warning, MemoryCommand, MemoryHarvestArgs, MemoryTagsArgs,
};
use inkentry_cli::config::{Config, SyncMode};
use inkentry_cli::memory::add::{
    add_plan, add_request, carry_failed, carry_old_failed, check_supersedes, embed_and_attach,
    given_or_fetched, invalid_since, is_note_kind, links_to_resolve, list_items, memory_add,
    missing_file_warning, note_record, pending_embedding_warning, record_id, refuse_secrets,
    rewrite_note, stored_message, stores_edges, AddPlan, AddRequest, AddRun, AddStep, EmbedOutcome,
    RewriteRefStatus,
};
use inkentry_cli::memory::archive::{carry_warning, memory_archive, writes_through, CarryResult};
use inkentry_cli::memory::corpus::{
    filter_notes, graph_neighbours, matches_filters, memory_corpus_search, FoundEdge, TagFilter,
};
use inkentry_cli::memory::cross_project::{
    collect_dep_cross_cutting, cross_cutting_kinds, is_cross_cutting, note_places,
    query_dep_cross_cutting, DepNote, PlacedId,
};
use inkentry_cli::memory::fetch::{
    can_be_cut, fetch_step, github_api_path, html_unescape, issue_content, kept_text, page_body,
    page_title, parse_web_to_md_output, FetchStep,
};
use inkentry_cli::memory::list::{
    augment_due, augment_with_note_anchored, commit_fetch, commit_list, effective_override, listed,
    memory_list, notes_of_kind,
    record_list_event, ListKey, ListSource,
};
use inkentry_cli::memory::note::{
    edge_end, memory_show, no_entry_error, print_note_summary, print_notes, Note, NotesReport,
    ShownEdge,
};
use inkentry_cli::memory::reindex::{
    emit_summary, memory_reindex, reindex_refusal, Outcome, ReindexCandidate, ReindexRun,
};
use inkentry_cli::memory::resolve::{resolve_note, Resolution};
use inkentry_cli::memory::supersede::{check_supersede, edge_warning, memory_supersede, Target};
use inkentry_cli::memory::tags::{memory_tags, TagCount};
use inkentry_cli::memory::{
    backend_err, backend_override, body_from_draft, draft_text, embed_document,
    resolve_store_path, StorePath,
};

#[test]
fn parse_web_to_md_output_extracts_title_from_heading() {
    let md = "# My Title\n\nSome body text.";
    let (title, body) = parse_web_to_md_output(md, "https://example.com").unwrap();
    assert_eq!(title, "My Title");
    assert_eq!(body, "Some body text.");
}

#[test]
fn parse_web_to_md_output_falls_back_to_url_without_heading() {
    let md = "No heading here, just body text.";
    let (title, body) = parse_web_to_md_output(md, "https://example.com/page").unwrap();
    assert_eq!(title, "https://example.com/page");
    assert_eq!(body, "No heading here, just body text.");
}

#[test]
fn a_heading_alone_has_no_body() {
    let (title, body) = parse_web_to_md_output("\n#  T \n", "u").unwrap();
    assert_eq!((title.as_str(), body.as_str()), ("T", ""));
    let (title, body) = parse_web_to_md_output("#T", "u").unwrap();
    assert_eq!((title.as_str(), body.as_str()), ("u", "#T"));
}

#[test]
fn the_deferral_warning_names_the_command_that_embeds_the_entry() {
    let warning = pending_embedding_warning("embedding it timed out");
    assert!(
        warning.contains("inkentry memory reindex"),
        "the warning must name `inkentry memory reindex`, got: {warning}"
    );
    assert!(
        warning.contains("embedding it timed out"),
        "the warning must say why the vector is missing, got: {warning}"
    );
}

#[test]
fn round_trip_content_is_readable() {
    let content = draft_text("My Title");
    assert!(content.contains("# My Title"));
    assert!(content.contains("Write your memory entry below"));
}

#[test]
fn a_draft_loses_its_comments() {
    assert_eq!(
        body_from_draft("# T\n\n  one\n# c\ntwo \n", true).unwrap(),
        "one\ntwo"
    );
    assert_eq!(
        body_from_draft(&draft_text("T"), true).unwrap_err(),
        "Body is empty; entry not saved."
    );
    assert_eq!(
        body_from_draft("text", false).unwrap_err(),
        "Editor exited with a non-zero status; entry not saved."
    );
}

// ── pages ───────────────────────────────────────────────────────────────────

#[test]
fn github_addresses_lead_to_the_api() {
    assert_eq!(
        github_api_path("https://github.com/o/r/issues/12").as_deref(),
        Some("repos/o/r/issues/12")
    );
    assert_eq!(
        github_api_path("see http://github.com/o/r/pull/7/files").as_deref(),
        Some("repos/o/r/issues/7")
    );
    assert_eq!(github_api_path("https://example.com/o/r/issues/12"), None);
}

#[test]
fn an_answer_of_github_is_read() {
    let ok = issue_content(&br#"{"title": "T", "body": null}"#.to_vec()).unwrap();
    assert_eq!((ok.title.as_str(), ok.body.as_str()), ("T", ""));
    let none = issue_content(&b"[]".to_vec()).unwrap();
    assert_eq!((none.title.as_str(), none.body.as_str()), ("GitHub Issue", ""));
    assert!(issue_content(&b"{".to_vec())
        .err()
        .unwrap()
        .starts_with("parsing gh api response: "));
}

#[test]
fn html_becomes_text() {
    assert_eq!(html_unescape("a &lt;b&gt; &amp;amp; &quot;c&#39;&nbsp;"), "a <b> &amp; \"c' ");
    assert_eq!(html_unescape("&amp;lt;"), "<");
    let html = "<html><TITLE lang=x> A &amp; B </title><script>var x;</script>\
                <p>one</p><style>p{}</style><p>two</p></html>";
    assert_eq!(page_title(html, "u"), "A & B");
    assert_eq!(page_title("<p>", "u"), "u");
    assert_eq!(page_body("<p>one</p>   <p>two</p>").as_deref(), Some("one\n\ntwo"));
    assert_eq!(page_body(html).as_deref(), Some("A &amp; B\n\none\n\ntwo"));
}

#[test]
fn a_long_page_is_cut_where_no_character_is_split() {
    assert_eq!(page_body(&"a".repeat(9_000)).unwrap().len(), 8_192);
    assert_eq!(page_body(&"é".repeat(5_000)).unwrap().len(), 8_192);
    assert_eq!(page_body(&format!("a{}", "é".repeat(5_000))), None);
    assert!(can_be_cut(&"a".repeat(8_192)));
    assert!(!can_be_cut(&format!("a{}", "é".repeat(4_096))));
    assert_eq!(kept_text("short"), "short");
}

#[test]
fn an_address_is_fetched_by_the_first_way_that_works() {
    assert!(matches!(fetch_step(Some("p".into()), false, true, false), FetchStep::GitHub(p) if p == "p"));
    assert!(matches!(fetch_step(Some("p".into()), true, true, false), FetchStep::Script));
    assert!(matches!(fetch_step(None, false, true, true), FetchStep::Page));
    assert!(matches!(fetch_step(None, false, false, false), FetchStep::Page));
}

// ── recording ───────────────────────────────────────────────────────────────

#[test]
fn what_was_given_comes_before_what_was_fetched() {
    assert_eq!(given_or_fetched(&Some("g".to_string()), "f".to_string()), "g");
    assert_eq!(given_or_fetched(&None, "f".to_string()), "f");
}

#[test]
fn lists_keep_their_empty_items() {
    assert_eq!(list_items(Some(" a, ,b")), vec!["a", "", "b"]);
    assert_eq!(list_items(None), Vec::<String>::new());
    let files = list_items(Some("a.rs, ,b.rs"));
    assert_eq!(links_to_resolve(&files), vec!["a.rs", "b.rs"]);
}

#[test]
fn credentials_are_refused() {
    assert!(refuse_secrets(false, false).is_ok());
    assert!(refuse_secrets(true, false).unwrap_err().contains("secret pattern"));
    assert!(refuse_secrets(false, true).is_err());
    assert!(missing_file_warning("a.rs").contains("'a.rs'"));
}

#[test]
fn an_old_entry_must_be_active() {
    assert!(check_supersedes("7", Some("active")).is_ok());
    assert_eq!(
        check_supersedes("7", Some("archived")).unwrap_err(),
        "No active memory entry with id 7 (old)."
    );
    assert!(check_supersedes("7", None).is_err());
}

fn cloud() -> Config {
    Config {
        server_url: Some("https://t".to_string()),
        mode: SyncMode::CloudFirst,
        ..Default::default()
    }
}

fn request(url: bool, title: bool, body: bool, old: bool, related: bool) -> AddRequest {
    let given = |g: bool| if g { Some("x".to_string()) } else { None };
    add_request(&given(url), &given(title), &given(body), &given(old), &given(related), &None)
}

fn walk(plan: AddPlan, req: AddRequest) -> Vec<AddStep> {
    let mut run = memory_add(plan, req);
    let mut steps = Vec::new();
    while let Some(step) = run.current() {
        steps.push(step);
        run.advance();
    }
    assert!(run.failed.is_none());
    steps
}

#[test]
fn a_local_entry_is_stored_and_carried_before_it_is_embedded() {
    let plan = add_plan(false, None, &Config::default(), true);
    assert!(plan.store_first && !plan.embed_first && plan.write_through && plan.nudge);
    assert_eq!(
        walk(plan, request(false, true, true, true, true)),
        vec![
            AddStep::ResolveFiles,
            AddStep::RefuseSecrets,
            AddStep::CheckOld,
            AddStep::CheckRelated,
            AddStep::Store,
            AddStep::StoreEdge,
            AddStep::Carry,
            AddStep::CarryOld,
            AddStep::RecordPending,
            AddStep::EmbedAndAttach,
            AddStep::Report,
            AddStep::Nudge,
            AddStep::Record,
        ]
    );
}

#[test]
fn other_stores_take_the_vector_with_the_entry() {
    let plan = add_plan(false, None, &cloud(), false);
    assert_eq!(
        walk(plan, request(false, true, false, false, false)),
        vec![
            AddStep::Edit,
            AddStep::ResolveFiles,
            AddStep::RefuseSecrets,
            AddStep::Embed,
            AddStep::Store,
            AddStep::Report,
            AddStep::Nudge,
            AddStep::Record,
        ]
    );
    let plan = add_plan(false, Some("git-notes"), &Config::default(), true);
    assert!(!plan.write_through && plan.embed_first && plan.placeholder_path);
    let plan = add_plan(true, None, &Config::default(), false);
    assert_eq!(
        walk(plan, request(true, false, false, false, true)),
        vec![
            AddStep::Fetch,
            AddStep::ResolveFiles,
            AddStep::RefuseSecrets,
            AddStep::Carry,
            AddStep::Report,
        ]
    );
}

fn run_to(plan: AddPlan, req: AddRequest, step: AddStep) -> AddRun {
    let mut run = memory_add(plan, req);
    while run.current() != Some(step) {
        run.advance();
    }
    run
}

fn error_at(pre_init: bool, step: AddStep) -> Result<Option<String>, String> {
    let plan = add_plan(pre_init, None, &Config::default(), true);
    let from_url = step != AddStep::Edit;
    let mut run = run_to(plan, request(from_url, true, false, true, true), step);
    let warning = run.fail("S", "cause");
    match run.failed {
        Some(e) => {
            assert!(warning.is_none());
            Err(e)
        }
        None => Ok(warning),
    }
}

#[test]
fn failures_end_a_recording_or_are_told() {
    assert_eq!(error_at(false, AddStep::Fetch), Err("fetching S: cause".to_string()));
    assert_eq!(error_at(false, AddStep::Edit), Err("opening editor for body: cause".to_string()));
    assert_eq!(
        error_at(false, AddStep::ResolveFiles),
        Err("resolving linked file 'S': cause".to_string())
    );
    assert!(error_at(false, AddStep::RefuseSecrets).unwrap_err().contains("secret pattern"));
    assert_eq!(error_at(false, AddStep::CheckOld), Err("cause".to_string()));
    assert_eq!(error_at(false, AddStep::CheckRelated), Err("cause".to_string()));
    assert_eq!(error_at(false, AddStep::Store), Err("cause".to_string()));
    assert_eq!(
        error_at(false, AddStep::StoreEdge),
        Err("recording relates_to edge to S: cause".to_string())
    );
    assert!(error_at(true, AddStep::Carry).unwrap_err().contains("no local project store"));
    assert!(error_at(false, AddStep::Carry).unwrap().unwrap().ends_with("repo: cause"));
    assert!(error_at(false, AddStep::CarryOld).unwrap().unwrap().contains("#S's supersede"));
    assert_eq!(error_at(false, AddStep::EmbedAndAttach), Ok(None));
    assert_eq!(error_at(false, AddStep::Nudge), Ok(None));
}

#[test]
fn a_given_commit_anchors_the_entry_at_once() {
    let with_commit = AddRequest { commit: true, ..request(false, true, true, false, false) };
    let plan = add_plan(false, None, &Config::default(), false);
    assert_eq!(
        walk(plan, with_commit),
        vec![
            AddStep::ResolveFiles,
            AddStep::RefuseSecrets,
            AddStep::Store,
            AddStep::Anchor,
            AddStep::EmbedAndAttach,
            AddStep::Report,
            AddStep::Nudge,
            AddStep::Record,
        ]
    );
    let mut run = run_to(plan, with_commit, AddStep::Anchor);
    assert_eq!(run.fail("", "could not resolve 'x' to a commit"), None);
    assert_eq!(run.failed.as_deref(), Some("could not resolve 'x' to a commit"));
    let pre_init = add_plan(true, None, &Config::default(), false);
    assert!(!walk(pre_init, with_commit).contains(&AddStep::Anchor));
    assert_eq!(error_at(false, AddStep::RecordPending), Ok(None));
}

#[test]
fn an_entry_has_a_known_kind() {
    for kind in [
        "decision", "context", "requirement", "note", "question", "answer", "handoff", "intent",
        "antipattern",
    ] {
        assert!(is_note_kind(kind));
    }
    assert!(!is_note_kind("Note") && !is_note_kind(""));
}

#[test]
fn without_a_title_nothing_is_recorded() {
    let plan = add_plan(false, None, &Config::default(), true);
    let run = memory_add(plan, request(false, false, true, false, false));
    assert_eq!(
        run.failed.as_deref(),
        Some("--title is required when --from-url is not provided")
    );
    assert_eq!(run.current(), None);
    assert_eq!(run.done, 0);
}

#[test]
fn a_copy_names_its_entry_and_its_relation() {
    let s = |x: &str| x.to_string();
    let r = note_record(
        "12", s("note"), s("T"), s("B"), vec![s("t")], vec![s("f")], Some(3), s("e"), Some(s("o")), 7, 7000,
    );
    assert_eq!((r.schema_version, r.id, r.created_at), (1, 12, 7));
    assert_eq!((r.status.as_str(), r.valid_at), ("active", Some(3)));
    assert_eq!((r.edges[0].kind.as_str(), r.edges[0].to_entity_id.as_str()), ("relates_to", "o"));
    assert_eq!(record_id("01HX", 7000), 7000);
    assert_eq!(record_id("-5", 7000), -5);
    assert_eq!(record_id("-+5", 7000), 7000);
    assert_eq!(record_id("-9223372036854775808", 0), i64::MIN);
    assert_eq!(record_id("9223372036854775808", 1), 1);
}

#[test]
fn what_is_said_of_a_recorded_entry() {
    assert_eq!(
        stored_message(true, "note", "h", "T", "e", "1", Some("n")),
        vec!["Stored [note] #h: T", "entity_id:  e", "id:         1", "n"]
    );
    assert_eq!(
        stored_message(false, "note", "h", "T", "e", "1", None)[0],
        "Already recorded as [note] #h: T"
    );
    assert_eq!(embed_and_attach(EmbedOutcome::Attached), None);
    assert_eq!(
        embed_and_attach(EmbedOutcome::TimedOut).as_deref(),
        Some("embedding it did not finish within 5s")
    );
    assert!(embed_and_attach(EmbedOutcome::NoEmbedder).is_some());
    assert!(embed_and_attach(EmbedOutcome::Failed).is_some());
    assert!(embed_and_attach(EmbedOutcome::NotStored).is_some());
    assert!(rewrite_note(RewriteRefStatus::Configured).unwrap().starts_with("Configured"));
    assert!(rewrite_note(RewriteRefStatus::Failed).unwrap().starts_with("Warning"));
    assert_eq!(rewrite_note(RewriteRefStatus::AlreadyCovered), None);
    assert!(carry_failed(false, "c").unwrap().ends_with("repo: c"));
    assert!(carry_failed(true, "c").unwrap_err().contains("no local project store"));
    assert!(carry_old_failed("9", "c").contains("#9's supersede edge"));
    assert_eq!(invalid_since(Some(3), 9), 3);
    assert_eq!(invalid_since(None, 9), 9);
    assert!(stores_edges("sqlite") && stores_edges("git-notes") && !stores_edges("remote"));
    assert_eq!(embed_document("T", "B"), "title: T | text: B");
}

// ── where entries are ───────────────────────────────────────────────────────

#[test]
fn the_store_of_a_command() {
    let local = Config::default();
    assert_eq!(backend_override("git-notes"), Some("git-notes"));
    assert_eq!(backend_override("sqlite"), None);
    assert!(matches!(resolve_store_path(Some("/m"), false, false, &local, None, false),
        StorePath::Given(p) if p == "/m"));
    assert!(matches!(resolve_store_path(None, true, false, &local, None, false), StorePath::Project));
    assert!(matches!(
        resolve_store_path(None, false, false, &local, None, true),
        StorePath::NoProject
    ));
    assert!(matches!(
        resolve_store_path(None, false, true, &cloud(), None, false),
        StorePath::Placeholder { carrier: false }
    ));
    assert!(matches!(
        resolve_store_path(None, false, true, &local, None, true),
        StorePath::Placeholder { carrier: true }
    ));
    assert!(matches!(
        resolve_store_path(None, false, true, &local, Some("git-notes"), true),
        StorePath::Placeholder { carrier: false }
    ));
    assert!(matches!(resolve_store_path(None, false, true, &local, None, false),
        StorePath::Nowhere(e) if e.contains("not inside a git repo")));
    assert!(backend_err(true, "x").contains("sqlite backend"));
    assert_eq!(backend_err(false, "x"), "x");
}

#[test]
fn commands_tell_what_they_may_do() {
    let tags = MemoryCommand::Tags(MemoryTagsArgs { format: "text".to_string() });
    assert!(!tags.may_ride_on_notes() && !tags.is_hook());
    assert_eq!(deprecation_warning(&tags), None);
    let harvest = MemoryCommand::Harvest(MemoryHarvestArgs {
        git_range: "HEAD~10..HEAD".to_string(),
        branch: None,
        batch_size: 3,
        source: "git".to_string(),
        history_file: None,
        since: None,
        confirm: false,
        detach: false,
    });
    assert!(deprecation_warning(&harvest).unwrap().contains("deprecated"));
}

#[test]
fn a_token_names_one_entry_or_none() {
    let one = vec!["7".to_string()];
    let two = vec!["7".to_string(), "8".to_string()];
    assert!(matches!(resolve_note("t", true, false, &two, None), Ok(Resolution::Direct)));
    assert!(matches!(resolve_note("t", false, false, &one, None), Ok(Resolution::Missing)));
    assert!(matches!(resolve_note("t", false, true, &one, None), Ok(Resolution::ById(id)) if id == "7"));
    assert!(matches!(resolve_note("t", false, true, &vec![], None), Ok(Resolution::Missing)));
    assert!(resolve_note("t", false, true, &vec![], Some(500))
        .err()
        .unwrap()
        .starts_with("'t' is not among the 500 most recent"));
    assert!(resolve_note("t", false, true, &two, None)
        .err()
        .unwrap()
        .starts_with("'t' matches 2 memory entries."));
}

#[test]
fn archiving_is_told() {
    assert_eq!(memory_archive("t", Some("h"), true).unwrap(), "Archived memory entry #h.");
    assert_eq!(
        memory_archive("t", Some("h"), false).unwrap_err(),
        "No active memory entry with id t."
    );
    assert!(memory_archive("t", None, true).is_err());
    assert!(writes_through(true, None) && !writes_through(true, Some("git-notes")));
    assert!(!writes_through(false, None));
    assert_eq!(carry_warning("h", &CarryResult::Carried), None);
    assert!(carry_warning("h", &CarryResult::Gone).unwrap().ends_with("git notes."));
    assert!(carry_warning("h", &CarryResult::NotCarried("e".into())).unwrap().ends_with(": e"));
    assert!(carry_warning("h", &CarryResult::Unreadable("e".into())).unwrap().ends_with(": e"));
}

fn target(id: &str) -> Option<Target> {
    Some(Target { id: id.to_string(), handle: format!("h{id}") })
}

#[test]
fn an_entry_does_not_replace_itself() {
    assert!(check_supersede("a", "b", &target("1"), &target("2")).is_ok());
    assert!(check_supersede("a", "b", &target("1"), &target("1"))
        .unwrap_err()
        .contains("'a' and 'b' name the same memory entry (#h1)"));
    assert_eq!(
        check_supersede("a", "b", &None, &None).unwrap_err(),
        "No memory entry with id b (new)."
    );
    assert_eq!(
        check_supersede("a", "b", &None, &target("2")).unwrap_err(),
        "No active memory entry with id a (old)."
    );
    let (o, n) = (target("1").unwrap(), target("2").unwrap());
    assert_eq!(
        memory_supersede("a", &o, &n, true).unwrap(),
        "Archived #h1 → superseded by #h2."
    );
    assert!(memory_supersede("a", &o, &n, false).is_err());
    assert!(edge_warning("h", &CarryResult::Gone).unwrap().contains("supersede edge"));
    assert_eq!(edge_warning("h", &CarryResult::Carried), None);
    assert!(edge_warning("h", &CarryResult::NotCarried("e".into())).unwrap().ends_with(": e"));
    assert!(edge_warning("h", &CarryResult::Unreadable("e".into())).unwrap().ends_with(": e"));
}

// ── searching ───────────────────────────────────────────────────────────────

#[test]
fn filters_ask_for_both() {
    let tags = vec!["a".to_string()];
    let files = vec!["f".to_string()];
    assert!(matches_filters(&tags, &files, &TagFilter::Any, None));
    assert!(matches_filters(&tags, &files, &TagFilter::Tag("a".into()), Some("f")));
    assert!(!matches_filters(&tags, &files, &TagFilter::Tag("b".into()), None));
    assert!(!matches_filters(&tags, &files, &TagFilter::Nothing, None));
    assert!(!matches_filters(&tags, &files, &TagFilter::Any, Some("g")));
}

fn edge(note: &str, kind: &str, from: &str, to: &str) -> FoundEdge {
    FoundEdge {
        note_id: note.to_string(),
        kind: kind.to_string(),
        from_id: from.to_string(),
        to_id: to.to_string(),
    }
}

#[test]
fn neighbours_are_attached_once() {
    let results = vec!["1".to_string(), "2".to_string()];
    let edges = vec![
        edge("1", "relates_to", "1", "3"),
        edge("1", "supersedes", "1", "4"),
        edge("1", "relates_to", "2", "1"),
        edge("2", "relates_to", "3", "2"),
        edge("2", "relates_to", "5", "2"),
    ];
    assert_eq!(graph_neighbours(&results, &edges), vec!["3", "5"]);
}

fn placed(root: &str, id: &str) -> PlacedId {
    PlacedId { root: root.to_string(), id: id.to_string() }
}

fn with_id(id: &str) -> Note {
    Note { id: id.to_string(), ..note("note", "b") }
}

fn dep(root: &str, id: &str) -> DepNote {
    DepNote { root: root.to_string(), note: with_id(id) }
}

fn ids(notes: &[Note]) -> Vec<&str> {
    notes.iter().map(|n| n.id.as_str()).collect()
}

#[test]
fn linked_entries_are_shown_once() {
    assert!(is_cross_cutting(&vec!["x".into(), "locked".into()]));
    assert!(is_cross_cutting(&vec!["cross-project".into()]));
    assert!(!is_cross_cutting(&vec!["lock".into()]));
    assert_eq!(cross_cutting_kinds(), vec!["decision", "requirement"]);
    let seen = vec![placed("", "1"), placed("/b", "9")];
    let items = vec![dep("/a", "1"), dep("/a", "2"), dep("/a", "1"), dep("/b", "1"), dep("/b", "9")];
    assert_eq!(ids(&collect_dep_cross_cutting(seen, items)), vec!["1", "2", "1"]);
    let here = note_places(vec![placed("/r", "3")], &vec![with_id("4")]);
    assert_eq!((here[1].root.as_str(), here[1].id.as_str()), ("", "4"));
}

#[test]
fn linked_entries_say_where_they_are_from() {
    let mut locked = with_id("1");
    locked.tags.push("locked".to_string());
    let shared = query_dep_cross_cutting(vec![locked, with_id("2")], "lib".into(), "/lib".into());
    assert_eq!(ids(&shared), vec!["1"]);
    assert_eq!(shared[0].source_project.as_deref(), Some("lib"));
    assert_eq!(shared[0].source_project_path.as_deref(), Some("/lib"));
}

#[test]
fn attachments_are_kept_apart_from_the_ranked() {
    let ranked = filter_notes(
        vec![with_id("1"), Note { tags: vec![], ..with_id("2") }],
        &TagFilter::Tag("x".into()),
        None,
    );
    assert_eq!(ids(&ranked), vec!["1"]);
    let deps = || vec![dep("", "3"), dep("/l", "3"), dep("/l", "3")];
    let c = memory_corpus_search(ranked, vec![with_id("3")], deps(), false);
    assert_eq!(ids(&c.ranked), vec!["1"]);
    assert_eq!(ids(&c.attachments), vec!["3", "3"]);
    let local = memory_corpus_search(vec![], vec![with_id("3")], deps(), true);
    assert_eq!(ids(&local.attachments), vec!["3"]);
}

#[test]
fn tags_are_counted_in_a_column() {
    let t = vec![TagCount { tag: "auth".to_string(), count: 12 }];
    assert_eq!(memory_tags(&t), vec!["   12  auth"]);
    assert_eq!(memory_tags(&vec![]), vec!["No tags recorded."]);
}

// ── listing ─────────────────────────────────────────────────────────────────

#[test]
fn a_list_is_planned_by_its_arguments() {
    let p = memory_list(false, None, false, false, false, false, false).unwrap();
    assert_eq!(p.source, ListSource::All);
    assert!(p.cross_project && !p.git_notes);
    let p = memory_list(false, None, false, false, true, false, false).unwrap();
    assert_eq!((p.source, p.cross_project), (ListSource::Commit, false));
    let p = memory_list(false, None, true, false, true, false, false).unwrap();
    assert_eq!((p.source, p.cross_project), (ListSource::Filtered, false));
    assert!(!memory_list(false, None, false, false, false, true, false).unwrap().cross_project);
    assert!(!memory_list(true, None, false, false, false, false, false).unwrap().cross_project);
    assert!(memory_list(false, Some("git-notes"), false, true, false, false, false)
        .unwrap_err()
        .contains("--tag/--file require the sqlite backend"));
    assert_eq!(effective_override(true, None).as_deref(), Some("git-notes"));
    assert_eq!(effective_override(false, Some("x")).as_deref(), Some("x"));
    assert!(p.refresh);
    let commit = memory_list(false, None, false, false, true, false, false).unwrap();
    assert!(augment_due(&commit, "sqlite") && !augment_due(&commit, "remote"));
    assert!(!memory_list(true, None, false, false, false, false, false).unwrap().refresh);
    let deps = || vec![note("note", "b"), note("decision", "b")];
    assert_eq!(listed(vec![with_id("1")], deps(), None, 20).len(), 3);
    let some = listed(vec![with_id("1")], deps(), Some("decision"), 20);
    assert_eq!(some.len(), 2);
    assert_eq!(some[1].kind, "decision");
}

fn made(id: &str, kind: &str, at: i64) -> Note {
    Note {
        id: id.to_string(),
        entity_id: id.to_string(),
        kind: kind.to_string(),
        created_at: at,
        ..note("note", "b")
    }
}

#[test]
fn a_list_is_newest_first_and_within_its_limit() {
    let local = || vec![made("a", "note", 30), made("b", "note", 10)];
    let linked = || vec![made("x", "note", 20), made("y", "decision", 40), made("z", "note", 10)];
    assert_eq!(ids(&listed(local(), linked(), None, 2)), vec!["y", "a"]);
    assert_eq!(ids(&listed(local(), linked(), Some("note"), 20)), vec!["a", "x", "b", "z"]);
    assert_eq!(ids(&listed(local(), vec![], None, 1)), vec!["a"]);
    assert!(listed(local(), linked(), None, 0).is_empty());
}

#[test]
fn a_commits_list_is_of_the_kind_asked_for() {
    let matches = || vec![made("a", "note", 1), made("b", "decision", 5)];
    let anchored = || vec![made("c", "decision", 9), made("d", "note", 7), made("b", "decision", 5)];
    let all = commit_list(matches(), anchored(), None, 10);
    assert_eq!(ids(&all), vec!["c", "d", "b", "a"]);
    let some = commit_list(matches(), anchored(), Some("decision"), 10);
    assert_eq!(ids(&some), vec!["c", "b"]);
    assert_eq!(ids(&commit_list(matches(), vec![], Some("note"), 10)), vec!["a"]);
    assert_eq!(ids(&notes_of_kind(matches(), Some("decision"))), vec!["b"]);
    assert_eq!((commit_fetch(20, true), commit_fetch(20, false)), (500, 20));
    assert_eq!(commit_fetch(700, true), 700);
}

fn key(id: &str, at: i64) -> ListKey {
    ListKey { entity_id: id.to_string(), created_at: at }
}

#[test]
fn anchored_entries_join_newest_first() {
    let matches = vec![key("a", 1), key("b", 5)];
    let anchored = vec![key("b", 5), key("c", 9), key("c", 8), key("d", 1)];
    assert_eq!(augment_with_note_anchored(&matches, &anchored, 10), vec![3, 1, 0, 5]);
    assert_eq!(augment_with_note_anchored(&matches, &anchored, 2), vec![3, 1]);
    assert_eq!(augment_with_note_anchored(&matches, &vec![], 1), vec![0, 1]);
}

fn note(kind: &str, body: &str) -> Note {
    Note {
        id: "42".to_string(),
        entity_id: "abcdef0123".to_string(),
        handle: "abcdef".to_string(),
        kind: kind.to_string(),
        title: "T".to_string(),
        body: body.to_string(),
        tags: vec!["x".to_string(), "y".to_string()],
        linked_files: vec![],
        created_at: 1_000,
        status: "archived".to_string(),
        valid_at: None,
        invalid_at: Some(1_000),
        superseded_by: Some("43".to_string()),
        source_ref: Some("0123456789".to_string()),
        source_project: None,
        source_project_path: None,
        score: None,
        distance: Some("0.2500".to_string()),
    }
}

#[test]
fn an_entry_in_a_list() {
    let lines = print_note_summary(&note("note", "a\nb\nc"), 1_060);
    let texts: Vec<&str> = lines.iter().map(|l| l.text.as_str()).collect();
    assert_eq!(
        texts,
        vec![
            "\x1b[1m#abcdef\x1b[0m  \x1b[33m[note]\x1b[0m  T \x1b[31m[archived]\x1b[0m\x1b[2m  dist: 0.2500\x1b[0m",
            "     \x1b[2m1m ago\x1b[0m",
            "     tags: x, y",
            "     \x1b[2msuperseded by #43\x1b[0m",
            "     \x1b[2ma\x1b[0m",
            "     \x1b[2mb\x1b[0m",
            "     \x1b[2m…\x1b[0m",
            "",
        ]
    );
    let q = print_note_summary(&note("question", "a"), 1_060);
    assert!(q[4].text.contains("`inkentry memory show 42` to read body"));
    assert!(matches!(print_notes(&vec![], "json", 0),
        NotesReport::Text(l) if l[0].text == "No memory entries found."));
    let two = vec![note("note", "a"), note("note", "b")];
    assert!(matches!(print_notes(&two, "text", 0), NotesReport::Text(l) if l.len() == 12));
    assert!(matches!(print_notes(&two, "json", 0), NotesReport::Json));
    assert!(matches!(print_notes(&two, "jsonl", 0), NotesReport::Jsonl));
    assert_eq!(no_entry_error("7"), "No memory entry with id 7.");
    let e = record_list_event(&vec![note("note", "a")]);
    assert_eq!((e.command.as_str(), e.count), ("memory.list", 1));
    assert_eq!(e.returned_ids, vec!["abcdef0123"]);
}

#[test]
fn an_entry_in_full() {
    let n = note("note", "body");
    let out = vec![ShownEdge { kind: "supersedes".to_string(), end: edge_end(Some(&n), "42") }];
    let inc = vec![ShownEdge { kind: "other".to_string(), end: edge_end(None, "9") }];
    let lines = memory_show(&n, &out, &inc, 1_060, false);
    let texts: Vec<&str> = lines.iter().map(|l| l.text.as_str()).collect();
    assert_eq!(
        texts,
        vec![
            "\x1b[1m#abcdef [note] T\x1b[0m",
            "\x1b[2m1m ago\x1b[0m",
            "entity_id:  abcdef0123",
            "id:         42",
            "valid_at:   (same as created_at)",
            "invalid_at: 1m ago",
            "tags: x, y",
            "source:  0123456789",
            "",
            "body",
            "",
            "\x1b[2m── relationships ──\x1b[0m",
            "  \x1b[33m→ supersedes\x1b[0m  abcdef T",
            "  ←  9 (deleted)",
        ]
    );
    let colored = memory_show(&n, &vec![], &vec![], 1_060, true);
    assert_eq!(
        colored[7].text,
        "source:  \x1b[36mgit show 0123456789\x1b[0m  \x1b[2m(SHA: 01234567)\x1b[0m"
    );
    assert_eq!(colored.len(), 10);
}

// ── reindexing ──────────────────────────────────────────────────────────────

#[test]
fn a_reindex_partitions_its_counts() {
    let s = memory_reindex(10, 4, 2, false, false, false);
    assert_eq!((s.summary.already_embedded, s.ended), (6, None));
    let c = |id: &str| ReindexCandidate {
        id: id.to_string(),
        title: "T".to_string(),
        body: id.to_string(),
    };
    let mut run = ReindexRun::new(vec![c("a"), c("b")]);
    assert_eq!(run.next().as_deref(), Some("title: T | text: a"));
    assert_eq!(run.stored(), "[inkentry] embedded 1/2…");
    assert_eq!(run.next().as_deref(), Some("title: T | text: b"));
    assert!(run.embed_error("c").starts_with("embedding note b (1 of 2 done"));
    assert_eq!(run.store_error("c"), "storing embedding for note b: c");
    let done = run.finish(s.summary);
    assert_eq!((done.embedded, done.remaining), (1, 1));
    assert_eq!(
        emit_summary(&done, Outcome::Done, false).unwrap(),
        "Reindex complete: 1 embedded, 1 remaining (4 missing before, 10 active total)."
    );
    assert_eq!(emit_summary(&done, Outcome::Done, true), None);
    run.stored();
    assert_eq!(run.next(), None);
    let dry = memory_reindex(10, 4, 4, true, false, false);
    assert_eq!(dry.ended, Some(Outcome::DryRun));
    assert_eq!(
        emit_summary(&dry.summary, Outcome::DryRun, false).unwrap(),
        "Dry run: 4 note(s) would be embedded (10 active total, 6 already embedded). Nothing written."
    );
    let nothing = memory_reindex(10, 0, 0, false, false, false);
    assert_eq!(nothing.ended, Some(Outcome::NothingToDo));
    assert!(emit_summary(&nothing.summary, Outcome::NothingToDo, false)
        .unwrap()
        .contains("all 10 active"));
}

#[test]
fn a_reindex_is_refused_where_there_is_nothing_local() {
    assert_eq!(reindex_refusal(None, &Config::default()), None);
    assert!(reindex_refusal(Some("git-notes"), &Config::default())
        .unwrap()
        .contains("sqlite backend"));
    assert!(reindex_refusal(None, &cloud()).unwrap().contains("cloud_first"));
    let mode_only = Config { mode: SyncMode::CloudFirst, ..Default::default() };
    assert_eq!(reindex_refusal(None, &mode_only), None);
}
