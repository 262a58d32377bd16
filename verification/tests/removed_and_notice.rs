use inkentry_cli::notice::Notices;
use inkentry_cli::removed::{hint, subcommand_path};

fn argv(args: &[&str]) -> Vec<String> {
    std::iter::once("inkentry")
        .chain(args.iter().copied())
        .map(String::from)
        .collect()
}

#[test]
fn memory_search_names_the_only_memory_replacement() {
    let h = hint(&argv(&["memory", "search", "why sqlite-vec"])).unwrap();
    assert!(h.contains("--only-memory"));
    assert!(!h.contains("archive"));
}

#[test]
fn top_level_graph_names_both_replacements() {
    let h = hint(&argv(&["graph", "linearrag_search"])).unwrap();
    assert!(h.contains("search \"<symbol>\" --graph"));
    assert!(h.contains("plumbing graph-edges"));
}

#[test]
fn memory_graph_is_not_a_removed_surface() {
    assert!(hint(&argv(&["memory", "graph", "12"])).is_none());
}

#[test]
fn search_mode_maps_each_old_value() {
    for form in [
        vec!["search", "foo", "--mode", "text"],
        vec!["search", "foo", "--mode=ast-grep"],
    ] {
        let h = hint(&argv(&form)).unwrap();
        assert!(h.contains("--only-text"));
        assert!(h.contains("ast-grep"));
    }
}

#[test]
fn mode_outside_search_is_not_hinted() {
    assert!(hint(&argv(&["status", "--mode", "text"])).is_none());
}

#[test]
fn globals_before_the_subcommand_do_not_hide_it() {
    assert!(hint(&argv(&["--color", "never", "graph", "foo"])).is_some());
    assert!(hint(&argv(&["--config", "graph", "memory", "search", "q"])).is_some());
}

#[test]
fn live_surfaces_get_no_hint() {
    assert!(hint(&argv(&["search", "foo", "--only-text"])).is_none());
    assert!(hint(&argv(&["memory", "list"])).is_none());
    assert!(hint(&argv(&[])).is_none());
}

#[test]
fn a_value_flag_at_the_very_end_takes_nothing() {
    assert_eq!(
        subcommand_path(&argv(&["memory", "--config"])),
        vec!["memory".to_string()]
    );
    assert_eq!(
        subcommand_path(&argv(&["-c", "x", "-v", "a", "b", "c"])),
        vec!["a".to_string(), "b".to_string()]
    );
}

#[test]
fn notices_print_when_no_choice_was_recorded() {
    assert!(Notices::new().notices_enabled());
}

#[test]
fn the_first_choice_of_quiet_stands() {
    let mut n = Notices::new();
    n.set_quiet(true);
    n.set_quiet(false);
    assert!(!n.notices_enabled());
    let mut m = Notices::new();
    m.set_quiet(false);
    m.set_quiet(true);
    assert!(m.notices_enabled());
}
