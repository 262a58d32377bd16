use inkentry_cli::org::{
    cloud_address, is_workos_org_id, looks_like_uuid, org_list, org_switch,
    resolve_arg_to_workos_org_id, resolve_workos_org_id, slug_hint, switched_message, CachedOrg,
    MeOrg, OrgResolution, SwitchStep,
};

fn me_orgs() -> Vec<MeOrg> {
    vec![
        MeOrg {
            id: "11111111-1111-1111-1111-111111111111".into(),
            name: "Acme".into(),
            slug: "acme".into(),
            workos_org_id: Some("org_acme".into()),
        },
        MeOrg {
            id: "22222222-2222-2222-2222-222222222222".into(),
            name: "Beta".into(),
            slug: "beta".into(),
            workos_org_id: Some("org_beta".into()),
        },
    ]
}

#[test]
fn is_workos_org_id_recognises_provider_ids() {
    assert!(is_workos_org_id("org_01ABCDEF"));
    assert!(!is_workos_org_id("beta"));
    assert!(!is_workos_org_id("22222222-2222-2222-2222-222222222222"));
}

#[test]
fn resolve_arg_to_workos_org_id_matches_slug() {
    let id = resolve_arg_to_workos_org_id(&me_orgs(), "beta").unwrap();
    assert_eq!(id, "org_beta");
}

#[test]
fn resolve_arg_to_workos_org_id_matches_local_uuid() {
    let id =
        resolve_arg_to_workos_org_id(&me_orgs(), "11111111-1111-1111-1111-111111111111").unwrap();
    assert_eq!(id, "org_acme");
}

#[test]
fn resolve_arg_to_workos_org_id_unknown_errors() {
    let err = resolve_arg_to_workos_org_id(&me_orgs(), "gamma").unwrap_err();
    let msg = err.to_string();
    assert!(msg.contains("gamma"), "error should name the arg: {msg}");
}

#[test]
fn resolve_arg_to_workos_org_id_missing_workos_id_errors() {
    let orgs = vec![MeOrg {
        id: "33333333-3333-3333-3333-333333333333".into(),
        name: "Gamma".into(),
        slug: "gamma".into(),
        workos_org_id: None,
    }];
    let err = resolve_arg_to_workos_org_id(&orgs, "gamma").unwrap_err();
    assert!(
        err.to_string().contains("WorkOS org id"),
        "error should explain the missing WorkOS org id: {err}"
    );
}

#[test]
fn slug_hint_recorded_only_for_a_slug() {
    assert_eq!(slug_hint("acme"), Some("acme"));
    assert_eq!(slug_hint("org_01ABC"), None);
    assert_eq!(slug_hint("11111111-1111-1111-1111-111111111111"), None);
}

#[test]
fn a_uuid_needs_its_exact_shape() {
    assert!(looks_like_uuid("0f8fad5b-D9CB-469f-a165-70867728950e"));
    assert!(!looks_like_uuid("0f8fad5bd9cb-469f-a165-70867728950e"));
    assert!(!looks_like_uuid("0f8fad5g-d9cb-469f-a165-70867728950e"));
    assert!(!looks_like_uuid(""));
}

#[test]
fn only_a_provider_id_needs_no_lookup() {
    assert!(matches!(resolve_workos_org_id("org_1"), OrgResolution::Given(s) if s == "org_1"));
    assert!(matches!(resolve_workos_org_id("acme"), OrgResolution::LookUp));
}

#[test]
fn the_cloud_address_loses_its_end_slashes() {
    assert_eq!(cloud_address(Some("http://x:1//"), "https://h"), "http://x:1");
    assert_eq!(cloud_address(None, "https://h/"), "https://h");
}

#[test]
fn the_active_organisation_is_marked() {
    let orgs = vec![
        CachedOrg { org_id: "org_1".into(), slug: Some("acme".into()), is_active: true },
        CachedOrg { org_id: "org_2".into(), slug: None, is_active: false },
    ];
    assert_eq!(org_list(&orgs), vec!["* acme (org_1)", "  org_2"]);
    assert_eq!(
        org_list(&vec![]),
        vec!["No organizations cached. Run `inkentry login` to sign in."]
    );
}

#[test]
fn a_switch_needs_a_cached_session_or_a_current_one() {
    assert!(matches!(org_switch("acme", true, false), SwitchStep::Switched(s)
        if s == "Switched to organization 'acme'."));
    assert!(matches!(org_switch("acme", false, true), SwitchStep::Onboard));
    assert!(matches!(org_switch("acme", false, false), SwitchStep::NotLoggedIn(e)
        if e.contains("inkentry login")));
    assert_eq!(switched_message("x"), "Switched to organization 'x'.");
}
