use mast::iac::{
    can, can_access, is_within, parent_scope, pv_from_label, pv_label, pv_value, resolve_epv, scope_for_slug,
    target_matches, Grant, Requester, ScopeGrants, UserPv, PV,
};

fn s(x: &str) -> String {
    x.to_string()
}

fn grant(pv: u8, targets: &[&str]) -> Grant {
    Grant { pv, targets: targets.iter().map(|t| s(t)).collect() }
}

fn scope(name: &str, grants: Vec<Grant>) -> ScopeGrants {
    ScopeGrants { scope: s(name), grants }
}

fn user(name: &str, groups: &[&str]) -> Requester {
    Requester { username: Some(s(name)), groups: groups.iter().map(|g| s(g)).collect(), userpv: Vec::new() }
}

fn guest() -> Requester {
    Requester::default()
}

#[test]
fn labels_and_values() {
    assert_eq!(pv_label(PV::N), "N");
    assert_eq!(pv_label(PV::R), "R");
    assert_eq!(pv_label(PV::E), "E");
    assert_eq!(pv_label(PV::C), "C");
    assert_eq!(pv_label(PV::U), "U");
    assert_eq!(pv_label(PV::D), "D");
    assert_eq!(pv_value(PV::N), 0);
    assert_eq!(pv_value(PV::R), 1);
    assert_eq!(pv_value(PV::E), 2);
    assert_eq!(pv_value(PV::C), 4);
    assert_eq!(pv_value(PV::U), 16);
    assert_eq!(pv_value(PV::D), 255);
}

#[test]
fn labels_read_back() {
    for p in [PV::N, PV::R, PV::E, PV::C, PV::U, PV::D] {
        let letter = pv_label(p).chars().next().unwrap();
        assert_eq!(pv_from_label(letter), Some(p));
        assert_eq!(pv_from_label(letter.to_ascii_lowercase()), Some(p));
    }
    assert_eq!(pv_from_label('x'), None);
}

#[test]
fn ladder_allows_lower_values() {
    assert!(can(PV::D, PV::C));
    assert!(can(PV::C, PV::U));
    assert!(!can(PV::U, PV::C));
    assert!(can(PV::U, PV::E));
    assert!(can(PV::R, PV::R));
    assert!(can(PV::U, PV::N));
    assert!(!can(PV::R, PV::E));
    assert!(!can(PV::N, PV::R));
}

#[test]
fn scopes_of_slugs() {
    assert_eq!(scope_for_slug(""), "/");
    assert_eq!(scope_for_slug("   "), "/");
    assert_eq!(scope_for_slug("a/b/"), "/a/b");
    assert_eq!(scope_for_slug(" /x "), "/x");
    assert_eq!(scope_for_slug("///"), "/");
    assert_eq!(scope_for_slug("development/onboarding"), "/development/onboarding");
}

#[test]
fn parents_of_scopes() {
    assert_eq!(parent_scope("/a/b"), "/a");
    assert_eq!(parent_scope("/a"), "/");
    assert_eq!(parent_scope("/"), "/");
    assert_eq!(parent_scope("/a/b/"), "/a");
}

#[test]
fn ancestry_is_boundary_safe() {
    assert!(is_within("/a/b", "/a"));
    assert!(is_within("/a", "/a"));
    assert!(is_within("/a", "/"));
    assert!(!is_within("/ab", "/a"));
    assert!(!is_within("/a", "/a/b"));
}

#[test]
fn targets_name_requesters() {
    let alice = user("alice", &["contributors"]);
    assert!(target_matches(&alice, "ALL"));
    assert!(target_matches(&alice, "ALL_AUTH"));
    assert!(!target_matches(&alice, "ALL_UNAUTH"));
    assert!(target_matches(&alice, "user:alice"));
    assert!(!target_matches(&alice, "user:bob"));
    assert!(target_matches(&alice, "contributors"));
    assert!(!target_matches(&alice, "editors"));
    let g = guest();
    assert!(target_matches(&g, "ALL_UNAUTH"));
    assert!(!target_matches(&g, "ALL_AUTH"));
    assert!(!target_matches(&g, "user:alice"));
}

#[test]
fn basic_scope_resolution() {
    let acl = vec![scope("/development", vec![grant(1, &["ALL"])])];
    assert_eq!(resolve_epv(&acl, &guest(), "/development/onboarding", None, None), 1);
    assert_eq!(resolve_epv(&acl, &user("bob", &[]), "development/onboarding", None, None), 1);
}

#[test]
fn highest_grant_wins_at_one_scope() {
    let acl = vec![scope("/development", vec![grant(1, &["foo"]), grant(16, &["bar"])])];
    let bob = user("bob", &["foo", "bar"]);
    assert_eq!(resolve_epv(&acl, &bob, "/development", None, None), 16);
    assert!(can_access(&acl, &bob, "/development", pv_value(PV::R), None, None));
}

#[test]
fn create_outranks_update() {
    let acl = vec![scope("/", vec![grant(16, &["editors"]), grant(4, &["creators"])])];
    let both = user("kim", &["editors", "creators"]);
    assert_eq!(resolve_epv(&acl, &both, "/page", None, None), 4);
    assert!(can_access(&acl, &both, "/page", pv_value(PV::U), None, None));
    let editor = user("lee", &["editors"]);
    assert!(!can_access(&acl, &editor, "/page", pv_value(PV::C), None, None));
    assert_eq!(resolve_epv(&Vec::new(), &editor, "/x", Some(16), Some(4)), 4);
}

#[test]
fn page_grant_reopens_blocked_namespace() {
    let acl = vec![
        scope("/development", vec![grant(0, &["contributors"])]),
        scope("/development/onboarding", vec![grant(1, &["ALL"])]),
    ];
    let alice = user("alice", &["contributors"]);
    assert_eq!(resolve_epv(&acl, &alice, "/development/onboarding", None, None), 1);
    assert_eq!(resolve_epv(&acl, &alice, "/development/other", None, None), 0);
}

#[test]
fn closer_scope_beats_user_grant_higher_up() {
    let acl = vec![
        scope("/development", vec![grant(1, &["user:alice"])]),
        scope("/development/github", vec![grant(4, &["contributors"])]),
    ];
    let alice = user("alice", &["contributors"]);
    assert_eq!(resolve_epv(&acl, &alice, "/development/github", None, None), 4);
}

#[test]
fn sudo_bypasses_everything() {
    let acl = vec![scope("/", vec![grant(0, &["ALL"])])];
    let root = user("root", &["sudo"]);
    assert_eq!(resolve_epv(&acl, &root, "/anything", None, None), 255);
    assert!(can_access(&acl, &root, "/anything", pv_value(PV::D), None, None));
}

#[test]
fn deepest_override_wins() {
    let acl = vec![scope("/", vec![grant(1, &["ALL"])])];
    let mut carol = user("carol", &[]);
    carol.userpv = vec![
        UserPv { pv: 255, scopes: vec![s("/docs")] },
        UserPv { pv: 2, scopes: vec![s("/docs/private/")] },
    ];
    assert_eq!(resolve_epv(&acl, &carol, "/docs/private/page", None, None), 2);
    assert_eq!(resolve_epv(&acl, &carol, "/docs/public", None, None), 255);
    assert_eq!(resolve_epv(&acl, &carol, "/other", None, None), 1);
}

#[test]
fn equal_depth_overrides_take_highest() {
    let mut dan = user("dan", &[]);
    dan.userpv = vec![UserPv { pv: 2, scopes: vec![s("/a")] }, UserPv { pv: 16, scopes: vec![s("a")] }];
    assert_eq!(resolve_epv(&Vec::new(), &dan, "/a/b", None, None), 16);
}

#[test]
fn unmatched_falls_back_to_configured_permissions() {
    let acl: Vec<ScopeGrants> = Vec::new();
    assert_eq!(resolve_epv(&acl, &guest(), "/x", None, None), 0);
    assert_eq!(resolve_epv(&acl, &guest(), "/x", Some(1), Some(4)), 1);
    assert_eq!(resolve_epv(&acl, &user("eve", &[]), "/x", Some(1), Some(4)), 4);
    assert_eq!(resolve_epv(&acl, &user("eve", &[]), "/x", Some(4), Some(1)), 4);
    assert!(!can_access(&acl, &guest(), "/x", pv_value(PV::R), None, None));
}

#[test]
fn root_grant_reaches_every_page() {
    let acl = vec![scope("/", vec![grant(1, &["ALL"]), grant(4, &["ALL_AUTH"])])];
    assert_eq!(resolve_epv(&acl, &guest(), "/a/b/c", None, None), 1);
    assert_eq!(resolve_epv(&acl, &user("f", &[]), "/a/b/c", None, None), 4);
}

#[test]
fn order_of_distinct_scopes_does_not_matter() {
    let a = scope("/", vec![grant(1, &["ALL"])]);
    let b = scope("/dev", vec![grant(16, &["user:bob"])]);
    let c = scope("/dev/notes", vec![grant(4, &["ALL_AUTH"])]);
    let forward = vec![a.clone(), b.clone(), c.clone()];
    let backward = vec![c, b, a];
    let bob = user("bob", &[]);
    for page in ["/dev", "/dev/notes", "/dev/other", "/elsewhere"] {
        assert_eq!(resolve_epv(&forward, &bob, page, None, None), resolve_epv(&backward, &bob, page, None, None));
        assert_eq!(resolve_epv(&forward, &guest(), page, None, None), resolve_epv(&backward, &guest(), page, None, None));
    }
    assert_eq!(resolve_epv(&forward, &bob, "/dev/other", None, None), 16);
    assert_eq!(resolve_epv(&forward, &bob, "/dev/notes", None, None), 4);
    assert_eq!(resolve_epv(&forward, &guest(), "/elsewhere", None, None), 1);
}

#[test]
fn grants_past_the_deciding_scope_do_not_count() {
    let near = vec![scope("/dev", vec![grant(1, &["ALL"])])];
    let more = vec![
        scope("/dev", vec![grant(1, &["ALL"])]),
        scope("/", vec![grant(255, &["ALL"])]),
        scope("/ops", vec![grant(16, &["ALL"])]),
    ];
    assert_eq!(resolve_epv(&near, &guest(), "/dev/page", None, None), 1);
    assert_eq!(resolve_epv(&more, &guest(), "/dev/page", None, None), 1);
    assert_eq!(resolve_epv(&more, &guest(), "/other", None, None), 255);
}
