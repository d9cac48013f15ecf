use hub::api::{
    commit_outcome, enumerate_app_containers, set_loopback_exemption, AppContainer, LoopbackError,
    RawAppContainer,
};

fn sid(n: u8) -> Vec<u8> {
    vec![1, 2, 0, 0, 0, 0, 0, 15, 2, 0, 0, 0, n, 0, 0, 0]
}

fn raw(pfn: &str, n: u8) -> RawAppContainer {
    RawAppContainer {
        app_container_name: format!("name-{}", pfn),
        display_name: format!("Display {}", pfn),
        package_family_name: pfn.to_string(),
        sid: sid(n),
    }
}

fn listing() -> Result<Vec<RawAppContainer>, u32> {
    Ok(vec![raw("pkg.a", 1), raw("pkg.b", 2), raw("pkg.c", 3)])
}

fn enabled_of(cs: &[AppContainer], pfn: &str) -> bool {
    cs.iter().find(|c| c.package_family_name == pfn).unwrap().is_loopback_enabled
}

#[test]
fn empty_listing_gives_empty_sequence() {
    let r = enumerate_app_containers(&Ok(vec![]), &Some(vec![]));
    assert!(r.unwrap().is_empty());
}

#[test]
fn failed_listing_is_fatal() {
    let r = enumerate_app_containers(&Err(5), &Some(vec![sid(1)]));
    assert!(matches!(r, Err(LoopbackError::EnumerationFailed(5))));
    assert_eq!(
        r.err().unwrap().message(),
        "Failed to enumerate app containers: 5"
    );
}

#[test]
fn joins_listing_with_exemptions() {
    let r = enumerate_app_containers(&listing(), &Some(vec![sid(9), sid(2)])).unwrap();
    assert_eq!(r.len(), 3);
    assert_eq!(r[0].app_container_name, "name-pkg.a");
    assert_eq!(r[0].display_name, "Display pkg.a");
    assert_eq!(r[0].package_family_name, "pkg.a");
    assert_eq!(r[0].sid, sid(1));
    assert_eq!(r[0].sid_string, "S-1-15-2-1");
    assert!(!r[0].is_loopback_enabled);
    assert!(r[1].is_loopback_enabled);
    assert_eq!(r[1].sid_string, "S-1-15-2-2");
    assert!(!r[2].is_loopback_enabled);
}

#[test]
fn unfetched_exemptions_mean_none_enabled() {
    let r = enumerate_app_containers(&listing(), &None).unwrap();
    assert_eq!(r.len(), 3);
    assert!(r.iter().all(|c| !c.is_loopback_enabled));
}

#[test]
fn malformed_sid_keeps_identity_with_empty_text() {
    let mut bad = raw("pkg.bad", 0);
    bad.sid = vec![1, 5, 0];
    let r = enumerate_app_containers(&Ok(vec![bad]), &Some(vec![vec![1, 5, 0]])).unwrap();
    assert_eq!(r[0].sid_string, "");
    assert!(r[0].is_loopback_enabled);
}

#[test]
fn set_then_enumerate_round_trip() {
    let l = listing();
    let start = Some(vec![sid(2)]);
    let on = set_loopback_exemption(&l, &start, "pkg.a", true).unwrap();
    assert_eq!(on, vec![sid(2), sid(1)]);
    let cs = enumerate_app_containers(&l, &Some(on.clone())).unwrap();
    assert!(enabled_of(&cs, "pkg.a"));
    assert!(enabled_of(&cs, "pkg.b"));
    assert!(!enabled_of(&cs, "pkg.c"));

    let off = set_loopback_exemption(&l, &Some(on), "pkg.a", false).unwrap();
    assert_eq!(off, vec![sid(2)]);
    let cs = enumerate_app_containers(&l, &Some(off)).unwrap();
    assert!(!enabled_of(&cs, "pkg.a"));
    assert!(enabled_of(&cs, "pkg.b"));
}

#[test]
fn set_twice_is_idempotent() {
    let l = listing();
    let once = set_loopback_exemption(&l, &Some(vec![sid(3), sid(1)]), "pkg.a", true).unwrap();
    let twice = set_loopback_exemption(&l, &Some(once.clone()), "pkg.a", true).unwrap();
    assert_eq!(once, twice);
}

#[test]
fn set_drops_every_duplicate_of_target() {
    let l = listing();
    let r = set_loopback_exemption(&l, &Some(vec![sid(1), sid(3), sid(1)]), "pkg.a", false).unwrap();
    assert_eq!(r, vec![sid(3)]);
}

#[test]
fn set_disabling_last_gives_explicit_empty_list() {
    let l = listing();
    let r = set_loopback_exemption(&l, &Some(vec![sid(1)]), "pkg.a", false).unwrap();
    assert!(r.is_empty());
}

#[test]
fn set_with_unfetched_list_starts_empty() {
    let r = set_loopback_exemption(&listing(), &None, "pkg.c", true).unwrap();
    assert_eq!(r, vec![sid(3)]);
}

#[test]
fn set_unknown_package_fails() {
    let r = set_loopback_exemption(&listing(), &Some(vec![sid(2)]), "nonexistent-package", true);
    match r {
        Err(LoopbackError::PackageNotFound(name)) => assert_eq!(name, "nonexistent-package"),
        _ => panic!("expected PackageNotFound"),
    }
    let e = LoopbackError::PackageNotFound("nonexistent-package".to_string());
    assert_eq!(e.message(), "Package not found: nonexistent-package");
}

#[test]
fn set_with_no_identities_fails_not_found() {
    let r = set_loopback_exemption(&Ok(vec![]), &None, "pkg.a", true);
    assert!(matches!(r, Err(LoopbackError::PackageNotFound(_))));
}

#[test]
fn set_with_failed_listing() {
    let r = set_loopback_exemption(&Err(87), &None, "pkg.a", true);
    assert!(matches!(r, Err(LoopbackError::EnumerationFailed(87))));
}

#[test]
fn set_targets_first_identity_with_name() {
    let l = Ok(vec![raw("pkg.a", 1), raw("pkg.a", 4)]);
    let r = set_loopback_exemption(&l, &Some(vec![]), "pkg.a", true).unwrap();
    assert_eq!(r, vec![sid(1)]);
}

#[test]
fn commit_status_mapping() {
    assert!(commit_outcome(0).is_ok());
    let e = commit_outcome(5).err().unwrap();
    assert!(matches!(e, LoopbackError::CommitFailed(5)));
    assert_eq!(e.message(), "Failed to set loopback exemption: 5");
}

#[test]
fn unsupported_message() {
    assert_eq!(
        LoopbackError::Unsupported.message(),
        "This function is only available on Windows"
    );
}
