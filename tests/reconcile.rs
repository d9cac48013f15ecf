use hub::api::{AppContainer, LoopbackError};
use hub::messages::{GetAppContainers, SaveConfiguration, SetLoopback};

fn container(pfn: &str, enabled: bool) -> AppContainer {
    AppContainer {
        app_container_name: format!("name-{}", pfn),
        display_name: String::new(),
        package_family_name: pfn.to_string(),
        sid: vec![1, 0, 0, 0, 0, 0, 0, 15],
        sid_string: "S-1-15".to_string(),
        is_loopback_enabled: enabled,
    }
}

fn abc() -> Vec<AppContainer> {
    vec![container("A", false), container("B", true), container("C", false)]
}

fn desired_ac() -> SaveConfiguration {
    SaveConfiguration {
        package_family_names: vec!["A".to_string(), "C".to_string()],
    }
}

#[test]
fn reconcile_plans_every_mismatch() {
    let plan = desired_ac().changes(&abc());
    let got: Vec<(String, bool)> = plan
        .into_iter()
        .map(|c| (c.package_family_name, c.enabled))
        .collect();
    assert_eq!(
        got,
        vec![
            ("A".to_string(), true),
            ("B".to_string(), false),
            ("C".to_string(), true)
        ]
    );
}

#[test]
fn reconcile_skips_matching_identities() {
    let cs = vec![container("A", true), container("B", false)];
    let req = SaveConfiguration {
        package_family_names: vec!["A".to_string()],
    };
    assert!(req.changes(&cs).is_empty());
    let r = req.handle(&Ok(cs), &vec![]);
    assert!(r.success);
    assert_eq!(r.message, "配置保存成功");
}

#[test]
fn reconcile_all_commits_succeed() {
    let cs = abc();
    let r = desired_ac().handle(&Ok(cs), &vec![Ok(()), Ok(()), Ok(())]);
    assert!(r.success);
    assert_eq!(r.message, "配置保存成功");
}

#[test]
fn reconcile_partial_failure_lists_each() {
    let cs = abc();
    let outcomes = vec![
        Err(LoopbackError::CommitFailed(5)),
        Ok(()),
        Err(LoopbackError::PackageNotFound("C".to_string())),
    ];
    let r = desired_ac().handle(&Ok(cs), &outcomes);
    assert!(!r.success);
    assert_eq!(
        r.message,
        "部分操作失败:\nA: Failed to set loopback exemption: 5\nC: Package not found: C"
    );
}

#[test]
fn reconcile_one_failure_keeps_sweeping() {
    let cs = abc();
    let req = desired_ac();
    assert_eq!(req.changes(&cs).len(), 3);
    let outcomes = vec![Ok(()), Err(LoopbackError::CommitFailed(31)), Ok(())];
    let r = req.handle(&Ok(cs), &outcomes);
    assert!(!r.success);
    assert_eq!(
        r.message,
        "部分操作失败:\nB: Failed to set loopback exemption: 31"
    );
}

#[test]
fn reconcile_enumeration_failure() {
    let r = desired_ac().handle(&Err(LoopbackError::EnumerationFailed(2)), &vec![]);
    assert!(!r.success);
    assert_eq!(
        r.message,
        "无法枚举容器: Failed to enumerate app containers: 2"
    );
}

#[test]
fn listing_reply_copies_each_identity() {
    let cs = abc();
    let (marker, infos) = GetAppContainers.handle(&Ok(cs));
    assert!(marker.containers.is_empty());
    assert_eq!(infos.len(), 3);
    assert_eq!(infos[1].package_family_name, "B");
    assert_eq!(infos[1].app_container_name, "name-B");
    assert!(infos[1].is_loopback_enabled);
    assert_eq!(infos[0].sid_string, "S-1-15");
    assert_eq!(infos[0].sid, vec![1, 0, 0, 0, 0, 0, 0, 15]);
}

#[test]
fn listing_reply_on_failure_is_marker_only() {
    let (marker, infos) = GetAppContainers.handle(&Err(LoopbackError::EnumerationFailed(1)));
    assert!(marker.containers.is_empty());
    assert!(infos.is_empty());
}

#[test]
fn set_reply_success() {
    let req = SetLoopback {
        package_family_name: "A".to_string(),
        enabled: true,
    };
    let r = req.handle(&Ok(()));
    assert!(r.success);
    assert_eq!(r.message, "回环豁免设置成功");
}

#[test]
fn set_reply_failure_carries_error() {
    let req = SetLoopback {
        package_family_name: "nonexistent-package".to_string(),
        enabled: true,
    };
    let r = req.handle(&Err(LoopbackError::PackageNotFound(
        "nonexistent-package".to_string(),
    )));
    assert!(!r.success);
    assert_eq!(r.message, "Package not found: nonexistent-package");
}
