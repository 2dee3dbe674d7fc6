use cargo_upgrades::checker::{metadata_outcome, FeatureRequest, UpgradesChecker};
use cargo_upgrades::registry::{RegistrySnapshot, VersionRecord};
use cargo_upgrades::resolver::{check_dep, crates_io_source};
use cargo_upgrades::version::Version;
use cargo_upgrades::workspace::{Dependency, Package, Workspace};

fn rec(version: &str, yanked: bool) -> VersionRecord {
    VersionRecord { version: version.to_string(), yanked }
}

fn dep(name: &str, req: &str) -> Dependency {
    Dependency {
        name: name.to_string(),
        req: req.to_string(),
        source: Some(crates_io_source().to_string()),
    }
}

fn registry_foo(records: Vec<VersionRecord>) -> RegistrySnapshot {
    let mut reg = RegistrySnapshot::new();
    reg.add_crate("foo".to_string(), records);
    reg
}

fn ver(s: &str) -> Version {
    Version::parse(s).unwrap()
}

#[test]
fn pinned_requirement_gets_upgrade_suggestion() {
    let reg = registry_foo(vec![rec("1.0.0", false), rec("1.2.0", false)]);
    let m = check_dep(&dep("foo", "~1.0.0"), &reg, false).unwrap();
    assert_eq!(m.matches, Some(ver("1.0.0")));
    assert_eq!(m.latest, ver("1.2.0"));
    assert_eq!(m.dependency.name, "foo");
}

#[test]
fn satisfied_requirement_gets_no_suggestion() {
    // The caret requirement already admits the latest stable version.
    let reg = registry_foo(vec![rec("1.0.0", false), rec("1.2.0", false)]);
    assert!(check_dep(&dep("foo", "^1.0"), &reg, false).is_none());
}

#[test]
fn prerelease_ignored_without_policy_flag() {
    let reg = registry_foo(vec![
        rec("1.0.0", false),
        rec("1.2.0", false),
        rec("1.3.0-beta.1", false),
    ]);
    let m = check_dep(&dep("foo", "~1.0.0"), &reg, false).unwrap();
    assert_eq!(m.matches, Some(ver("1.0.0")));
    assert_eq!(m.latest, ver("1.2.0"));
}

#[test]
fn prerelease_chosen_with_policy_flag() {
    let reg = registry_foo(vec![
        rec("1.0.0", false),
        rec("1.2.0", false),
        rec("1.3.0-beta.1", false),
    ]);
    let m = check_dep(&dep("foo", "~1.0.0"), &reg, true).unwrap();
    assert_eq!(m.matches, Some(ver("1.0.0")));
    assert_eq!(m.latest, ver("1.3.0-beta.1"));
}

#[test]
fn unmatchable_requirement_reports_nothing_matching() {
    let reg = registry_foo(vec![rec("2.0.0", false)]);
    let m = check_dep(&dep("foo", "^1.0"), &reg, false).unwrap();
    assert_eq!(m.matches, None);
    assert_eq!(m.latest, ver("2.0.0"));
}

#[test]
fn yanked_only_package_gets_no_suggestion() {
    let reg = registry_foo(vec![rec("1.0.0", true), rec("1.2.0", true)]);
    assert!(check_dep(&dep("foo", "~1.0.0"), &reg, false).is_none());
}

#[test]
fn yanked_versions_are_not_candidates() {
    // The newest stable version is yanked, so the next one is the target.
    let reg = registry_foo(vec![
        rec("1.0.0", false),
        rec("1.1.0", false),
        rec("1.2.0", true),
    ]);
    let m = check_dep(&dep("foo", "~1.0.0"), &reg, false).unwrap();
    assert_eq!(m.latest, ver("1.1.0"));
}

#[test]
fn foreign_source_never_suggests() {
    let reg = registry_foo(vec![rec("1.0.0", false), rec("9.9.9", false)]);
    let path_dep = Dependency {
        name: "foo".to_string(),
        req: "~1.0.0".to_string(),
        source: Some("path+file:///tmp/foo".to_string()),
    };
    assert!(check_dep(&path_dep, &reg, false).is_none());
    let no_source = Dependency {
        name: "foo".to_string(),
        req: "~1.0.0".to_string(),
        source: None,
    };
    assert!(check_dep(&no_source, &reg, false).is_none());
}

#[test]
fn absent_package_gets_no_suggestion() {
    let reg = registry_foo(vec![rec("1.0.0", false)]);
    assert!(check_dep(&dep("bar", "~1.0.0"), &reg, false).is_none());
}

#[test]
fn unparseable_records_are_skipped() {
    let reg = registry_foo(vec![
        rec("1.0.0", false),
        rec("not-a-version", false),
        rec("1.1.0", false),
    ]);
    let m = check_dep(&dep("foo", "~1.0.0"), &reg, false).unwrap();
    assert_eq!(m.latest, ver("1.1.0"));
}

#[test]
fn prerelease_matching_requirement_opts_in() {
    // The requirement already matches an unstable version, so the greatest
    // version overall becomes the target even without the policy flag.
    let reg = registry_foo(vec![
        rec("1.0.0-alpha.1", false),
        rec("1.0.0-beta.1", false),
    ]);
    let m = check_dep(&dep("foo", "=1.0.0-alpha.1"), &reg, false).unwrap();
    assert_eq!(m.matches, Some(ver("1.0.0-alpha.1")));
    assert_eq!(m.latest, ver("1.0.0-beta.1"));
}

#[test]
fn no_stable_version_falls_back_to_any() {
    let reg = registry_foo(vec![rec("0.2.0-rc.1", false), rec("0.2.0-rc.2", false)]);
    let m = check_dep(&dep("foo", "^0.1"), &reg, false).unwrap();
    assert_eq!(m.matches, None);
    assert_eq!(m.latest, ver("0.2.0-rc.2"));
}

fn member_package(name: &str, deps: Vec<Dependency>) -> Package {
    Package {
        id: format!("{} 0.1.0", name),
        name: name.to_string(),
        manifest_path: format!("/ws/{}/Cargo.toml", name),
        dependencies: deps,
    }
}

#[test]
fn outdated_dependencies_end_to_end() {
    let reg = registry_foo(vec![rec("1.0.0", false), rec("1.2.0", false)]);
    let member = member_package("app", vec![dep("foo", "~1.0.0")]);
    let ws = Workspace::new(vec![member], vec!["app 0.1.0".to_string()]);
    let checker = UpgradesChecker::new(Ok(ws), Ok(reg)).unwrap();
    let out = checker.outdated_dependencies(false);
    assert_eq!(out.len(), 1);
    let (package, suggestions) = &out[0];
    assert_eq!(package.name, "app");
    assert_eq!(suggestions.len(), 1);
    assert_eq!(suggestions[0].matches, Some(ver("1.0.0")));
    assert_eq!(suggestions[0].latest, ver("1.2.0"));
}

#[test]
fn up_to_date_members_are_filtered_out() {
    let reg = registry_foo(vec![rec("1.0.0", false), rec("1.2.0", false)]);
    let fresh = member_package("fresh", vec![dep("foo", "^1.0")]);
    let stale = member_package("stale", vec![dep("foo", "~1.0.0")]);
    let ws = Workspace::new(
        vec![fresh, stale],
        vec!["fresh 0.1.0".to_string(), "stale 0.1.0".to_string()],
    );
    let checker = UpgradesChecker::new(Ok(ws), Ok(reg)).unwrap();
    let out = checker.outdated_dependencies(false);
    assert_eq!(out.len(), 1);
    assert_eq!(out[0].0.name, "stale");
}

#[test]
fn unknown_member_identifier_is_skipped() {
    let reg = registry_foo(vec![rec("1.0.0", false)]);
    let ws = Workspace::new(vec![], vec!["ghost 0.1.0".to_string()]);
    let checker = UpgradesChecker::new(Ok(ws), Ok(reg)).unwrap();
    assert!(checker.outdated_dependencies(false).is_empty());
}

#[test]
fn check_package_returns_empty_list_when_current() {
    let reg = registry_foo(vec![rec("1.0.0", false)]);
    let member = member_package("app", vec![dep("foo", "^1.0")]);
    let ws = Workspace::new(vec![member], vec!["app 0.1.0".to_string()]);
    let (package, suggestions) = ws
        .check_package(&"app 0.1.0".to_string(), &reg, false)
        .unwrap();
    assert_eq!(package.name, "app");
    assert!(suggestions.is_empty());
    assert!(ws.check_package(&"nobody".to_string(), &reg, false).is_none());
}

#[test]
fn workspace_error_takes_precedence() {
    let err = UpgradesChecker::new(Err("bad manifest".to_string()), Err("no index".to_string()))
        .unwrap_err();
    match err {
        cargo_upgrades::checker::Error::Metadata(_) => {}
        cargo_upgrades::checker::Error::Index(_) => panic!("workspace error must win"),
    }
    assert_eq!(err.message(), "bad manifest");
}

#[test]
fn index_error_reported_when_workspace_builds() {
    let ws = Workspace::new(vec![], vec![]);
    let err = UpgradesChecker::new(Ok(ws), Err("no index".to_string())).unwrap_err();
    match err {
        cargo_upgrades::checker::Error::Index(_) => {}
        cargo_upgrades::checker::Error::Metadata(_) => panic!("expected the index error"),
    }
    assert_eq!(err.message(), "no index");
}

#[test]
fn metadata_outcome_takes_first_success() {
    let attempts: Vec<Result<u32, String>> =
        vec![Err("first".to_string()), Ok(7), Ok(9)];
    assert_eq!(metadata_outcome(attempts), Ok(7));
    let immediate: Vec<Result<u32, String>> = vec![Ok(1)];
    assert_eq!(metadata_outcome(immediate), Ok(1));
}

#[test]
fn metadata_outcome_keeps_first_error() {
    let attempts: Vec<Result<u32, String>> = vec![
        Err("most informative".to_string()),
        Err("second".to_string()),
        Err("third".to_string()),
    ];
    assert_eq!(metadata_outcome(attempts), Err("most informative".to_string()));
}

#[test]
fn feature_fallback_plan_order() {
    let plan = cargo_upgrades::checker::feature_requests();
    assert_eq!(
        plan,
        vec![
            FeatureRequest::AllFeatures,
            FeatureRequest::ReducedFeatures,
            FeatureRequest::NoDefaultFeatures,
        ]
    );
}

#[test]
fn duplicate_name_first_entry_wins() {
    let mut reg = RegistrySnapshot::new();
    reg.add_crate("foo".to_string(), vec![rec("1.0.0", false), rec("1.2.0", false)]);
    reg.add_crate("foo".to_string(), vec![rec("9.9.9", false)]);
    let m = check_dep(&dep("foo", "~1.0.0"), &reg, false).unwrap();
    assert_eq!(m.latest, ver("1.2.0"));
}
