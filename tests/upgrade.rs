use cargo_upgrade::report::{column_widths, summary_names, table_rows};
use cargo_upgrade::requirement::LockedPackage;
use cargo_upgrade::upgrade::{
    decide_upgrade, parse_selection, plan_upgrade, CellStyle, Dep, DepEntry, Reason, Selection,
    UpgradeArgs, UpgradeError,
};

fn args() -> UpgradeArgs {
    UpgradeArgs {
        dependency: vec![],
        manifest_path: None,
        pkgid: vec![],
        all: false,
        workspace: false,
        dry_run: false,
        pinned: false,
        offline: false,
        to_lockfile: false,
        exclude: vec![],
        locked: false,
        verbose: false,
    }
}

fn entry(key: &str, req: Option<&str>, latest: Option<&str>) -> DepEntry {
    DepEntry {
        toml_key: key.to_string(),
        name: key.to_string(),
        renamed: false,
        version_req: req.map(|r| r.to_string()),
        latest_version: latest.map(|l| l.to_string()),
    }
}

fn decide(e: &DepEntry, chosen: Option<&String>, locked: &[LockedPackage], pinned: bool, to_lockfile: bool) -> Dep {
    let old = e.version_req.clone().unwrap();
    decide_upgrade(e, &old, chosen, locked, pinned, to_lockfile).unwrap()
}

#[test]
fn precision_is_preserved() {
    let d = decide(&entry("foo", Some("1.2"), Some("1.5.0")), None, &[], false, false);
    assert_eq!(d.new_version_req, "1.5");
    assert_eq!(d.reason, None);
    assert!(d.is_interesting());
    assert!(d.req_changed());
    assert_eq!(d.new_version_req_spec(), CellStyle::Green);
}

#[test]
fn pinned_requirement_is_kept() {
    let d = decide(&entry("foo", Some("=1.0.0"), Some("1.2.0")), None, &[], false, false);
    assert_eq!(d.new_version_req, "=1.0.0");
    assert_eq!(d.reason, Some(Reason::Pinned));
    assert!(d.is_interesting());
    assert_eq!(d.old_version_req_spec(), CellStyle::Yellow);
    let d = decide(&entry("foo", Some("=1.2.0"), Some("1.2.0")), None, &[], false, false);
    assert!(!d.is_interesting());
}

#[test]
fn pinned_override_upgrades() {
    let d = decide(&entry("foo", Some("=1.0.0"), Some("1.2.0")), None, &[], true, false);
    assert_eq!(d.new_version_req, "=1.2.0");
    assert_eq!(d.reason, None);
}

#[test]
fn renamed_entry_is_pinned() {
    let mut e = entry("foo", Some("1.0"), Some("2.0.0"));
    e.renamed = true;
    let d = decide(&e, None, &[], false, false);
    assert_eq!(d.new_version_req, "1.0");
    assert_eq!(d.reason, Some(Reason::Pinned));
}

#[test]
fn compatible_requirement_is_kept() {
    let d = decide(&entry("foo", Some("1"), Some("1.9.0")), None, &[], false, false);
    assert_eq!(d.new_version_req, "1");
    assert_eq!(d.reason, Some(Reason::Compatible));
    assert!(!d.is_interesting());
    assert_eq!(d.short_reason(), "compatible");
    assert_eq!(d.long_reason(), "compatible");
}

#[test]
fn chosen_requirement_wins() {
    let chosen = "0.3".to_string();
    let d = decide(&entry("foo", Some("1"), Some("1.9.0")), Some(&chosen), &[], false, false);
    assert_eq!(d.new_version_req, "0.3");
    assert_eq!(d.reason, None);
}

#[test]
fn no_latest_is_unchanged() {
    let d = decide(&entry("foo", Some("1.0"), None), None, &[], false, false);
    assert_eq!(d.new_version_req, "1.0");
    assert_eq!(d.reason, Some(Reason::Unchanged));
    assert_eq!(d.latest_version(), "-");
    assert_eq!(d.locked_version(), "-");
    assert_eq!(d.short_reason(), "");
    assert_eq!(d.long_reason(), "unchanged");
}

#[test]
fn bound_requirement_falls_back_to_target() {
    let d = decide(&entry("foo", Some(">=1.0"), Some("1.5.0")), None, &[], false, false);
    assert_eq!(d.new_version_req, "1.5.0");
    assert_eq!(d.reason, None);
}

#[test]
fn to_lockfile_uses_locked_version() {
    let locked = vec![LockedPackage {
        name: "foo".to_string(),
        version: semver::Version::parse("1.4.2").unwrap(),
    }];
    let d = decide(&entry("foo", Some("1.0"), Some("2.0.0")), None, &locked, false, true);
    assert_eq!(d.new_version_req, "1.4");
    assert_eq!(d.locked_version, Some("1.4.2".to_string()));
    assert!(!d.is_locked_latest());
}

#[test]
fn unparsable_latest_fails() {
    let e = entry("foo", Some("1.0"), Some("latest"));
    let old = "1.0".to_string();
    assert_eq!(
        decide_upgrade(&e, &old, None, &[], false, false).err(),
        Some(UpgradeError::UnparsableVersion("latest".to_string()))
    );
}

#[test]
fn reason_texts() {
    assert_eq!(Reason::Unchanged.as_short(), "");
    assert_eq!(Reason::Pinned.as_short(), "pinned");
    assert_eq!(Reason::Unchanged.as_long(), "unchanged");
    assert_eq!(Reason::Pinned.as_long(), "pinned");
}

#[test]
fn workspace_flag() {
    let mut a = args();
    assert!(!a.workspace());
    a.all = true;
    assert!(a.workspace());
}

#[test]
fn missing_dependency_is_named() {
    let selected = vec![Selection { name: "does-not-exist".to_string(), version_req: None }];
    let packages = vec![vec![entry("foo", Some("1.0"), Some("1.0.0"))]];
    let r = plan_upgrade(&args(), &selected, &packages, &[]);
    assert_eq!(
        r.err(),
        Some(UpgradeError::DependencyNotFound(vec!["does-not-exist".to_string()]))
    );
}

#[test]
fn locked_run_refuses_changes() {
    let mut a = args();
    a.locked = true;
    let packages = vec![vec![entry("foo", Some("1.0"), Some("2.0.0"))]];
    assert_eq!(plan_upgrade(&a, &vec![], &packages, &[]).err(), Some(UpgradeError::LockedViolation));
    a.locked = false;
    let plan = plan_upgrade(&a, &vec![], &packages, &[]).ok().unwrap();
    assert!(plan.any_modified);
    assert_eq!(plan.modified, vec![true]);
}

#[test]
fn plan_filters_and_flags() {
    let mut a = args();
    a.exclude = vec!["skipped".to_string()];
    let packages = vec![
        vec![
            entry("foo", Some("1"), Some("1.9.0")),
            entry("skipped", Some("1.0"), Some("2.0.0")),
            entry("local", None, None),
        ],
        vec![entry("bar", Some("=0.1.0"), Some("0.2.0"))],
    ];
    let plan = plan_upgrade(&a, &vec![], &packages, &[]).ok().unwrap();
    assert!(!plan.any_modified);
    assert!(plan.compatible_present);
    assert!(plan.pinned_present);
    assert!(plan.records[0][1].is_none());
    assert!(plan.records[0][2].is_none());
    assert_eq!(plan.records[1][0].as_ref().unwrap().reason, Some(Reason::Pinned));
}

#[test]
fn selection_restricts_run() {
    let selected = vec![Selection { name: "bar".to_string(), version_req: Some("0.5".to_string()) }];
    let packages = vec![vec![
        entry("foo", Some("1.0"), Some("2.0.0")),
        entry("bar", Some("0.1"), Some("0.2.0")),
    ]];
    let plan = plan_upgrade(&args(), &selected, &packages, &[]).ok().unwrap();
    assert!(plan.records[0][0].is_none());
    assert_eq!(plan.records[0][1].as_ref().unwrap().new_version_req, "0.5");
}

#[test]
fn selections_parse() {
    let s = parse_selection("serde@1.0").ok().unwrap();
    assert_eq!(s.name, "serde");
    assert_eq!(s.version_req, Some("1.0".to_string()));
    let s = parse_selection("serde").ok().unwrap();
    assert_eq!(s.name, "serde");
    assert_eq!(s.version_req, None);
    assert_eq!(
        parse_selection("serde@!!").err(),
        Some(UpgradeError::InvalidRequirement("serde@!!".to_string()))
    );
}

#[test]
fn report_widths_and_rows() {
    let deps = vec![
        decide(&entry("a-long-name", Some("1.2"), Some("1.5.0")), None, &[], false, false),
        decide(&entry("b", Some("1"), Some("1.9.0")), None, &[], false, false),
        decide(&entry("c", Some("=1.0.0"), Some("1.0.0")), None, &[], false, false),
    ];
    assert_eq!(column_widths(&deps), vec![11, 7, 6, 6, 7, 10]);
    assert_eq!(table_rows(&deps, false), vec![0]);
    assert_eq!(table_rows(&deps, true), vec![0, 1, 2]);
    assert_eq!(summary_names(&deps, false, Reason::Compatible), vec!["b".to_string()]);
    assert_eq!(summary_names(&deps, false, Reason::Pinned), vec!["c".to_string()]);
    assert!(summary_names(&deps, true, Reason::Pinned).is_empty());
}

#[test]
fn missing_dependencies_listed_once_in_order() {
    let sel = |n: &str| Selection { name: n.to_string(), version_req: None };
    let selected = vec![sel("b"), sel("foo"), sel("a"), sel("b")];
    let packages = vec![vec![entry("foo", Some("1.0"), Some("1.0.0"))]];
    let r = plan_upgrade(&args(), &selected, &packages, &[]);
    assert_eq!(
        r.err(),
        Some(UpgradeError::DependencyNotFound(vec!["b".to_string(), "a".to_string()]))
    );
}

#[test]
fn later_selection_overrides_earlier() {
    let selected = vec![
        Selection { name: "bar".to_string(), version_req: Some("0.5".to_string()) },
        Selection { name: "bar".to_string(), version_req: Some("0.7".to_string()) },
    ];
    let packages = vec![vec![entry("bar", Some("0.1"), Some("0.2.0"))]];
    let plan = plan_upgrade(&args(), &selected, &packages, &[]).ok().unwrap();
    assert_eq!(plan.records[0][0].as_ref().unwrap().new_version_req, "0.7");
}

#[test]
fn summary_names_sorted_and_distinct() {
    let deps = vec![
        decide(&entry("zeta", Some("1"), Some("1.9.0")), None, &[], false, false),
        decide(&entry("alpha", Some("1"), Some("1.2.0")), None, &[], false, false),
        decide(&entry("zeta", Some("2"), Some("2.1.0")), None, &[], false, false),
        decide(&entry("mid", Some("1"), Some("1.0.5")), None, &[], false, false),
    ];
    assert_eq!(
        summary_names(&deps, false, Reason::Compatible),
        vec!["alpha".to_string(), "mid".to_string(), "zeta".to_string()]
    );
}

