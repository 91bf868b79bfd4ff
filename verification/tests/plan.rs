use release_plz_core::dependents::{
    calculate_package_update_result, dependent_packages_update, ChangedPackage,
};
use release_plz_core::diff::{Commit, Diff, SemverCheck, NO_COMMIT_ID};
use release_plz_core::package::{Dependency, DependencyKind, Package};
use release_plz_core::plan::PackagesUpdate;
use release_plz_core::request::{
    PackageUpdateConfig, Project, ReleaseMode, UpdateConfig, UpdateError, UpdateRequest,
};
use release_plz_core::semver::Version;
use release_plz_core::targets::stable_targets;
use release_plz_core::updater::{
    is_new_highest, PackageAction, PackageDiff, PlannedUpdate, Updater,
};
use release_plz_core::version::BumpLevel;

fn version(text: &str) -> Version {
    Version::parse(text).unwrap()
}

fn config() -> PackageUpdateConfig {
    PackageUpdateConfig {
        generic: UpdateConfig {
            semver_check: true,
            changelog_update: true,
            publish: true,
            git_only: false,
            features_always_increment_minor: false,
            breaking_always_increment_major: false,
            custom_minor_increment_regex: None,
            custom_major_increment_regex: None,
        },
        changelog_include: vec![],
        version_group: None,
    }
}

fn in_group(group: &str) -> PackageUpdateConfig {
    PackageUpdateConfig { version_group: Some(group.to_string()), ..config() }
}

fn with_bad_regex(pattern: &str) -> PackageUpdateConfig {
    let mut c = config();
    c.generic.custom_minor_increment_regex = Some(pattern.to_string());
    c
}

fn git_only() -> PackageUpdateConfig {
    let mut c = config();
    c.generic.git_only = true;
    c
}

fn package(name: &str, v: &str, deps: &[(&str, DependencyKind)]) -> Package {
    Package {
        name: name.to_string(),
        version: version(v),
        dependencies: deps
            .iter()
            .map(|(name, kind)| Dependency { name: name.to_string(), kind: *kind })
            .collect(),
        targets: vec![],
    }
}

fn changed(p: Package, messages: &[&str]) -> PackageDiff {
    let mut diff = Diff::new(true);
    for message in messages {
        diff.commits.push(Commit::new("abc".to_string(), message.to_string()));
    }
    PackageDiff { package: p, diff, version_is_inherited: false, has_release_commits: true }
}

fn since(p: PackageDiff, base: &str) -> PackageDiff {
    let mut p = p;
    p.diff.base_version = Some(version(base));
    p
}

fn inherited(p: PackageDiff) -> PackageDiff {
    PackageDiff { version_is_inherited: true, ..p }
}

fn new_package(p: PackageDiff) -> PackageDiff {
    let mut p = p;
    p.diff.registry_package_exists = false;
    p
}

fn no_project() -> Project {
    Project { publishable_packages: vec![], workspace_packages: vec![] }
}

fn project_of(packages: &[(&str, &str)]) -> Project {
    Project {
        publishable_packages: packages.iter().map(|(n, v)| package(n, v, &[])).collect(),
        workspace_packages: vec![],
    }
}

fn planned(updates: &[PlannedUpdate]) -> Vec<(usize, String)> {
    updates.iter().map(|u| (u.index, u.version.to_text())).collect()
}

fn plan(
    req: &UpdateRequest,
    packages: Vec<PackageDiff>,
    workspace_version: Option<&str>,
) -> Result<PackagesUpdate, UpdateError> {
    let project = no_project();
    let updater = Updater { project: &project, req };
    let workspace_version = workspace_version.map(version);
    updater.packages_to_update(
        &packages,
        workspace_version.as_ref(),
        |_, _| 1,
        |p: &Package, changed: &Vec<ChangedPackage>| {
            Some(
                changed
                    .iter()
                    .filter(|c| p.dependencies.iter().any(|d| d.name == c.name))
                    .map(|c| c.name.clone())
                    .collect(),
            )
        },
    )
}

#[test]
fn packages_are_updated_by_their_own_changes() {
    let req = UpdateRequest::new(ReleaseMode::Default, config());
    let r = plan(
        &req,
        vec![
            changed(package("a", "1.0.0", &[]), &["feat: a"]),
            changed(package("b", "1.0.0", &[]), &["fix: b"]),
            changed(package("c", "1.0.0", &[]), &[]),
        ],
        None,
    )
    .unwrap();
    assert_eq!(planned(&r.updates), vec![(0, "1.1.0".to_string()), (1, "1.0.1".to_string())]);
    assert!(r.dependents.is_empty());
    assert_eq!(r.workspace_version, None);
}

#[test]
fn release_candidates_do_not_hide_changes() {
    // The manifest holds a release candidate, and the last stable tag is older.
    let req = UpdateRequest::new(ReleaseMode::Default, config());
    for (message, next) in
        [("feat!: a", "2.0.0"), ("feat: a", "1.2.0"), ("fix: a", "1.1.1")]
    {
        let p = since(changed(package("a", "1.2.0-rc.1", &[]), &[message]), "1.1.0");
        let r = plan(&req, vec![p], None).unwrap();
        assert_eq!(planned(&r.updates), vec![(0, next.to_string())]);
    }
}

#[test]
fn new_packages_are_released_as_they_are() {
    let req = UpdateRequest::new(ReleaseMode::Default, config());
    let p = new_package(changed(package("a", "0.1.0", &[]), &["feat: a"]));
    let r = plan(&req, vec![p], None).unwrap();
    assert_eq!(planned(&r.updates), vec![(0, "0.1.0".to_string())]);
}

#[test]
fn raised_versions_only_get_a_changelog() {
    let req = UpdateRequest::new(ReleaseMode::Default, config());
    let mut p = changed(package("a", "1.1.0", &[]), &["feat: a"]);
    p.diff.set_version_unpublished(version("1.0.0"));
    let r = plan(&req, vec![p], None).unwrap();
    assert_eq!(planned(&r.updates), vec![(0, "1.1.0".to_string())]);
    let mut p = changed(package("a", "1.1.0", &[]), &[]);
    p.diff.set_version_unpublished(version("1.0.0"));
    let r = plan(&req, vec![p], None).unwrap();
    assert!(r.updates.is_empty());
}

#[test]
fn packages_without_release_commits_follow_their_dependencies() {
    let req = UpdateRequest::new(ReleaseMode::Default, config());
    let a = changed(package("a", "1.0.0", &[]), &["feat: a"]);
    let b = PackageDiff {
        has_release_commits: false,
        ..changed(package("b", "2.0.0", &[("a", DependencyKind::Normal)]), &["chore: b"])
    };
    let r = plan(&req, vec![b, a], None).unwrap();
    assert_eq!(planned(&r.updates), vec![(1, "1.1.0".to_string())]);
    assert_eq!(r.dependents.len(), 1);
    assert_eq!(r.dependents[0].index, 0);
    assert_eq!(r.dependents[0].version, version("2.0.1"));
    assert_eq!(r.dependents[0].commit.id, NO_COMMIT_ID);
    assert_eq!(
        r.dependents[0].commit.message,
        "chore: updated the following local packages: a"
    );
}

#[test]
fn dependents_of_dependents_are_updated() {
    let req = UpdateRequest::new(ReleaseMode::Default, config());
    let r = plan(
        &req,
        vec![
            changed(package("d", "1.0.0", &[("b", DependencyKind::Normal), ("c", DependencyKind::Normal)]), &[]),
            changed(package("c", "1.0.0-rc.1", &[("b", DependencyKind::Normal)]), &[]),
            changed(package("b", "1.0.0", &[("a", DependencyKind::Normal)]), &[]),
            changed(package("a", "1.0.0", &[]), &["fix: a"]),
            changed(package("e", "1.0.0", &[("x", DependencyKind::Normal)]), &[]),
        ],
        None,
    )
    .unwrap();
    let dependents: Vec<(usize, String, String)> = r
        .dependents
        .iter()
        .map(|u| (u.index, u.version.to_text(), u.commit.message.clone()))
        .collect();
    let message = |names: &str| format!("chore: updated the following local packages: {names}");
    assert_eq!(
        dependents,
        vec![
            (2, "1.0.1".to_string(), message("a")),
            (0, "1.0.1".to_string(), message("b")),
            (1, "1.0.0-rc.2".to_string(), message("b")),
        ]
    );
}

#[test]
fn packages_that_cannot_be_asked_stay() {
    let a = package("a", "1.0.0", &[]);
    let r = dependent_packages_update(
        &vec![&a],
        vec![ChangedPackage { name: "b".to_string(), version: version("1.0.0") }],
        |_, _| None,
    );
    assert!(r.is_empty());
    // A package that changed already is not asked.
    let r = dependent_packages_update(
        &vec![&a],
        vec![ChangedPackage { name: "a".to_string(), version: version("1.0.0") }],
        |_, _| Some(vec!["a".to_string()]),
    );
    assert!(r.is_empty());
}

#[test]
fn update_of_a_dependent_names_its_dependencies() {
    let deps = vec!["a".to_string(), "b".to_string()];
    let (commit, next) = calculate_package_update_result(&deps, &package("c", "0.1.0", &[]));
    assert_eq!(commit.message, "chore: updated the following local packages: a, b");
    assert_eq!(next, version("0.1.1"));
    let (_, next) = calculate_package_update_result(&deps, &package("c", "1.0.0-beta.3", &[]));
    assert_eq!(next, version("1.0.0-beta.4"));
}

#[test]
fn version_groups_share_the_highest_version() {
    let req = UpdateRequest::new(ReleaseMode::Default, config())
        .with_package_config("a".to_string(), in_group("g"))
        .with_package_config("b".to_string(), in_group("g"));
    let r = plan(
        &req,
        vec![
            changed(package("a", "1.0.0", &[]), &["fix: a"]),
            changed(package("b", "1.0.0", &[]), &["feat: b"]),
            changed(package("c", "1.0.0", &[]), &["fix: c"]),
        ],
        None,
    )
    .unwrap();
    assert_eq!(
        planned(&r.updates),
        vec![(0, "1.1.0".to_string()), (1, "1.1.0".to_string()), (2, "1.0.1".to_string())]
    );
}

#[test]
fn missing_version_group_is_reported() {
    let req =
        UpdateRequest::new(ReleaseMode::Default, config()).with_package_config("a".to_string(), in_group("g"));
    let project = no_project();
    let updater = Updater { project: &project, req: &req };
    let groups = updater.get_version_groups(&vec![]).unwrap();
    let p = changed(package("a", "1.0.0", &[]), &["fix: a"]);
    let e = updater.get_next_version(None, &p, &vec![], &groups).unwrap_err();
    assert!(matches!(e, UpdateError::MissingVersionGroup(_)));
    assert_eq!(e.message(), "failed to retrieve version for version group g");
}

#[test]
fn workspace_version_is_the_highest_of_its_packages() {
    let req = UpdateRequest::new(ReleaseMode::Default, config());
    let packages = || {
        vec![
            inherited(changed(package("a", "1.0.0", &[]), &["fix: a"])),
            inherited(changed(package("b", "1.0.0", &[]), &["feat: b"])),
            changed(package("c", "3.0.0", &[]), &["fix: c"]),
        ]
    };
    let r = plan(&req, packages(), Some("1.0.0")).unwrap();
    assert_eq!(r.workspace_version, Some(version("1.1.0")));
    assert_eq!(
        planned(&r.updates),
        vec![(0, "1.1.0".to_string()), (1, "1.1.0".to_string()), (2, "3.0.1".to_string())]
    );
    // The workspace does not go back.
    let r = plan(&req, packages(), Some("2.0.0")).unwrap();
    assert_eq!(r.workspace_version, None);
    let r = plan(&req, packages(), None).unwrap();
    assert_eq!(r.workspace_version, None);
}

#[test]
fn bad_patterns_are_reported() {
    let bad = with_bad_regex("(");
    for mode in [ReleaseMode::Default, ReleaseMode::Rc, ReleaseMode::Stable] {
        let req = UpdateRequest::new(mode, config())
            .with_package_config("b".to_string(), with_bad_regex("("));
        let e = plan(
            &req,
            vec![
                changed(package("a", "1.0.0", &[]), &["fix: a"]),
                changed(package("b", "1.0.0", &[]), &["fix: b"]),
            ],
            None,
        )
        .unwrap_err();
        assert_eq!(e.message(), "invalid regex: (");
    }
    // Without commits, the pattern is not needed for release candidates.
    let req = UpdateRequest::new(ReleaseMode::Rc, bad);
    assert!(plan(&req, vec![changed(package("a", "1.0.0", &[]), &[])], None).is_ok());
}

fn releases(mode: ReleaseMode, project: &Project, packages: Vec<PackageDiff>) -> Vec<(usize, String)> {
    let req = UpdateRequest::new(mode, config());
    let updater = Updater { project, req: &req };
    let r = updater
        .packages_to_update(&packages, None, |_, _| 4, |_: &Package, _: &Vec<ChangedPackage>| None)
        .unwrap();
    assert!(r.dependents.is_empty());
    planned(&r.updates)
}

#[test]
fn bumps_reach_dependents_in_stable_and_rc_mode() {
    let project = project_of(&[("c", "1.2.0"), ("b", "2.0.0"), ("a", "0.3.0"), ("d", "1.0.0")]);
    let packages = || {
        vec![
            changed(package("a", "0.3.0", &[("b", DependencyKind::Build)]), &[]),
            changed(package("b", "2.0.0", &[("c", DependencyKind::Normal)]), &["fix: b"]),
            changed(package("c", "1.2.0", &[]), &["feat: c"]),
            changed(package("d", "1.0.0", &[("c", DependencyKind::Development)]), &[]),
        ]
    };
    let stable = vec![
        (0, "0.4.0".to_string()),
        (1, "2.1.0".to_string()),
        (2, "1.3.0".to_string()),
    ];
    assert_eq!(releases(ReleaseMode::Stable, &project, packages()), stable);
    let rc: Vec<(usize, String)> = stable.iter().map(|(i, v)| (*i, format!("{v}-rc.4"))).collect();
    assert_eq!(releases(ReleaseMode::Rc, &project, packages()), rc);
}

#[test]
fn rc_mode_counts_from_the_last_stable_tag() {
    let project = project_of(&[("a", "1.2.0-rc.1")]);
    for (message, next) in
        [("feat!: a", "2.0.0"), ("feat: a", "1.2.0"), ("fix: a", "1.1.1")]
    {
        let p = || since(changed(package("a", "1.2.0-rc.1", &[]), &[message]), "1.1.0");
        assert_eq!(
            releases(ReleaseMode::Rc, &project, vec![p()]),
            vec![(0, format!("{next}-rc.4"))]
        );
        assert_eq!(
            releases(ReleaseMode::Stable, &project, vec![p()]),
            vec![(0, next.to_string())]
        );
    }
}

#[test]
fn new_packages_keep_their_version_in_stable_mode() {
    let project = project_of(&[("a", "0.5.0"), ("b", "1.0.0")]);
    let a = new_package(changed(package("a", "0.5.0", &[]), &["feat: a"]));
    let b = changed(package("b", "1.0.0", &[("a", DependencyKind::Normal)]), &[]);
    assert_eq!(
        releases(ReleaseMode::Stable, &project, vec![a, b]),
        vec![(0, "0.5.0".to_string())]
    );
}

#[test]
fn targets_follow_the_given_levels() {
    let packages = vec![
        changed(package("b", "1.0.0", &[]), &["x"]),
        changed(package("a", "1.5.2", &[("b", DependencyKind::Normal)]), &["x"]),
        changed(package("c", "1.0.0", &[]), &["x"]),
    ];
    let order = vec!["b".to_string(), "a".to_string(), "c".to_string()];
    let targets = stable_targets(
        &packages,
        &vec![BumpLevel::Minor, BumpLevel::Patch, BumpLevel::NoBump],
        &order,
    );
    assert_eq!(planned(&targets), vec![(0, "1.1.0".to_string()), (1, "1.6.0".to_string())]);
}

#[test]
fn own_bumps_come_from_commits() {
    let req = UpdateRequest::new(ReleaseMode::Rc, config());
    let project = no_project();
    let updater = Updater { project: &project, req: &req };
    let levels = updater
        .own_bumps(&vec![
            changed(package("a", "1.0.0", &[]), &["feat!: a"]),
            changed(package("b", "1.0.0", &[]), &[]),
            new_package(changed(package("c", "1.0.0", &[]), &["feat: c"])),
            changed(package("d", "1.0.0", &[]), &["no convention"]),
        ])
        .unwrap();
    assert_eq!(
        levels,
        vec![BumpLevel::Major, BumpLevel::NoBump, BumpLevel::NoBump, BumpLevel::Patch]
    );
}

#[test]
fn packages_are_processed_once() {
    let project = Project {
        publishable_packages: vec![package("a", "1.0.0", &[]), package("b", "1.0.0", &[])],
        workspace_packages: vec![
            package("c", "1.0.0", &[]),
            package("b", "1.0.0", &[]),
            package("d", "1.0.0", &[]),
        ],
    };
    let req = UpdateRequest::new(ReleaseMode::Default, config())
        .with_package_config("b".to_string(), git_only())
        .with_package_config("d".to_string(), git_only());
    let updater = Updater { project: &project, req: &req };
    let names: Vec<&str> =
        updater.packages_to_process().iter().map(|p| p.name.as_str()).collect();
    assert_eq!(names, vec!["a", "b", "d"]);
}

#[test]
fn last_settings_of_a_package_hold() {
    let req = UpdateRequest::new(ReleaseMode::Default, config())
        .with_package_config("a".to_string(), in_group("one"))
        .with_package_config("a".to_string(), in_group("two"))
        .with_package_config("b".to_string(), git_only());
    assert_eq!(req.get_package_config("a").version_group, Some("two".to_string()));
    assert_eq!(req.get_package_config("c").version_group, None);
    assert!(req.should_use_git_only("b"));
    assert!(!req.should_use_git_only("a"));
}

#[test]
fn default_mode_uses_the_api_check() {
    let req = UpdateRequest::new(ReleaseMode::Default, config());
    let mut p = changed(package("a", "1.0.0", &[]), &["fix: a"]);
    p.diff.set_semver_check(SemverCheck::Incompatible("removed".to_string()));
    let r = plan(&req, vec![p], None).unwrap();
    assert_eq!(planned(&r.updates), vec![(0, "2.0.0".to_string())]);
}

#[test]
fn next_version_decides_what_becomes_of_a_package() {
    let p = changed(package("a", "1.0.0", &[]), &["fix: a"]);
    assert!(matches!(p.action(version("1.0.1")), PackageAction::Update(v) if v == version("1.0.1")));
    assert!(matches!(p.action(version("1.0.0")), PackageAction::CheckDependencies));
    let mut raised = changed(package("a", "1.0.0", &[]), &[]);
    raised.diff.set_version_unpublished(version("0.9.0"));
    assert!(matches!(raised.action(version("1.0.0")), PackageAction::Leave));
    let new = new_package(changed(package("a", "1.0.0", &[]), &[]));
    assert!(matches!(new.action(version("1.0.0")), PackageAction::Update(_)));
}

#[test]
fn highest_version_is_kept() {
    assert!(is_new_highest(None, &version("0.0.0")));
    assert!(is_new_highest(Some(&version("1.0.0-rc.1")), &version("1.0.0")));
    assert!(!is_new_highest(Some(&version("1.0.0")), &version("1.0.0")));
    assert!(!is_new_highest(Some(&version("2.0.0")), &version("1.0.0")));
}

#[test]
fn tag_of_a_stable_package_changes_nothing() {
    let req = UpdateRequest::new(ReleaseMode::Default, config());
    let p = || changed(package("a", "1.2.0", &[]), &["feat: a"]);
    let without = plan(&req, vec![p()], None).unwrap();
    let with = plan(&req, vec![since(p(), "1.2.0")], None).unwrap();
    assert_eq!(planned(&with.updates), planned(&without.updates));
}

#[test]
fn releases_are_above_their_base() {
    let project = project_of(&[("a", "1.2.0")]);
    let p = || changed(package("a", "1.2.0", &[]), &["fix: a"]);
    let rc = version(&releases(ReleaseMode::Rc, &project, vec![p()])[0].1);
    let stable = version(&releases(ReleaseMode::Stable, &project, vec![p()])[0].1);
    assert!(version("1.2.0").is_lower(&rc));
    assert!(rc.is_lower(&stable));
}

fn has_room(mode: ReleaseMode, packages: Vec<PackageDiff>) -> bool {
    let names: Vec<(&str, &str)> =
        packages.iter().map(|p| (p.package.name.as_str(), "1.0.0")).collect();
    let project = project_of(&names);
    let req = UpdateRequest::new(mode, config());
    Updater { project: &project, req: &req }.have_room(&packages)
}

#[test]
fn raised_versions_need_room() {
    let last = "1.0.18446744073709551615";
    let p = |v: &str, messages: &[&str]| changed(package("a", v, &[]), messages);
    for mode in [ReleaseMode::Default, ReleaseMode::Rc, ReleaseMode::Stable] {
        assert!(!has_room(mode, vec![p(last, &["fix: a"])]));
        assert!(has_room(mode, vec![p("1.0.0", &["fix: a"])]));
        assert!(has_room(mode, vec![p(last, &[])]));
        assert!(has_room(mode, vec![new_package(p(last, &["feat: a"]))]));
    }
    let idle = PackageDiff { has_release_commits: false, ..p(last, &["fix: a"]) };
    assert!(has_room(ReleaseMode::Default, vec![idle]));
    let idle = PackageDiff { has_release_commits: false, ..p(last, &["fix: a"]) };
    assert!(!has_room(ReleaseMode::Default, vec![inherited(idle)]));
    let mut broken = p(last, &["fix: a"]);
    broken.diff.set_semver_check(SemverCheck::Incompatible("removed".to_string()));
    assert!(has_room(ReleaseMode::Default, vec![broken]));
}

#[test]
fn only_packages_that_rise_need_room() {
    let last = "1.18446744073709551615.0";
    let a = || changed(package("a", "1.0.0", &[]), &["feat: a"]);
    let alone = changed(package("b", last, &[]), &[]);
    assert!(has_room(ReleaseMode::Stable, vec![a(), alone]));
    let dependent = changed(package("b", last, &[("a", DependencyKind::Normal)]), &[]);
    assert!(!has_room(ReleaseMode::Stable, vec![a(), dependent]));
    assert!(version("1.0.18446744073709551614").can_follow());
    assert!(!version("1.0.18446744073709551615").can_follow());
    assert!(version(last).can_follow());
}

#[test]
fn raised_versions_do_not_go_down() {
    // The last stable tag is below the version in the manifest.
    let req = UpdateRequest::new(ReleaseMode::Default, config());
    let mut p = since(changed(package("a", "1.2.0", &[]), &["feat: a"]), "1.1.0");
    p.diff.set_version_unpublished(version("1.1.0"));
    let r = plan(&req, vec![p], None).unwrap();
    assert_eq!(planned(&r.updates), vec![(0, "1.2.0".to_string())]);
    // A published package without changes stays.
    let p = since(changed(package("a", "1.2.0", &[]), &[]), "1.1.0");
    let project = no_project();
    let updater = Updater { project: &project, req: &req };
    let groups = updater.get_version_groups(&vec![]).unwrap();
    assert_eq!(updater.get_next_version(None, &p, &vec![], &groups).unwrap(), version("1.2.0"));
    let r = plan(&req, vec![p], None).unwrap();
    assert!(r.updates.is_empty());
}

fn git_only_dependency() -> (Project, UpdateRequest) {
    let project = Project {
        publishable_packages: vec![
            package("p", "1.0.0", &[("g", DependencyKind::Normal)]),
            package("q", "1.0.0", &[("x", DependencyKind::Development)]),
        ],
        workspace_packages: vec![
            package("x", "1.0.0", &[("q", DependencyKind::Normal)]),
            package("g", "1.0.0", &[]),
        ],
    };
    let req = UpdateRequest::new(ReleaseMode::Stable, config())
        .with_package_config("g".to_string(), git_only())
        .with_package_config("x".to_string(), git_only());
    (project, req)
}

#[test]
fn dependencies_are_processed_first() {
    let (project, req) = git_only_dependency();
    let updater = Updater { project: &project, req: &req };
    let names: Vec<&str> =
        updater.packages_to_process().iter().map(|p| p.name.as_str()).collect();
    assert_eq!(names, vec!["g", "p", "q", "x"]);
}

fn processed(publishable: &[(&str, &[&str])], others: &[(&str, &[&str])]) -> Vec<String> {
    let listed = |packages: &[(&str, &[&str])]| -> Vec<Package> {
        packages
            .iter()
            .map(|(name, needs)| {
                let deps: Vec<(&str, DependencyKind)> =
                    needs.iter().map(|n| (*n, DependencyKind::Normal)).collect();
                package(name, "1.0.0", &deps)
            })
            .collect()
    };
    let project = Project {
        publishable_packages: listed(publishable),
        workspace_packages: listed(others),
    };
    let mut req = UpdateRequest::new(ReleaseMode::Default, config());
    for (name, _) in others {
        req = req.with_package_config(name.to_string(), git_only());
    }
    let updater = Updater { project: &project, req: &req };
    updater.packages_to_process().iter().map(|p| p.name.clone()).collect()
}

#[test]
fn unrelated_packages_are_not_overtaken() {
    assert_eq!(processed(&[("p", &["g"]), ("q", &[])], &[("g", &[])]), vec!["g", "p", "q"]);
    // What is needed through others comes first too.
    assert_eq!(
        processed(&[("p", &["h"]), ("q", &[])], &[("g", &[]), ("h", &["g"])]),
        vec!["g", "h", "p", "q"]
    );
    assert_eq!(
        processed(&[("q", &[]), ("p", &["g"])], &[("g", &[]), ("h", &[])]),
        vec!["q", "g", "p", "h"]
    );
    // A publishable package that is needed goes ahead as well.
    assert_eq!(
        processed(&[("a", &["g"]), ("b", &[]), ("c", &[])], &[("g", &["c"])]),
        vec!["c", "g", "a", "b"]
    );
}

#[test]
fn both_lists_keep_their_order() {
    assert_eq!(
        processed(&[("p", &["h"]), ("q", &[])], &[("g", &[]), ("h", &[])]),
        vec!["g", "h", "p", "q"]
    );
    // Not where what comes first in one list waits for the other.
    assert_eq!(
        processed(&[("p", &["h"]), ("q", &[])], &[("g", &["q"]), ("h", &[])]),
        vec!["h", "p", "q", "g"]
    );
}

#[test]
fn bumps_of_git_only_packages_reach_their_dependents() {
    let (project, req) = git_only_dependency();
    let updater = Updater { project: &project, req: &req };
    let packages = vec![
        changed(package("p", "1.0.0", &[("g", DependencyKind::Normal)]), &[]),
        changed(package("g", "1.0.0", &[]), &["feat: g"]),
    ];
    assert!(updater.have_room(&packages));
    let r = updater
        .packages_to_update(&packages, None, |_, _| 1, |_: &Package, _: &Vec<ChangedPackage>| None)
        .unwrap();
    assert_eq!(planned(&r.updates), vec![(0, "1.1.0".to_string()), (1, "1.1.0".to_string())]);
}

#[test]
fn packages_in_a_circle_are_still_processed() {
    let project = Project {
        publishable_packages: vec![
            package("a", "1.0.0", &[("b", DependencyKind::Normal)]),
            package("b", "1.0.0", &[("a", DependencyKind::Build)]),
            package("c", "1.0.0", &[]),
        ],
        workspace_packages: vec![],
    };
    let req = UpdateRequest::new(ReleaseMode::Default, config());
    let updater = Updater { project: &project, req: &req };
    let names: Vec<&str> =
        updater.packages_to_process().iter().map(|p| p.name.as_str()).collect();
    assert_eq!(names, vec!["a", "b", "c"]);
}

#[test]
fn candidates_stand_for_stable_versions() {
    let project = project_of(&[("c", "1.2.0"), ("b", "2.0.0"), ("a", "0.3.0")]);
    let packages = || {
        vec![
            changed(package("a", "0.3.0", &[("b", DependencyKind::Normal)]), &["feat!: a"]),
            since(changed(package("b", "2.0.0-rc.3", &[]), &["fix: b"]), "1.9.0"),
            new_package(changed(package("c", "1.2.0", &[]), &["feat: c"])),
        ]
    };
    let stable = releases(ReleaseMode::Stable, &project, packages());
    let rc = releases(ReleaseMode::Rc, &project, packages());
    assert_eq!(stable.len(), 3);
    let expected: Vec<(usize, String)> =
        stable.iter().map(|(i, v)| (*i, format!("{v}-rc.4"))).collect();
    assert_eq!(rc, expected);
}
