use release_plz_core::changelog::{
    changelog_commits, get_changelog, get_contributors, packages_commits, previous_version,
    Contributor, OldChangelogs,
};
use release_plz_core::dependents::DependentUpdate;
use release_plz_core::diff::{Commit, Diff, SemverCheck, NO_COMMIT_ID};
use release_plz_core::package::{Package, Target, TargetKind};
use release_plz_core::paths::FilePath;
use release_plz_core::request::{
    PackageUpdateConfig, Project, ReleaseMode, UpdateConfig, UpdateRequest,
};
use release_plz_core::semver::Version;
use release_plz_core::updater::{PackageDiff, Updater};

fn config(changelog_update: bool, changelog_include: &[&str]) -> PackageUpdateConfig {
    PackageUpdateConfig {
        generic: UpdateConfig {
            semver_check: true,
            changelog_update,
            publish: true,
            git_only: false,
            features_always_increment_minor: false,
            breaking_always_increment_major: false,
            custom_minor_increment_regex: None,
            custom_major_increment_regex: None,
        },
        changelog_include: changelog_include.iter().map(|s| s.to_string()).collect(),
        version_group: None,
    }
}

fn package(name: &str, version: Version) -> Package {
    Package {
        name: name.to_string(),
        version,
        dependencies: vec![],
        targets: vec![Target { kinds: vec![TargetKind::Lib] }],
    }
}

fn commit(id: &str, message: &str) -> Commit {
    Commit::new(id.to_string(), message.to_string())
}

fn changed(name: &str, commits: Vec<Commit>) -> PackageDiff {
    PackageDiff {
        package: package(name, Version::new(1, 0, 0)),
        diff: Diff { commits, ..Diff::new(true) },
        version_is_inherited: false,
        has_release_commits: true,
    }
}

fn ids(commits: &[Commit]) -> Vec<&str> {
    commits.iter().map(|c| c.id.as_str()).collect()
}

#[test]
fn only_the_first_line_of_unconventional_commits_counts() {
    let commits = vec![
        commit("1", "feat: a feature\n\nwith a body"),
        commit("2", "some change\n\nwith a body"),
        commit("3", ""),
        commit("4", "windows\r\nline"),
        commit("5", "\nsecond"),
    ];
    assert!(commits[0].is_conventional());
    assert!(!commits[1].is_conventional());
    let kept: Vec<(String, String)> =
        changelog_commits(&commits).into_iter().map(|c| (c.id, c.message)).collect();
    let expect = |id: &str, message: &str| (id.to_string(), message.to_string());
    assert_eq!(
        kept,
        vec![
            expect("1", "feat: a feature\n\nwith a body"),
            expect("2", "some change"),
            expect("4", "windows"),
            expect("5", ""),
        ]
    );
}

#[test]
fn commits_are_cut_where_they_are_not_conventional() {
    let c = commit("1", "fix: one\ntwo");
    assert_eq!(c.clone().for_changelog(true).unwrap().message, "fix: one\ntwo");
    assert_eq!(c.for_changelog(false).unwrap().message, "fix: one");
    assert!(commit("1", "").for_changelog(false).is_none());
}

#[test]
fn commits_of_other_packages_are_added() {
    let project = Project { publishable_packages: vec![], workspace_packages: vec![] };
    let req = UpdateRequest::new(ReleaseMode::Default, config(true, &[]))
        .with_package_config("a".to_string(), config(true, &["c", "missing", "b"]));
    let updater = Updater { project: &project, req: &req };
    let mut packages = vec![
        changed("a", vec![commit("1", "x"), commit("2", "y")]),
        changed("b", vec![commit("3", "z"), commit("1", "x")]),
        changed("c", vec![commit("4", "w")]),
    ];
    let known = packages_commits(&packages);
    updater.add_packages_commits(&mut packages[0], &known);
    updater.add_packages_commits(&mut packages[1], &known);
    assert_eq!(ids(&packages[0].diff.commits), vec!["1", "2", "4", "3"]);
    assert_eq!(ids(&packages[1].diff.commits), vec!["3", "1"]);
    let mut new = changed("a", vec![]);
    new.diff.registry_package_exists = false;
    updater.add_packages_commits(&mut new, &known);
    assert!(new.diff.commits.is_empty());
}

#[test]
fn api_check_needs_changes_and_a_tool() {
    let project = Project { publishable_packages: vec![], workspace_packages: vec![] };
    let req = UpdateRequest::new(ReleaseMode::Default, config(true, &[]));
    let updater = Updater { project: &project, req: &req };
    let p = changed("a", vec![commit("1", "x")]);
    assert!(updater.needs_semver_check(&p, true));
    assert!(!updater.needs_semver_check(&p, false));
    assert!(!updater.needs_semver_check(&changed("a", vec![]), true));
    let mut new = changed("a", vec![commit("1", "x")]);
    new.diff.registry_package_exists = false;
    assert!(!updater.needs_semver_check(&new, true));
    assert!(updater.wants_semver_check(&p));
    assert!(updater.wants_semver_check(&changed("a", vec![])));
    assert!(!updater.wants_semver_check(&new));
    let mut binary = changed("a", vec![commit("1", "x")]);
    binary.package.targets = vec![Target { kinds: vec![TargetKind::Bin] }];
    assert!(!updater.wants_semver_check(&binary));
}

fn built(previous: Option<&str>) -> Result<(String, String), String> {
    Ok((format!("changelog since {previous:?}"), "entry".to_string()))
}

#[test]
fn new_entries_follow_the_last_version() {
    let p = package("a", Version::new(1, 0, 0));
    let next = Version::new(1, 1, 0);
    let r = get_changelog(&next, Some("old"), Some("0.9.0"), &p, built).unwrap();
    assert_eq!(r.0, "changelog since Some(\"0.9.0\")");
    assert_eq!(r.1, "entry");
    let r = get_changelog(&next, None, None, &p, built).unwrap();
    assert_eq!(r.0, "changelog since Some(\"1.0.0\")");
}

#[test]
fn changelog_of_an_unchanged_version_is_built_once() {
    let p = package("a", Version::new(1, 0, 0));
    let same = Version::new(1, 0, 0);
    let r = get_changelog(&same, Some("old"), Some("0.9.0"), &p, built).unwrap();
    assert_eq!(r.0, "changelog since None");
    let r = get_changelog(&same, None, None, &p, built).unwrap();
    assert_eq!(r.0, "changelog since None");
    let r = get_changelog(&same, Some("old"), Some("1.0.0"), &p, built).unwrap();
    assert_eq!(r, ("old".to_string(), String::new()));
}

#[test]
fn failures_to_build_are_handed_on() {
    let p = package("a", Version::new(1, 0, 0));
    let fail = |_: Option<&str>| -> Result<(String, String), String> { Err("broken".to_string()) };
    let r = get_changelog(&Version::new(1, 1, 0), None, None, &p, fail);
    assert_eq!(r, Err("broken".to_string()));
}

#[test]
fn update_results_hold_the_changelog() {
    let project = Project { publishable_packages: vec![], workspace_packages: vec![] };
    let p = package("a", Version::new(1, 0, 0));
    let commits = vec![commit("1", "change\nbody")];
    let changelog = |old: Option<&str>, commits: &Vec<Commit>| -> Result<_, String> {
        Ok((format!("all before {}", old.unwrap_or("nothing")), commits[0].message.clone()))
    };
    let req = UpdateRequest::new(ReleaseMode::Default, config(true, &[]));
    let updater = Updater { project: &project, req: &req };
    let r = updater
        .update_result(
            &commits,
            Version::new(1, 1, 0),
            &p,
            SemverCheck::Compatible,
            Some(Version::new(0, 9, 0)),
            Some("old"),
            changelog,
        )
        .unwrap();
    assert_eq!(r.version, Version::new(1, 1, 0));
    assert_eq!(r.changelog, Some("all before old".to_string()));
    assert_eq!(r.new_changelog_entry, Some("change".to_string()));
    assert_eq!(r.registry_version, Some(Version::new(0, 9, 0)));
    assert!(matches!(r.semver_check, SemverCheck::Compatible));

    let req = UpdateRequest::new(ReleaseMode::Default, config(false, &[]));
    let updater = Updater { project: &project, req: &req };
    let r = updater
        .update_result(
            &commits,
            Version::new(1, 1, 0),
            &p,
            SemverCheck::Skipped,
            None,
            Some("old"),
            changelog,
        )
        .unwrap();
    assert_eq!(r.changelog, None);
    assert_eq!(r.new_changelog_entry, None);
}

#[test]
fn update_results_hand_errors_on() {
    let project = Project { publishable_packages: vec![], workspace_packages: vec![] };
    let req = UpdateRequest::new(ReleaseMode::Default, config(true, &[]));
    let updater = Updater { project: &project, req: &req };
    let r = updater.update_result(
        &vec![],
        Version::new(1, 1, 0),
        &package("a", Version::new(1, 0, 0)),
        SemverCheck::Skipped,
        None,
        None,
        |_: Option<&str>, _: &Vec<Commit>| -> Result<(String, String), String> {
            Err("broken".to_string())
        },
    );
    assert_eq!(r.unwrap_err(), "broken");
}

fn path(components: &[&str]) -> FilePath {
    FilePath::new(components.iter().map(|c| c.to_string()).collect())
}

fn update_at(
    update: bool,
    old_changelogs: &mut OldChangelogs,
    at: &FilePath,
    change: &str,
) -> Result<Option<String>, String> {
    let project = Project { publishable_packages: vec![], workspace_packages: vec![] };
    let req = UpdateRequest::new(ReleaseMode::Default, config(update, &[]));
    let updater = Updater { project: &project, req: &req };
    updater
        .calculate_update_result(
            &vec![commit("1", change)],
            Version::new(1, 1, 0),
            &package("a", Version::new(1, 0, 0)),
            SemverCheck::Skipped,
            None,
            old_changelogs,
            at,
            |p: &FilePath| p.components.last().map(|name| format!("disk {name}")),
            |old: Option<&str>, commits: &Vec<Commit>| match commits[0].message.as_str() {
                "broken" => Err("broken".to_string()),
                message => Ok((format!("{message}, {}", old.unwrap_or("nothing")), String::new())),
            },
        )
        .map(|r| r.changelog)
}

#[test]
fn packages_share_a_changelog() {
    let mut old = OldChangelogs::new();
    let (shared, other) = (path(&["/", "c.md"]), path(&["/", "d.md"]));
    let text = |s: &str| Ok(Some(s.to_string()));
    assert_eq!(update_at(true, &mut old, &shared, "one"), text("one, disk c.md"));
    assert_eq!(update_at(true, &mut old, &shared, "two"), text("two, one, disk c.md"));
    assert_eq!(update_at(true, &mut old, &other, "three"), text("three, disk d.md"));
    // What fails, or has no changelog, leaves what is kept.
    assert!(update_at(true, &mut old, &shared, "broken").is_err());
    assert_eq!(update_at(false, &mut old, &shared, "four"), Ok(None));
    assert_eq!(old.get(&shared), Some("two, one, disk c.md".to_string()));
    assert_eq!(old.get(&path(&["c.md"])), None);
    // Another run reads the file again.
    let mut fresh = OldChangelogs::new();
    assert_eq!(update_at(true, &mut fresh, &shared, "five"), text("five, disk c.md"));
}

#[test]
fn later_changelogs_replace_earlier_ones() {
    let mut old = OldChangelogs::new();
    let at = path(&["c.md"]);
    assert_eq!(old.get(&at), None);
    old.insert(&at, "one");
    old.insert(&path(&["d.md"]), "other");
    old.insert(&at, "two");
    assert_eq!(old.get(&at), Some("two".to_string()));
}

#[test]
fn entries_follow_the_published_version() {
    let p = package("a", Version::new(1, 1, 0));
    assert_eq!(*previous_version(&Some(Version::new(1, 0, 0)), &p), Version::new(1, 0, 0));
    assert_eq!(*previous_version(&None, &p), Version::new(1, 1, 0));
}

#[test]
fn contributors_are_named_once() {
    let by = |name: Option<&str>| Some(Contributor { username: name.map(String::from) });
    let contributors = vec![
        by(Some("ann")),
        None,
        by(Some("bob")),
        by(Some("ann")),
        by(None),
        by(None),
        by(Some("cid")),
    ];
    assert_eq!(get_contributors(&contributors), vec![0, 2, 4, 6]);
}

#[test]
fn own_updates_hold_what_the_diff_says() {
    let project = Project { publishable_packages: vec![], workspace_packages: vec![] };
    let req = UpdateRequest::new(ReleaseMode::Default, config(true, &[]));
    let updater = Updater { project: &project, req: &req };
    let mut p = changed("a", vec![commit("1", "one"), commit("2", "two")]);
    p.diff.set_semver_check(SemverCheck::Incompatible("removed".to_string()));
    p.diff.registry_version = Some(Version::new(0, 9, 0));
    let mut old = OldChangelogs::new();
    let at = path(&["c.md"]);
    let r = updater
        .own_update_result(
            &p,
            Version::new(2, 0, 0),
            &mut old,
            &at,
            |_: &FilePath| None,
            |old: Option<&str>, commits: &Vec<Commit>| -> Result<_, String> {
                assert_eq!(old, None);
                Ok((format!("{} commits", commits.len()), "entry".to_string()))
            },
        )
        .unwrap();
    assert_eq!(r.version, Version::new(2, 0, 0));
    assert!(matches!(r.semver_check, SemverCheck::Incompatible(text) if text == "removed"));
    assert_eq!(r.registry_version, Some(Version::new(0, 9, 0)));
    assert_eq!(r.changelog, Some("2 commits".to_string()));
    assert_eq!(old.get(&at), Some("2 commits".to_string()));
}

#[test]
fn updates_of_dependents_hold_one_commit() {
    let project = Project { publishable_packages: vec![], workspace_packages: vec![] };
    let req = UpdateRequest::new(ReleaseMode::Default, config(true, &[]));
    let updater = Updater { project: &project, req: &req };
    let p = package("a", Version::new(1, 0, 0));
    let u = DependentUpdate {
        index: 0,
        version: Version::new(1, 0, 1),
        commit: commit(NO_COMMIT_ID, "chore: updated the following local packages: b"),
    };
    let mut old = OldChangelogs::new();
    let at = path(&["c.md"]);
    let r = updater
        .dependent_update_result(
            u,
            &p,
            &mut old,
            &at,
            |_: &FilePath| Some("old".to_string()),
            |old: Option<&str>, commits: &Vec<Commit>| -> Result<_, String> {
                assert_eq!(commits.len(), 1);
                Ok((format!("{}, {}", commits[0].message, old.unwrap()), "entry".to_string()))
            },
        )
        .unwrap();
    let text = "chore: updated the following local packages: b, old".to_string();
    assert_eq!(r.version, Version::new(1, 0, 1));
    assert!(matches!(r.semver_check, SemverCheck::Skipped));
    assert_eq!(r.registry_version, None);
    assert_eq!(r.changelog, Some(text.clone()));
    assert_eq!(old.get(&at), Some(text));
}

#[test]
fn release_commits_may_be_asked_for() {
    let p = changed("a", vec![commit("1", "feat: one"), commit("2", "chore: two")]);
    let is_feature = |message: &str| message.starts_with("feat");
    let is_fix = |message: &str| message.starts_with("fix");
    assert!(p.diff.has_release_commits(Some(is_feature)));
    assert!(!p.diff.has_release_commits(Some(is_fix)));
    let idle = changed("a", vec![]);
    assert!(!idle.diff.has_release_commits(Some(is_feature)));
    assert!(idle.diff.has_release_commits(None::<fn(&str) -> bool>));
}
