use release_plz_core::baseline::Baseline;
use release_plz_core::diff::{Diff, SemverCheck, NO_COMMIT_ID};
use release_plz_core::package::{
    contains_executable, contains_library, should_check_semver, Package, Target, TargetKind,
};
use release_plz_core::semver::Version;
use release_plz_core::walk::{
    add_dependencies_update_if_any, commits_to_analyze, is_commit_too_old, Answer, DiffWalk,
    Question,
};

struct Facts {
    hash: &'static str,
    is_equal: bool,
    is_too_old: bool,
    changes_package: bool,
}

fn commit(hash: &'static str, changes_package: bool) -> Facts {
    Facts { hash, is_equal: false, is_too_old: false, changes_package }
}

fn equal(hash: &'static str) -> Facts {
    Facts { is_equal: true, ..commit(hash, true) }
}

fn too_old(hash: &'static str) -> Facts {
    Facts { is_too_old: true, ..commit(hash, true) }
}

fn package(version: Version, kinds: Vec<TargetKind>) -> Package {
    Package {
        name: "pkg".to_string(),
        version,
        dependencies: vec![],
        targets: vec![Target { kinds }],
    }
}

fn walk(
    package: &Package,
    registry_version: Option<Version>,
    max_commits: u32,
    history: &[Facts],
    toml_updated: bool,
    lock_updated: bool,
) -> (Diff, usize) {
    let diff = Diff::new(registry_version.is_some());
    let mut walk = DiffWalk::new(diff, package, registry_version, max_commits);
    let mut at = 0;
    let mut questions = 0;
    loop {
        let facts = &history[at];
        let answer = match walk.question() {
            Question::CurrentCommit => Answer::CurrentCommit {
                hash: facts.hash.to_string(),
                message: format!("message of {}", facts.hash),
            },
            Question::PackageEquality => Answer::PackageEquality { are_equal: facts.is_equal },
            Question::CommitAge => Answer::CommitAge {
                is_ancestor_of_tag: None,
                is_ancestor_of_published: Some(facts.is_too_old),
            },
            Question::TomlDependencies => Answer::TomlDependencies { are_updated: toml_updated },
            Question::LockDependencies => Answer::LockDependencies { are_updated: lock_updated },
            Question::ChangedFiles => {
                Answer::ChangedFiles { are_in_package: facts.changes_package }
            }
            Question::PreviousCommit => {
                let exists = at + 1 < history.len();
                if exists {
                    at += 1;
                }
                Answer::PreviousCommit { exists }
            }
            Question::Nothing => return (walk.into_diff(), questions),
        };
        walk.answer(answer);
        questions += 1;
    }
}

fn ids(diff: &Diff) -> Vec<&str> {
    diff.commits.iter().map(|c| c.id.as_str()).collect()
}

#[test]
fn commits_since_the_release_are_collected() {
    let p = package(Version::new(1, 0, 0), vec![TargetKind::Lib]);
    let history = [commit("c", true), commit("b", false), commit("a", true), equal("r"), commit("x", true)];
    let (diff, questions) = walk(&p, Some(Version::new(1, 0, 0)), u32::MAX, &history, true, true);
    assert_eq!(ids(&diff), vec!["c", "a"]);
    assert_eq!(diff.commits[0].message, "message of c");
    assert!(diff.is_version_published);
    assert!(diff.registry_package_exists);
    assert_eq!(diff.registry_version, None);
    assert!(questions <= 5 * history.len());
}

#[test]
fn walk_stops_at_old_commits() {
    let p = package(Version::new(1, 0, 0), vec![TargetKind::Lib]);
    let history = [commit("b", true), too_old("a"), commit("x", true)];
    let (diff, _) = walk(&p, Some(Version::new(1, 0, 0)), u32::MAX, &history, false, false);
    assert_eq!(ids(&diff), vec!["b"]);
}

#[test]
fn walk_ends_with_the_history() {
    let p = package(Version::new(1, 0, 0), vec![]);
    let history = [commit("b", true), commit("a", true)];
    let (diff, _) = walk(&p, Some(Version::new(1, 0, 0)), u32::MAX, &history, true, true);
    assert_eq!(ids(&diff), vec!["b", "a"]);
}

#[test]
fn new_packages_are_walked_up_to_the_limit() {
    let p = package(Version::new(0, 1, 0), vec![]);
    let history = [equal("c"), too_old("b"), commit("a", true)];
    let (diff, _) = walk(&p, None, 2, &history, true, true);
    assert_eq!(ids(&diff), vec!["c", "b"]);
    assert!(!diff.registry_package_exists);
    let (diff, _) = walk(&p, None, 0, &history, true, true);
    assert!(diff.commits.is_empty());
}

#[test]
fn limits_hold_for_new_packages_only() {
    assert_eq!(commits_to_analyze(false, 7), 7);
    assert_eq!(commits_to_analyze(false, 0), u32::MAX);
    assert_eq!(commits_to_analyze(true, 7), u32::MAX);
}

#[test]
fn raised_versions_are_noted() {
    let p = package(Version::new(1, 1, 0), vec![]);
    let history = [commit("b", true), equal("a")];
    let (diff, _) = walk(&p, Some(Version::new(1, 0, 0)), u32::MAX, &history, false, false);
    assert_eq!(ids(&diff), vec!["b"]);
    assert!(!diff.is_version_published);
    assert_eq!(diff.registry_version, Some(Version::new(1, 0, 0)));
    // At the newest commit, there is nothing to note.
    let (diff, _) = walk(&p, Some(Version::new(1, 0, 0)), u32::MAX, &[equal("a")], false, false);
    assert!(diff.is_version_published);
    assert_eq!(diff.registry_version, None);
}

#[test]
fn dependencies_count_without_commits() {
    let lib = package(Version::new(1, 0, 0), vec![TargetKind::Lib]);
    let bin = package(Version::new(1, 0, 0), vec![TargetKind::Bin]);
    let run = |p: &Package, toml: bool, lock: bool| {
        let (diff, _) = walk(p, Some(Version::new(1, 0, 0)), u32::MAX, &[equal("a")], toml, lock);
        let messages: Vec<String> = diff.commits.iter().map(|c| c.message.clone()).collect();
        assert!(diff.commits.iter().all(|c| c.id == NO_COMMIT_ID));
        messages
    };
    assert_eq!(run(&lib, true, true), vec!["chore: update Cargo.toml dependencies"]);
    assert_eq!(run(&bin, true, true), vec!["chore: update Cargo.toml dependencies"]);
    assert_eq!(run(&bin, false, true), vec!["chore: update Cargo.lock dependencies"]);
    assert!(run(&lib, false, true).is_empty());
    assert!(run(&bin, false, false).is_empty());
}

#[test]
fn dependencies_do_not_count_with_commits() {
    let p = package(Version::new(1, 0, 0), vec![TargetKind::Bin]);
    let history = [commit("b", true), equal("a")];
    let (diff, _) = walk(&p, Some(Version::new(1, 0, 0)), u32::MAX, &history, true, true);
    assert_eq!(ids(&diff), vec!["b"]);
    // Commits that did not change the package do not count as commits.
    let history = [commit("b", false), equal("a")];
    let (diff, _) = walk(&p, Some(Version::new(1, 0, 0)), u32::MAX, &history, true, true);
    assert_eq!(ids(&diff), vec![NO_COMMIT_ID]);
}

#[test]
fn commits_are_too_old_by_tag_or_publication() {
    assert!(is_commit_too_old(Some(true), None));
    assert!(is_commit_too_old(Some(false), Some(true)));
    assert!(is_commit_too_old(None, Some(true)));
    assert!(!is_commit_too_old(Some(false), Some(false)));
    assert!(!is_commit_too_old(None, None));
}

#[test]
fn commit_for_dependencies_is_added() {
    let mut diff = Diff::new(true);
    add_dependencies_update_if_any(&mut diff, false, false);
    assert!(diff.commits.is_empty());
    add_dependencies_update_if_any(&mut diff, true, true);
    assert_eq!(diff.commits.len(), 1);
}

#[test]
fn targets_are_told_apart() {
    let both = package(Version::new(1, 0, 0), vec![TargetKind::Other, TargetKind::Bin]);
    assert!(contains_executable(&both));
    assert!(!contains_library(&both));
    let lib = package(Version::new(1, 0, 0), vec![TargetKind::Lib]);
    assert!(should_check_semver(&lib, true, true));
    assert!(!should_check_semver(&lib, false, true));
    assert!(!should_check_semver(&lib, true, false));
    assert!(!should_check_semver(&both, true, true));
}

#[test]
fn walks_start_from_the_baseline() {
    let p = package(Version::parse("1.2.0-rc.1").unwrap(), vec![TargetKind::Lib]);
    let start = |base: Option<Version>| Baseline {
        version: Version::new(1, 1, 0),
        tag_commit: Some("abc".to_string()),
        base_version: base,
    };
    let base = Some(Version::new(1, 1, 0));
    let walk = DiffWalk::since(&start(base.clone()), &p, Some(Version::new(1, 1, 0)), 1);
    assert!(matches!(walk.question(), Question::CurrentCommit));
    let diff = walk.into_diff();
    assert_eq!(diff.base_version, base);
    assert!(diff.registry_package_exists);
    assert!(diff.is_version_published);
    assert!(diff.commits.is_empty());
    assert!(matches!(diff.semver_check, SemverCheck::Skipped));
    let diff = DiffWalk::since(&start(None), &p, None, 0).into_diff();
    assert_eq!(diff.base_version, None);
    assert!(!diff.registry_package_exists);
}

#[test]
fn walks_of_unpublished_packages_are_limited() {
    let p = package(Version::new(1, 0, 0), vec![TargetKind::Lib]);
    let start =
        Baseline { version: Version::new(1, 0, 0), tag_commit: None, base_version: None };
    let seen = |max_analyze_commits: u32| {
        let mut walk = DiffWalk::since(&start, &p, None, max_analyze_commits);
        let mut at: usize = 0;
        loop {
            let answer = match walk.question() {
                Question::CurrentCommit => {
                    at += 1;
                    Answer::CurrentCommit { hash: at.to_string(), message: String::new() }
                }
                Question::ChangedFiles => Answer::ChangedFiles { are_in_package: true },
                Question::PreviousCommit => Answer::PreviousCommit { exists: at < 5 },
                _ => return walk.into_diff().commits.len(),
            };
            walk.answer(answer);
        }
    };
    assert_eq!(seen(3), 3);
    assert_eq!(seen(9), 5);
    assert_eq!(seen(0), 5);
}
