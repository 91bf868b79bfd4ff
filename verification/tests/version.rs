use release_plz_core::diff::{Commit, Diff, SemverCheck, NO_COMMIT_ID};
use release_plz_core::increment::{VersionIncrement, VersionUpdater};
use release_plz_core::semver::{Precedence, Version};
use release_plz_core::version::BumpLevel;

fn diff_with(message: &str) -> Diff {
    Diff {
        registry_package_exists: true,
        commits: vec![Commit::new(NO_COMMIT_ID.to_string(), message.to_string())],
        is_version_published: true,
        semver_check: SemverCheck::Skipped,
        registry_version: None,
        base_version: None,
    }
}

fn version(text: &str) -> Version {
    Version::parse(text).unwrap()
}

#[test]
fn next_version_of_new_package_is_unchanged() {
    let registry_package_exists = false;
    let diff = Diff::new(registry_package_exists);
    let version = Version::new(1, 2, 3);
    assert_eq!(version.clone().next_from_diff(&diff, VersionUpdater::default()), version);
}

#[test]
fn next_version_of_existing_package_is_updated() {
    let diff = diff_with("my change");
    let version = Version::new(1, 2, 3);
    assert_eq!(
        version.next_from_diff(&diff, VersionUpdater::default()),
        Version::new(1, 2, 4)
    );
}

#[test]
fn next_version_doesnt_bump_0_x_minor_version_for_features() {
    let diff = diff_with("feat: my change");
    let version = Version::new(0, 2, 3);
    assert_eq!(
        version.next_from_diff(&diff, VersionUpdater::default()),
        Version::new(0, 2, 4)
    );
}

#[test]
fn next_version_bumps_0_x_minor_version_for_features() {
    let diff = diff_with("feat: my change");
    let version = Version::new(0, 2, 3);
    let updater = VersionUpdater::default().with_features_always_increment_minor(true);
    assert_eq!(version.next_from_diff(&diff, updater), Version::new(0, 3, 0));
}

#[test]
fn bump_level_compute_major() {
    let base = Version::new(1, 0, 0);
    let target = Version::new(2, 0, 0);
    assert_eq!(BumpLevel::compute(&base, &target), BumpLevel::Major);
}

#[test]
fn bump_level_compute_minor() {
    let base = Version::new(1, 0, 0);
    let target = Version::new(1, 1, 0);
    assert_eq!(BumpLevel::compute(&base, &target), BumpLevel::Minor);
}

#[test]
fn bump_level_compute_patch() {
    let base = Version::new(1, 0, 0);
    let target = Version::new(1, 0, 1);
    assert_eq!(BumpLevel::compute(&base, &target), BumpLevel::Patch);
}

#[test]
fn bump_level_compute_none() {
    let base = Version::new(1, 0, 0);
    assert_eq!(BumpLevel::compute(&base, &base), BumpLevel::NoBump);
}

#[test]
fn bump_level_apply_major() {
    let base = Version::new(1, 2, 3);
    assert_eq!(BumpLevel::Major.apply(&base), Version::new(2, 0, 0));
}

#[test]
fn bump_level_apply_minor() {
    let base = Version::new(1, 2, 3);
    assert_eq!(BumpLevel::Minor.apply(&base), Version::new(1, 3, 0));
}

#[test]
fn bump_level_apply_patch() {
    let base = Version::new(1, 2, 3);
    assert_eq!(BumpLevel::Patch.apply(&base), Version::new(1, 2, 4));
}

#[test]
fn bump_level_apply_none() {
    let base = Version::new(1, 2, 3);
    assert_eq!(BumpLevel::NoBump.apply(&base), Version::new(1, 2, 3));
}

#[test]
fn bump_level_ordering() {
    assert!(BumpLevel::NoBump < BumpLevel::Patch);
    assert!(BumpLevel::Patch < BumpLevel::Minor);
    assert!(BumpLevel::Minor < BumpLevel::Major);
}

#[test]
fn bump_level_max_propagation() {
    // Simulates: package A has patch bump, depends on B with major bump.
    // A should get major.
    let a_own = BumpLevel::Patch;
    let b_bump = BumpLevel::Major;
    let a_final = a_own.max(b_bump);
    assert_eq!(a_final, BumpLevel::Major);
}

#[test]
fn commits_since_a_stable_version_decide_the_part() {
    let base = Version::new(1, 1, 0);
    let next = |message: &str| base.next_from_diff(&diff_with(message), VersionUpdater::default());
    assert_eq!(next("fix: a bug"), Version::new(1, 1, 1));
    assert_eq!(next("feat: a feature"), Version::new(1, 2, 0));
    assert_eq!(next("feat!: a breaking feature"), Version::new(2, 0, 0));
}

#[test]
fn commits_since_a_prerelease_raise_the_prerelease() {
    let base = version("1.2.0-rc.1");
    let next = base.next_from_diff(&diff_with("feat!: a change"), VersionUpdater::default());
    assert_eq!(next, version("1.2.0-rc.2"));
}

#[test]
fn incompatible_api_is_a_breaking_change() {
    let mut diff = diff_with("fix: a bug");
    diff.set_semver_check(SemverCheck::Incompatible("function removed".to_string()));
    let next = |v: &str| version(v).next_from_diff(&diff, VersionUpdater::default());
    assert_eq!(next("1.2.3"), Version::new(2, 0, 0));
    assert_eq!(next("0.2.3"), Version::new(0, 3, 0));
    assert_eq!(next("0.0.3"), Version::new(0, 0, 4));
    assert_eq!(next("1.0.0-beta"), version("1.0.0-beta.1"));
}

#[test]
fn raised_version_stays() {
    let mut diff = diff_with("feat: a feature");
    diff.set_version_unpublished(Version::new(1, 0, 0));
    assert!(!diff.is_version_published);
    assert_eq!(diff.registry_version, Some(Version::new(1, 0, 0)));
    assert!(!diff.should_update_version());
    let local = Version::new(1, 1, 0);
    assert_eq!(local.next_from_diff(&diff, VersionUpdater::default()), local);
}

#[test]
fn breaking_changes_may_always_raise_the_major_number() {
    let updater = VersionUpdater::default().with_breaking_always_increment_major(true);
    let next = Version::new(0, 2, 3).next_from_diff(&diff_with("fix!: a change"), updater);
    assert_eq!(next, Version::new(1, 0, 0));
}

#[test]
fn custom_patterns_raise_the_part_they_are_for() {
    let updater = VersionUpdater::default().with_custom_minor_increment_regex("^minor").unwrap();
    let next = Version::new(1, 2, 3).next_from_diff(&diff_with("minor: a change"), updater);
    assert_eq!(next, Version::new(1, 3, 0));
    let updater = VersionUpdater::default().with_custom_major_increment_regex("^major").unwrap();
    let next = Version::new(1, 2, 3).next_from_diff(&diff_with("major: a change"), updater);
    assert_eq!(next, Version::new(2, 0, 0));
}

#[test]
fn patterns_that_do_not_compile_are_refused() {
    assert!(VersionUpdater::default().with_custom_minor_increment_regex("(").is_none());
    assert!(VersionUpdater::default().with_custom_major_increment_regex("[a").is_none());
}

#[test]
fn version_stays_without_commits() {
    let updater = VersionUpdater::default();
    assert_eq!(updater.increment(&Version::new(1, 2, 3), &vec![]), Version::new(1, 2, 3));
}

#[test]
fn applying_the_computed_level_gives_the_next_version() {
    let base = Version::new(1, 2, 3);
    let next = Version::new(1, 3, 0);
    assert_eq!(BumpLevel::compute(&base, &next).apply(&base), next);
    let level = BumpLevel::Major;
    assert_eq!(BumpLevel::compute(&base, &level.apply(&base)), level);
}

#[test]
fn higher_level_gives_higher_version() {
    let base = Version::new(1, 2, 3);
    assert!(base.is_lower(&BumpLevel::Patch.apply(&base)));
    assert!(BumpLevel::Patch.apply(&base).is_lower(&BumpLevel::Minor.apply(&base)));
    assert!(BumpLevel::Minor.apply(&base).is_lower(&BumpLevel::Major.apply(&base)));
}

#[test]
fn levels_apply_to_stable_versions() {
    let base = version("1.2.0-rc.1+build.5");
    assert_eq!(BumpLevel::NoBump.apply(&base), version("1.2.0+build.5"));
    for level in [BumpLevel::NoBump, BumpLevel::Patch, BumpLevel::Minor, BumpLevel::Major] {
        assert!(!level.apply(&base).is_prerelease());
    }
}

#[test]
fn breaking_changes_need_room_in_their_part_alone() {
    let mut diff = diff_with("fix: a bug");
    let last = version("1.2.18446744073709551615");
    assert!(!last.can_take(&diff));
    assert!(version("1.2.3").can_take(&diff));
    diff.set_semver_check(SemverCheck::Incompatible("function removed".to_string()));
    assert!(last.can_take(&diff));
    assert_eq!(last.next_from_diff(&diff, VersionUpdater::default()), Version::new(2, 0, 0));
    assert!(!version("18446744073709551615.0.0").can_take(&diff));
    assert!(version("18446744073709551615.0.0").can_take(&Diff::new(true)));
}

#[test]
fn max_of_levels_is_one_of_them() {
    assert_eq!(BumpLevel::Minor.max(BumpLevel::Patch), BumpLevel::Minor);
    assert_eq!(BumpLevel::NoBump.max(BumpLevel::NoBump), BumpLevel::NoBump);
}

#[test]
fn bumps_keep_build_metadata_and_drop_prereleases() {
    let base = version("1.2.3-rc.1+build.5");
    assert_eq!(base.increment_major(), version("2.0.0+build.5"));
    assert_eq!(base.increment_minor(), version("1.3.0+build.5"));
    assert_eq!(base.increment_patch(), version("1.2.4+build.5"));
}

#[test]
fn prereleases_are_incremented() {
    let next = |v: &str| version(v).increment_prerelease();
    assert_eq!(next("1.0.0-alpha.1"), version("1.0.0-alpha.2"));
    assert_eq!(next("1.0.0-alpha"), version("1.0.0-alpha.1"));
    assert_eq!(next("1.0.0-alpha.beta.9"), version("1.0.0-alpha.beta.10"));
    assert_eq!(next("1.0.0-alpha.b1"), version("1.0.0-alpha.b1.1"));
}

#[test]
fn parts_for_breaking_changes() {
    assert_eq!(VersionIncrement::breaking(&version("1.0.0")), VersionIncrement::Major);
    assert_eq!(VersionIncrement::breaking(&version("0.1.0")), VersionIncrement::Minor);
    assert_eq!(VersionIncrement::breaking(&version("0.0.1")), VersionIncrement::Patch);
    assert_eq!(VersionIncrement::breaking(&version("1.0.0-a")), VersionIncrement::Prerelease);
}

#[test]
fn versions_at_their_limits_cannot_be_incremented() {
    assert!(Version::new(1, 2, 3).can_increment());
    assert!(!Version::new(1, 2, u64::MAX).can_increment());
    assert!(!version("1.0.0-rc.4294967295").can_increment());
    assert!(version("1.0.0-rc.4294967294").can_increment());
    assert!(version("1.0.0-rc.4294967296").can_increment());
    assert_eq!(
        version("1.0.0-rc.4294967296").increment_prerelease(),
        version("1.0.0-rc.4294967296.1")
    );
}

#[test]
fn versions_are_read_back_from_their_text() {
    for text in ["0.0.0", "1.2.3", "1.2.3-rc.1", "1.2.3+build.01", "1.2.3-a-b.0.x+y.z"] {
        assert_eq!(version(text).to_text(), text);
    }
    let v = version("10.20.30-beta.7");
    assert_eq!((v.major(), v.minor(), v.patch(), v.prerelease()), (10, 20, 30, "beta.7"));
    assert!(v.is_prerelease());
    assert!(!Version::new(1, 0, 0).is_prerelease());
}

#[test]
fn texts_that_are_no_versions_are_refused() {
    for text in
        ["", "1", "1.2", "1.2.3.4", "01.2.3", "1.2.3-", "1.2.3-01", "1.2.3+", "v1.2.3", "1.2.x", " 1.2.3"]
    {
        assert!(Version::parse(text).is_none(), "{text}");
    }
    assert!(Version::parse("18446744073709551615.0.0").is_some());
    assert!(Version::parse("18446744073709551616.0.0").is_none());
}

#[test]
fn versions_are_ordered() {
    let ordered = [
        "0.9.0",
        "1.0.0-1",
        "1.0.0-2",
        "1.0.0-10",
        "1.0.0-alpha",
        "1.0.0-alpha.1",
        "1.0.0-alpha.beta",
        "1.0.0-rc.2",
        "1.0.0-rc.10",
        "1.0.0",
        "1.0.0+1",
        "1.0.0+2",
        "1.0.0+a",
        "1.0.1",
        "1.10.0",
        "2.0.0",
    ];
    for i in 0..ordered.len() {
        for j in 0..ordered.len() {
            let expected = if i < j {
                Precedence::Lower
            } else if i == j {
                Precedence::Same
            } else {
                Precedence::Higher
            };
            assert_eq!(version(ordered[i]).precedence(&version(ordered[j])), expected);
        }
    }
}

#[test]
fn prerelease_can_be_set() {
    let v = Version::new(1, 2, 3);
    assert_eq!(v.with_prerelease("rc.1"), Some(version("1.2.3-rc.1")));
    assert_eq!(v.with_prerelease("rc.01"), None);
    assert_eq!(v.with_prerelease("rc..1"), None);
}

#[test]
fn commits_are_added_once() {
    let mut diff = diff_with("fix: one");
    let other = diff_with("fix: two");
    diff.add_commits(&other.commits);
    diff.add_commits(&other.commits);
    let messages = diff.messages();
    assert_eq!(messages, vec!["fix: one".to_string(), "fix: two".to_string()]);
    assert!(diff.any_commit_matches(|m| m.contains("two")));
    assert!(!diff.any_commit_matches(|m| m.contains("three")));
}
