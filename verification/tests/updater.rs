use release_plz_core::changelog::get_changelog;
use release_plz_core::diff::{Commit, NO_COMMIT_ID};
use release_plz_core::package::Package;
use release_plz_core::propagate::propagate_bumps;
use release_plz_core::rc::release_candidate;
use release_plz_core::semver::Version;
use release_plz_core::tags::{
    best_stable_version_from_tags, checked_next_rc_number, find_last_stable_tag,
    find_next_rc_number, is_tag_reachable, max_rc_number_from_tags, parse_rc_number_from_tag, parse_version_from_tag,
    rc_version_with_placeholder, VERSION_PLACEHOLDER,
};
use release_plz_core::version::BumpLevel;

fn tags(strs: &[&str]) -> Vec<String> {
    strs.iter().map(|s| s.to_string()).collect()
}

#[test]
fn same_version_is_not_added_to_changelog() {
    let commits = vec![
        Commit::new(NO_COMMIT_ID.to_string(), "fix: myfix".to_string()),
        Commit::new(NO_COMMIT_ID.to_string(), "simple update".to_string()),
    ];

    let next_version = Version::new(1, 1, 0);

    let old = r"## [1.1.0] - 1970-01-01

### fix bugs
- my awesomefix

### other
- complex update
";
    let package = Package {
        name: "my_package".to_string(),
        version: Version::new(1, 1, 0),
        dependencies: vec![],
        targets: vec![],
    };
    let build = |_previous: Option<&str>| -> Result<(String, String), String> {
        let lines: Vec<String> = commits.iter().map(|c| c.message.clone()).collect();
        Ok((format!("{}\n{old}", lines.join("\n")), lines.join("\n")))
    };
    let new = get_changelog(&next_version, Some(old), Some("1.1.0"), &package, build).unwrap();
    assert_eq!(old, new.0);
}

#[test]
fn stable_tag_found_among_rc_tags() {
    let t = tags(&["pkg-v1.0.0", "pkg-v1.1.0-rc.1", "pkg-v1.1.0-rc.2"]);
    assert_eq!(
        best_stable_version_from_tags(&t, "pkg-v", "", |_| true),
        Some(Version::new(1, 0, 0))
    );
}

#[test]
fn highest_stable_selected() {
    let t = tags(&["pkg-v1.0.0", "pkg-v1.1.0", "pkg-v0.9.0"]);
    assert_eq!(
        best_stable_version_from_tags(&t, "pkg-v", "", |_| true),
        Some(Version::new(1, 1, 0))
    );
}

#[test]
fn no_stable_tags_returns_none() {
    let t = tags(&["pkg-v1.0.0-rc.1", "pkg-v1.0.0-rc.2"]);
    assert_eq!(best_stable_version_from_tags(&t, "pkg-v", "", |_| true), None);
}

#[test]
fn empty_tags_returns_none() {
    assert_eq!(best_stable_version_from_tags(&vec![], "pkg-v", "", |_| true), None);
}

#[test]
fn non_matching_tags_ignored() {
    let t = tags(&["other-v1.0.0", "pkg-v0.5.0", "unrelated"]);
    assert_eq!(
        best_stable_version_from_tags(&t, "pkg-v", "", |_| true),
        Some(Version::new(0, 5, 0))
    );
}

#[test]
fn non_ancestor_stable_tags_are_ignored() {
    let t = tags(&["pkg-v1.0.0", "pkg-v2.0.0"]);
    assert_eq!(
        best_stable_version_from_tags(&t, "pkg-v", "", |tag| tag != "pkg-v2.0.0"),
        Some(Version::new(1, 0, 0))
    );
}

#[test]
fn finds_max_rc() {
    let t = tags(&["pkg-v1.1.0-rc.1", "pkg-v1.1.0-rc.3", "pkg-v1.1.0-rc.2"]);
    assert_eq!(max_rc_number_from_tags(&t, "pkg-v1.1.0-rc.", "", |_| true), 3);
}

#[test]
fn no_rc_tags_returns_zero() {
    assert_eq!(max_rc_number_from_tags(&vec![], "pkg-v1.1.0-rc.", "", |_| true), 0);
}

#[test]
fn different_version_rc_ignored() {
    let t = tags(&["pkg-v1.0.0-rc.5", "pkg-v1.0.0-rc.3"]);
    // Looking for 1.1.0 RCs, but only 1.0.0 RCs exist.
    assert_eq!(max_rc_number_from_tags(&t, "pkg-v1.1.0-rc.", "", |_| true), 0);
}

#[test]
fn non_numeric_suffix_ignored() {
    let t = tags(&["pkg-v1.1.0-rc.2", "pkg-v1.1.0-rc.beta", "pkg-v1.1.0-rc.3"]);
    assert_eq!(max_rc_number_from_tags(&t, "pkg-v1.1.0-rc.", "", |_| true), 3);
}

#[test]
fn suffix_templates_are_supported_for_rc_numbers() {
    let t = tags(&[
        "release-pkg-1.1.0-rc.2-prod",
        "release-pkg-1.1.0-rc.10-prod",
        "release-pkg-1.1.0-prod",
    ]);
    assert_eq!(
        max_rc_number_from_tags(&t, "release-pkg-1.1.0-rc.", "-prod", |_| true),
        10
    );
}

#[test]
fn non_ancestor_rc_tags_are_ignored() {
    let t = tags(&["pkg-v1.1.0-rc.2", "pkg-v1.1.0-rc.9", "pkg-v1.1.0-rc.3"]);
    assert_eq!(
        max_rc_number_from_tags(&t, "pkg-v1.1.0-rc.", "", |tag| tag != "pkg-v1.1.0-rc.9"),
        3
    );
}

#[test]
fn dep_bump_propagates_to_parent() {
    // B has major bump, A depends on B with no own bump → A gets major.
    let entries = vec![
        ("b".into(), BumpLevel::Major, vec![]),
        ("a".into(), BumpLevel::NoBump, vec!["b".into()]),
    ];
    let order = vec!["b".into(), "a".into()];
    let result = propagate_bumps(&entries, &order);
    assert_eq!(result.get("a"), Some(&BumpLevel::Major));
    assert_eq!(result.get("b"), Some(&BumpLevel::Major));
}

#[test]
fn own_bump_wins_when_higher() {
    // A has major, depends on B with patch → A stays major.
    let entries = vec![
        ("b".into(), BumpLevel::Patch, vec![]),
        ("a".into(), BumpLevel::Major, vec!["b".into()]),
    ];
    let order = vec!["b".into(), "a".into()];
    let result = propagate_bumps(&entries, &order);
    assert_eq!(result.get("a"), Some(&BumpLevel::Major));
    assert_eq!(result.get("b"), Some(&BumpLevel::Patch));
}

#[test]
fn transitive_chain() {
    // C has minor, B depends on C (no own bump), A depends on B (no own bump).
    // All should get minor through transitive propagation.
    let entries = vec![
        ("c".into(), BumpLevel::Minor, vec![]),
        ("b".into(), BumpLevel::NoBump, vec!["c".into()]),
        ("a".into(), BumpLevel::NoBump, vec!["b".into()]),
    ];
    let order = vec!["c".into(), "b".into(), "a".into()];
    let result = propagate_bumps(&entries, &order);
    assert_eq!(result.get("c"), Some(&BumpLevel::Minor));
    assert_eq!(result.get("b"), Some(&BumpLevel::Minor));
    assert_eq!(result.get("a"), Some(&BumpLevel::Minor));
}

#[test]
fn no_deps_preserves_own_bump() {
    let entries = vec![("a".into(), BumpLevel::Patch, vec![])];
    let order = vec!["a".into()];
    let result = propagate_bumps(&entries, &order);
    assert_eq!(result.get("a"), Some(&BumpLevel::Patch));
}

#[test]
fn multiple_deps_takes_max() {
    // A depends on B(patch) and C(major) → A gets major.
    let entries = vec![
        ("b".into(), BumpLevel::Patch, vec![]),
        ("c".into(), BumpLevel::Major, vec![]),
        ("a".into(), BumpLevel::NoBump, vec!["b".into(), "c".into()]),
    ];
    let order = vec!["b".into(), "c".into(), "a".into()];
    let result = propagate_bumps(&entries, &order);
    assert_eq!(result.get("a"), Some(&BumpLevel::Major));
}

#[test]
fn all_none_stays_none() {
    let entries = vec![
        ("b".into(), BumpLevel::NoBump, vec![]),
        ("a".into(), BumpLevel::NoBump, vec!["b".into()]),
    ];
    let order = vec!["b".into(), "a".into()];
    let result = propagate_bumps(&entries, &order);
    assert_eq!(result.get("a"), Some(&BumpLevel::NoBump));
    assert_eq!(result.get("b"), Some(&BumpLevel::NoBump));
}

#[test]
fn only_known_packages_in_the_order_get_a_level() {
    let entries = vec![
        ("a".into(), BumpLevel::Patch, vec!["x".into()]),
        ("b".into(), BumpLevel::Major, vec![]),
    ];
    let order = vec!["x".into(), "a".into()];
    let result = propagate_bumps(&entries, &order);
    assert_eq!(result.get("a"), Some(&BumpLevel::Patch));
    assert_eq!(result.get("b"), None);
    assert_eq!(result.get("x"), None);
}

#[test]
fn later_entries_of_a_name_replace_earlier_ones() {
    let entries = vec![
        ("a".into(), BumpLevel::Major, vec![]),
        ("a".into(), BumpLevel::Patch, vec![]),
    ];
    let result = propagate_bumps(&entries, &vec!["a".into()]);
    assert_eq!(result.get("a"), Some(&BumpLevel::Patch));
}

#[test]
fn dependents_before_dependencies_see_no_bump() {
    let entries = vec![
        ("b".into(), BumpLevel::Major, vec![]),
        ("a".into(), BumpLevel::NoBump, vec!["b".into()]),
    ];
    let result = propagate_bumps(&entries, &vec!["a".into(), "b".into()]);
    assert_eq!(result.get("a"), Some(&BumpLevel::NoBump));
}

#[test]
fn versions_are_parsed_from_tags() {
    let parse = |tag: &str| parse_version_from_tag(tag, "release-", "-prod");
    assert_eq!(parse("release-1.2.3-prod"), Some(Version::new(1, 2, 3)));
    assert_eq!(parse("release-1.2.3"), None);
    assert_eq!(parse("1.2.3-prod"), None);
    assert_eq!(parse("release-x-prod"), None);
    // The prefix and the suffix must not overlap.
    assert_eq!(parse_version_from_tag("ab", "ab", "b"), None);
}

#[test]
fn rc_numbers_are_parsed_from_tags() {
    let parse = |tag: &str| parse_rc_number_from_tag(tag, "v1.0.0-rc.", "");
    assert_eq!(parse("v1.0.0-rc.7"), Some(7));
    assert_eq!(parse("v1.0.0-rc.007"), Some(7));
    assert_eq!(parse("v1.0.0-rc.+7"), Some(7));
    assert_eq!(parse("v1.0.0-rc."), None);
    assert_eq!(parse("v1.0.0-rc.-7"), None);
    assert_eq!(parse("v1.0.0-rc.18446744073709551616"), None);
}

#[test]
fn last_stable_tag_is_found_through_the_template() {
    let t = tags(&["mylib-v1.1.0", "mylib-v1.2.0-rc.1", "other-v3.0.0", "mylib-v1.0.0"]);
    let rendered = format!("mylib-v{VERSION_PLACEHOLDER}");
    let commit = |v: &Version| Some(format!("commit of {}", v.to_text()));
    let info = find_last_stable_tag(&t, Some(&rendered), true, |_| true, commit).unwrap();
    assert_eq!(info.version, Version::new(1, 1, 0));
    assert_eq!(info.commit, "commit of 1.1.0");
    assert!(find_last_stable_tag(&t, Some(&rendered), true, |_| true, |_| None).is_none());
    assert!(find_last_stable_tag(&t, Some(&rendered), false, |_| true, commit).is_none());
    assert!(find_last_stable_tag(&t, Some("mylib-v"), true, |_| true, commit).is_none());
    assert!(find_last_stable_tag(&t, None, true, |_| true, commit).is_none());
    assert!(find_last_stable_tag(&vec![], Some(&rendered), true, |_| true, commit).is_none());
}

#[test]
fn next_rc_number_follows_the_tags() {
    let target = Version::new(1, 3, 0);
    assert_eq!(rc_version_with_placeholder(&target), "1.3.0-rc.__RCNUM__");
    let rendered = format!("mylib-v{}", rc_version_with_placeholder(&target));
    let t = tags(&["mylib-v1.3.0-rc.1", "mylib-v1.3.0-rc.2", "mylib-v1.2.0-rc.9"]);
    assert_eq!(find_next_rc_number(&t, Some(&rendered), |_| true), 3);
    assert_eq!(find_next_rc_number(&t, Some(&rendered), |_| false), 1);
    assert_eq!(find_next_rc_number(&vec![], Some(&rendered), |_| true), 1);
    assert_eq!(find_next_rc_number(&t, Some("mylib-v"), |_| true), 1);
    assert_eq!(find_next_rc_number(&t, None, |_| true), 1);
}

#[test]
fn next_candidate_has_a_new_tag() {
    let target = Version::new(1, 3, 0);
    let rendered = format!("v{}", rc_version_with_placeholder(&target));
    let t = tags(&["v1.3.0-rc.1", "v1.3.0-rc.4"]);
    let number = find_next_rc_number(&t, Some(&rendered), |_| true);
    let candidate = release_candidate(&target, number);
    assert_eq!(candidate.to_text(), "1.3.0-rc.5");
    assert!(!t.contains(&format!("v{}", candidate.to_text())));
    assert!(candidate.is_lower(&target));
    assert!(release_candidate(&target, 4).is_lower(&candidate));
    assert!(Version::new(1, 2, 9).is_lower(&candidate));
}

#[test]
fn tags_count_where_they_can_be_reached() {
    assert!(is_tag_reachable(false, None));
    assert!(is_tag_reachable(false, Some(false)));
    assert!(is_tag_reachable(true, Some(true)));
    assert!(!is_tag_reachable(true, Some(false)));
    assert!(!is_tag_reachable(true, None));
}

#[test]
fn last_rc_number_leaves_none() {
    let rendered = Some("v1.0.0-rc.__RCNUM__");
    let next = |all: &[&str], rendered, accepted: bool| {
        checked_next_rc_number(&tags(all), rendered, |_: &str| accepted)
    };
    let last = "v1.0.0-rc.18446744073709551615";
    assert_eq!(next(&["v1.0.0-rc.18446744073709551614"], rendered, true), Some(u64::MAX));
    assert_eq!(next(&["x", last], rendered, true), None);
    assert_eq!(next(&["x", last], rendered, false), Some(1));
    assert_eq!(next(&[last], None, true), Some(1));
    assert_eq!(next(&["v1.0.0-rc.2", "v1.1.0-rc.7"], rendered, true), Some(3));
}

#[test]
fn unaccepted_tags_do_not_count() {
    let all = tags(&["v1.0.0-rc.4", "v1.0.0-rc.18446744073709551615"]);
    let rendered = Some("v1.0.0-rc.__RCNUM__");
    assert_eq!(find_next_rc_number(&all, rendered, |tag: &str| tag.len() < 20), 5);
    assert_eq!(checked_next_rc_number(&all, rendered, |tag: &str| tag.len() < 20), Some(5));
}
