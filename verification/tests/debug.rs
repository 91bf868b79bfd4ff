use release_plz_core::debug::{
    are_cargo_toml_equal_check, cargo_toml_label, check_tag_stop, effective_local_tag, fmt_stop,
    parse_args, readme_label, short_hash, short_message, version_status, Comparison, DebugWalk,
    FirstStops, Observation, TagStop, MAX_COMMITS,
};
use release_plz_core::semver::Version;

fn args(strs: &[&str]) -> Vec<String> {
    strs.iter().map(|s| s.to_string()).collect()
}

#[test]
fn command_line_is_read() {
    assert!(parse_args(&args(&["diff_debug"])).is_none());
    let o = parse_args(&args(&["diff_debug", "ws"])).unwrap();
    assert_eq!((o.workspace.as_str(), o.package, o.simulate_unpublished), ("ws", None, false));
    let o = parse_args(&args(&[
        "diff_debug",
        "ws",
        "--package",
        "a",
        "--no-pub-sha1",
        "--simulate-unpublished",
        "--package",
        "b",
        "rest",
    ]))
    .unwrap();
    assert_eq!(o.package, Some("b".to_string()));
    assert!(o.simulate_unpublished);
    // What stands behind the flag is the package, whatever it is.
    let o = parse_args(&args(&["diff_debug", "ws", "--package", "--simulate-unpublished"])).unwrap();
    assert_eq!(o.package, Some("--simulate-unpublished".to_string()));
    assert!(!o.simulate_unpublished);
}

#[test]
fn versions_are_compared() {
    let (one, two) = (Version::new(1, 0, 0), Version::new(2, 0, 0));
    assert_eq!(
        version_status(&two, &one),
        "LOCAL > REGISTRY (version already bumped / unpublished)"
    );
    assert_eq!(version_status(&one, &one), "LOCAL == REGISTRY (published)");
    assert_eq!(version_status(&one, &two), "LOCAL < REGISTRY (unexpected!)");
}

#[test]
fn local_tag_can_be_ignored() {
    assert_eq!(effective_local_tag(true, Some("abc".to_string())), None);
    assert_eq!(effective_local_tag(false, Some("abc".to_string())), Some("abc".to_string()));
}

#[test]
fn tags_stop_the_walk() {
    let labels = |l, r, p| {
        let s = check_tag_stop(l, r, p);
        (s.current.label(), s.worst.label(), s.proposed.label())
    };
    assert_eq!(labels(None, None, None), ("no", "no", "no"));
    assert_eq!(labels(Some(true), Some(true), Some(true)), ("local_tag", "no", "local_tag"));
    assert_eq!(labels(Some(false), Some(true), Some(true)), ("pub_sha1", "no", "reg_tag"));
    assert_eq!(labels(None, Some(true), None), ("no", "no", "reg_tag"));
    assert_eq!(labels(None, Some(false), Some(true)), ("pub_sha1", "no", "pub_sha1"));
}

#[test]
fn manifests_are_compared_byte_by_byte() {
    let (a, b, c) = (vec![1, 2, 3], vec![1, 2, 4], vec![1, 2]);
    assert!(are_cargo_toml_equal_check(Some(&a), Some(&a.clone())));
    assert!(!are_cargo_toml_equal_check(Some(&a), Some(&b)));
    assert!(!are_cargo_toml_equal_check(Some(&a), Some(&c)));
    assert!(!are_cargo_toml_equal_check(None, Some(&a)));
    assert!(!are_cargo_toml_equal_check(None, None));
}

#[test]
fn labels_of_comparisons() {
    assert_eq!(Comparison::Skipped.label(), "skip");
    assert_eq!(Comparison::of_packages(Some(true)).label(), "EQUAL");
    assert_eq!(Comparison::of_packages(Some(false)).label(), "diff(files)");
    assert_eq!(Comparison::of_packages(None).label(), "ERR");
    assert_eq!(cargo_toml_label(true), "EQUAL");
    assert_eq!(cargo_toml_label(false), "different");
}

#[test]
fn hashes_and_messages_are_shortened() {
    assert_eq!(short_hash("0123456789abcdef"), "01234567");
    assert_eq!(short_hash("0123"), "0123");
    assert_eq!(short_message("first\nsecond"), "first");
    assert_eq!(short_message(""), "");
    let long = "é".repeat(60);
    assert_eq!(short_message(&long), "é".repeat(50));
}

#[test]
fn first_stops_are_kept() {
    let see = |comparison, l, r, p| Observation { comparison, stops: check_tag_stop(l, r, p) };
    let mut first = FirstStops::new();
    first.observe(0, see(Comparison::Skipped, None, None, None));
    first.observe(1, see(Comparison::Different, None, Some(true), None));
    first.observe(2, see(Comparison::Failed, None, Some(true), Some(true)));
    first.observe(3, see(Comparison::Equal, None, None, None));
    first.observe(4, see(Comparison::Equal, Some(true), None, None));
    assert_eq!(first.proposed, Some(1));
    assert_eq!(first.current, Some(2));
    assert_eq!(first.equality, Some(3));
    assert_eq!(first.worst, Some(3));
    assert_eq!(fmt_stop(first.proposed), "commit #1");
    assert_eq!(fmt_stop(None), "NEVER");
    let findings = first.findings(true);
    assert!(!findings.content_never_stops);
    assert!(!findings.worst_differs_from_content);
    assert!(!findings.current_never_stops);
    assert_eq!(findings.fixed_at, None);
}

#[test]
fn endless_walks_are_found() {
    let mut first = FirstStops::new();
    let stops = check_tag_stop(None, Some(true), None);
    assert_eq!(stops.current, TagStop::No);
    first.observe(12, Observation { comparison: Comparison::Skipped, stops });
    let findings = first.findings(true);
    assert!(findings.content_never_stops);
    assert!(findings.current_never_stops);
    assert_eq!(findings.fixed_at, Some(12));
    assert!(!first.findings(false).current_never_stops);
}

fn nothing() -> Observation {
    Observation { comparison: Comparison::Skipped, stops: check_tag_stop(None, None, None) }
}

fn equal() -> Observation {
    Observation { comparison: Comparison::Equal, stops: check_tag_stop(None, None, None) }
}

#[test]
fn debug_walk_goes_on_to_the_oldest_commit() {
    let mut walk = DebugWalk::new();
    let history = [nothing(), equal(), equal()];
    let mut seen: usize = 0;
    while let Some(i) = walk.current {
        assert_eq!(i as usize, seen);
        walk.observe(history[seen]);
        seen += 1;
        walk.go_back(seen < history.len());
    }
    assert_eq!(seen, 3);
    assert_eq!(walk.first.equality, Some(1));
    // Once the walk is over, it stays so.
    walk.observe(equal());
    walk.go_back(true);
    assert_eq!(walk.current, None);
    assert_eq!(walk.first.equality, Some(1));
}

#[test]
fn debug_walk_is_limited() {
    assert_eq!(MAX_COMMITS, 200);
    let mut walk = DebugWalk::new();
    let mut seen: u32 = 0;
    while let Some(i) = walk.current {
        walk.observe(if i == 199 { equal() } else { nothing() });
        seen += 1;
        walk.go_back(true);
    }
    assert_eq!(seen, 200);
    assert_eq!(walk.first.equality, Some(199));
}

#[test]
fn labels_of_readmes() {
    assert_eq!(readme_label(Some(true)), "YES");
    assert_eq!(readme_label(Some(false)), "no");
    assert_eq!(readme_label(None), "err");
}
