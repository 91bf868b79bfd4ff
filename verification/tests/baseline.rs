use release_plz_core::baseline::{baseline, checkout_error_context, Baseline};
use release_plz_core::manifest::{get_workspace_version, version_is_inherited, InvalidManifest};
use release_plz_core::package::Package;
use release_plz_core::request::{
    PackageUpdateConfig, Project, ReleaseMode, UpdateConfig, UpdateRequest,
};
use release_plz_core::semver::Version;
use release_plz_core::tags::StableTagInfo;
use release_plz_core::updater::Updater;

fn request(publish: bool, git_only: bool) -> UpdateRequest {
    let generic = UpdateConfig {
        semver_check: true,
        changelog_update: true,
        publish,
        git_only,
        features_always_increment_minor: false,
        breaking_always_increment_major: false,
        custom_minor_increment_regex: None,
        custom_major_increment_regex: None,
    };
    let config = PackageUpdateConfig { generic, changelog_include: vec![], version_group: None };
    UpdateRequest::new(ReleaseMode::Default, config)
}

fn check(
    req: &UpdateRequest,
    local: Version,
    has_tag_commit: bool,
    registry: Option<Version>,
) -> Result<(), String> {
    let start = Baseline {
        version: local.clone(),
        tag_commit: has_tag_commit.then_some("abc".to_string()),
        base_version: None,
    };
    check_from(req, local, &start, registry)
}

fn check_from(
    req: &UpdateRequest,
    local: Version,
    start: &Baseline,
    registry: Option<Version>,
) -> Result<(), String> {
    let project = Project { publishable_packages: vec![], workspace_packages: vec![] };
    let updater = Updater { project: &project, req };
    let package =
        Package { name: "pkg".to_string(), version: local, dependencies: vec![], targets: vec![] };
    updater
        .check_published(&package, start, "pkg-v1", registry.as_ref())
        .map_err(|e| e.message())
}

#[test]
fn stable_tags_are_the_baseline() {
    let info = StableTagInfo { version: Version::new(1, 1, 0), commit: "abc".to_string() };
    let local = Version::parse("1.2.0-rc.1").unwrap();
    let b = baseline(Some(info), &local, |_| None);
    assert_eq!(b.version, Version::new(1, 1, 0));
    assert_eq!(b.base_version, Some(Version::new(1, 1, 0)));
    assert_eq!(b.tag_commit, Some("abc".to_string()));
    let b = baseline(None, &local, |v| Some(v.to_text()));
    assert_eq!(b.version, local);
    assert_eq!(b.base_version, None);
    assert_eq!(b.tag_commit, Some("1.2.0-rc.1".to_string()));
}

#[test]
fn tagged_packages_must_be_published() {
    let req = request(true, false);
    let one = Version::new(1, 0, 0);
    let two = Version::new(2, 0, 0);
    assert_eq!(check(&req, one.clone(), true, Some(one.clone())), Ok(()));
    assert_eq!(check(&req, one.clone(), true, Some(two.clone())), Ok(()));
    assert_eq!(
        check(&req, one.clone(), true, None),
        Err("package `pkg` not found in the registry, but the git tag pkg-v1 exists. Consider running `cargo publish` manually to publish this package.".to_string())
    );
    assert_eq!(
        check(&req, two.clone(), true, Some(one.clone())),
        Err("local package `pkg` has a greater version (2.0.0) with respect to the registry package (1.0.0), but the git tag pkg-v1 exists. Consider running `cargo publish` manually to publish the new version of this package.".to_string())
    );
    assert_eq!(check(&req, two, false, None), Ok(()));
    assert_eq!(check(&request(true, true), one.clone(), true, None), Ok(()));
    assert_eq!(check(&request(false, false), one, true, None), Ok(()));
}

#[test]
fn candidates_go_on_from_the_published_tag() {
    let req = request(true, false);
    let local = Version::parse("1.2.0-rc.1").unwrap();
    let tag = |v: Version| StableTagInfo { version: v, commit: "abc".to_string() };
    let start = baseline(Some(tag(Version::new(1, 1, 0))), &local, |_| None);
    assert_eq!(start.base_version, Some(Version::new(1, 1, 0)));
    assert_eq!(check_from(&req, local.clone(), &start, Some(Version::new(1, 1, 0))), Ok(()));
    assert_eq!(check_from(&req, local.clone(), &start, Some(Version::new(1, 1, 5))), Ok(()));
    // The tagged version itself is not published.
    assert!(check_from(&req, local.clone(), &start, Some(Version::new(1, 0, 0))).is_err());
    assert!(check_from(&req, local, &start, None).is_err());
    // The tag is that of the candidate, which is not published.
    let local = Version::parse("1.2.0-rc.1").unwrap();
    let start = baseline(None, &local, |_| Some("abc".to_string()));
    assert!(check_from(&req, local, &start, Some(Version::new(1, 1, 0))).is_err());
}

#[test]
fn failed_checkouts_are_explained() {
    assert_eq!(
        checkout_error_context(
            "error: Your local changes to the following files would be overwritten by checkout"
        ),
        "The allow-dirty option can't be used in this case"
    );
    assert_eq!(
        checkout_error_context("fatal: not a git repository"),
        "Failed to retrieve the last commit of local repository."
    );
}

#[test]
fn manifests_tell_whether_the_version_is_inherited() {
    assert_eq!(version_is_inherited("[package]\nversion.workspace = true\n"), Ok(true));
    assert_eq!(version_is_inherited("[package]\nversion = \"1.0.0\"\n"), Ok(false));
    assert_eq!(version_is_inherited(""), Ok(false));
    assert_eq!(version_is_inherited("[package"), Err(InvalidManifest));
}

#[test]
fn manifests_tell_the_version_of_the_workspace() {
    let version = |text: &str| get_workspace_version(text);
    assert_eq!(
        version("[workspace.package]\nversion = \"1.2.3-rc.1+b\"\n").unwrap(),
        Version::parse("1.2.3-rc.1+b")
    );
    assert_eq!(version("[workspace.package]\nversion = \"x\"\n").unwrap(), None);
    assert_eq!(version("[workspace]\n").unwrap(), None);
    assert!(version("= 1").is_err());
}
