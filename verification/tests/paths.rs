use release_plz_core::paths::{
    are_changed_files_in_package, get_package_files, get_repo_path, pathbufs_to_check,
    without_generated_files, FilePath, NotBelow,
};

fn path(text: &str) -> FilePath {
    FilePath::new(text.split('/').filter(|c| !c.is_empty()).map(String::from).collect())
}

fn text(path: &FilePath) -> String {
    path.components.join("/")
}

#[test]
fn paths_move_to_the_repository() {
    let moved = get_repo_path(&path("/home/me/project/crates/a"), &path("/tmp/x"), &path("/home/me/project"));
    assert_eq!(text(&moved.unwrap()), "tmp/x/crates/a");
    let moved = get_repo_path(&path("/home/me/project"), &path("/tmp/x"), &path("/home/me/project"));
    assert_eq!(text(&moved.unwrap()), "tmp/x");
    let moved = get_repo_path(&path("/home/you/project"), &path("/tmp/x"), &path("/home/me"));
    assert_eq!(moved.unwrap_err(), NotBelow);
    // Names are compared whole.
    assert!(get_repo_path(&path("/home/mean"), &path("/tmp/x"), &path("/home/me")).is_err());
}

#[test]
fn paths_can_be_taken_back() {
    let (root, dir) = (path("/a/b"), path("/x"));
    let moved = get_repo_path(&path("/a/b/c/d"), &dir, &root).unwrap();
    let back = get_repo_path(&moved, &root, &dir).unwrap();
    assert!(back.is_same(&path("/a/b/c/d")));
}

#[test]
fn generated_files_are_left_out() {
    let files: Vec<String> = ["Cargo.toml", "Cargo.toml.orig", "src/lib.rs", ".cargo_vcs_info.json"]
        .iter()
        .map(|s| s.to_string())
        .collect();
    assert_eq!(without_generated_files(&files), vec!["Cargo.toml", "src/lib.rs"]);
}

#[test]
fn package_files_are_relative_to_the_repository() {
    let files = vec![path("/repo/a/Cargo.toml"), path("/repo/a/src/lib.rs")];
    let relative = get_package_files(&files, &path("/repo")).unwrap();
    let relative: Vec<String> = relative.iter().map(text).collect();
    assert_eq!(relative, vec!["a/Cargo.toml", "a/src/lib.rs"]);
    let files = vec![path("/repo/a/Cargo.toml"), path("/else/x"), path("/else/y")];
    assert_eq!(get_package_files(&files, &path("/repo")).unwrap_err(), 1);
}

#[test]
fn commits_change_a_package_through_its_files() {
    let package = vec![path("a/Cargo.toml"), path("a/src/lib.rs")];
    let inside = vec![path("b/src/lib.rs"), path("a/src/lib.rs")];
    let outside = vec![path("b/src/lib.rs"), path("a/src")];
    assert!(are_changed_files_in_package(Some(&package), Some(&inside)));
    assert!(!are_changed_files_in_package(Some(&package), Some(&outside)));
    assert!(are_changed_files_in_package(Some(&package), None));
    assert!(!are_changed_files_in_package(None, Some(&inside)));
    assert!(!are_changed_files_in_package(None, None));
}

#[test]
fn readme_is_checked_too() {
    let paths = pathbufs_to_check(&path("repo/a"), Some(path("repo/README.md")));
    let paths: Vec<String> = paths.iter().map(text).collect();
    assert_eq!(paths, vec!["repo/a", "repo/README.md"]);
    assert_eq!(pathbufs_to_check(&path("repo/a"), None).len(), 1);
}
