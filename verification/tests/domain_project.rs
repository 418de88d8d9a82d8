//! How a working directory resolves to a project and a package.

use std::collections::HashSet;
use std::path::Path;

use portside::domain::project::find_project;

/// A fixed set of paths that exist, so nothing here depends on the machine's disk.
fn fake_fs(existing: &[&str]) -> impl Fn(&str) -> bool {
    let set: HashSet<String> = existing.iter().map(|p| p.to_string()).collect();
    move |p: &str| set.contains(p)
}

#[test]
fn monorepo_project_is_repo_root_package_is_subdir() {
    let exists = fake_fs(&[
        "/Users/purin/dev/vala-platform/.git",
        "/Users/purin/dev/vala-platform/apps/web/package.json",
    ]);
    let cwd = "/Users/purin/dev/vala-platform/apps/web";

    let (project, package) = find_project(cwd, exists).expect("must find a project");

    assert_eq!(project.name, "vala-platform");
    assert_eq!(project.root, "/Users/purin/dev/vala-platform");
    assert_eq!(package.expect("must find a package").relative_path, "apps/web");
}

#[test]
fn project_with_markers_at_same_level_has_no_package() {
    let exists = fake_fs(&[
        "/Users/purin/dev/purin-dev-site/.git",
        "/Users/purin/dev/purin-dev-site/package.json",
    ]);
    let cwd = "/Users/purin/dev/purin-dev-site";

    let (project, package) = find_project(cwd, exists).expect("must find a project");

    assert_eq!(project.name, "purin-dev-site");
    assert!(package.is_none());
}

#[test]
fn no_markers_anywhere_returns_none() {
    let exists = fake_fs(&[]);
    let cwd = "/Users/purin/.openclaw";

    assert!(find_project(cwd, exists).is_none());
}

#[test]
fn no_git_falls_back_to_nearest_any_marker() {
    let exists = fake_fs(&["/Users/purin/dev/bare-go-tool/go.mod"]);
    let cwd = "/Users/purin/dev/bare-go-tool";

    let (project, package) = find_project(cwd, exists).expect("must find a project");

    assert_eq!(project.name, "bare-go-tool");
    assert!(package.is_none());
}

#[test]
fn walks_up_multiple_levels_to_find_git() {
    let exists = fake_fs(&[
        "/Users/purin/dev/vala-platform/.git",
        "/Users/purin/dev/vala-platform/apps/web/package.json",
    ]);
    // Deeper than the package.json level, still resolves to the same project.
    let cwd = "/Users/purin/dev/vala-platform/apps/web/src/components";

    let (project, package) = find_project(cwd, exists).expect("must find a project");

    assert_eq!(project.name, "vala-platform");
    assert_eq!(package.expect("must find a package").relative_path, "apps/web");
}

#[test]
fn git_marker_as_a_file_counts_as_a_project_root() {
    // A submodule's `.git` is a file; only its presence is asked for.
    let exists = fake_fs(&[
        "/Users/purin/dev/pawjai/pawjai-fe/.git",
        "/Users/purin/dev/pawjai/pawjai-fe/package.json",
    ]);
    let cwd = "/Users/purin/dev/pawjai/pawjai-fe";

    let (project, _package) = find_project(cwd, exists).expect("must find a project");

    assert_eq!(project.name, "pawjai-fe");
}

#[test]
fn real_filesystem_predicate_finds_pawjai_fe_via_file_git() {
    // The same case against the real file system, on a machine that has the path.
    let real_path = Path::new("/Users/purin/dev/pawjai/pawjai-fe");
    if !real_path.exists() {
        println!("skipping: {} not present on this machine", real_path.display());
        return;
    }

    let (project, _package) = find_project("/Users/purin/dev/pawjai/pawjai-fe", |p: &str| Path::new(p).exists())
        .expect("must find a project");
    assert_eq!(project.name, "pawjai-fe");
}

/// The nearest repository wins over every project file below it, and over a
/// repository above it.
#[test]
fn nearest_repository_wins() {
    let exists = fake_fs(&["/a/.git", "/a/b/.git", "/a/b/c/go.mod"]);
    let (project, package) = find_project("/a/b/c/d", exists).expect("must find a project");
    assert_eq!(project.root, "/a/b");
    assert_eq!(project.name, "b");
    assert_eq!(package.expect("must find a package").relative_path, "c");
}

/// A project file above the repository's root makes no package.
#[test]
fn a_project_file_above_the_repository_is_no_package() {
    let exists = fake_fs(&["/a/package.json", "/a/b/.git"]);
    let (project, package) = find_project("/a/b/c", exists).expect("must find a project");
    assert_eq!(project.root, "/a/b");
    assert!(package.is_none());
}

/// A repository at the root of the file system has no last component to be named by.
#[test]
fn a_repository_at_the_root_has_an_empty_name() {
    let (project, package) = find_project("/", fake_fs(&["/.git"])).expect("must find a project");
    assert_eq!(project.root, "/");
    assert_eq!(project.name, "");
    assert!(package.is_none());
}

/// A relative working directory ends its walk at the empty path.
#[test]
fn a_relative_directory_is_walked_to_its_start() {
    let (project, package) = find_project("a/b", fake_fs(&[".git"])).expect("must find a project");
    assert_eq!(project.root, "");
    assert_eq!(project.name, "");
    assert!(package.is_none());
    let (project, _) = find_project("a/b", fake_fs(&["a/Cargo.toml"])).expect("must find a project");
    assert_eq!(project.root, "a");
}

/// Each of the project files counts on its own.
#[test]
fn every_project_file_marks_a_project() {
    for marker in ["package.json", "Cargo.toml", "pyproject.toml", "go.mod"] {
        let path = format!("/p/{}", marker);
        let (project, package) = find_project("/p/q", fake_fs(&[path.as_str()])).expect("must find a project");
        assert_eq!(project.root, "/p");
        assert!(package.is_none());
    }
    assert!(find_project("/p/q", fake_fs(&["/p/README.md"])).is_none());
}
