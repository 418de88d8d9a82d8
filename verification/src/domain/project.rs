//! Deriving a Project, and the Package inside it, from a working directory.
use super::model::{Package, Project, ProjectView};
use crate::path;
use crate::path::Span;
use crate::text;
use vstd::prelude::*;

verus! {

/// The entry that marks a repository's root.
pub const REPO_ROOT_MARKER: &'static str = ".git";

/// Whether `present` answers as `fs` does: whatever it returns for a path is what `fs`
/// says of that path.
pub open spec fn answers<F: Fn(&str) -> bool>(present: F, fs: spec_fn(Seq<char>) -> bool) -> bool {
    forall|p: &str, b: bool| #[trigger] call_ensures(present, (p,), b) ==> b == fs(p@)
}

/// Whether `present` may be asked about any path.
pub open spec fn askable<F: Fn(&str) -> bool>(present: F) -> bool {
    forall|p: &str| #[trigger] call_requires(present, (p,))
}

/// Whether `present` may give the answer `b` about the path `p`.
pub open spec fn may_say<F: Fn(&str) -> bool>(present: F, p: Seq<char>, b: bool) -> bool {
    exists|q: &str| #[trigger] call_ensures(present, (q,), b) && q@ == p
}

/// Whether asking `present` about the entries `markers` of a directory, one after the
/// other until one is there, may find one (`b`) or none.
pub open spec fn may_have<F: Fn(&str) -> bool>(
    present: F,
    dir: Seq<char>,
    markers: Seq<Seq<char>>,
    b: bool,
) -> bool
    decreases markers.len(),
{
    if markers.len() == 0 {
        !b
    } else {
        ||| b && may_say(present, path::joined(dir, markers[0]), true)
        ||| may_say(present, path::joined(dir, markers[0]), false) && may_have(
            present,
            dir,
            markers.skip(1),
            b,
        )
    }
}

/// Whether asking `present` about the entries `markers` may find `found` to be the
/// nearest directory with one of them, at or above the one that the first `k` components
/// of `cwd` lead to. A directory is given by how many components lead to it.
pub open spec fn may_be_nearest<F: Fn(&str) -> bool>(
    present: F,
    cwd: Seq<char>,
    markers: Seq<Seq<char>>,
    k: int,
    found: Option<int>,
) -> bool
    decreases k + 1,
{
    if k < 0 {
        found is None
    } else {
        ||| found == Some(k) && may_have(present, path::ancestor(cwd, k), markers, true)
        ||| may_have(present, path::ancestor(cwd, k), markers, false) && may_be_nearest(
            present,
            cwd,
            markers,
            k - 1,
            found,
        )
    }
}

/// The entry that marks a repository.
pub open spec fn repository_markers() -> Seq<Seq<char>> {
    seq![REPO_ROOT_MARKER@]
}

/// The entries that mark a package.
pub open spec fn package_markers() -> Seq<Seq<char>> {
    seq!["package.json"@, "go.mod"@, "Cargo.toml"@, "pyproject.toml"@]
}

/// Whether a directory has the entry `marker`.
pub open spec fn has_marker(fs: spec_fn(Seq<char>) -> bool, marker: Seq<char>) -> spec_fn(
    Seq<char>,
) -> bool {
    |dir: Seq<char>| fs(path::joined(dir, marker))
}

/// Whether a directory has an entry that marks a package.
pub open spec fn has_package_marker(fs: spec_fn(Seq<char>) -> bool) -> spec_fn(Seq<char>) -> bool {
    |dir: Seq<char>|
        fs(path::joined(dir, "package.json"@)) || fs(path::joined(dir, "go.mod"@)) || fs(
            path::joined(dir, "Cargo.toml"@),
        ) || fs(path::joined(dir, "pyproject.toml"@))
}

/// The nearest directory at or above the one that the first `k` components of `cwd`
/// lead to that passes `test`, by how many components lead to it.
pub open spec fn nearest(cwd: Seq<char>, test: spec_fn(Seq<char>) -> bool, k: int) -> Option<int>
    decreases k + 1,
{
    if k < 0 {
        None
    } else if test(path::ancestor(cwd, k)) {
        Some(k)
    } else {
        nearest(cwd, test, k - 1)
    }
}

/// The name of the project whose root is `root`: the directory's name, or nothing
/// where it has none.
pub open spec fn name_of(root: Seq<char>) -> Seq<char> {
    match path::file_name_of(root) {
        Some(n) => n,
        None => Seq::empty(),
    }
}

/// The Project at a directory.
pub open spec fn project_at(root: Seq<char>) -> ProjectView {
    ProjectView { root, name: name_of(root) }
}

/// The Project, and the Package if any, of the working directory `cwd`, where the nearest
/// repository and the nearest directory with a package marker are these.
///
/// The Project is the nearest repository. Its Package is the nearest directory with a
/// package marker, where that lies strictly below the repository's root. Outside any
/// repository the nearest directory with a package marker is the Project, and there is
/// no Package.
pub open spec fn project_from(cwd: Seq<char>, repository: Option<int>, package: Option<int>) -> Option<
    (ProjectView, Option<Seq<char>>),
> {
    match (repository, package) {
        (Some(r), Some(p)) if p > r => Some(
            (project_at(path::ancestor(cwd, r)), Some(path::between(cwd, r, p))),
        ),
        (Some(r), _) => Some((project_at(path::ancestor(cwd, r)), None)),
        (None, Some(p)) => Some((project_at(path::ancestor(cwd, p)), None)),
        (None, None) => None,
    }
}

/// The Project, and the Package if any, of the working directory `cwd`, where `fs` says
/// what exists.
pub open spec fn project_of(cwd: Seq<char>, fs: spec_fn(Seq<char>) -> bool) -> Option<
    (ProjectView, Option<Seq<char>>),
> {
    let n = path::spans(cwd).len() as int;
    project_from(
        cwd,
        nearest(cwd, has_marker(fs, REPO_ROOT_MARKER@), n),
        nearest(cwd, has_package_marker(fs), n),
    )
}

/// Whether asking `present` may find these to be the nearest repository and the nearest
/// directory with a package marker.
pub open spec fn may_lead<F: Fn(&str) -> bool>(
    present: F,
    cwd: Seq<char>,
    repository: Option<int>,
    package: Option<int>,
) -> bool {
    let n = path::spans(cwd).len() as int;
    &&& may_be_nearest(present, cwd, repository_markers(), n, repository)
    &&& may_be_nearest(present, cwd, package_markers(), n, package)
}

/// Whether asking `present` may lead to this Project and Package. The disk may change
/// between two questions, so that there may be more than one.
pub open spec fn found_by<F: Fn(&str) -> bool>(
    present: F,
    cwd: Seq<char>,
    result: Option<(ProjectView, Option<Seq<char>>)>,
) -> bool {
    exists|repository: Option<int>, package: Option<int>| #[trigger]
        may_lead(present, cwd, repository, package) && result == project_from(
            cwd,
            repository,
            package,
        )
}

/// What a derived Project holds.
pub open spec fn found_view(r: Option<(Project, Option<Package>)>) -> Option<
    (ProjectView, Option<Seq<char>>),
> {
    match r {
        Some((p, k)) => Some((p@, super::model::package_view(k))),
        None => None,
    }
}

/// An index, where there is one.
pub open spec fn index_view(r: Option<usize>) -> Option<int> {
    match r {
        Some(i) => Some(i as int),
        None => None,
    }
}

/// Whether `dir` has the entry `name`.
fn has_entry<F: Fn(&str) -> bool>(dir: &str, name: &str, present: &F) -> (r: bool)
    requires
        askable(*present),
    ensures
        may_say(*present, path::joined(dir@, name@), r),
{
    let candidate = path::join(dir, name);
    present(candidate.as_str())
}

/// Whether `dir` is a repository's root.
fn has_repository<F: Fn(&str) -> bool>(dir: &str, present: &F) -> (r: bool)
    requires
        askable(*present),
    ensures
        may_have(*present, dir@, repository_markers(), r),
{
    let r = has_entry(dir, REPO_ROOT_MARKER, present);
    proof {
        reveal_with_fuel(may_have, 2);
        assert(repository_markers()[0] == REPO_ROOT_MARKER@);
    }
    r
}

/// Whether `dir` has an entry that marks a package.
fn has_package<F: Fn(&str) -> bool>(dir: &str, present: &F) -> (r: bool)
    requires
        askable(*present),
    ensures
        may_have(*present, dir@, package_markers(), r),
{
    let ghost m = package_markers();
    let r = has_entry(dir, "package.json", present) || has_entry(dir, "go.mod", present)
        || has_entry(dir, "Cargo.toml", present) || has_entry(dir, "pyproject.toml", present);
    proof {
        reveal_with_fuel(may_have, 5);
        assert(m.skip(1)[0] == m[1]);
        assert(m.skip(1).skip(1)[0] == m[2]);
        assert(m.skip(1).skip(1).skip(1)[0] == m[3]);
    }
    r
}

/// The nearest directory at or above `v` that is a repository's root.
fn find_ancestor_with_marker<F: Fn(&str) -> bool>(v: &Vec<char>, found: &Vec<Span>, present: &F) -> (r:
    Option<usize>)
    requires
        path::span_views(found@) == path::spans(v@),
        askable(*present),
    ensures
        r matches Some(k) ==> k <= found@.len(),
        may_be_nearest(
            *present,
            v@,
            repository_markers(),
            found@.len() as int,
            index_view(r),
        ),
{
    let ghost m = repository_markers();
    let mut left: usize = found.len();
    loop
        invariant
            0 <= left <= found@.len(),
            path::span_views(found@) == path::spans(v@),
            askable(*present),
            m == repository_markers(),
            forall|f: Option<int>| #[trigger]
                may_be_nearest(*present, v@, m, left as int, f) ==> may_be_nearest(
                    *present,
                    v@,
                    m,
                    found@.len() as int,
                    f,
                ),
        decreases left,
    {
        let dir = path::ancestor_at(v, found, left);
        if has_repository(dir.as_str(), present) {
            proof {
                assert(may_be_nearest(*present, v@, m, left as int, Some(left as int)));
            }
            return Some(left);
        }
        if left == 0 {
            proof {
                assert(may_be_nearest(*present, v@, m, -1, None));
                assert(may_be_nearest(*present, v@, m, 0, None));
            }
            return None;
        }
        proof {
            assert forall|f: Option<int>| #[trigger]
                may_be_nearest(*present, v@, m, left - 1, f) implies may_be_nearest(
                *present,
                v@,
                m,
                found@.len() as int,
                f,
            ) by {
                assert(may_be_nearest(*present, v@, m, left as int, f));
            }
        }
        left = left - 1;
    }
}

/// The nearest directory at or above `v` with a package marker.
fn find_ancestor_with_any_marker<F: Fn(&str) -> bool>(
    v: &Vec<char>,
    found: &Vec<Span>,
    present: &F,
) -> (r: Option<usize>)
    requires
        path::span_views(found@) == path::spans(v@),
        askable(*present),
    ensures
        r matches Some(k) ==> k <= found@.len(),
        may_be_nearest(*present, v@, package_markers(), found@.len() as int, index_view(r)),
{
    let ghost m = package_markers();
    let mut left: usize = found.len();
    loop
        invariant
            0 <= left <= found@.len(),
            path::span_views(found@) == path::spans(v@),
            askable(*present),
            m == package_markers(),
            forall|f: Option<int>| #[trigger]
                may_be_nearest(*present, v@, m, left as int, f) ==> may_be_nearest(
                    *present,
                    v@,
                    m,
                    found@.len() as int,
                    f,
                ),
        decreases left,
    {
        let dir = path::ancestor_at(v, found, left);
        if has_package(dir.as_str(), present) {
            proof {
                assert(may_be_nearest(*present, v@, m, left as int, Some(left as int)));
            }
            return Some(left);
        }
        if left == 0 {
            proof {
                assert(may_be_nearest(*present, v@, m, -1, None));
                assert(may_be_nearest(*present, v@, m, 0, None));
            }
            return None;
        }
        proof {
            assert forall|f: Option<int>| #[trigger]
                may_be_nearest(*present, v@, m, left - 1, f) implies may_be_nearest(
                *present,
                v@,
                m,
                found@.len() as int,
                f,
            ) by {
                assert(may_be_nearest(*present, v@, m, left as int, f));
            }
        }
        left = left - 1;
    }
}

/// The name of the project whose root is `root`.
fn project_name(root: &str) -> (r: String)
    ensures
        r@ == name_of(root@),
{
    match path::file_name(root) {
        Some(n) => n,
        None => String::new(),
    }
}

/// The Project, and the Package if any, of the working directory `cwd`.
///
/// `present` tells whether a path exists on disk. It is asked about the markers in
/// `cwd` and in the directories above it, from the nearest on.
pub fn find_project<F: Fn(&str) -> bool>(cwd: &str, present: F) -> (r: Option<
    (Project, Option<Package>),
>)
    requires
        askable(present),
    ensures
        found_by(present, cwd@, found_view(r)),
        forall|fs: spec_fn(Seq<char>) -> bool|
            #[trigger] answers(present, fs) ==> found_view(r) == project_of(cwd@, fs),
{
    let r = locate_project(cwd, &present);
    proof {
        assert forall|fs: spec_fn(Seq<char>) -> bool| #[trigger] answers(present, fs) implies
            found_view(r) == project_of(cwd@, fs) by {
            lemma_steady_disk(present, fs, cwd@, found_view(r));
        }
    }
    r
}

/// The Project, and the Package if any, of the working directory `cwd`.
pub fn locate_project<F: Fn(&str) -> bool>(cwd: &str, present: &F) -> (r: Option<
    (Project, Option<Package>),
>)
    requires
        askable(*present),
    ensures
        found_by(*present, cwd@, found_view(r)),
{
    let v = text::to_chars(cwd);
    let found = path::find_spans(&v);
    proof {
        assert(found@.len() == path::spans(cwd@).len());
    }
    let repository = find_ancestor_with_marker(&v, &found, present);
    let package = find_ancestor_with_any_marker(&v, &found, present);
    proof {
        assert(may_lead(*present, cwd@, index_view(repository), index_view(package)));
    }
    match (repository, package) {
        (Some(repo), Some(dir)) if dir > repo => {
            let root = path::ancestor_at(&v, &found, repo);
            let name = project_name(root.as_str());
            let relative_path = path::text_between(&v, &found, repo, dir);
            Some((Project { root, name }, Some(Package { relative_path })))
        },
        (Some(repo), _) => {
            let root = path::ancestor_at(&v, &found, repo);
            let name = project_name(root.as_str());
            Some((Project { root, name }, None))
        },
        (None, Some(dir)) => {
            let root = path::ancestor_at(&v, &found, dir);
            let name = project_name(root.as_str());
            Some((Project { root, name }, None))
        },
        (None, None) => None,
    }
}

// ---------------------------------------------------------------------------------
// What every derivation keeps.
// ---------------------------------------------------------------------------------

/// On a disk that does not change meanwhile, asking may lead to one Project and Package
/// only: those that the disk's contents say.
pub proof fn lemma_steady_disk<F: Fn(&str) -> bool>(
    present: F,
    fs: spec_fn(Seq<char>) -> bool,
    cwd: Seq<char>,
    result: Option<(ProjectView, Option<Seq<char>>)>,
)
    requires
        answers(present, fs),
        found_by(present, cwd, result),
    ensures
        result == project_of(cwd, fs),
{
    let n = path::spans(cwd).len() as int;
    let (repository, package) = choose|repository: Option<int>, package: Option<int>| #[trigger]
        may_lead(present, cwd, repository, package) && result == project_from(
            cwd,
            repository,
            package,
        );
    assert forall|dir: Seq<char>, b: bool| #[trigger]
        may_have(present, dir, repository_markers(), b) implies b == has_marker(
        fs,
        REPO_ROOT_MARKER@,
    )(dir) by {
        lemma_steady_markers(present, fs, dir, repository_markers(), b);
        assert(repository_markers()[0] == REPO_ROOT_MARKER@);
    }
    assert forall|dir: Seq<char>, b: bool| #[trigger]
        may_have(present, dir, package_markers(), b) implies b == has_package_marker(fs)(dir) by {
        let m = package_markers();
        lemma_steady_markers(present, fs, dir, m, b);
        assert(m[0] == "package.json"@ && m[1] == "go.mod"@ && m[2] == "Cargo.toml"@ && m[3]
            == "pyproject.toml"@);
    }
    lemma_steady_nearest(
        present,
        cwd,
        repository_markers(),
        has_marker(fs, REPO_ROOT_MARKER@),
        n,
        repository,
    );
    lemma_steady_nearest(present, cwd, package_markers(), has_package_marker(fs), n, package);
}

/// On a disk that does not change meanwhile, one of the entries is found where one is
/// there.
proof fn lemma_steady_markers<F: Fn(&str) -> bool>(
    present: F,
    fs: spec_fn(Seq<char>) -> bool,
    dir: Seq<char>,
    markers: Seq<Seq<char>>,
    b: bool,
)
    requires
        answers(present, fs),
        may_have(present, dir, markers, b),
    ensures
        b <==> exists|i: int| 0 <= i < markers.len() && fs(path::joined(dir, #[trigger] markers[i])),
    decreases markers.len(),
{
    if markers.len() > 0 {
        if may_say(present, path::joined(dir, markers[0]), false) && may_have(
            present,
            dir,
            markers.skip(1),
            b,
        ) {
            let rest = markers.skip(1);
            lemma_steady_markers(present, fs, dir, rest, b);
            assert(!fs(path::joined(dir, markers[0])));
            if b {
                let i = choose|i: int|
                    0 <= i < rest.len() && fs(path::joined(dir, #[trigger] rest[i]));
                assert(markers[i + 1] == rest[i]);
            } else {
                assert forall|i: int| 0 <= i < markers.len() implies !fs(
                    path::joined(dir, #[trigger] markers[i]),
                ) by {
                    if i > 0 {
                        assert(rest[i - 1] == markers[i]);
                    }
                }
            }
        } else {
            assert(fs(path::joined(dir, markers[0])));
        }
    }
}

/// On a disk that does not change meanwhile, the nearest directory is found.
proof fn lemma_steady_nearest<F: Fn(&str) -> bool>(
    present: F,
    cwd: Seq<char>,
    markers: Seq<Seq<char>>,
    test: spec_fn(Seq<char>) -> bool,
    k: int,
    found: Option<int>,
)
    requires
        may_be_nearest(present, cwd, markers, k, found),
        forall|dir: Seq<char>, b: bool| #[trigger]
            may_have(present, dir, markers, b) ==> b == test(dir),
    ensures
        found == nearest(cwd, test, k),
    decreases k + 1,
{
    if k >= 0 {
        let dir = path::ancestor(cwd, k);
        if may_have(present, dir, markers, false) && may_be_nearest(
            present,
            cwd,
            markers,
            k - 1,
            found,
        ) {
            lemma_steady_nearest(present, cwd, markers, test, k - 1, found);
        }
    }
}

/// The nearest directory passes the test, and none between it and the start does.
pub proof fn lemma_nearest(cwd: Seq<char>, test: spec_fn(Seq<char>) -> bool, k: int)
    ensures
        match nearest(cwd, test, k) {
            Some(i) => 0 <= i <= k && test(path::ancestor(cwd, i)) && forall|j: int|
                i < j <= k ==> !test(#[trigger] path::ancestor(cwd, j)),
            None => forall|j: int| 0 <= j <= k ==> !test(#[trigger] path::ancestor(cwd, j)),
        },
    decreases k + 1,
{
    if k >= 0 && !test(path::ancestor(cwd, k)) {
        lemma_nearest(cwd, test, k - 1);
    }
}

/// A Project is found exactly where the working directory or one above it has a marker
/// of either sort.
pub proof fn lemma_project_iff_marker(cwd: Seq<char>, fs: spec_fn(Seq<char>) -> bool)
    ensures
        project_of(cwd, fs) is Some <==> exists|k: int|
            0 <= k <= path::spans(cwd).len() && (has_marker(fs, REPO_ROOT_MARKER@)(
                #[trigger] path::ancestor(cwd, k),
            ) || has_package_marker(fs)(path::ancestor(cwd, k))),
{
    let n = path::spans(cwd).len() as int;
    lemma_nearest(cwd, has_marker(fs, REPO_ROOT_MARKER@), n);
    lemma_nearest(cwd, has_package_marker(fs), n);
}

/// A Project's root is the working directory or one above it: its components are the
/// first of the working directory's, and it starts at the root of the file system where
/// that does. It has a marker, and its name is its own last component.
pub proof fn lemma_root_is_ancestor(cwd: Seq<char>, fs: spec_fn(Seq<char>) -> bool)
    requires
        project_of(cwd, fs) is Some,
    ensures
        ({
            let root = (project_of(cwd, fs)->0).0.root;
            &&& exists|k: int|
                0 <= k <= path::components(cwd).len() && path::components(root)
                    == #[trigger] path::components(cwd).take(k)
            &&& path::absolute(root) == path::absolute(cwd)
            &&& has_marker(fs, REPO_ROOT_MARKER@)(root) || has_package_marker(fs)(root)
            &&& (project_of(cwd, fs)->0).0.name == name_of(root)
        }),
{
    let n = path::spans(cwd).len() as int;
    lemma_nearest(cwd, has_marker(fs, REPO_ROOT_MARKER@), n);
    lemma_nearest(cwd, has_package_marker(fs), n);
    let k = match nearest(cwd, has_marker(fs, REPO_ROOT_MARKER@), n) {
        Some(k) => k,
        None => nearest(cwd, has_package_marker(fs), n)->0,
    };
    path::lemma_ancestor_components(cwd, k);
    assert(path::components(cwd).take(k) == path::components(path::ancestor(cwd, k)));
}

/// A repository wins over a package marker however near: with a repository at or above
/// the working directory, the Project is the nearest one.
pub proof fn lemma_repository_wins(cwd: Seq<char>, fs: spec_fn(Seq<char>) -> bool, k: int)
    requires
        0 <= k <= path::spans(cwd).len(),
        has_marker(fs, REPO_ROOT_MARKER@)(path::ancestor(cwd, k)),
        forall|j: int|
            k < j <= path::spans(cwd).len() ==> !has_marker(fs, REPO_ROOT_MARKER@)(
                #[trigger] path::ancestor(cwd, j),
            ),
    ensures
        project_of(cwd, fs) is Some,
        (project_of(cwd, fs)->0).0 == project_at(path::ancestor(cwd, k)),
{
    let n = path::spans(cwd).len() as int;
    lemma_nearest(cwd, has_marker(fs, REPO_ROOT_MARKER@), n);
}

/// A Package lies strictly below its Project's root: its path is relative and not
/// empty, and following it from the root leads to a directory with a package marker, at
/// or above the working directory.
pub proof fn lemma_package_below_root(cwd: Seq<char>, fs: spec_fn(Seq<char>) -> bool)
    requires
        project_of(cwd, fs) is Some,
        (project_of(cwd, fs)->0).1 is Some,
    ensures
        ({
            let root = (project_of(cwd, fs)->0).0.root;
            let package = (project_of(cwd, fs)->0).1->0;
            &&& !path::absolute(package)
            &&& path::components(package).len() > 0
            &&& exists|p: int|
                0 <= p <= path::components(cwd).len() && path::components(root)
                    + path::components(package) == path::components(
                    #[trigger] path::ancestor(cwd, p),
                ) && has_package_marker(fs)(path::ancestor(cwd, p))
        }),
{
    let n = path::spans(cwd).len() as int;
    lemma_nearest(cwd, has_marker(fs, REPO_ROOT_MARKER@), n);
    lemma_nearest(cwd, has_package_marker(fs), n);
    let r = nearest(cwd, has_marker(fs, REPO_ROOT_MARKER@), n)->0;
    let p = nearest(cwd, has_package_marker(fs), n)->0;
    path::lemma_ancestor_components(cwd, r);
    path::lemma_ancestor_components(cwd, p);
    path::lemma_between_components(cwd, r, p);
    let c = path::components(cwd);
    assert(c.take(r) + c.subrange(r, p) =~= c.take(p));
    assert(path::components(path::ancestor(cwd, p)) == path::components(path::ancestor(cwd, r))
        + path::components(path::between(cwd, r, p)));
}

} // verus!
