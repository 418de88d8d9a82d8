//! Paths, and what Project a directory belongs to.
use super::words::occurs;
use crate::domain::project;
use crate::path;
use crate::platform::macos;
use crate::text;
use vstd::prelude::*;

verus! {

/// Where the components of a path stand does not change by what stands behind a slash.
proof fn lemma_spans_before_a_slash(dir: Seq<char>, name: Seq<char>, i: int)
    requires
        0 <= i <= dir.len(),
    ensures
        path::spans_from(dir.push('/') + name, i) == path::spans_from(dir, i) + path::spans_from(
            dir.push('/') + name,
            dir.len() as int + 1,
        ),
    decreases dir.len() - i,
{
    let s = dir.push('/') + name;
    let n = dir.len() as int;
    let f = text::is_char('/');
    if i == n {
        assert(s[i] == '/');
        assert(path::spans_from(dir, i) =~= Seq::empty());
    } else {
        assert(s[i] == dir[i]);
        if s[i] == '/' {
            lemma_spans_before_a_slash(dir, name, i + 1);
        } else {
            text::lemma_first_where(dir, f, i);
            let e = text::first_where(dir, f, i);
            assert forall|j: int| i <= j < e implies !f(#[trigger] s[j]) by {
                assert(s[j] == dir[j]);
            }
            if e < n {
                assert(s[e] == dir[e]);
            }
            text::lemma_first_where_is(s, f, i, e);
            assert(e > i);
            lemma_spans_before_a_slash(dir, name, e);
            assert(seq![(i, e)] + (path::spans_from(dir, e) + path::spans_from(s, n + 1)) =~= (seq![
                (i, e),
            ] + path::spans_from(dir, e)) + path::spans_from(s, n + 1));
        }
    }
}

/// Components are read off where they stand.
proof fn lemma_components_of(s: Seq<char>, t: Seq<char>, v: Seq<(int, int)>)
    requires
        v == path::spans(s),
        t.len() >= s.len(),
        t.take(s.len() as int) == s,
    ensures
        v.map_values(|p: (int, int)| t.subrange(p.0, p.1)) == path::components(s),
{
    path::lemma_spans_from(s, 0);
    let f = |p: (int, int)| t.subrange(p.0, p.1);
    assert forall|k: int| 0 <= k < v.len() implies v.map_values(f)[k] == path::components(s)[k] by {
        let p = path::spans_from(s, 0)[k];
        assert(0 <= p.0 < p.1 <= s.len());
        assert(t.subrange(p.0, p.1) =~= s.subrange(p.0, p.1)) by {
            assert forall|j: int| p.0 <= j < p.1 implies t[j] == s[j] by {
                assert(t.take(s.len() as int)[j] == t[j]);
            }
        }
    }
    assert(v.map_values(f) =~= path::components(s));
}

/// The components of a path: a slash and a name behind a path add that name to them; a
/// slash alone, or a slash and a dot, add nothing; a name alone is one component, and
/// nothing is none.
#[verifier::rlimit(60)]
pub proof fn lemma_components(dir: Seq<char>, name: Seq<char>)
    requires
        name.len() > 0,
        !name.contains('/'),
    ensures
        name != seq!['.'] ==> path::components(dir.push('/') + name) == path::components(dir).push(
            name,
        ),
        path::components(dir.push('/')) == path::components(dir),
        path::components(dir.push('/').push('.')) == path::components(dir),
        path::components(name) == seq![name],
        path::components(Seq::empty()) == Seq::<Seq<char>>::empty(),
{
    let f = text::is_char('/');
    let s = dir.push('/') + name;
    let n = dir.len() as int;
    assert forall|j: int| 0 <= j < name.len() implies #[trigger] name[j] != '/' by {
        if name[j] == '/' {
            assert(name.contains('/'));
        }
    }
    // A name behind a slash.
    lemma_spans_before_a_slash(dir, name, 0);
    assert forall|j: int| n + 1 <= j < s.len() implies !f(#[trigger] s[j]) by {
        assert(s[j] == name[j - n - 1]);
    }
    text::lemma_first_where_is(s, f, n + 1, s.len() as int);
    assert(s[n + 1] == name[0]);
    assert(s.take(n) =~= dir);
    lemma_components_of(dir, s, path::spans(dir));
    if name != seq!['.'] {
        if s.len() == n + 2 && name[0] == '.' {
            assert(name =~= seq!['.']);
        }
        assert(path::spans_from(s, s.len() as int) =~= Seq::empty());
        assert(path::spans_from(s, n + 1) =~= seq![(n + 1, s.len() as int)]);
        assert(path::spans(s) =~= path::spans(dir).push((n + 1, s.len() as int)));
        assert(s.subrange(n + 1, s.len() as int) =~= name);
        let g = |p: (int, int)| s.subrange(p.0, p.1);
        assert(path::spans(s).map_values(g) =~= path::spans(dir).map_values(g).push(name));
    }
    // A slash alone.
    let empty = Seq::<char>::empty();
    let t = dir.push('/');
    assert(t + empty =~= t);
    lemma_spans_before_a_slash(dir, empty, 0);
    assert(path::spans_from(t, n + 1) =~= Seq::empty());
    assert(path::spans(t) =~= path::spans(dir));
    assert(t.take(n) =~= dir);
    lemma_components_of(dir, t, path::spans(dir));
    // A slash and a dot.
    let u = dir.push('/').push('.');
    assert(u =~= t + seq!['.']);
    lemma_spans_before_a_slash(dir, seq!['.'], 0);
    text::lemma_first_where_is(u, f, n + 1, u.len() as int);
    assert(u[n + 1] == '.');
    assert(path::spans_from(u, u.len() as int) =~= Seq::empty());
    assert(path::spans_from(u, n + 1) =~= Seq::empty());
    assert(path::spans(u) =~= path::spans(dir));
    assert(u.take(n) =~= dir);
    lemma_components_of(dir, u, path::spans(dir));
    // A name alone.
    assert forall|j: int| 0 <= j < name.len() implies !f(#[trigger] name[j]) by {
        assert(name[j] != '/');
    }
    text::lemma_first_where_is(name, f, 0, name.len() as int);
    assert(name[0] != '/');
    assert(path::spans_from(name, name.len() as int) =~= Seq::empty());
    assert(path::spans(name) =~= seq![(0int, name.len() as int)]);
    assert(name.subrange(0, name.len() as int) =~= name);
    assert(path::components(name) =~= seq![name]);
    assert(path::components(empty) =~= Seq::empty());
}

/// Joining a name to a directory adds it to its components, and leaves it as absolute as
/// it was.
pub proof fn lemma_joining(dir: Seq<char>, name: Seq<char>)
    requires
        name.len() > 0,
        !name.contains('/'),
        name != seq!['.'],
    ensures
        path::components(path::joined(dir, name)) == path::components(dir).push(name),
        dir.len() > 0 ==> path::absolute(path::joined(dir, name)) == path::absolute(dir),
        dir.len() == 0 ==> path::joined(dir, name) == name,
        name != seq!['.', '.'] ==> path::file_name_of(path::joined(dir, name)) == Some(name),
{
    lemma_components(dir, name);
    if dir.len() > 0 && dir.last() == '/' {
        let d = dir.drop_last();
        assert(dir =~= d.push('/'));
        lemma_components(d, name);
    } else if dir.len() == 0 {
        assert(dir + name =~= name);
        assert(path::components(dir) =~= Seq::empty());
        assert(seq![name] =~= path::components(dir).push(name));
    }
    let all = path::components(path::joined(dir, name));
    assert(all.last() == name);
}

/// The name of a path is its last component, but for one that names its parent or nothing.
pub proof fn lemma_name_of_a_path(s: Seq<char>)
    ensures
        path::components(s).len() == 0 ==> path::file_name_of(s) is None,
        path::components(s).len() > 0 && path::components(s).last() != seq!['.', '.']
            && path::components(s).last() != seq!['.'] ==> path::file_name_of(s) == Some(
            path::components(s).last(),
        ),
        path::components(s).len() > 0 && (path::components(s).last() == seq!['.', '.']
            || path::components(s).last() == seq!['.']) ==> path::file_name_of(s) is None,
{
}

/// The directories above a path: each has one component less than the next, the last is
/// the path itself, and each is a beginning of it.
pub proof fn lemma_directories_above(s: Seq<char>, k: int)
    requires
        0 <= k <= path::components(s).len(),
    ensures
        path::components(path::ancestor(s, k)) == path::components(s).take(k),
        path::ancestor(s, path::components(s).len() as int) == s,
        occurs(s, path::ancestor(s, k), 0),
        path::absolute(path::ancestor(s, k)) == path::absolute(s),
{
    reveal(occurs);
    path::lemma_ancestor_components(s, k);
    path::lemma_spans_from(s, 0);
    let a = path::ancestor(s, k);
    if k > 0 && k < path::spans(s).len() {
        let p = path::spans_from(s, 0)[k - 1];
        assert(0 <= p.0 < p.1 <= s.len());
    }
}

/// A path is its components, and whether it begins at the root.
pub proof fn lemma_same_paths(a: Seq<char>, b: Seq<char>)
    ensures
        path::same_path(a, b) <==> path::absolute(a) == path::absolute(b) && path::components(a)
            == path::components(b),
{
    path::lemma_spans_from(a, 0);
    path::lemma_spans_from(b, 0);
    let x = path::parts(a);
    let y = path::parts(b);
    if path::parts(a) == path::parts(b) {
        if path::absolute(a) {
            assert(x[0] == seq!['/']);
            if !path::absolute(b) {
                lemma_no_component_is_a_slash(b, 0);
            }
            assert(x.skip(1) =~= path::components(a));
            assert(y.skip(1) =~= path::components(b));
        } else if path::absolute(b) {
            assert(y[0] == seq!['/']);
            lemma_no_component_is_a_slash(a, 0);
        }
    }
}

/// No component is a slash.
proof fn lemma_no_component_is_a_slash(s: Seq<char>, k: int)
    requires
        0 <= k < path::components(s).len(),
    ensures
        path::components(s)[k] != seq!['/'],
{
    path::lemma_spans_from(s, 0);
    let p = path::spans_from(s, 0)[k];
    assert(path::components(s)[k] == s.subrange(p.0, p.1));
    assert(s[p.0] != '/');
    assert(s.subrange(p.0, p.1)[0] == s[p.0]);
}

/// Paths stand in the order of their first different component, and a directory before
/// what it holds.
pub proof fn lemma_order_of_paths(
    c: Seq<Seq<char>>,
    x: Seq<char>,
    a: Seq<Seq<char>>,
    y: Seq<char>,
    b: Seq<Seq<char>>,
)
    ensures
        path::parts_before(c, c.push(x) + a),
        x != y ==> (path::parts_before(c.push(x) + a, c.push(y) + b) <==> path::part_before(x, y)),
    decreases c.len(),
{
    let s = c.push(x) + a;
    let t = c.push(y) + b;
    if c.len() > 0 {
        let d = c.skip(1);
        lemma_order_of_paths(d, x, a, y, b);
        assert(s.skip(1) =~= d.push(x) + a);
        assert(t.skip(1) =~= d.push(y) + b);
        assert(s[0] == c[0] && t[0] == c[0]);
    } else {
        assert(s[0] == x && t[0] == y);
    }
}

/// Among components the root comes first, then a dot, then two dots, then names in their
/// order.
pub proof fn lemma_order_of_components(x: Seq<char>, y: Seq<char>)
    requires
        x != seq!['/'] && x != seq!['.'] && x != seq!['.', '.'],
        y != seq!['/'] && y != seq!['.'] && y != seq!['.', '.'],
    ensures
        path::part_before(seq!['/'], seq!['.']),
        path::part_before(seq!['.'], seq!['.', '.']),
        path::part_before(seq!['.', '.'], x),
        path::part_before(x, y) <==> text::before(x, y),
{
    let dots = seq!['.', '.'];
    assert(dots.len() == 2);
    assert(seq!['/'][0] == '/' && seq!['.'][0] == '.');
}

// ---------------------------------------------------------------------------------
// Projects.
// ---------------------------------------------------------------------------------

/// Whether a directory holds the mark of a repository.
pub open spec fn is_repository(fs: spec_fn(Seq<char>) -> bool, dir: Seq<char>) -> bool {
    fs(path::joined(dir, ".git"@))
}

/// Whether a directory holds one of the marks of a package.
pub open spec fn is_package(fs: spec_fn(Seq<char>) -> bool, dir: Seq<char>) -> bool {
    fs(path::joined(dir, "package.json"@)) || fs(path::joined(dir, "go.mod"@)) || fs(
        path::joined(dir, "Cargo.toml"@),
    ) || fs(path::joined(dir, "pyproject.toml"@))
}

/// Whether a directory above a path, or the path itself, is the nearest with a mark.
pub open spec fn is_nearest_repository(cwd: Seq<char>, fs: spec_fn(Seq<char>) -> bool, k: int) -> bool {
    &&& 0 <= k <= path::components(cwd).len()
    &&& is_repository(fs, path::ancestor(cwd, k))
    &&& forall|j: int|
        k < j <= path::components(cwd).len() ==> !is_repository(
            fs,
            #[trigger] path::ancestor(cwd, j),
        )
}

/// Whether a directory above a path, or the path itself, is the nearest with the mark of a
/// package.
pub open spec fn is_nearest_package(cwd: Seq<char>, fs: spec_fn(Seq<char>) -> bool, k: int) -> bool {
    &&& 0 <= k <= path::components(cwd).len()
    &&& is_package(fs, path::ancestor(cwd, k))
    &&& forall|j: int|
        k < j <= path::components(cwd).len() ==> !is_package(fs, #[trigger] path::ancestor(cwd, j))
}

/// The nearest is the one that no later one comes behind.
proof fn lemma_nearest_is(cwd: Seq<char>, test: spec_fn(Seq<char>) -> bool, n: int, k: int)
    requires
        -1 <= k <= n,
        k >= 0 ==> test(path::ancestor(cwd, k)),
        forall|j: int| k < j <= n && 0 <= j ==> !test(#[trigger] path::ancestor(cwd, j)),
    ensures
        project::nearest(cwd, test, n) == (if k >= 0 {
            Some(k)
        } else {
            None
        }),
    decreases n - k,
{
    if k < n {
        assert(!test(path::ancestor(cwd, n)));
        lemma_nearest_is(cwd, test, n - 1, k);
    }
}

/// A directory belongs to the Project of the nearest repository above it; of a package
/// inside that, where there is one, only its way from the root is told. Where there is no
/// repository, the nearest package is the Project; and where there is none either, there
/// is no Project. A Project is called by the last component of its root.
#[verifier::rlimit(60)]
pub proof fn lemma_project_of_a_directory(
    cwd: Seq<char>,
    fs: spec_fn(Seq<char>) -> bool,
    r: int,
    p: int,
)
    ensures
        ({
            let n = path::components(cwd).len() as int;
            let root = path::ancestor(cwd, r);
            let found = project::project_of(cwd, fs);
            let no_repository = forall|j: int|
                0 <= j <= n ==> !is_repository(fs, #[trigger] path::ancestor(cwd, j));
            let no_package = forall|j: int|
                0 <= j <= n ==> !is_package(fs, #[trigger] path::ancestor(cwd, j));
            &&& is_nearest_repository(cwd, fs, r) && is_nearest_package(cwd, fs, p) && p > r ==> found
                == Some((project::project_at(root), Some(path::between(cwd, r, p))))
            &&& is_nearest_repository(cwd, fs, r) && is_nearest_package(cwd, fs, p) && p <= r
                ==> found == Some((project::project_at(root), None::<Seq<char>>))
            &&& is_nearest_repository(cwd, fs, r) && no_package ==> found == Some(
                (project::project_at(root), None::<Seq<char>>),
            )
            &&& no_repository && is_nearest_package(cwd, fs, p) ==> found == Some(
                (project::project_at(path::ancestor(cwd, p)), None::<Seq<char>>),
            )
            &&& no_repository && no_package ==> found is None
        }),
{
    let n = path::spans(cwd).len() as int;
    assert(path::components(cwd).len() == n);
    let f = project::has_marker(fs, project::REPO_ROOT_MARKER@);
    let g = project::has_package_marker(fs);
    if is_nearest_repository(cwd, fs, r) {
        lemma_nearest_is(cwd, f, n, r);
    }
    if is_nearest_package(cwd, fs, p) {
        lemma_nearest_is(cwd, g, n, p);
    }
    if forall|j: int| 0 <= j <= n ==> !is_repository(fs, #[trigger] path::ancestor(cwd, j)) {
        lemma_nearest_is(cwd, f, n, -1);
    }
    if forall|j: int| 0 <= j <= n ==> !is_package(fs, #[trigger] path::ancestor(cwd, j)) {
        lemma_nearest_is(cwd, g, n, -1);
    }
}

/// A Project is its root and the last component of it.
pub proof fn lemma_project_at_a_root(root: Seq<char>)
    ensures
        project::project_at(root).root == root,
        path::components(root).len() > 0 && path::components(root).last() != seq!['.', '.']
            && path::components(root).last() != seq!['.'] ==> project::project_at(root).name
            == path::components(root).last(),
        path::components(root).len() == 0 ==> project::project_at(root).name == Seq::<char>::empty(),
{
}

// ---------------------------------------------------------------------------------
// Applications.
// ---------------------------------------------------------------------------------

/// A program is in the application that the first directory on its way is, by its name
/// without the ending; where no directory is one, it is in none.
#[verifier::rlimit(60)]
pub proof fn lemma_application_of_a_program(
    exe: Seq<char>,
    before: Seq<Seq<char>>,
    name: Seq<char>,
    after: Seq<Seq<char>>,
)
    requires
        forall|i: int|
            0 <= i < before.len() ==> !occurs(
                #[trigger] before[i],
                ".app"@,
                before[i].len() - ".app"@.len(),
            ),
    ensures
        path::components(exe) == before + seq![name + ".app"@] + after ==> macos::outermost_app(exe)
            == Some(name),
        path::components(exe) == before ==> macos::outermost_app(exe) is None,
{
    reveal(occurs);
    let c = path::components(exe);
    macos::lemma_first_bundle(c);
    assert forall|i: int| 0 <= i < before.len() implies !text::has_suffix(
        #[trigger] before[i],
        ".app"@,
    ) by {
        let s = before[i];
        let p = ".app"@;
        if text::has_suffix(s, p) {
            let m = s.len() - p.len();
            assert forall|k: int| 0 <= k < p.len() implies #[trigger] p[k] == s[m + k] by {
                assert(s.skip(m)[k] == s[m + k]);
            }
            assert(occurs(s, p, m));
        }
    }
    if c == before + seq![name + ".app"@] + after {
        let k = before.len() as int;
        let full = name + ".app"@;
        assert(c[k] == full);
        assert(full.skip(full.len() - ".app"@.len()) =~= ".app"@);
        assert(text::has_suffix(c[k], ".app"@));
        assert(full.take(full.len() - ".app"@.len()) =~= name);
        match macos::first_bundle(c) {
            Some(found) => {
                let i = choose|i: int|
                    0 <= i < c.len() && text::has_suffix(#[trigger] c[i], ".app"@) && found
                        == c[i].take(c[i].len() - ".app"@.len()) && (forall|j: int|
                        0 <= j < i ==> !text::has_suffix(#[trigger] c[j], ".app"@));
                if i < k {
                    assert(c[i] == before[i]);
                }
                assert(i == k);
            },
            None => {},
        }
    }
    if c == before {
        match macos::first_bundle(c) {
            Some(found) => {
                let i = choose|i: int|
                    0 <= i < c.len() && text::has_suffix(#[trigger] c[i], ".app"@) && found
                        == c[i].take(c[i].len() - ".app"@.len()) && (forall|j: int|
                        0 <= j < i ==> !text::has_suffix(#[trigger] c[j], ".app"@));
                assert(c[i] == before[i]);
            },
            None => {},
        }
    }
}

/// A path begins at the root where its first character is a slash; then its parts are the
/// root and its components.
pub proof fn lemma_absolute_paths(s: Seq<char>)
    ensures
        path::absolute(seq!['/'] + s),
        s.len() > 0 && s[0] != '/' ==> !path::absolute(s),
        !path::absolute(Seq::empty()),
        path::absolute(s) ==> path::parts(s) == seq![seq!['/']] + path::components(s),
        !path::absolute(s) ==> path::parts(s) == path::components(s),
{
    assert((seq!['/'] + s)[0] == '/');
}

} // verus!
