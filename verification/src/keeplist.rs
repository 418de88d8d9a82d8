//! The Keep Running marks: the one thing the application remembers across restarts.
//!
//! A mark is made of a project root and a command, never of a process number, which a
//! restarted Server gets a new one of. Reading and writing the file is left to the
//! application; what it reads it hands to [`Keeplist::from_marks`], and what it writes
//! is [`Keeplist::marks`].
use crate::path;
use crate::text;
use vstd::prelude::*;

verus! {

/// The file that the marks are kept in.
pub const FILE_NAME: &'static str = "keeplist.json";

/// One mark: the project root and the command that were marked.
#[derive(Debug, PartialEq, Eq)]
pub struct KeepMark {
    pub project_root: String,
    pub command: String,
}

/// What tells a mark apart: the path that its root names, however that is spelled, and
/// its command.
pub type MarkKey = (Seq<Seq<char>>, Seq<char>);

/// What tells the mark for a root and a command apart.
pub open spec fn key_for(project_root: Seq<char>, command: Seq<char>) -> MarkKey {
    (path::parts(project_root), command)
}

impl KeepMark {
    /// What tells this mark apart.
    pub open spec fn key(self) -> MarkKey {
        key_for(self.project_root@, self.command@)
    }
}

impl Clone for KeepMark {
    fn clone(&self) -> (r: KeepMark)
        ensures
            r.project_root@ == self.project_root@,
            r.command@ == self.command@,
    {
        KeepMark { project_root: self.project_root.clone(), command: self.command.clone() }
    }
}

/// What tells each mark of a list apart.
pub open spec fn keys(marks: Seq<KeepMark>) -> Seq<MarkKey> {
    marks.map_values(|m: KeepMark| m.key())
}

/// The order of marks: by path, then by command.
pub open spec fn key_before(a: MarkKey, b: MarkKey) -> bool {
    path::parts_before(a.0, b.0) || (a.0 == b.0 && text::before(a.1, b.1))
}

/// Whether each key stands before all that follow it, so that none occurs twice.
pub open spec fn ordered(k: Seq<MarkKey>) -> bool {
    forall|i: int, j: int| 0 <= i < j < k.len() ==> key_before(#[trigger] k[i], #[trigger] k[j])
}

/// Of two different keys exactly one stands before the other, and none before itself.
pub proof fn lemma_key_order(a: MarkKey, b: MarkKey)
    ensures
        key_before(a, b) || key_before(b, a) || a == b,
        !(key_before(a, b) && key_before(b, a)),
        !key_before(a, a),
{
    path::lemma_parts_before_total(a.0, b.0);
    path::lemma_parts_before_irreflexive(a.0);
    text::lemma_before_total(a.1, b.1);
    text::lemma_before_irreflexive(a.1);
    if a.0 == b.0 {
        path::lemma_parts_before_irreflexive(b.0);
    }
}

/// The order of keys is transitive.
pub proof fn lemma_key_before_transitive(a: MarkKey, b: MarkKey, c: MarkKey)
    requires
        key_before(a, b),
        key_before(b, c),
    ensures
        key_before(a, c),
{
    if path::parts_before(a.0, b.0) && path::parts_before(b.0, c.0) {
        path::lemma_parts_before_transitive(a.0, b.0, c.0);
    } else if a.0 == b.0 && b.0 == c.0 {
        text::lemma_before_transitive(a.1, b.1, c.1);
    }
}

/// Whether the mark `m` stands before the mark for a root and a command.
fn stands_before(m: &KeepMark, project_root: &str, command: &str) -> (r: bool)
    ensures
        r == key_before(m.key(), key_for(project_root@, command@)),
{
    path::is_path_before(m.project_root.as_str(), project_root) || (path::is_same_path(
        m.project_root.as_str(),
        project_root,
    ) && text::is_before(m.command.as_str(), command))
}

/// The marks after setting or clearing one.
pub open spec fn after_set(marks: Set<MarkKey>, key: MarkKey, keep: bool) -> Set<MarkKey> {
    if keep {
        marks.insert(key)
    } else {
        marks.remove(key)
    }
}

/// How the roots of marks are spelled, by mark. Of two spellings of one mark the first
/// counts.
pub type Spellings = Map<MarkKey, Seq<char>>;

/// How the roots are spelled after setting or clearing the mark for a root and a command.
/// A mark that is there already keeps its spelling.
pub open spec fn spellings_after(
    spellings: Spellings,
    project_root: Seq<char>,
    command: Seq<char>,
    keep: bool,
) -> Spellings {
    let key = key_for(project_root, command);
    if !keep {
        spellings.remove(key)
    } else if spellings.contains_key(key) {
        spellings
    } else {
        spellings.insert(key, project_root)
    }
}

/// How the roots of a list of marks are spelled.
pub open spec fn spellings_of(marks: Seq<KeepMark>) -> Spellings
    decreases marks.len(),
{
    if marks.len() == 0 {
        Map::empty()
    } else {
        spellings_after(
            spellings_of(marks.drop_last()),
            marks.last().project_root@,
            marks.last().command@,
            true,
        )
    }
}

/// The marks in memory, each once and in order.
#[derive(Debug)]
pub struct Keeplist {
    marks: Vec<KeepMark>,
}

impl View for Keeplist {
    type V = Set<MarkKey>;

    closed spec fn view(&self) -> Set<MarkKey> {
        keys(self.marks@).to_set()
    }
}

impl Default for Keeplist {
    fn default() -> (r: Keeplist)
        ensures
            r@ == Set::<MarkKey>::empty(),
            r.spellings() == Spellings::empty(),
    {
        let r = Keeplist { marks: Vec::new() };
        proof {
            assert(r@ =~= Set::<MarkKey>::empty());
        }
        r
    }
}

impl Keeplist {
    #[verifier::type_invariant]
    spec fn well_formed(self) -> bool {
        ordered(keys(self.marks@))
    }

    /// How the roots of the marks are spelled.
    pub closed spec fn spellings(&self) -> Spellings {
        spellings_of(self.marks@)
    }

    /// The marks, in order, each as it was first given.
    pub fn marks(&self) -> (r: &Vec<KeepMark>)
        ensures
            keys(r@).to_set() == self@,
            ordered(keys(r@)),
            spellings_of(r@) == self.spellings(),
            self.spellings().dom() == self@,
            forall|i: int|
                0 <= i < r@.len() ==> self.spellings()[(#[trigger] r@[i]).key()]
                    == r@[i].project_root@,
    {
        proof {
            use_type_invariant(self);
            lemma_spellings(self.marks@);
        }
        &self.marks
    }

    /// Where the mark for a root and a command stands, or would stand.
    fn position(&self, project_root: &str, command: &str) -> (r: usize)
        ensures
            r <= self.marks@.len(),
            forall|i: int|
                0 <= i < r ==> key_before(
                    #[trigger] keys(self.marks@)[i],
                    key_for(project_root@, command@),
                ),
            r < self.marks@.len() ==> !key_before(
                keys(self.marks@)[r as int],
                key_for(project_root@, command@),
            ),
    {
        let mut i: usize = 0;
        while i < self.marks.len()
            invariant
                0 <= i <= self.marks@.len(),
                forall|k: int|
                    0 <= k < i ==> key_before(
                        #[trigger] keys(self.marks@)[k],
                        key_for(project_root@, command@),
                    ),
            decreases self.marks@.len() - i,
        {
            proof {
                assert(keys(self.marks@)[i as int] == self.marks@[i as int].key());
            }
            if !stands_before(&self.marks[i], project_root, command) {
                return i;
            }
            i = i + 1;
        }
        i
    }

    /// Whether the mark for a root and a command is the one at `at`.
    fn is_at(&self, at: usize, project_root: &str, command: &str) -> (r: bool)
        ensures
            r == (at < self.marks@.len() && keys(self.marks@)[at as int] == key_for(
                project_root@,
                command@,
            )),
    {
        if at < self.marks.len() {
            let m = &self.marks[at];
            proof {
                assert(keys(self.marks@)[at as int] == m.key());
            }
            path::is_same_path(m.project_root.as_str(), project_root) && text::same(
                m.command.as_str(),
                command,
            )
        } else {
            false
        }
    }

    /// Whether the Server with this project root and command is marked.
    pub fn is_marked(&self, project_root: &str, command: &str) -> (r: bool)
        ensures
            r == self@.contains(key_for(project_root@, command@)),
    {
        let at: usize = self.position(project_root, command);
        let r = self.is_at(at, project_root, command);
        proof {
            use_type_invariant(self);
            lemma_found(keys(self.marks@), key_for(project_root@, command@), at as int);
        }
        r
    }

    /// Set or clear the mark for a root and a command. Marking what is marked, or
    /// clearing what is not, changes nothing: a mark stays as it was first given.
    pub fn set(&mut self, project_root: &str, command: &str, keep: bool)
        ensures
            final(self)@ == after_set(old(self)@, key_for(project_root@, command@), keep),
            final(self).spellings() == spellings_after(
                old(self).spellings(),
                project_root@,
                command@,
                keep,
            ),
    {
        let ghost key = key_for(project_root@, command@);
        let at: usize = self.position(project_root, command);
        let there = self.is_at(at, project_root, command);
        let ghost before = keys(self.marks@);
        proof {
            use_type_invariant(&*self);
            lemma_found(before, key, at as int);
            lemma_spellings(self.marks@);
        }
        if keep && !there {
            let mark = KeepMark { project_root: project_root.to_owned(), command: command.to_owned() };
            let mut marks: Vec<KeepMark> = Vec::new();
            std::mem::swap(&mut marks, &mut self.marks);
            marks.insert(at, mark);
            proof {
                assert(keys(marks@) =~= before.insert(at as int, key));
                lemma_inserted(before, key, at as int);
                lemma_spellings_inserted(old(self).marks@, marks@[at as int], at as int);
                assert(marks@ =~= old(self).marks@.insert(at as int, marks@[at as int]));
            }
            self.marks = marks;
        } else if !keep && there {
            let mut marks: Vec<KeepMark> = Vec::new();
            std::mem::swap(&mut marks, &mut self.marks);
            marks.remove(at);
            proof {
                assert(keys(marks@) =~= before.remove(at as int));
                lemma_removed(before, at as int);
                lemma_spellings_removed(old(self).marks@, at as int);
                assert(marks@ =~= old(self).marks@.remove(at as int));
            }
            self.marks = marks;
        } else {
            proof {
                assert(keep ==> self@ =~= self@.insert(key));
                assert(!keep ==> self@ =~= self@.remove(key));
                assert(!keep ==> self.spellings() =~= self.spellings().remove(key));
            }
        }
    }

    /// The list that a start finds: that of the marks read from the file, or an empty
    /// one where there was no file or it could not be read. Losing marks is an
    /// inconvenience, not a reason to fail.
    pub fn load(found: Option<Vec<KeepMark>>) -> (r: Keeplist)
        ensures
            match found {
                Some(marks) => r@ == keys(marks@).to_set() && r.spellings() == spellings_of(
                    marks@,
                ),
                None => r@ == Set::<MarkKey>::empty() && r.spellings() == Spellings::empty(),
            },
    {
        match found {
            Some(marks) => Keeplist::from_marks(&marks),
            None => Keeplist::default(),
        }
    }

    /// The marks of a list, each once and in order. Of two spellings of one mark the first
    /// is kept.
    pub fn from_marks(loaded: &Vec<KeepMark>) -> (r: Keeplist)
        ensures
            r@ == keys(loaded@).to_set(),
            r.spellings() == spellings_of(loaded@),
    {
        let mut r = Keeplist::default();
        let mut i: usize = 0;
        let ghost all = keys(loaded@);
        proof {
            assert(all.take(0).to_set() =~= Set::<MarkKey>::empty());
            assert(loaded@.take(0) =~= Seq::<KeepMark>::empty());
        }
        while i < loaded.len()
            invariant
                0 <= i <= loaded@.len(),
                all == keys(loaded@),
                r@ == all.take(i as int).to_set(),
                r.spellings() == spellings_of(loaded@.take(i as int)),
            decreases loaded@.len() - i,
        {
            let m = &loaded[i];
            r.set(m.project_root.as_str(), m.command.as_str(), true);
            i = i + 1;
            proof {
                assert(all.take(i as int) =~= all.take(i - 1).push(m.key()));
                lemma_to_set_push(all.take(i - 1), m.key());
                assert(loaded@.take(i as int).drop_last() =~= loaded@.take(i - 1));
                assert(loaded@.take(i as int).last() == *m);
            }
        }
        proof {
            assert(loaded@.take(i as int) =~= loaded@);
            assert(all.take(i as int) =~= all);
        }
        r
    }
}

/// What a list holds after something was added at its end.
proof fn lemma_to_set_push(s: Seq<MarkKey>, k: MarkKey)
    ensures
        s.push(k).to_set() == s.to_set().insert(k),
{
    let t = s.push(k);
    assert forall|x: MarkKey| t.to_set().contains(x) <==> s.to_set().insert(k).contains(x) by {
        if s.contains(x) {
            let i = choose|i: int| 0 <= i < s.len() && s[i] == x;
            assert(t[i] == x);
        }
        assert(t[s.len() as int] == k);
    }
    assert(t.to_set() =~= s.to_set().insert(k));
}

/// In an ordered list a key stands at its place or nowhere.
proof fn lemma_found(k: Seq<MarkKey>, key: MarkKey, at: int)
    requires
        ordered(k),
        0 <= at <= k.len(),
        forall|i: int| 0 <= i < at ==> key_before(#[trigger] k[i], key),
        at < k.len() ==> !key_before(k[at], key),
    ensures
        k.to_set().contains(key) == (at < k.len() && k[at] == key),
        at < k.len() && k[at] != key ==> key_before(key, k[at]),
{
    if at < k.len() {
        lemma_key_order(k[at], key);
        if k[at] == key {
            assert(k.contains(key));
        }
    }
    if k.contains(key) {
        let i = choose|i: int| 0 <= i < k.len() && k[i] == key;
        lemma_key_order(key, key);
        if i < at {
            assert(key_before(k[i], key));
        } else if i > at {
            assert(key_before(k[at], k[i]));
        }
    }
}

/// Adding a key at its place keeps the order.
proof fn lemma_inserted(k: Seq<MarkKey>, key: MarkKey, at: int)
    requires
        ordered(k),
        0 <= at <= k.len(),
        forall|i: int| 0 <= i < at ==> key_before(#[trigger] k[i], key),
        at < k.len() ==> key_before(key, k[at]),
    ensures
        ordered(k.insert(at, key)),
        k.insert(at, key).to_set() == k.to_set().insert(key),
{
    let t = k.insert(at, key);
    assert forall|i: int, j: int| 0 <= i < j < t.len() implies key_before(
        #[trigger] t[i],
        #[trigger] t[j],
    ) by {
        if j < at {
            assert(key_before(k[i], k[j]));
        } else if j == at {
            assert(key_before(k[i], key));
        } else if i < at {
            assert(key_before(k[i], k[j - 1]));
        } else if i == at {
            if j - 1 > at {
                assert(key_before(k[at], k[j - 1]));
                lemma_key_before_transitive(key, k[at], k[j - 1]);
            }
        } else {
            assert(key_before(k[i - 1], k[j - 1]));
        }
    }
    assert forall|x: MarkKey| t.to_set().contains(x) <==> k.to_set().insert(key).contains(x) by {
        assert(t[at] == key);
        if k.contains(x) {
            let i = choose|i: int| 0 <= i < k.len() && k[i] == x;
            if i < at {
                assert(t[i] == x);
            } else {
                assert(t[i + 1] == x);
            }
        }
        if t.contains(x) && x != key {
            let i = choose|i: int| 0 <= i < t.len() && t[i] == x;
            if i < at {
                assert(k[i] == x);
            } else {
                assert(k[i - 1] == x);
            }
        }
    }
    assert(t.to_set() =~= k.to_set().insert(key));
}

/// Taking a key out keeps the order of the others.
proof fn lemma_removed(k: Seq<MarkKey>, at: int)
    requires
        ordered(k),
        0 <= at < k.len(),
    ensures
        ordered(k.remove(at)),
        k.remove(at).to_set() == k.to_set().remove(k[at]),
{
    let t = k.remove(at);
    assert forall|i: int, j: int| 0 <= i < j < t.len() implies key_before(
        #[trigger] t[i],
        #[trigger] t[j],
    ) by {
        let a = if i < at {
            i
        } else {
            i + 1
        };
        let b = if j < at {
            j
        } else {
            j + 1
        };
        assert(t[i] == k[a] && t[j] == k[b]);
    }
    assert forall|x: MarkKey| t.to_set().contains(x) <==> k.to_set().remove(k[at]).contains(x) by {
        if t.contains(x) {
            let i = choose|i: int| 0 <= i < t.len() && t[i] == x;
            let a = if i < at {
                i
            } else {
                i + 1
            };
            assert(k[a] == x);
            lemma_key_order(x, x);
            if x == k[at] {
                if a < at {
                    assert(key_before(k[a], k[at]));
                } else {
                    assert(key_before(k[at], k[a]));
                }
            }
        }
        if k.contains(x) && x != k[at] {
            let i = choose|i: int| 0 <= i < k.len() && k[i] == x;
            if i < at {
                assert(t[i] == x);
            } else {
                assert(t[i - 1] == x);
            }
        }
    }
    assert(t.to_set() =~= k.to_set().remove(k[at]));
}

/// Where no mark occurs twice, each is spelled as it stands in the list.
pub proof fn lemma_spellings(marks: Seq<KeepMark>)
    requires
        ordered(keys(marks)),
    ensures
        spellings_of(marks).dom() == keys(marks).to_set(),
        forall|i: int|
            0 <= i < marks.len() ==> spellings_of(marks)[(#[trigger] marks[i]).key()]
                == marks[i].project_root@,
    decreases marks.len(),
{
    let k = keys(marks);
    if marks.len() == 0 {
        assert(spellings_of(marks).dom() =~= k.to_set());
    } else {
        let n = marks.len() - 1;
        let front = marks.drop_last();
        let last = marks.last();
        assert(keys(front) =~= k.take(n));
        assert(ordered(keys(front))) by {
            assert forall|i: int, j: int| 0 <= i < j < front.len() implies key_before(
                #[trigger] keys(front)[i],
                #[trigger] keys(front)[j],
            ) by {
                assert(key_before(k[i], k[j]));
            }
        }
        lemma_spellings(front);
        assert(!keys(front).contains(last.key())) by {
            if keys(front).contains(last.key()) {
                let i = choose|i: int| 0 <= i < keys(front).len() && keys(front)[i] == last.key();
                assert(key_before(k[i], k[n]));
                lemma_key_order(last.key(), last.key());
            }
        }
        assert(k =~= keys(front).push(last.key()));
        lemma_to_set_push(keys(front), last.key());
        assert forall|i: int| 0 <= i < marks.len() implies spellings_of(marks)[(
        #[trigger] marks[i]).key()] == marks[i].project_root@ by {
            if i < n {
                assert(front[i] == marks[i]);
                assert(keys(front)[i] == front[i].key());
            }
        }
    }
}

/// A mark that is put in is spelled as it was given, and the others stay as they were.
proof fn lemma_spellings_inserted(marks: Seq<KeepMark>, mark: KeepMark, at: int)
    requires
        0 <= at <= marks.len(),
        ordered(keys(marks)),
        ordered(keys(marks.insert(at, mark))),
        !keys(marks).contains(mark.key()),
    ensures
        spellings_of(marks.insert(at, mark)) == spellings_of(marks).insert(
            mark.key(),
            mark.project_root@,
        ),
{
    let t = marks.insert(at, mark);
    let a = spellings_of(t);
    let b = spellings_of(marks).insert(mark.key(), mark.project_root@);
    lemma_spellings(marks);
    lemma_spellings(t);
    assert(t[at] == mark);
    assert(keys(t)[at] == mark.key());
    assert forall|x: MarkKey| #[trigger] a.dom().contains(x) implies b.dom().contains(x) && a[x]
        == b[x] by {
        assert(keys(t).contains(x));
        let i = choose|i: int| 0 <= i < keys(t).len() && keys(t)[i] == x;
        assert(t[i].key() == x);
        if i != at {
            let j = if i < at {
                i
            } else {
                i - 1
            };
            assert(marks[j] == t[i]);
            assert(keys(marks)[j] == x);
        }
    }
    assert forall|x: MarkKey| #[trigger] b.dom().contains(x) implies a.dom().contains(x) by {
        if x != mark.key() {
            assert(keys(marks).contains(x));
            let j = choose|j: int| 0 <= j < keys(marks).len() && keys(marks)[j] == x;
            let i = if j < at {
                j
            } else {
                j + 1
            };
            assert(t[i] == marks[j]);
            assert(keys(t)[i] == x);
        }
    }
    assert(a.dom() =~= b.dom());
    assert(a =~= b);
}

/// Taking a mark out leaves the others spelled as they were.
proof fn lemma_spellings_removed(marks: Seq<KeepMark>, at: int)
    requires
        0 <= at < marks.len(),
        ordered(keys(marks)),
    ensures
        spellings_of(marks.remove(at)) == spellings_of(marks).remove(marks[at].key()),
{
    let t = marks.remove(at);
    let k = keys(marks);
    assert(keys(t) =~= k.remove(at));
    lemma_removed(k, at);
    lemma_spellings(marks);
    lemma_spellings(t);
    let a = spellings_of(t);
    let b = spellings_of(marks).remove(marks[at].key());
    assert(k[at] == marks[at].key());
    assert(a.dom() =~= b.dom());
    assert forall|x: MarkKey| #[trigger] a.dom().contains(x) implies a[x] == b[x] by {
        assert(keys(t).contains(x));
        let i = choose|i: int| 0 <= i < keys(t).len() && keys(t)[i] == x;
        let j = if i < at {
            i
        } else {
            i + 1
        };
        assert(t[i] == marks[j]);
        assert(t[i].key() == x);
    }
    assert(a =~= b);
}

// ---------------------------------------------------------------------------------
// What the list keeps.
// ---------------------------------------------------------------------------------

/// What was set last is what is read back, and no other mark changes.
pub proof fn lemma_set_then_read(marks: Set<MarkKey>, key: MarkKey, keep: bool, other: MarkKey)
    ensures
        after_set(marks, key, keep).contains(key) == keep,
        other != key ==> after_set(marks, key, keep).contains(other) == marks.contains(other),
{
}

/// Setting a mark twice is setting it once.
pub proof fn lemma_set_twice(marks: Set<MarkKey>, key: MarkKey, keep: bool)
    ensures
        after_set(after_set(marks, key, keep), key, keep) == after_set(marks, key, keep),
{
    assert(after_set(after_set(marks, key, keep), key, keep) =~= after_set(marks, key, keep));
}

/// A mark that is there stays as it was first given, however it is spelled when it is set
/// again; a new one is kept as given; and no other mark is touched.
pub proof fn lemma_spelling_stays(
    spellings: Spellings,
    project_root: Seq<char>,
    command: Seq<char>,
    keep: bool,
    other: MarkKey,
)
    ensures
        ({
            let key = key_for(project_root, command);
            let after = spellings_after(spellings, project_root, command, keep);
            &&& keep ==> after.contains_key(key) && after[key] == (if spellings.contains_key(key) {
                spellings[key]
            } else {
                project_root
            })
            &&& !keep ==> !after.contains_key(key)
            &&& other != key ==> after.contains_key(other) == spellings.contains_key(other) && (
            spellings.contains_key(other) ==> after[other] == spellings[other])
        }),
{
}

/// The same marks are always listed in the same order: what is written does not depend
/// on the order in which the marks were set.
pub proof fn lemma_order_is_unique(a: Seq<MarkKey>, b: Seq<MarkKey>)
    requires
        ordered(a),
        ordered(b),
        a.to_set() == b.to_set(),
    ensures
        a == b,
    decreases a.len(),
{
    if a.len() == 0 {
        if b.len() > 0 {
            assert(b.contains(b[0]));
            assert(a.to_set().contains(b[0]));
        }
        assert(a =~= b);
    } else {
        assert(a.contains(a.last()));
        assert(b.to_set().contains(a.last()));
        let i = choose|i: int| 0 <= i < b.len() && b[i] == a.last();
        assert(b.contains(b.last()));
        assert(a.to_set().contains(b.last()));
        let j = choose|j: int| 0 <= j < a.len() && a[j] == b.last();
        lemma_key_order(a.last(), b.last());
        if i < b.len() - 1 && j < a.len() - 1 {
            assert(key_before(b[i], b.last()));
            assert(key_before(a[j], a.last()));
        }
        if i == b.len() - 1 || j == a.len() - 1 {
            assert(a.last() == b.last());
        }
        let x = a.drop_last();
        let y = b.drop_last();
        lemma_removed(a, a.len() - 1);
        lemma_removed(b, b.len() - 1);
        assert(x =~= a.remove(a.len() - 1));
        assert(y =~= b.remove(b.len() - 1));
        lemma_order_is_unique(x, y);
        assert(a =~= x.push(a.last()));
        assert(b =~= y.push(b.last()));
    }
}

/// What was written and read back is what it was: a list built from another's marks,
/// which stand in order, has the same marks in the same order, letter for letter.
pub proof fn lemma_written_then_read(written: Seq<KeepMark>, reread: Seq<KeepMark>)
    requires
        ordered(keys(written)),
        ordered(keys(reread)),
        keys(reread).to_set() == keys(written).to_set(),
        spellings_of(reread) == spellings_of(written),
    ensures
        keys(reread) == keys(written),
        forall|i: int|
            0 <= i < written.len() ==> (#[trigger] reread[i]).project_root@
                == written[i].project_root@ && reread[i].command@ == written[i].command@,
{
    lemma_order_is_unique(keys(written), keys(reread));
    lemma_spellings(written);
    lemma_spellings(reread);
    assert(keys(written).len() == keys(reread).len());
    assert forall|i: int| 0 <= i < written.len() implies (#[trigger] reread[i]).project_root@
        == written[i].project_root@ && reread[i].command@ == written[i].command@ by {
        assert(keys(reread)[i] == keys(written)[i]);
        assert(reread[i].key() == written[i].key());
    }
}

} // verus!
