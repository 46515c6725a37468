//! Directory-navigation history: a browser-style back/forward sequence of
//! normalized directory paths with a cursor, plus a most-recently-used list.

use vstd::prelude::*;
use crate::text::{chars_of, string_from_chars, eq_ignore_case, spec_lower};

verus! {

/// The abstract one-step transition of `CurDir::set`: seed an empty history,
/// ignore a repeat of the cursor entry, or branch/append past the cursor.
pub open spec fn spec_set_hist(h: Seq<Seq<char>>, cur: int, d: Seq<char>) -> (Seq<
    Seq<char>,
>, int) {
    if h.len() == 0 {
        (seq![d], 0)
    } else if h[cur] == d {
        (h, cur)
    } else if cur < h.len() - 1 {
        (h.take(cur + 1).push(d), cur + 1)
    } else {
        (h.push(d), h.len() as int)
    }
}

/// Whether a `set` with directory `d` fires the change notification.
pub open spec fn spec_set_notifies(h: Seq<Seq<char>>, cur: int, d: Seq<char>) -> bool {
    h.len() == 0 || h[cur] != d
}

/// The abstract transition of `CurDir::go_back`: the new cursor and the
/// returned entry (empty at the oldest entry).
pub open spec fn spec_back(h: Seq<Seq<char>>, cur: int) -> (int, Seq<char>) {
    if cur == 0 {
        (cur, Seq::empty())
    } else {
        (cur - 1, h[cur - 1])
    }
}

/// The abstract transition of `CurDir::go_forward`: the new cursor and the
/// returned entry (empty at the newest entry or on an empty history).
pub open spec fn spec_forward(h: Seq<Seq<char>>, cur: int) -> (int, Seq<char>) {
    if cur + 1 >= h.len() {
        (cur, Seq::empty())
    } else {
        (cur + 1, h[cur + 1])
    }
}

/// The parent of a directory path: everything up to and including the last
/// path separator, after ignoring one trailing separator; empty at a root.
pub open spec fn spec_parent_dir(s: Seq<char>) -> Seq<char> {
    spec_parent_scan(spec_strip_trailing_sep(s))
}

/// Drops one trailing `\` if present.
pub open spec fn spec_strip_trailing_sep(s: Seq<char>) -> Seq<char> {
    if s.len() > 0 && s.last() == '\\' {
        s.drop_last()
    } else {
        s
    }
}

/// Scans backwards for the last `\`, keeping it; empty if there is none.
pub open spec fn spec_parent_scan(s: Seq<char>) -> Seq<char>
    decreases s.len(),
{
    if s.len() == 0 {
        Seq::empty()
    } else if s.last() == '\\' {
        s
    } else {
        spec_parent_scan(s.drop_last())
    }
}

/// Back/forward history of the directories a console session has visited.
///
/// The entries form a sequence with a cursor; setting a new directory away
/// from the tail truncates the redo branch, as a browser's history does.
/// Every change of the current directory is also recorded in a notification
/// log that feeds the most-recently-used list.
pub struct CurDir {
    dirs: Vec<String>,
    dir_index: usize,
    notifications: Vec<String>,
}

impl CurDir {
    /// The visited directories, oldest first.
    pub closed spec fn hist(&self) -> Seq<Seq<char>> {
        self.dirs@.map_values(|s: String| s@)
    }

    /// The cursor into `hist`.
    pub closed spec fn cursor(&self) -> int {
        self.dir_index as int
    }

    /// All change notifications fired so far, in order.
    pub closed spec fn notes(&self) -> Seq<Seq<char>> {
        self.notifications@.map_values(|s: String| s@)
    }

    /// The cursor stays inside the history (and at 0 while it is empty).
    pub open spec fn wf(&self) -> bool {
        &&& self.hist().len() == 0 ==> self.cursor() == 0
    &&& self.hist().len() > 0 ==> 0 <= self.cursor() < self.hist().len()
    }

    pub fn new() -> (r: CurDir)
        ensures
            r.wf(),
            r.hist() =~= Seq::<Seq<char>>::empty(),
            r.notes() =~= Seq::<Seq<char>>::empty(),
    {
        let r = CurDir { dirs: Vec::new(), dir_index: 0, notifications: Vec::new() };
        assert(r.hist() =~= Seq::<Seq<char>>::empty());
        assert(r.notes() =~= Seq::<Seq<char>>::empty());
        r
    }

    /// The entry at the cursor, or empty while nothing has been set.
    pub fn get(&self) -> (r: String)
        requires
            self.wf(),
        ensures
            self.hist().len() == 0 ==> r@ =~= Seq::<char>::empty(),
            self.hist().len() > 0 ==> r@ == self.hist()[self.cursor()],
    {
        if self.dirs.is_empty() {
            return String::new();
        }
        self.dirs[self.dir_index].clone()
    }

    /// Whether any directory has been recorded yet.
    pub fn has_set(&self) -> (r: bool)
        ensures
            r == (self.hist().len() > 0),
    {
        !self.dirs.is_empty()
    }

    /// Records `dir` as the current directory, seeding, ignoring a repeat of
    /// the cursor entry, or branching past the cursor; fires one notification
    /// exactly when the history changed.
    pub fn set(&mut self, dir: &str)
        requires
            old(self).wf(),
        ensures
            final(self).wf(),
            (final(self).hist(), final(self).cursor()) == spec_set_hist(
                old(self).hist(),
                old(self).cursor(),
                dir@,
            ),
            final(self).notes() == if spec_set_notifies(
                old(self).hist(),
                old(self).cursor(),
                dir@,
            ) {
                old(self).notes().push(dir@)
            } else {
                old(self).notes()
            },
    {
        let d: String = dir.to_owned();
        if self.dirs.is_empty() {
            self.dirs.push(d);
            self.dir_index = 0;
            assert(self.hist() =~= seq![dir@]);
        } else if !self.dirs[self.dir_index].eq(&d) {
            if self.dir_index < self.dirs.len() - 1 {
                self.dir_index += 1;
                self.dirs[self.dir_index] = d;
                self.dirs.truncate(self.dir_index + 1);
                assert(self.hist() =~= old(self).hist().take(old(self).cursor() + 1).push(dir@));
            } else {
                self.dirs.push(d);
                self.dir_index = self.dirs.len() - 1;
                assert(self.hist() =~= old(self).hist().push(dir@));
            }
        } else {
            assert(self.hist() =~= old(self).hist());
            assert(self.notes() =~= old(self).notes());
            return;
        }
        self.notifications.push(dir.to_owned());
        assert(self.notes() =~= old(self).notes().push(dir@));
    }

    /// Steps the cursor back, returning the entry there; empty (and no move)
    /// at the oldest entry.
    pub fn go_back(&mut self) -> (r: String)
        requires
            old(self).wf(),
        ensures
            final(self).wf(),
            final(self).hist() == old(self).hist(),
            final(self).notes() == old(self).notes(),
            (final(self).cursor(), r@) == spec_back(old(self).hist(), old(self).cursor()),
    {
        if self.dir_index == 0 {
            let r = String::new();
            assert(r@ =~= Seq::<char>::empty());
            return r;
        }
        self.dir_index -= 1;
        self.dirs[self.dir_index].clone()
    }

    /// Steps the cursor forward, returning the entry there; empty (and no
    /// move) at the newest entry or while the history is empty.
    pub fn go_forward(&mut self) -> (r: String)
        requires
            old(self).wf(),
        ensures
            final(self).wf(),
            final(self).hist() == old(self).hist(),
            final(self).notes() == old(self).notes(),
            (final(self).cursor(), r@) == spec_forward(old(self).hist(), old(self).cursor()),
    {
        if self.dirs.is_empty() || self.dir_index >= self.dirs.len() - 1 {
            let r = String::new();
            assert(r@ =~= Seq::<char>::empty());
            return r;
        }
        self.dir_index += 1;
        self.dirs[self.dir_index].clone()
    }

    /// Moves to the parent of the current entry, recording it through `set`;
    /// empty (and no change) at a root or while nothing has been set.
    pub fn go_up(&mut self) -> (r: String)
        requires
            old(self).wf(),
        ensures
            final(self).wf(),
            ({
                let cur = if old(self).hist().len() == 0 {
                    Seq::<char>::empty()
                } else {
                    old(self).hist()[old(self).cursor()]
                };
                let p = spec_parent_dir(cur);
                if p.len() == 0 {
                    &&& r@ =~= Seq::<char>::empty()
                &&& final(self).hist() == old(self).hist()
                &&& final(self).cursor() == old(self).cursor()
                &&& final(self).notes() == old(self).notes()
                } else {
                    &&& r@ == p
                &&& (final(self).hist(), final(self).cursor()) == spec_set_hist(
                        old(self).hist(),
                        old(self).cursor(),
                        p,
                    )
                &&& final(self).notes() == if spec_set_notifies(
                        old(self).hist(),
                        old(self).cursor(),
                        p,
                    ) {
                        old(self).notes().push(p)
                    } else {
                        old(self).notes()
                    }
                }
            }),
    {
        let dir = self.get();
        let p = parent_dir(dir.as_str());
        if p.unicode_len() == 0 {
            let r = String::new();
            assert(r@ =~= Seq::<char>::empty());
            return r;
        }
        self.set(p.as_str());
        p
    }

    /// The history entries with `@` marking the cursor entry: a debugging view.
    pub fn _inspect(&self) -> (r: Vec<String>)
        requires
            self.wf(),
        ensures
            r@.len() == self.hist().len(),
            forall|i: int|
                0 <= i < r@.len() && i != self.cursor() ==> r@[i]@ == self.hist()[i],
            self.hist().len() > 0 ==> r@[self.cursor()]@ == self.hist()[self.cursor()].push('@'),
    {
        let mut r: Vec<String> = Vec::new();
        let mut i: usize = 0;
        while i < self.dirs.len()
            invariant
                self.wf(),
                i <= self.dirs.len(),
                r@.len() == i,
                forall|j: int| 0 <= j < i && j != self.cursor() ==> r@[j]@ == self.hist()[j],
                forall|j: int|
                    0 <= j < i && j == self.cursor() ==> r@[j]@ == self.hist()[j].push('@'),
            decreases self.dirs.len() - i,
        {
            let mut s = self.dirs[i].clone();
            if i == self.dir_index {
                proof {
                    reveal_strlit("@");
                }
                s.append("@");
                assert(s@ =~= self.hist()[i as int].push('@'));
            }
            r.push(s);
            i += 1;
        }
        r
    }

    /// The cursor position: a debugging view.
    pub fn _get_index(&self) -> (r: usize)
        ensures
            r == self.cursor(),
    {
        self.dir_index
    }

    /// The change notifications fired so far, oldest first.
    pub fn notified_dirs(&self) -> (r: Vec<String>)
        ensures
            r@.map_values(|s: String| s@) == self.notes(),
    {
        let r = self.notifications.clone();
        assert(r@.map_values(|s: String| s@) =~= self.notes());
        r
    }
}

/// The parent of a directory path: everything up to and including the last
/// path separator, after ignoring one trailing separator; empty at a root.
pub fn parent_dir(s: &str) -> (r: String)
    ensures
        r@ == spec_parent_dir(s@),
{
    let mut chars = chars_of(s);
    if chars.len() > 0 && chars[chars.len() - 1] == '\\' {
        chars.pop();
        assert(chars@ =~= spec_strip_trailing_sep(s@));
    } else {
        assert(chars@ =~= spec_strip_trailing_sep(s@));
    }
    let ghost t = chars@;
    let mut i: usize = chars.len();
    assert(t.take(i as int) =~= t);
    while i > 0
        invariant
            chars@ == t,
            i <= t.len(),
            spec_parent_dir(s@) == spec_parent_scan(t),
            spec_parent_scan(t) == spec_parent_scan(t.take(i as int)),
        decreases i,
    {
        if chars[i - 1] == '\\' {
            assert(t.take(i as int).last() == '\\');
            chars.truncate(i);
            let r = string_from_chars(&chars);
            assert(r@ == spec_parent_scan(t.take(i as int)));
            return r;
        }
        assert(t.take(i as int).drop_last() =~= t.take(i - 1));
        i -= 1;
    }
    assert(t.take(0) =~= Seq::<char>::empty());
    let r = String::new();
    assert(r@ =~= spec_parent_dir(s@));
    r
}

/// Index of the first entry equal to `d` ignoring ASCII case, or `es.len()`.
pub open spec fn spec_find_ci(es: Seq<Seq<char>>, d: Seq<char>) -> int
    decreases es.len(),
{
    if es.len() == 0 {
        0
    } else if spec_lower(es.first()) == spec_lower(d) {
        0
    } else {
        1 + spec_find_ci(es.drop_first(), d)
    }
}

/// The abstract transition of `RecentDirs::use_dir`: move the first
/// case-insensitive match of `d` (if any) to the most-recent end, as `d`.
pub open spec fn spec_use_dir(es: Seq<Seq<char>>, d: Seq<char>) -> Seq<Seq<char>> {
    let i = spec_find_ci(es, d);
    if i < es.len() {
        es.remove(i).push(d)
    } else {
        es.push(d)
    }
}

proof fn lemma_find_ci_bounds(es: Seq<Seq<char>>, d: Seq<char>)
    ensures
        0 <= spec_find_ci(es, d) <= es.len(),
        spec_find_ci(es, d) < es.len() ==> spec_lower(es[spec_find_ci(es, d)]) == spec_lower(d),
        forall|j: int|
            0 <= j < spec_find_ci(es, d) ==> spec_lower(es[j]) != spec_lower(d),
    decreases es.len(),
{
    if es.len() > 0 && spec_lower(es.first()) != spec_lower(d) {
        lemma_find_ci_bounds(es.drop_first(), d);
        assert forall|j: int|
            0 <= j < spec_find_ci(es, d) implies spec_lower(es[j]) != spec_lower(d) by {
            if j > 0 {
                assert(es[j] == es.drop_first()[j - 1]);
            }
        }
    }
}

proof fn lemma_find_ci_prefix(es: Seq<Seq<char>>, d: Seq<char>, i: int)
    requires
        0 <= i <= es.len(),
        forall|j: int| 0 <= j < i ==> spec_lower(es[j]) != spec_lower(d),
    ensures
        i < es.len() && spec_lower(es[i]) == spec_lower(d) ==> spec_find_ci(es, d) == i,
        i == es.len() ==> spec_find_ci(es, d) == es.len(),
    decreases es.len(),
{
    if es.len() > 0 {
        if spec_lower(es.first()) == spec_lower(d) {
        } else if i > 0 {
            lemma_find_ci_prefix(es.drop_first(), d, i - 1);
        }
    }
}

/// Finds the first entry equal to `dir` ignoring ASCII case, returning the
/// length when there is none.
fn find_ci_index(dirs: &Vec<String>, dir: &str) -> (r: usize)
    ensures
        r as int == spec_find_ci(dirs@.map_values(|s: String| s@), dir@),
{
    let ghost es = dirs@.map_values(|s: String| s@);
    let mut n: usize = 0;
    while n < dirs.len()
        invariant
            es == dirs@.map_values(|s: String| s@),
            n <= dirs.len(),
            forall|j: int| 0 <= j < n ==> spec_lower(es[j]) != spec_lower(dir@),
        decreases dirs.len() - n,
    {
        if eq_ignore_case(dirs[n].as_str(), dir) {
            proof {
                lemma_find_ci_prefix(es, dir@, n as int);
            }
            return n;
        }
        n += 1;
    }
    proof {
        lemma_find_ci_prefix(es, dir@, es.len() as int);
    }
    n
}

/// Most-recently-used directories, least recent first.
pub struct RecentDirs {
    dirs: Vec<String>,
}

impl RecentDirs {
    /// The recorded directories, least recent first.
    pub closed spec fn entries(&self) -> Seq<Seq<char>> {
        self.dirs@.map_values(|s: String| s@)
    }

    pub fn new() -> (r: RecentDirs)
        ensures
            r.entries() =~= Seq::<Seq<char>>::empty(),
    {
        let r = RecentDirs { dirs: Vec::new() };
        assert(r.entries() =~= Seq::<Seq<char>>::empty());
        r
    }

    /// Records a use of `dir`: its first case-insensitive occurrence (if any)
    /// is dropped, and `dir` becomes the most recent entry.
    pub fn use_dir(&mut self, dir: &str)
        ensures
            final(self).entries() == spec_use_dir(old(self).entries(), dir@),
    {
        let ghost es = self.entries();
        let index = find_ci_index(&self.dirs, dir);
        proof {
            lemma_find_ci_bounds(es, dir@);
        }
        if index < self.dirs.len() {
            self.dirs.remove(index);
        }
        self.dirs.push(dir.to_owned());
        assert(final(self).entries() =~= spec_use_dir(es, dir@));
    }

    /// How many directories are recorded.
    pub fn count(&self) -> (r: usize)
        ensures
            r == self.entries().len(),
    {
        self.dirs.len()
    }

    /// The entry at `index`, or empty when out of range.
    pub fn at(&self, index: usize) -> (r: String)
        ensures
            index < self.entries().len() ==> r@ == self.entries()[index as int],
            index >= self.entries().len() ==> r@ =~= Seq::<char>::empty(),
    {
        if index < self.dirs.len() {
            self.dirs[index].clone()
        } else {
            let r = String::new();
            assert(r@ =~= Seq::<char>::empty());
            r
        }
    }

    /// All entries, least recent first: a debugging view.
    pub fn _inspect(&self) -> (r: Vec<String>)
        ensures
            r@.map_values(|s: String| s@) == self.entries(),
    {
        let r = self.dirs.clone();
        assert(r@.map_values(|s: String| s@) =~= self.entries());
        r
    }
}

/// Going back and then immediately forward through the directory history
/// returns to the entry that was current before the pair of calls, whenever
/// the back step can move; on a history of at most one entry both probes
/// return empty and nothing moves.
pub proof fn lemma_back_forward_round_trip(h: Seq<Seq<char>>, cur: int)
    requires
        h.len() > 0 ==> 0 <= cur < h.len(),
        h.len() == 0 ==> cur == 0,
    ensures
        cur > 0 ==> ({
            let (c1, r1) = spec_back(h, cur);
            let (c2, r2) = spec_forward(h, c1);
            c2 == cur && r2 == h[cur]
        }),
        h.len() <= 1 ==> ({
            let (c1, r1) = spec_back(h, cur);
            let (c2, r2) = spec_forward(h, c1);
            c1 == cur && c2 == cur && r1 == Seq::<char>::empty() && r2 == Seq::<char>::empty()
        }),
{
}

/// Setting the directory that is already at the cursor neither grows the
/// history nor fires a change notification.
pub proof fn lemma_set_same_is_noop(h: Seq<Seq<char>>, cur: int, d: Seq<char>)
    requires
        0 <= cur < h.len(),
        h[cur] == d,
    ensures
        spec_set_hist(h, cur, d) == (h, cur),
        !spec_set_notifies(h, cur, d),
{
}

/// After visiting `a` then `b`, stepping back and setting `c` branches the
/// history: `b` is discarded and cannot be reached by going forward.
pub proof fn lemma_branch_discards_forward(a: Seq<char>, b: Seq<char>, c: Seq<char>)
    requires
        a != b,
        c != a,
        c != b,
    ensures
        ({
            let (h1, c1) = spec_set_hist(Seq::empty(), 0, a);
            let (h2, c2) = spec_set_hist(h1, c1, b);
            let (c3, back) = spec_back(h2, c2);
            let (h4, c4) = spec_set_hist(h2, c3, c);
            &&& h4 =~= seq![a, c]
        &&& c4 == 1
        &&& !h4.contains(b)
        &&& spec_forward(h4, c4) == (c4, Seq::<char>::empty())
        }),
{
    let (h1, c1) = spec_set_hist(Seq::empty(), 0, a);
    assert(h1 =~= seq![a]);
    let (h2, c2) = spec_set_hist(h1, c1, b);
    assert(h2 =~= seq![a, b]);
    let (c3, back) = spec_back(h2, c2);
    let (h4, c4) = spec_set_hist(h2, c3, c);
    assert(h2.take(1).push(c) =~= seq![a, c]);
    assert(h4 =~= seq![a, c]);
    assert(forall|i: int| 0 <= i < h4.len() ==> h4[i] != b);
}

} // verus!
