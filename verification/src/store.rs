//! The set of currently open replay files, keyed by path. Live ingestion
//! inserts or replaces an entry when a file parses, and drops it when the
//! file goes away; the aggregate index is never retracted on removal.

use vstd::prelude::*;

use crate::player_tracker::ReplayData;

verus! {

/// One open replay file.
pub struct ReplayEntry {
    pub path: String,
    pub replay: ReplayData,
}

/// Index of the first entry with this path, or -1.
pub open spec fn find_path(s: Seq<ReplayEntry>, p: Seq<char>) -> int
    decreases s.len(),
{
    if s.len() == 0 {
        -1
    } else if s[0].path@ == p {
        0
    } else {
        let r = find_path(s.drop_first(), p);
        if r < 0 {
            -1
        } else {
            r + 1
        }
    }
}

/// What [`find_path`] finds: the first index carrying `p`, and -1 exactly
/// when no index does.
pub proof fn lemma_find_path(s: Seq<ReplayEntry>, p: Seq<char>)
    ensures
        -1 <= find_path(s, p) < s.len(),
        find_path(s, p) == -1 <==> (forall|i: int| 0 <= i < s.len() ==> (#[trigger] s[i]).path@ != p),
        find_path(s, p) >= 0 ==> s[find_path(s, p)].path@ == p,
        find_path(s, p) >= 0 ==> (forall|i: int|
            0 <= i < find_path(s, p) ==> (#[trigger] s[i]).path@ != p),
    decreases s.len(),
{
    if s.len() != 0 && s[0].path@ != p {
        lemma_find_path(s.drop_first(), p);
        let t = s.drop_first();
        let r = find_path(t, p);
        if r == -1 {
            assert forall|i: int| 0 <= i < s.len() implies (#[trigger] s[i]).path@ != p by {
                if i > 0 {
                    assert(t[i - 1].path@ != p);
                }
            }
        } else {
            assert(s[r + 1].path@ == p);
            assert forall|i: int| 0 <= i < r + 1 implies (#[trigger] s[i]).path@ != p by {
                if i > 0 {
                    assert(t[i - 1].path@ != p);
                }
            }
        }
    }
}

/// A prefix without `p` followed by a hit pins the find down.
pub proof fn lemma_find_path_at(s: Seq<ReplayEntry>, p: Seq<char>, k: int)
    requires
        0 <= k < s.len(),
        s[k].path@ == p,
        forall|i: int| 0 <= i < k ==> (#[trigger] s[i]).path@ != p,
    ensures
        find_path(s, p) == k,
    decreases k,
{
    if k > 0 {
        lemma_find_path_at(s.drop_first(), p, k - 1);
    }
}

/// The set of currently open replay files.
pub struct ReplayStore {
    entries: Vec<ReplayEntry>,
}

impl ReplayStore {
    /// The entries, in insertion order.
    pub closed spec fn spec_entries(self) -> Seq<ReplayEntry> {
        self.entries@
    }

    /// Paths are unique: the store is a map.
    pub open spec fn wf(self) -> bool {
        forall|i: int, j: int|
            0 <= i < j < self.spec_entries().len() ==> (#[trigger] self.spec_entries()[i]).path@
                != (#[trigger] self.spec_entries()[j]).path@
    }

    /// Whether a file at this path is open.
    pub open spec fn spec_contains(self, p: Seq<char>) -> bool {
        find_path(self.spec_entries(), p) >= 0
    }

    /// An empty store.
    pub fn new() -> (r: ReplayStore)
        ensures
            r.wf(),
            r.spec_entries() == Seq::<ReplayEntry>::empty(),
    {
        let r = ReplayStore { entries: Vec::new() };
        proof {
            assert(r.spec_entries() =~= Seq::<ReplayEntry>::empty());
        }
        r
    }

    /// Number of open files.
    pub fn len(&self) -> (r: usize)
        ensures
            r == self.spec_entries().len(),
    {
        self.entries.len()
    }

    /// The entries, for display.
    pub fn entries(&self) -> (r: &Vec<ReplayEntry>)
        ensures
            r@ == self.spec_entries(),
    {
        &self.entries
    }

    /// Index of the entry at this path.
    fn position_of(&self, path: &String) -> (r: Option<usize>)
        ensures
            match r {
                Option::Some(i) => i == find_path(self.spec_entries(), path@),
                Option::None => find_path(self.spec_entries(), path@) == -1,
            },
    {
        let n: usize = self.entries.len();
        let mut i: usize = 0;
        while i < n
            invariant
                i <= n,
                n == self.entries@.len(),
                forall|j: int| 0 <= j < i ==> (#[trigger] self.entries@[j]).path@ != path@,
            decreases n - i,
        {
            if self.entries[i].path == *path {
                proof {
                    lemma_find_path_at(self.entries@, path@, i as int);
                }
                return Option::Some(i);
            }
            assert(self.entries@[i as int].path@ != path@);
            i = i + 1;
        }
        proof {
            lemma_find_path(self.entries@, path@);
        }
        Option::None
    }

    /// The open replay at this path, when there is one.
    pub fn get(&self, path: &String) -> (r: Option<&ReplayData>)
        ensures
            match r {
                Option::Some(d) => self.spec_contains(path@) && *d == self.spec_entries()[find_path(
                    self.spec_entries(),
                    path@,
                )].replay,
                Option::None => !self.spec_contains(path@),
            },
    {
        proof {
            lemma_find_path(self.spec_entries(), path@);
        }
        match self.position_of(path) {
            Option::Some(i) => Option::Some(&self.entries[i].replay),
            Option::None => Option::None,
        }
    }

    /// Insert the parsed replay, replacing any entry already at this path.
    pub fn insert(&mut self, path: String, replay: ReplayData)
        requires
            old(self).wf(),
        ensures
            final(self).wf(),
            final(self).spec_entries() == ({
                let s = old(self).spec_entries();
                let i = find_path(s, path@);
                if i >= 0 {
                    s.update(i, ReplayEntry { path, replay })
                } else {
                    s.push(ReplayEntry { path, replay })
                }
            }),
    {
        proof {
            lemma_find_path(self.spec_entries(), path@);
        }
        match self.position_of(&path) {
            Option::Some(i) => {
                let ghost s = self.entries@;
                let ghost idx = i as int;
                let _old_entry = self.entries.remove(i);
                self.entries.insert(i, ReplayEntry { path, replay });
                proof {
                    assert(self.entries@ =~= s.update(idx, self.entries@[idx]));
                    assert forall|a: int, b: int|
                        0 <= a < b < self.entries@.len() implies (#[trigger] self.entries@[a]).path@
                        != (#[trigger] self.entries@[b]).path@ by {
                        assert(s[idx].path@ == self.entries@[idx].path@);
                    }
                }
            },
            Option::None => {
                let ghost s = self.entries@;
                self.entries.push(ReplayEntry { path, replay });
                proof {
                    lemma_find_path(s, self.entries@[s.len() as int].path@);
                    assert forall|a: int, b: int|
                        0 <= a < b < self.entries@.len() implies (#[trigger] self.entries@[a]).path@
                        != (#[trigger] self.entries@[b]).path@ by {
                        if b == s.len() {
                            assert(s[a].path@ != self.entries@[b].path@);
                        } else {
                            assert(s[a].path@ != s[b].path@);
                        }
                    }
                }
            },
        }
    }

    /// Drop the entry at this path, when one is open; the index keeps
    /// whatever was merged from it.
    pub fn remove(&mut self, path: &String) -> (removed: bool)
        requires
            old(self).wf(),
        ensures
            final(self).wf(),
            removed == old(self).spec_contains(path@),
            final(self).spec_entries() == ({
                let s = old(self).spec_entries();
                let i = find_path(s, path@);
                if i >= 0 {
                    s.remove(i)
                } else {
                    s
                }
            }),
    {
        proof {
            lemma_find_path(self.spec_entries(), path@);
        }
        match self.position_of(path) {
            Option::Some(i) => {
                let _removed_entry = self.entries.remove(i);
                proof {
                    assert forall|a: int, b: int|
                        0 <= a < b < self.entries@.len() implies (#[trigger] self.entries@[a]).path@
                        != (#[trigger] self.entries@[b]).path@ by {}
                }
                true
            },
            Option::None => false,
        }
    }
}

} // verus!
