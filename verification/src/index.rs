//! The in-memory index of the images in the gallery, most recent first.

use vstd::prelude::*;

use crate::path::{is_prefix_of, FsPath};
use crate::sort::{entry_views, recency_sorted, sort_by_recency, sorted_by_recency};
use crate::types::{newer, EntryView, ImageEntry};

verus! {

/// What adding an entry did to the index.
#[derive(Debug, Clone, Copy, PartialEq, Eq, Structural)]
pub enum ChangeKind {
    Added,
    Updated,
    Unchanged,
}

/// The position of the first entry with path `p`, or -1 where none has it.
pub open spec fn position_of(s: Seq<EntryView>, p: Seq<Seq<char>>) -> int
    decreases s.len(),
{
    if s.len() == 0 {
        -1
    } else if s[0].path == p {
        0
    } else {
        let r = position_of(s.drop_first(), p);
        if r < 0 {
            -1
        } else {
            r + 1
        }
    }
}

/// Adding or refreshing `e`: an entry for a new path goes in front; an
/// entry whose path is known replaces the first entry with that path and
/// goes in front, unless that entry has the same time and size, in which
/// case nothing changes.
pub open spec fn upsert_model(s: Seq<EntryView>, e: EntryView) -> (ChangeKind, Seq<EntryView>) {
    let pos = position_of(s, e.path);
    if pos < 0 {
        (ChangeKind::Added, seq![e] + s)
    } else if s[pos].mtime == e.mtime && s[pos].size == e.size {
        (ChangeKind::Unchanged, s)
    } else {
        (ChangeKind::Updated, seq![e] + s.remove(pos))
    }
}

/// Removing the first entry with path `p`: the entry taken out, if any, and
/// what remains.
pub open spec fn remove_model(s: Seq<EntryView>, p: Seq<Seq<char>>) -> (Option<EntryView>, Seq<EntryView>) {
    let pos = position_of(s, p);
    if pos < 0 {
        (None, s)
    } else {
        (Some(s[pos]), s.remove(pos))
    }
}

/// The entry lies under directory `dir` (its path starts with `dir`).
pub open spec fn under_dir(dir: Seq<Seq<char>>) -> spec_fn(EntryView) -> bool {
    |e: EntryView| is_prefix_of(dir, e.path)
}

/// The entry does not lie under directory `dir`.
pub open spec fn outside_dir(dir: Seq<Seq<char>>) -> spec_fn(EntryView) -> bool {
    |e: EntryView| !is_prefix_of(dir, e.path)
}

/// The path of an entry.
pub open spec fn path_of_entry() -> spec_fn(EntryView) -> Seq<Seq<char>> {
    |e: EntryView| e.path
}

/// Removing every entry under `dir`: the entries kept, in order, and the
/// paths removed, in order.
pub open spec fn remove_under_model(s: Seq<EntryView>, dir: Seq<Seq<char>>) -> (Seq<EntryView>, Seq<Seq<Seq<char>>>) {
    (s.filter(outside_dir(dir)), s.filter(under_dir(dir)).map_values(path_of_entry()))
}

/// No two entries share a path.
pub open spec fn paths_unique(s: Seq<EntryView>) -> bool {
    forall|i: int, j: int| 0 <= i < j < s.len() ==> (#[trigger] s[i]).path != (#[trigger] s[j]).path
}

/// `position_of` finds the first entry with the path, and -1 only where no
/// entry has it.
pub proof fn lemma_position_of(s: Seq<EntryView>, p: Seq<Seq<char>>)
    ensures
        -1 <= position_of(s, p) < s.len(),
        position_of(s, p) >= 0 ==> s[position_of(s, p)].path == p,
        forall|k: int| 0 <= k < position_of(s, p) ==> (#[trigger] s[k]).path != p,
        position_of(s, p) == -1 ==> forall|k: int| 0 <= k < s.len() ==> (#[trigger] s[k]).path != p,
    decreases s.len(),
{
    if s.len() > 0 && s[0].path != p {
        lemma_position_of(s.drop_first(), p);
        assert forall|k: int| 0 < k < s.len() implies #[trigger] s[k] == s.drop_first()[k - 1] by {}
    }
}

proof fn lemma_position_is(s: Seq<EntryView>, p: Seq<Seq<char>>, i: int)
    requires
        0 <= i <= s.len(),
        forall|k: int| 0 <= k < i ==> (#[trigger] s[k]).path != p,
        i < s.len() ==> s[i].path == p,
    ensures
        position_of(s, p) == (if i < s.len() { i } else { -1 }),
    decreases s.len(),
{
    if s.len() > 0 && i > 0 {
        assert forall|k: int| 0 <= k < i - 1 implies (#[trigger] s.drop_first()[k]).path != p by {
            assert(s.drop_first()[k] == s[k + 1]);
        }
        lemma_position_is(s.drop_first(), p, i - 1);
    }
}

/// What adding `e` does, by where its path first occurs: a path that no
/// entry has is added in front (`Added`); the first entry with the path is
/// kept as it is where its time and size equal `e`'s (`Unchanged`), and is
/// otherwise taken out while `e` goes in front (`Updated`).
pub proof fn lemma_upsert_cases(s: Seq<EntryView>, e: EntryView)
    ensures
        (forall|k: int| 0 <= k < s.len() ==> (#[trigger] s[k]).path != e.path) ==> upsert_model(s, e)
            == (ChangeKind::Added, seq![e] + s),
        forall|k: int|
            0 <= k < s.len() && (#[trigger] s[k]).path == e.path && (forall|j: int|
                0 <= j < k ==> (#[trigger] s[j]).path != e.path) && s[k].mtime == e.mtime && s[k].size
                == e.size ==> upsert_model(s, e) == (ChangeKind::Unchanged, s),
        forall|k: int|
            0 <= k < s.len() && (#[trigger] s[k]).path == e.path && (forall|j: int|
                0 <= j < k ==> (#[trigger] s[j]).path != e.path) && (s[k].mtime != e.mtime || s[k].size
                != e.size) ==> upsert_model(s, e) == (ChangeKind::Updated, seq![e] + s.remove(k)),
{
    if forall|k: int| 0 <= k < s.len() ==> (#[trigger] s[k]).path != e.path {
        lemma_position_is(s, e.path, s.len() as int);
    }
    assert forall|k: int|
        0 <= k < s.len() && (#[trigger] s[k]).path == e.path && (forall|j: int|
            0 <= j < k ==> (#[trigger] s[j]).path != e.path) implies position_of(s, e.path) == k by {
        lemma_position_is(s, e.path, k);
    }
}

/// The kind of change reported for `e`: `Added` exactly when no entry has
/// its path, `Updated` exactly when the first entry with its path differs
/// in time or size, `Unchanged` exactly when that entry has the same time
/// and size.
pub proof fn lemma_upsert_kind(s: Seq<EntryView>, e: EntryView)
    ensures
        (upsert_model(s, e).0 == ChangeKind::Added) <==> (forall|k: int|
            0 <= k < s.len() ==> (#[trigger] s[k]).path != e.path),
        (upsert_model(s, e).0 == ChangeKind::Updated) <==> (exists|k: int|
            0 <= k < s.len() && (#[trigger] s[k]).path == e.path && (forall|j: int|
                0 <= j < k ==> (#[trigger] s[j]).path != e.path) && (s[k].mtime != e.mtime || s[k].size
                != e.size)),
        (upsert_model(s, e).0 == ChangeKind::Unchanged) <==> (exists|k: int|
            0 <= k < s.len() && (#[trigger] s[k]).path == e.path && (forall|j: int|
                0 <= j < k ==> (#[trigger] s[j]).path != e.path) && s[k].mtime == e.mtime && s[k].size
                == e.size),
{
    lemma_position_of(s, e.path);
    lemma_upsert_cases(s, e);
    let pos = position_of(s, e.path);
    if pos >= 0 {
        assert(s[pos].path == e.path);
    }
}

/// What removing path `p` does: where no entry has `p`, it takes nothing
/// out; otherwise it takes out and returns the first entry with `p`.
pub proof fn lemma_remove_cases(s: Seq<EntryView>, p: Seq<Seq<char>>)
    ensures
        (forall|k: int| 0 <= k < s.len() ==> (#[trigger] s[k]).path != p) ==> remove_model(s, p) == (
        None::<EntryView>, s),
        forall|k: int|
            0 <= k < s.len() && (#[trigger] s[k]).path == p && (forall|j: int|
                0 <= j < k ==> (#[trigger] s[j]).path != p) ==> remove_model(s, p) == (Some(s[k]), s.remove(k)),
        remove_model(s, p).0 matches Some(r) ==> r.path == p,
{
    lemma_position_of(s, p);
    if forall|k: int| 0 <= k < s.len() ==> (#[trigger] s[k]).path != p {
        lemma_position_is(s, p, s.len() as int);
    }
    assert forall|k: int|
        0 <= k < s.len() && (#[trigger] s[k]).path == p && (forall|j: int|
            0 <= j < k ==> (#[trigger] s[j]).path != p) implies position_of(s, p) == k by {
        lemma_position_is(s, p, k);
    }
}

/// After adding or refreshing `e`, looking up its path finds `e`; and where
/// anything changed, `e` is the first entry.
pub proof fn lemma_upsert_reads_back(s: Seq<EntryView>, e: EntryView)
    ensures
        position_of(upsert_model(s, e).1, e.path) >= 0,
        upsert_model(s, e).1[position_of(upsert_model(s, e).1, e.path)] == e,
        upsert_model(s, e).0 != ChangeKind::Unchanged ==> upsert_model(s, e).1[0] == e,
{
    lemma_position_of(s, e.path);
    let s1 = upsert_model(s, e).1;
    if upsert_model(s, e).0 == ChangeKind::Unchanged {
        let pos = position_of(s, e.path);
        assert(s[pos] == e);
    } else {
        assert(s1[0] == e);
        lemma_position_is(s1, e.path, 0);
    }
}

/// Adding the same entry a second time changes nothing.
pub proof fn lemma_upsert_idempotent(s: Seq<EntryView>, e: EntryView)
    ensures
        upsert_model(upsert_model(s, e).1, e) == (ChangeKind::Unchanged, upsert_model(s, e).1),
{
    lemma_upsert_reads_back(s, e);
}

/// Removing a path undoes adding an entry for it: the index is then what
/// removing the path from the original index leaves.
pub proof fn lemma_remove_undoes_upsert(s: Seq<EntryView>, e: EntryView)
    ensures
        remove_model(upsert_model(s, e).1, e.path).1 == remove_model(s, e.path).1,
{
    lemma_position_of(s, e.path);
    let pos = position_of(s, e.path);
    let (k, s1) = upsert_model(s, e);
    if k != ChangeKind::Unchanged {
        lemma_position_is(s1, e.path, 0);
        if pos < 0 {
            assert(s1.remove(0) =~= s);
        } else {
            assert(s1.remove(0) =~= s.remove(pos));
        }
    }
}

/// Where no two entries share a path, none do after adding an entry.
pub proof fn lemma_upsert_keeps_paths_unique(s: Seq<EntryView>, e: EntryView)
    requires
        paths_unique(s),
    ensures
        paths_unique(upsert_model(s, e).1),
{
    lemma_position_of(s, e.path);
    let pos = position_of(s, e.path);
    let s1 = upsert_model(s, e).1;
    if pos < 0 {
        assert forall|i: int, j: int| 0 <= i < j < s1.len() implies (#[trigger] s1[i]).path != (
        #[trigger] s1[j]).path by {
            if i > 0 {
                assert(s1[i] == s[i - 1] && s1[j] == s[j - 1]);
            } else {
                assert(s1[j] == s[j - 1]);
            }
        }
    } else if upsert_model(s, e).0 == ChangeKind::Updated {
        assert forall|i: int, j: int| 0 <= i < j < s1.len() implies (#[trigger] s1[i]).path != (
        #[trigger] s1[j]).path by {
            let jj = if j - 1 < pos { j - 1 } else { j };
            assert(s1[j] == s[jj]);
            if i > 0 {
                let ii = if i - 1 < pos { i - 1 } else { i };
                assert(s1[i] == s[ii]);
            } else {
                assert(jj != pos);
                if jj < pos {
                    assert(s[jj].path != s[pos].path);
                } else {
                    assert(s[pos].path != s[jj].path);
                }
            }
        }
    }
}

/// Where no two entries share a path, removing a path leaves no entry with
/// it, and no two entries sharing a path.
pub proof fn lemma_remove_clears_path(s: Seq<EntryView>, p: Seq<Seq<char>>)
    requires
        paths_unique(s),
    ensures
        forall|k: int|
            0 <= k < remove_model(s, p).1.len() ==> (#[trigger] remove_model(s, p).1[k]).path != p,
        paths_unique(remove_model(s, p).1),
{
    lemma_position_of(s, p);
    let pos = position_of(s, p);
    if pos >= 0 {
        let rest = s.remove(pos);
        assert forall|k: int| 0 <= k < rest.len() implies (#[trigger] rest[k]).path != p by {
            let kk = if k < pos { k } else { k + 1 };
            assert(rest[k] == s[kk]);
            if kk < pos {
                assert(s[kk].path != s[pos].path);
            } else {
                assert(s[pos].path != s[kk].path);
            }
        }
        assert forall|i: int, j: int| 0 <= i < j < rest.len() implies (#[trigger] rest[i]).path != (
        #[trigger] rest[j]).path by {
            let ii = if i < pos { i } else { i + 1 };
            let jj = if j < pos { j } else { j + 1 };
            assert(rest[i] == s[ii] && rest[j] == s[jj]);
        }
    }
}

proof fn lemma_filter_split_len(s: Seq<EntryView>, dir: Seq<Seq<char>>)
    ensures
        s.filter(outside_dir(dir)).len() + s.filter(under_dir(dir)).len() == s.len(),
    decreases s.len(),
{
    if s.len() > 0 {
        let init = s.drop_last();
        lemma_filter_split_len(init, dir);
        assert(init.push(s.last()) =~= s);
        init.lemma_filter_push(s.last(), outside_dir(dir));
        init.lemma_filter_push(s.last(), under_dir(dir));
    }
}

proof fn lemma_filter_keeps_unique(s: Seq<EntryView>, f: spec_fn(EntryView) -> bool)
    requires
        paths_unique(s),
    ensures
        paths_unique(s.filter(f)),
        forall|k: int| 0 <= k < s.filter(f).len() ==> s.contains(#[trigger] s.filter(f)[k]),
    decreases s.len(),
{
    broadcast use vstd::seq_lib::group_filter_ensures;
    if s.len() > 0 {
        let init = s.drop_last();
        let x = s.last();
        assert(init.push(x) =~= s);
        assert forall|i: int, j: int| 0 <= i < j < init.len() implies (#[trigger] init[i]).path != (
        #[trigger] init[j]).path by {
            assert(init[i] == s[i] && init[j] == s[j]);
        }
        lemma_filter_keeps_unique(init, f);
        init.lemma_filter_push(x, f);
        let fi = init.filter(f);
        assert forall|k: int| 0 <= k < fi.len() implies (#[trigger] fi[k]).path != x.path by {
            assert(init.contains(fi[k]));
            let m = choose|m: int| 0 <= m < init.len() && init[m] == fi[k];
            assert(s[m] == init[m]);
            assert(s[m].path != s[s.len() - 1].path);
        }
        assert forall|k: int| 0 <= k < fi.len() implies s.contains(#[trigger] fi[k]) by {
            assert(init.contains(fi[k]));
            let m = choose|m: int| 0 <= m < init.len() && init[m] == fi[k];
            assert(s[m] == init[m]);
        }
        if f(x) {
            assert(s.filter(f)[s.filter(f).len() - 1] == x);
            assert(s.contains(x)) by {
                assert(s[s.len() - 1] == x);
            }
        }
    }
}

/// Removing a directory splits the index: the entries kept lie outside the
/// directory, the paths removed lie under it, and together they account for
/// every entry; no two entries kept share a path where none did before.
pub proof fn lemma_remove_under_partitions(s: Seq<EntryView>, dir: Seq<Seq<char>>)
    ensures
        forall|k: int|
            0 <= k < remove_under_model(s, dir).0.len() ==> !is_prefix_of(
                dir,
                (#[trigger] remove_under_model(s, dir).0[k]).path,
            ),
        forall|k: int|
            0 <= k < remove_under_model(s, dir).1.len() ==> is_prefix_of(
                dir,
                #[trigger] remove_under_model(s, dir).1[k],
            ),
        remove_under_model(s, dir).0.len() + remove_under_model(s, dir).1.len() == s.len(),
        paths_unique(s) ==> paths_unique(remove_under_model(s, dir).0),
{
    broadcast use vstd::seq_lib::group_filter_ensures;
    lemma_filter_split_len(s, dir);
    let kept = s.filter(outside_dir(dir));
    let taken = s.filter(under_dir(dir));
    assert forall|k: int| 0 <= k < kept.len() implies !is_prefix_of(dir, (#[trigger] kept[k]).path) by {
        assert(outside_dir(dir)(kept[k]));
    }
    assert forall|k: int| 0 <= k < taken.len() implies is_prefix_of(
        dir,
        #[trigger] taken.map_values(path_of_entry())[k],
    ) by {
        assert(under_dir(dir)(taken[k]));
    }
    if paths_unique(s) {
        lemma_filter_keeps_unique(s, outside_dir(dir));
    }
}

/// Adding an entry that is at least as new as every entry with another
/// path keeps a newest-first index newest first, where no two entries
/// share a path.
pub proof fn lemma_upsert_keeps_recency(s: Seq<EntryView>, e: EntryView)
    requires
        recency_sorted(s),
        paths_unique(s),
        forall|k: int| 0 <= k < s.len() && (#[trigger] s[k]).path != e.path ==> !newer(s[k].mtime, e.mtime),
    ensures
        recency_sorted(upsert_model(s, e).1),
{
    lemma_position_of(s, e.path);
    let pos = position_of(s, e.path);
    let s1 = upsert_model(s, e).1;
    if pos < 0 {
        assert forall|i: int, j: int| 0 <= i < j < s1.len() implies !newer(
            #[trigger] s1[j].mtime,
            #[trigger] s1[i].mtime,
        ) by {
            assert(s1[j] == s[j - 1]);
            if i > 0 {
                assert(s1[i] == s[i - 1]);
            }
        }
    } else if upsert_model(s, e).0 == ChangeKind::Updated {
        assert forall|i: int, j: int| 0 <= i < j < s1.len() implies !newer(
            #[trigger] s1[j].mtime,
            #[trigger] s1[i].mtime,
        ) by {
            let jj = if j - 1 < pos { j - 1 } else { j };
            assert(s1[j] == s[jj]);
            if i > 0 {
                let ii = if i - 1 < pos { i - 1 } else { i };
                assert(s1[i] == s[ii]);
            } else {
                assert(jj != pos);
                if jj < pos {
                    assert(s[jj].path != s[pos].path);
                } else {
                    assert(s[pos].path != s[jj].path);
                }
            }
        }
    }
}

/// The gallery's images, most recently changed first.
pub struct ImageIndex {
    entries: Vec<ImageEntry>,
}

impl View for ImageIndex {
    type V = Seq<EntryView>;

    closed spec fn view(&self) -> Seq<EntryView> {
        entry_views(self.entries@)
    }
}

impl ImageIndex {
    /// An index of the given entries, newest first; entries modified at the
    /// same moment keep their order.
    pub fn new(entries: Vec<ImageEntry>) -> (r: Self)
        ensures
            sorted_by_recency(entry_views(entries@), r@),
    {
        let sorted = sort_by_recency(&entries);
        ImageIndex { entries: sorted }
    }

    /// The position of the first entry with the given path.
    fn position(&self, path: &FsPath) -> (r: Option<usize>)
        ensures
            match r {
                Some(i) => position_of(self@, path@) == i as int,
                None => position_of(self@, path@) == -1,
            },
    {
        let n = self.entries.len();
        let mut i: usize = 0;
        while i < n
            invariant
                n == self.entries@.len(),
                i <= n,
                forall|k: int| 0 <= k < i ==> (#[trigger] self@[k]).path != path@,
            decreases n - i,
        {
            if self.entries[i].path.same_as(path) {
                proof {
                    lemma_position_is(self@, path@, i as int);
                }
                return Some(i);
            }
            assert(self@[i as int] == self.entries@[i as int]@);
            i = i + 1;
        }
        proof {
            lemma_position_is(self@, path@, n as int);
        }
        None
    }

    /// Adds `entry` in front, replacing the first entry with its path, unless
    /// that entry has the same time and size. Returns what happened, and the
    /// entry.
    pub fn add_or_update(&mut self, entry: ImageEntry) -> (r: (ChangeKind, ImageEntry))
        ensures
            (r.0, final(self)@) == upsert_model(old(self)@, entry@),
            r.1@ == entry@,
    {
        let ghost s = self@;
        proof {
            lemma_position_of(s, entry@.path);
        }
        match self.position(&entry.path) {
            Some(pos) => {
                if self.entries[pos].mtime == entry.mtime && self.entries[pos].size == entry.size {
                    assert(s[pos as int] == self.entries@[pos as int]@);
                    return (ChangeKind::Unchanged, entry);
                }
                assert(s[pos as int] == self.entries@[pos as int]@);
                self.entries.remove(pos);
                self.entries.insert(0, entry.clone());
                assert(self@ =~= seq![entry@] + s.remove(pos as int));
                (ChangeKind::Updated, entry)
            },
            None => {
                self.entries.insert(0, entry.clone());
                assert(self@ =~= seq![entry@] + s);
                (ChangeKind::Added, entry)
            },
        }
    }

    /// Removes the first entry with the given path and returns it.
    pub fn remove(&mut self, path: &FsPath) -> (r: Option<ImageEntry>)
        ensures
            final(self)@ == remove_model(old(self)@, path@).1,
            match r {
                Some(e) => remove_model(old(self)@, path@).0 == Some(e@),
                None => remove_model(old(self)@, path@).0 is None,
            },
    {
        let ghost s = self@;
        proof {
            lemma_position_of(s, path@);
        }
        match self.position(path) {
            Some(pos) => {
                let e = self.entries.remove(pos);
                assert(self@ =~= s.remove(pos as int));
                Some(e)
            },
            None => None,
        }
    }

    /// Removes every entry whose path lies under `dir`, and returns the
    /// removed paths in their order.
    pub fn remove_under(&mut self, dir: &FsPath) -> (r: Vec<FsPath>)
        ensures
            final(self)@ == remove_under_model(old(self)@, dir@).0,
            r@.map_values(|p: FsPath| p@) == remove_under_model(old(self)@, dir@).1,
    {
        let ghost s = self@;
        let n = self.entries.len();
        let mut kept: Vec<ImageEntry> = Vec::new();
        let mut removed: Vec<FsPath> = Vec::new();
        let mut i: usize = 0;
        while i < n
            invariant
                n == self.entries@.len(),
                s == self@,
                i <= n,
                entry_views(kept@) == s.take(i as int).filter(outside_dir(dir@)),
                removed@.map_values(|p: FsPath| p@) == s.take(i as int).filter(under_dir(dir@)).map_values(
                    path_of_entry(),
                ),
            decreases n - i,
        {
            let ghost e = s[i as int];
            proof {
                assert(s.take(i as int + 1) =~= s.take(i as int).push(e));
                s.take(i as int).lemma_filter_push(e, outside_dir(dir@));
                s.take(i as int).lemma_filter_push(e, under_dir(dir@));
                assert(e == self.entries@[i as int]@);
            }
            if self.entries[i].path.starts_with(dir) {
                let p = self.entries[i].path.clone();
                let ghost before = removed@;
                removed.push(p);
                assert(removed@ == before.push(p));
                assert(under_dir(dir@)(e));
                assert(path_of_entry()(e) == p@);
                let ghost t = s.take(i as int).filter(under_dir(dir@));
                assert(s.take(i as int + 1).filter(under_dir(dir@)) == t.push(e));
                assert(removed@.map_values(|q: FsPath| q@) =~= before.map_values(|q: FsPath| q@).push(p@));
                assert(t.push(e).map_values(path_of_entry()) =~= t.map_values(path_of_entry()).push(e.path));
                assert(removed@.map_values(|p: FsPath| p@) =~= s.take(i as int + 1).filter(
                    under_dir(dir@),
                ).map_values(path_of_entry()));
                assert(entry_views(kept@) =~= s.take(i as int + 1).filter(outside_dir(dir@)));
            } else {
                kept.push(self.entries[i].clone());
                assert(entry_views(kept@) =~= s.take(i as int + 1).filter(outside_dir(dir@)));
                assert(removed@.map_values(|p: FsPath| p@) =~= s.take(i as int + 1).filter(
                    under_dir(dir@),
                ).map_values(path_of_entry()));
            }
            i = i + 1;
        }
        assert(s.take(n as int) =~= s);
        self.entries = kept;
        removed
    }

    /// Every entry, in order.
    pub fn get_all(&self) -> (r: Vec<ImageEntry>)
        ensures
            entry_views(r@) == self@,
    {
        let n = self.entries.len();
        let mut out: Vec<ImageEntry> = Vec::new();
        let mut i: usize = 0;
        while i < n
            invariant
                n == self.entries@.len(),
                i <= n,
                out@.len() == i,
                entry_views(out@) == self@.take(i as int),
            decreases n - i,
        {
            let c = self.entries[i].clone();
            let ghost before = out@;
            out.push(c);
            assert(out@ == before.push(c));
            assert(c@ == self@[i as int]);
            assert forall|k: int| 0 <= k < i implies #[trigger] entry_views(out@)[k] == self@[k] by {
                assert(out@[k] == before[k]);
                assert(entry_views(out@)[k] == out@[k]@);
                assert(entry_views(before)[k] == before[k]@);
                assert(entry_views(before)[k] == self@.take(i as int)[k]);
            }
            assert(entry_views(out@) =~= self@.take(i as int + 1));
            i = i + 1;
        }
        assert(self@.take(n as int) =~= self@);
        out
    }
}

} // verus!
