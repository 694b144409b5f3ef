//! The deny list of directory names, and the rules that turn the files found
//! by walking a directory tree into image entries.

use vstd::prelude::*;
use vstd::string::*;

use crate::path::{is_prefix_of, join_parts, FsPath};
use crate::sort::{entry_views, sort_by_recency, sorted_by_recency, stable_recency_order};
use crate::text::{lemma_split_commas_nonempty, split_commas, trim, trim_text};
use crate::types::{default_deny_list, default_deny_names, has_image_extension, is_image_extension, EntryView, FileTime, ImageEntry};

verus! {

/// A set of directory names.
pub struct DenySet {
    names: Vec<String>,
}

impl DenySet {
    /// The names, in the order they were added.
    pub closed spec fn name_seq(&self) -> Seq<Seq<char>> {
        self.names@.map_values(|s: String| s@)
    }

    #[verifier::type_invariant]
    spec fn names_distinct(&self) -> bool {
        self.name_seq().no_duplicates()
    }
}

impl View for DenySet {
    type V = Set<Seq<char>>;

    closed spec fn view(&self) -> Set<Seq<char>> {
        self.name_seq().to_set()
    }
}

impl DenySet {
    /// The empty set.
    pub fn new() -> (r: DenySet)
        ensures
            r@ == Set::<Seq<char>>::empty(),
    {
        let r = DenySet { names: Vec::new() };
        assert(r@ =~= Set::<Seq<char>>::empty());
        r
    }

    /// Whether `name` is in the set.
    pub fn contains(&self, name: &str) -> (r: bool)
        ensures
            r == self@.contains(name@),
    {
        let n = self.names.len();
        let mut i: usize = 0;
        while i < n
            invariant
                n == self.names@.len(),
                i <= n,
                forall|k: int| 0 <= k < i ==> (#[trigger] self.names@[k])@ != name@,
            decreases n - i,
        {
            if same_text(self.names[i].as_str(), name) {
                assert(self.name_seq()[i as int] == name@);
                return true;
            }
            i = i + 1;
        }
        assert(!self.name_seq().contains(name@)) by {
            if self.name_seq().contains(name@) {
                let k = choose|k: int| 0 <= k < self.name_seq().len() && self.name_seq()[k] == name@;
                assert(self.names@[k]@ == name@);
            }
        }
        false
    }

    /// Adds `name` to the set.
    pub fn insert(&mut self, name: String)
        ensures
            final(self)@ == old(self)@.insert(name@),
    {
        if self.contains(name.as_str()) {
            assert(self@.insert(name@) =~= self@);
            return;
        }
        proof {
            use_type_invariant(&*self);
        }
        let ghost before = self.name_seq();
        let ghost nv = name@;
        let mut names: Vec<String> = Vec::new();
        std::mem::swap(&mut names, &mut self.names);
        assert(names@.map_values(|s: String| s@) == before);
        names.push(name);
        assert(names@.map_values(|s: String| s@) =~= before.push(nv));
        self.names = names;
        assert(self.name_seq() =~= before.push(nv));
        proof {
            lemma_to_set_push(before, nv);
        }
    }

    /// The number of names in the set.
    pub fn len(&self) -> (r: usize)
        ensures
            r == self@.len(),
    {
        proof {
            use_type_invariant(self);
            self.name_seq().unique_seq_to_set();
        }
        self.names.len()
    }
}

proof fn lemma_to_set_push<A>(s: Seq<A>, x: A)
    ensures
        s.push(x).to_set() == s.to_set().insert(x),
{
    assert forall|a: A| #[trigger] s.push(x).to_set().contains(a) == s.to_set().insert(x).contains(a) by {
        if s.push(x).contains(a) {
            let i = choose|i: int| 0 <= i < s.push(x).len() && s.push(x)[i] == a;
            if i < s.len() {
                assert(s[i] == a);
            }
        }
        if s.contains(a) {
            let i = choose|i: int| 0 <= i < s.len() && s[i] == a;
            assert(s.push(x)[i] == a);
        }
        if a == x {
            assert(s.push(x)[s.len() as int] == x);
        }
    }
    assert(s.push(x).to_set() =~= s.to_set().insert(x));
}

/// Whether the two texts are equal.
fn same_text(a: &str, b: &str) -> (r: bool)
    ensures
        r == (a@ == b@),
{
    let n = a.unicode_len();
    if n != b.unicode_len() {
        return false;
    }
    let mut i: usize = 0;
    while i < n
        invariant
            n == a@.len(),
            n == b@.len(),
            i <= n,
            forall|k: int| 0 <= k < i ==> a@[k] == b@[k],
        decreases n - i,
    {
        if a.get_char(i) != b.get_char(i) {
            return false;
        }
        i = i + 1;
    }
    assert(a@ =~= b@);
    true
}

/// The names that the trimmed, non-empty pieces of `pieces` contribute.
pub open spec fn trimmed_names(pieces: Seq<Seq<char>>) -> Seq<Seq<char>>
    decreases pieces.len(),
{
    if pieces.len() == 0 {
        Seq::empty()
    } else {
        let t = trim(pieces.last());
        trimmed_names(pieces.drop_last()) + if t.len() > 0 {
            seq![t]
        } else {
            Seq::empty()
        }
    }
}

/// The denied names in order: the defaults, then the trimmed, non-empty
/// comma-separated pieces of each user entry.
pub open spec fn deny_candidates(extra: Seq<Seq<char>>) -> Seq<Seq<char>>
    decreases extra.len(),
{
    if extra.len() == 0 {
        default_deny_names()
    } else {
        deny_candidates(extra.drop_last()) + trimmed_names(split_commas(extra.last()))
    }
}

/// The denied directory names for the user's extra entries.
pub open spec fn deny_names(extra: Seq<Seq<char>>) -> Set<Seq<char>> {
    deny_candidates(extra).to_set()
}

/// Every default name is denied, whatever the user adds; so is every
/// trimmed, non-empty comma-separated piece of a user entry.
pub proof fn lemma_deny_names_cover(extra: Seq<Seq<char>>)
    ensures
        forall|k: int|
            0 <= k < default_deny_names().len() ==> deny_names(extra).contains(
                #[trigger] default_deny_names()[k],
            ),
        forall|i: int, j: int|
            0 <= i < extra.len() && 0 <= j < split_commas(extra[i]).len() && trim(
                #[trigger] split_commas(extra[i])[j],
            ).len() > 0 ==> deny_names(extra).contains(trim(split_commas(extra[i])[j])),
    decreases extra.len(),
{
    if extra.len() == 0 {
        assert forall|k: int| 0 <= k < default_deny_names().len() implies deny_names(extra).contains(
            #[trigger] default_deny_names()[k],
        ) by {
            assert(deny_candidates(extra)[k] == default_deny_names()[k]);
        }
    } else {
        let init = extra.drop_last();
        lemma_deny_names_cover(init);
        let a = deny_candidates(init);
        let b = trimmed_names(split_commas(extra.last()));
        assert(deny_candidates(extra) == a + b);
        assert forall|x: Seq<char>| a.contains(x) implies #[trigger] (a + b).contains(x) by {
            let k = choose|k: int| 0 <= k < a.len() && a[k] == x;
            assert((a + b)[k] == x);
        }
        assert forall|i: int, j: int|
            0 <= i < extra.len() && 0 <= j < split_commas(extra[i]).len() && trim(
                #[trigger] split_commas(extra[i])[j],
            ).len() > 0 implies deny_names(extra).contains(trim(split_commas(extra[i])[j])) by {
            if i < extra.len() - 1 {
                assert(extra[i] == init[i]);
                assert(a.contains(trim(split_commas(extra[i])[j])));
            } else {
                lemma_trimmed_names_contains(split_commas(extra[i]), j);
                let x = trim(split_commas(extra[i])[j]);
                let k = choose|k: int| 0 <= k < b.len() && b[k] == x;
                assert((a + b)[a.len() + k] == x);
            }
        }
    }
}

proof fn lemma_trimmed_names_contains(pieces: Seq<Seq<char>>, j: int)
    requires
        0 <= j < pieces.len(),
        trim(pieces[j]).len() > 0,
    ensures
        trimmed_names(pieces).contains(trim(pieces[j])),
    decreases pieces.len(),
{
    let init = pieces.drop_last();
    let t = trim(pieces.last());
    let tail = if t.len() > 0 {
        seq![t]
    } else {
        Seq::<Seq<char>>::empty()
    };
    assert(trimmed_names(pieces) == trimmed_names(init) + tail);
    if j == pieces.len() - 1 {
        assert((trimmed_names(init) + tail)[trimmed_names(init).len() as int] == t);
    } else {
        assert(pieces[j] == init[j]);
        lemma_trimmed_names_contains(init, j);
        let k = choose|k: int| 0 <= k < trimmed_names(init).len() && trimmed_names(init)[k] == trim(pieces[j]);
        assert((trimmed_names(init) + tail)[k] == trim(pieces[j]));
    }
}

/// The names that the user's extra entries contribute, in order.
spec fn extra_names(extra: Seq<Seq<char>>) -> Seq<Seq<char>>
    decreases extra.len(),
{
    if extra.len() == 0 {
        Seq::empty()
    } else {
        extra_names(extra.drop_last()) + trimmed_names(split_commas(extra.last()))
    }
}

proof fn lemma_candidates_split(extra: Seq<Seq<char>>)
    ensures
        deny_candidates(extra) == default_deny_names() + extra_names(extra),
    decreases extra.len(),
{
    if extra.len() == 0 {
        assert(default_deny_names() + Seq::<Seq<char>>::empty() =~= default_deny_names());
    } else {
        lemma_candidates_split(extra.drop_last());
        assert(deny_candidates(extra) =~= default_deny_names() + extra_names(extra));
    }
}

proof fn lemma_extra_names_concat(a: Seq<Seq<char>>, b: Seq<Seq<char>>)
    ensures
        extra_names(a + b) == extra_names(a) + extra_names(b),
    decreases b.len(),
{
    if b.len() == 0 {
        assert(a + b =~= a);
        assert(extra_names(a) + extra_names(b) =~= extra_names(a));
    } else {
        assert((a + b).drop_last() =~= a + b.drop_last());
        assert((a + b).last() == b.last());
        lemma_extra_names_concat(a, b.drop_last());
        assert(extra_names(a + b) =~= extra_names(a) + extra_names(b));
    }
}

proof fn lemma_to_set_concat(x: Seq<Seq<char>>, y: Seq<Seq<char>>)
    ensures
        (x + y).to_set() == x.to_set().union(y.to_set()),
{
    assert forall|n: Seq<char>| #[trigger] (x + y).to_set().contains(n) == x.to_set().union(y.to_set()).contains(n) by {
        if (x + y).contains(n) {
            let k = choose|k: int| 0 <= k < (x + y).len() && (x + y)[k] == n;
            if k < x.len() {
                assert(x[k] == n);
            } else {
                assert(y[k - x.len()] == n);
            }
        }
        if x.contains(n) {
            let k = choose|k: int| 0 <= k < x.len() && x[k] == n;
            assert((x + y)[k] == n);
        }
        if y.contains(n) {
            let k = choose|k: int| 0 <= k < y.len() && y[k] == n;
            assert((x + y)[x.len() + k] == n);
        }
    }
    assert((x + y).to_set() =~= x.to_set().union(y.to_set()));
}

/// The deny set for two lists of user entries joined is the union of their
/// deny sets; so each list's deny set lies in that of the joined list.
pub proof fn lemma_deny_names_distribute(a: Seq<Seq<char>>, b: Seq<Seq<char>>)
    ensures
        deny_names(a + b) == deny_names(a).union(deny_names(b)),
        deny_names(a).subset_of(deny_names(a + b)),
{
    let d = default_deny_names();
    lemma_candidates_split(a);
    lemma_candidates_split(b);
    lemma_candidates_split(a + b);
    lemma_extra_names_concat(a, b);
    assert(d + (extra_names(a) + extra_names(b)) =~= (d + extra_names(a)) + extra_names(b));
    lemma_to_set_concat(d + extra_names(a), extra_names(b));
    lemma_to_set_concat(d, extra_names(a));
    lemma_to_set_concat(d, extra_names(b));
    assert(deny_names(a + b) =~= deny_names(a).union(deny_names(b)));
}

/// The default deny list together with the user's extra entries, each split
/// at commas and trimmed; empty pieces are dropped.
pub fn build_deny_set(user_extra: &[String]) -> (r: DenySet)
    ensures
        r@ == deny_names(user_extra@.map_values(|s: String| s@)),
{
    let ghost extra = user_extra@.map_values(|s: String| s@);
    let mut set = DenySet::new();
    let defaults = default_deny_list();
    let nd = defaults.len();
    let mut i: usize = 0;
    while i < nd
        invariant
            nd == defaults@.len(),
            defaults@.map_values(|s: &'static str| s@) == default_deny_names(),
            i <= nd,
            set@ == default_deny_names().take(i as int).to_set(),
        decreases nd - i,
    {
        let ghost before = set@;
        set.insert(String::from_str(defaults[i]));
        proof {
            let d = default_deny_names();
            assert(d[i as int] == defaults@[i as int]@);
            assert(d.take(i as int + 1) =~= d.take(i as int).push(d[i as int]));
            lemma_to_set_push(d.take(i as int), d[i as int]);
        }
        i = i + 1;
    }
    assert(default_deny_names().take(nd as int) =~= default_deny_names());
    assert(deny_candidates(extra.take(0)) == default_deny_names());
    let ne = user_extra.len();
    let mut j: usize = 0;
    while j < ne
        invariant
            ne == user_extra@.len(),
            extra == user_extra@.map_values(|s: String| s@),
            j <= ne,
            set@ == deny_candidates(extra.take(j as int)).to_set(),
        decreases ne - j,
    {
        let ghost before = deny_candidates(extra.take(j as int));
        add_pieces(&mut set, user_extra[j].as_str(), Ghost(before));
        proof {
            assert(extra.take(j as int + 1).drop_last() =~= extra.take(j as int));
            assert(extra[j as int] == user_extra@[j as int]@);
        }
        j = j + 1;
    }
    assert(extra.take(ne as int) =~= extra);
    set
}

/// Adds the trimmed, non-empty comma-separated pieces of `entry`.
fn add_pieces(set: &mut DenySet, entry: &str, Ghost(before): Ghost<Seq<Seq<char>>>)
    requires
        old(set)@ == before.to_set(),
    ensures
        final(set)@ == (before + trimmed_names(split_commas(entry@))).to_set(),
{
    let n = entry.unicode_len();
    let mut start: usize = 0;
    let mut k: usize = 0;
    let ghost mut done: Seq<Seq<char>> = Seq::empty();
    assert(entry@.take(0) =~= Seq::<char>::empty());
    assert(entry@.subrange(0, 0) =~= Seq::<char>::empty());
    assert(before + trimmed_names(done) =~= before);
    while k < n
        invariant
            n == entry@.len(),
            start <= k <= n,
            split_commas(entry@.take(k as int)) == done.push(entry@.subrange(start as int, k as int)),
            set@ == (before + trimmed_names(done)).to_set(),
        decreases n - k,
    {
        let c = entry.get_char(k);
        proof {
            assert(entry@.take(k as int + 1).drop_last() =~= entry@.take(k as int));
            lemma_split_commas_nonempty(entry@.take(k as int));
        }
        if c == ',' {
            let piece = entry.substring_char(start, k);
            add_trimmed(set, piece, Ghost(before + trimmed_names(done)));
            proof {
                let nd = done.push(piece@);
                assert(nd.drop_last() =~= done);
                assert(before + trimmed_names(nd) =~= before + trimmed_names(done) + (if trim(
                    piece@,
                ).len() > 0 {
                    seq![trim(piece@)]
                } else {
                    Seq::empty()
                }));
                done = nd;
                assert(entry@.subrange(k as int + 1, k as int + 1) =~= Seq::<char>::empty());
            }
            start = k + 1;
        } else {
            proof {
                assert(entry@.subrange(start as int, k as int + 1) =~= entry@.subrange(
                    start as int,
                    k as int,
                ).push(c));
                let sp = split_commas(entry@.take(k as int));
                assert(sp.update(sp.len() - 1, sp.last().push(c)) =~= done.push(
                    entry@.subrange(start as int, k as int + 1),
                ));
            }
        }
        k = k + 1;
    }
    let piece = entry.substring_char(start, n);
    add_trimmed(set, piece, Ghost(before + trimmed_names(done)));
    proof {
        assert(entry@.take(n as int) =~= entry@);
        let nd = done.push(piece@);
        assert(nd.drop_last() =~= done);
        assert(before + trimmed_names(nd) =~= before + trimmed_names(done) + (if trim(piece@).len() > 0 {
            seq![trim(piece@)]
        } else {
            Seq::empty()
        }));
    }
}

/// Adds the trimmed `piece` where it is not empty.
fn add_trimmed(set: &mut DenySet, piece: &str, Ghost(names): Ghost<Seq<Seq<char>>>)
    requires
        old(set)@ == names.to_set(),
    ensures
        final(set)@ == (names + if trim(piece@).len() > 0 {
            seq![trim(piece@)]
        } else {
            Seq::<Seq<char>>::empty()
        }).to_set(),
{
    let t = trim_text(piece);
    if t.unicode_len() > 0 {
        set.insert(String::from_str(t));
        assert(names + seq![t@] =~= names.push(t@));
        proof {
            lemma_to_set_push(names, t@);
        }
    } else {
        assert(names + Seq::<Seq<char>>::empty() =~= names);
    }
}

/// The `k`-th directory below the root on the relative path `rel` (its
/// first `k` components) is denied: its name is a denied name, or the path
/// from the root to it, joined by `/`, is a denied entry.
pub open spec fn denies_dir_at(rel: Seq<Seq<char>>, k: int, deny: Set<Seq<char>>) -> bool {
    deny.contains(rel[k - 1]) || deny.contains(join_parts(rel.take(k)))
}

/// One of the first `dirs` components of `rel` is a denied directory.
pub open spec fn denied_within(rel: Seq<Seq<char>>, dirs: int, deny: Set<Seq<char>>) -> bool {
    exists|k: int| 1 <= k <= dirs && #[trigger] denies_dir_at(rel, k, deny)
}

/// The first `k` components of `p` joined by `/`.
fn join_first(p: &FsPath, k: usize) -> (r: String)
    requires
        k <= p@.len(),
    ensures
        r@ == join_parts(p@.take(k as int)),
{
    proof {
        reveal_strlit("/");
    }
    let mut text = String::new();
    let ghost q = p@;
    assert(q.take(0) =~= Seq::<Seq<char>>::empty());
    let mut i: usize = 0;
    while i < k
        invariant
            q == p@,
            q.len() == p.parts@.len(),
            i <= k <= q.len(),
            text@ == join_parts(q.take(i as int)),
            "/"@ == seq!['/'],
        decreases k - i,
    {
        if i > 0 {
            text.append("/");
        }
        text.append(p.parts[i].as_str());
        proof {
            assert(q.take(i as int + 1).drop_last() =~= q.take(i as int));
            assert(text@ =~= join_parts(q.take(i as int + 1)));
        }
        i = i + 1;
    }
    text
}

/// Whether the directory made of the first `k` components of `rel` is
/// denied.
fn dir_denied_at(rel: &FsPath, k: usize, deny: &DenySet) -> (r: bool)
    requires
        1 <= k <= rel@.len(),
    ensures
        r == denies_dir_at(rel@, k as int, deny@),
{
    let text = join_first(rel, k);
    deny.contains(rel.parts[k - 1].as_str()) || deny.contains(text.as_str())
}

/// Whether one of the first `dirs` components of the relative path `rel`
/// is a denied directory.
pub fn has_denied_dir(rel: &FsPath, dirs: usize, deny: &DenySet) -> (r: bool)
    requires
        dirs <= rel@.len(),
    ensures
        r == denied_within(rel@, dirs as int, deny@),
{
    let mut k: usize = 0;
    while k < dirs
        invariant
            k <= dirs <= rel@.len(),
            forall|j: int| 1 <= j <= k ==> !#[trigger] denies_dir_at(rel@, j, deny@),
        decreases dirs - k,
    {
        if dir_denied_at(rel, k + 1, deny) {
            return true;
        }
        k = k + 1;
    }
    false
}

/// Whether the walk descends into (or, for a file, yields) the entry at
/// `path`: a directory below `root` that is denied is skipped with all it
/// holds; `root` itself, and every file, is kept.
pub fn keep_walk_entry(path: &FsPath, root: &FsPath, is_dir: bool, deny: &DenySet) -> (r: bool)
    ensures
        r == !(is_dir && is_prefix_of(root@, path@) && path@.len() > root@.len() && denies_dir_at(
            relative_path(path@, root@),
            path@.len() - root@.len(),
            deny@,
        )),
{
    if !is_dir {
        return true;
    }
    match path.strip_prefix(root) {
        Some(rel) => {
            let n = rel.parts.len();
            if n == 0 {
                return true;
            }
            !dir_denied_at(&rel, n, deny)
        },
        None => true,
    }
}

/// The part of `path` below `root`.
pub open spec fn relative_path(path: Seq<Seq<char>>, root: Seq<Seq<char>>) -> Seq<Seq<char>> {
    path.subrange(root.len() as int, path.len() as int)
}

/// An entry found by walking a directory tree: its full path, whether it is
/// a regular file (links are not followed), and its modification time and
/// size where they could be read.
pub struct WalkEntry {
    pub path: FsPath,
    pub is_file: bool,
    pub metadata: Option<(FileTime, u64)>,
}

/// What a [`WalkEntry`] stands for.
pub struct WalkView {
    pub path: Seq<Seq<char>>,
    pub is_file: bool,
    pub metadata: Option<(FileTime, u64)>,
}

impl View for WalkEntry {
    type V = WalkView;

    open spec fn view(&self) -> WalkView {
        WalkView { path: self.path@, is_file: self.is_file, metadata: self.metadata }
    }
}

/// The image entry for a walked entry: a regular file with an image
/// extension, whose metadata could be read, under `root` and in no denied
/// directory below it; its path is made relative to `root`.
pub open spec fn scan_candidate(w: WalkView, root: Seq<Seq<char>>, deny: Set<Seq<char>>) -> Option<EntryView> {
    let rel = relative_path(w.path, root);
    match w.metadata {
        Some((mtime, size)) => {
            if w.is_file && has_image_extension(w.path) && is_prefix_of(root, w.path) && !denied_within(
                rel,
                rel.len() - 1,
                deny,
            ) {
                Some(EntryView { path: rel, mtime: mtime, size: size })
            } else {
                None
            }
        },
        None => None,
    }
}

/// The image entries for the walked entries, in walk order.
pub open spec fn scan_candidates(ws: Seq<WalkView>, root: Seq<Seq<char>>, deny: Set<Seq<char>>) -> Seq<EntryView>
    decreases ws.len(),
{
    if ws.len() == 0 {
        Seq::empty()
    } else {
        scan_candidates(ws.drop_last(), root, deny) + match scan_candidate(ws.last(), root, deny) {
            Some(e) => seq![e],
            None => Seq::empty(),
        }
    }
}

proof fn lemma_scan_candidates_allowed(ws: Seq<WalkView>, root: Seq<Seq<char>>, deny: Set<Seq<char>>)
    ensures
        forall|k: int|
            0 <= k < scan_candidates(ws, root, deny).len() ==> !denied_within(
                (#[trigger] scan_candidates(ws, root, deny)[k]).path,
                scan_candidates(ws, root, deny)[k].path.len() - 1,
                deny,
            ),
    decreases ws.len(),
{
    if ws.len() > 0 {
        lemma_scan_candidates_allowed(ws.drop_last(), root, deny);
        let init = scan_candidates(ws.drop_last(), root, deny);
        let c = scan_candidates(ws, root, deny);
        assert forall|k: int| 0 <= k < c.len() implies !denied_within(
            (#[trigger] c[k]).path,
            c[k].path.len() - 1,
            deny,
        ) by {
            if k < init.len() {
                assert(c[k] == init[k]);
            }
        }
    }
}

/// No image collected by a scan lies inside a denied directory below the
/// root.
pub proof fn lemma_collected_images_allowed(
    ws: Seq<WalkView>,
    root: Seq<Seq<char>>,
    deny: Set<Seq<char>>,
    out: Seq<EntryView>,
)
    requires
        sorted_by_recency(scan_candidates(ws, root, deny), out),
    ensures
        forall|k: int| 0 <= k < out.len() ==> !denied_within((#[trigger] out[k]).path, out[k].path.len() - 1, deny),
{
    lemma_scan_candidates_allowed(ws, root, deny);
    let src = scan_candidates(ws, root, deny);
    let p = choose|p: Seq<int>| stable_recency_order(src, out, p);
    assert forall|k: int| 0 <= k < out.len() implies !denied_within((#[trigger] out[k]).path, out[k].path.len() - 1, deny) by {
        assert(out[k] == src[p[k]]);
    }
}

/// The image entries among the entries found by a walk, with paths relative
/// to `root`, newest first; entries of equal time stay in walk order. Files
/// inside a denied directory below `root` are left out.
pub fn collect_images(walked: &Vec<WalkEntry>, root: &FsPath, deny: &DenySet) -> (r: Vec<ImageEntry>)
    ensures
        sorted_by_recency(
            scan_candidates(walked@.map_values(|w: WalkEntry| w@), root@, deny@),
            entry_views(r@),
        ),
{
    let ghost ws = walked@.map_values(|w: WalkEntry| w@);
    let n = walked.len();
    let mut found: Vec<ImageEntry> = Vec::new();
    let mut i: usize = 0;
    while i < n
        invariant
            n == walked@.len(),
            ws == walked@.map_values(|w: WalkEntry| w@),
            i <= n,
            entry_views(found@) == scan_candidates(ws.take(i as int), root@, deny@),
        decreases n - i,
    {
        let w = &walked[i];
        let ghost before = found@;
        proof {
            assert(ws.take(i as int + 1).drop_last() =~= ws.take(i as int));
            assert(ws.take(i as int + 1).last() == w@);
        }
        if w.is_file && is_image_extension(&w.path) {
            match w.metadata {
                Some((mtime, size)) => {
                    match w.path.strip_prefix(root) {
                        Some(rel) => {
                            let n_rel = rel.parts.len();
                            let dirs = if n_rel > 0 { n_rel - 1 } else { 0 };
                            if !has_denied_dir(&rel, dirs, deny) {
                                let e = ImageEntry { path: rel, mtime, size };
                                found.push(e);
                                assert(entry_views(found@) =~= entry_views(before).push(e@));
                            }
                        },
                        None => {},
                    }
                },
                None => {},
            }
        }
        assert(entry_views(found@) =~= scan_candidates(ws.take(i as int + 1), root@, deny@));
        i = i + 1;
    }
    assert(ws.take(n as int) =~= ws);
    sort_by_recency(&found)
}

} // verus!
