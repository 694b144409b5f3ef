//! The decisions of the filesystem watcher: debouncing raw events, deciding
//! what each settled event means for the index, and applying it.

use vstd::prelude::*;

use crate::index::{remove_model, remove_under_model, upsert_model, ChangeKind, ImageIndex};
use crate::path::{is_prefix_of, FsPath};
use crate::scanner::{denied_within, has_denied_dir, DenySet};
use crate::types::{has_image_extension, is_image_extension, ws_add, ws_add_text, ws_remove, ws_remove_text, ws_update, ws_update_text, ImageEntry};

verus! {

/// The kind of a filesystem event, as the watcher reports it.
#[derive(Debug, Clone, Copy, PartialEq, Eq, Structural)]
pub enum FsEventKind {
    Any,
    /// An access that changes nothing: an open, a read, or a close after
    /// reading.
    Access,
    Create,
    Modify,
    /// A file opened for writing was closed.
    CloseWrite,
    Remove,
    Other,
}

/// A kind that tells nothing about a change: a later event of such a kind
/// does not hide the change that an earlier event announced.
pub open spec fn is_weak_kind(k: FsEventKind) -> bool {
    k == FsEventKind::Access || k == FsEventKind::Any || k == FsEventKind::Other
}

fn is_weak(k: FsEventKind) -> (r: bool)
    ensures
        r == is_weak_kind(k),
{
    match k {
        FsEventKind::Access | FsEventKind::Any | FsEventKind::Other => true,
        _ => false,
    }
}

/// How long a path must stay quiet before its last event is acted on: 100 ms,
/// in nanoseconds.
pub const DEBOUNCE_NANOS: u64 = 100_000_000;

/// An event at `received_at` (nanoseconds on a monotonic clock) has waited
/// out the debounce window at `now`; a clock reading earlier than the event
/// counts as no time passed.
pub open spec fn is_settled(received_at: u64, now: u64) -> bool {
    now >= received_at && now - received_at >= DEBOUNCE_NANOS
}

/// The pending event of a path: its (merged) kind and the time of its
/// latest event.
pub struct PendingEvent {
    pub kind: FsEventKind,
    pub path: FsPath,
    pub received_at: u64,
}

/// What a [`PendingEvent`] stands for.
pub struct PendingView {
    pub kind: FsEventKind,
    pub path: Seq<Seq<char>>,
    pub received_at: u64,
}

impl View for PendingEvent {
    type V = PendingView;

    open spec fn view(&self) -> PendingView {
        PendingView { kind: self.kind, path: self.path@, received_at: self.received_at }
    }
}

impl Clone for PendingEvent {
    fn clone(&self) -> (r: Self)
        ensures
            r@ == self@,
    {
        PendingEvent { kind: self.kind, path: self.path.clone(), received_at: self.received_at }
    }
}

/// The views of a sequence of pending events.
pub open spec fn pending_views(v: Seq<PendingEvent>) -> Seq<PendingView> {
    v.map_values(|e: PendingEvent| e@)
}

/// No two events are for the same path.
pub open spec fn distinct_paths(s: Seq<PendingView>) -> bool {
    forall|i: int, j: int| 0 <= i < j < s.len() ==> (#[trigger] s[i]).path != (#[trigger] s[j]).path
}

/// The events as a map from path to kind and time.
pub open spec fn pending_map(s: Seq<PendingView>) -> Map<Seq<Seq<char>>, (FsEventKind, u64)> {
    Map::new(
        |p: Seq<Seq<char>>| exists|i: int| 0 <= i < s.len() && (#[trigger] s[i]).path == p,
        |p: Seq<Seq<char>>|
            {
                let i = choose|i: int| 0 <= i < s.len() && (#[trigger] s[i]).path == p;
                (s[i].kind, s[i].received_at)
            },
    )
}

proof fn lemma_pending_map_at(s: Seq<PendingView>, i: int)
    requires
        distinct_paths(s),
        0 <= i < s.len(),
    ensures
        pending_map(s).contains_key(s[i].path),
        pending_map(s)[s[i].path] == (s[i].kind, s[i].received_at),
{
    let p = s[i].path;
    assert(exists|k: int| 0 <= k < s.len() && (#[trigger] s[k]).path == p);
    let j = choose|k: int| 0 <= k < s.len() && (#[trigger] s[k]).path == p;
    if j < i {
        assert(s[j].path != s[i].path);
    } else if i < j {
        assert(s[i].path != s[j].path);
    }
}

/// Holds the last event of each path until it settles.
pub struct Debouncer {
    pending: Vec<PendingEvent>,
}

impl Debouncer {
    #[verifier::type_invariant]
    spec fn one_event_per_path(&self) -> bool {
        distinct_paths(pending_views(self.pending@))
    }
}

impl View for Debouncer {
    type V = Map<Seq<Seq<char>>, (FsEventKind, u64)>;

    closed spec fn view(&self) -> Map<Seq<Seq<char>>, (FsEventKind, u64)> {
        pending_map(pending_views(self.pending@))
    }
}

/// The kind a path's pending event takes when an event of kind `kind`
/// arrives: the new kind, unless it is weak and the pending one is not, in
/// which case the pending kind stays.
pub open spec fn merged_kind(
    m: Map<Seq<Seq<char>>, (FsEventKind, u64)>,
    p: Seq<Seq<char>>,
    kind: FsEventKind,
) -> FsEventKind {
    if m.contains_key(p) && is_weak_kind(kind) && !is_weak_kind(m[p].0) {
        m[p].0
    } else {
        kind
    }
}

/// Recording an event of kind `kind` at `now` for each of `paths`: each
/// path's entry takes time `now` and the merged kind.
pub open spec fn record_model(
    m: Map<Seq<Seq<char>>, (FsEventKind, u64)>,
    paths: Seq<Seq<Seq<char>>>,
    kind: FsEventKind,
    now: u64,
) -> Map<Seq<Seq<char>>, (FsEventKind, u64)> {
    Map::new(
        |p: Seq<Seq<char>>| m.contains_key(p) || paths.contains(p),
        |p: Seq<Seq<char>>|
            if paths.contains(p) {
                (merged_kind(m, p, kind), now)
            } else {
                m[p]
            },
    )
}

/// The entries of `m` that have settled at `now`.
pub open spec fn settled_part(m: Map<Seq<Seq<char>>, (FsEventKind, u64)>, now: u64) -> Map<Seq<Seq<char>>, (FsEventKind, u64)> {
    Map::new(|p: Seq<Seq<char>>| m.contains_key(p) && is_settled(m[p].1, now), |p: Seq<Seq<char>>| m[p])
}

/// The entries of `m` that have not settled at `now`.
pub open spec fn unsettled_part(m: Map<Seq<Seq<char>>, (FsEventKind, u64)>, now: u64) -> Map<Seq<Seq<char>>, (FsEventKind, u64)> {
    Map::new(|p: Seq<Seq<char>>| m.contains_key(p) && !is_settled(m[p].1, now), |p: Seq<Seq<char>>| m[p])
}

proof fn lemma_pending_map_push(s: Seq<PendingView>, e: PendingView)
    requires
        distinct_paths(s),
        !pending_map(s).contains_key(e.path),
    ensures
        distinct_paths(s.push(e)),
        pending_map(s.push(e)) == pending_map(s).insert(e.path, (e.kind, e.received_at)),
{
    let t = s.push(e);
    let n = s.len();
    assert forall|a: int, b: int| 0 <= a < b < t.len() implies (#[trigger] t[a]).path != (
    #[trigger] t[b]).path by {
        if b < n {
            assert(s[a].path != s[b].path);
        } else {
            assert(t[a] == s[a]);
            if s[a].path == e.path {
                assert(pending_map(s).contains_key(e.path));
            }
        }
    }
    assert forall|p: Seq<Seq<char>>| #[trigger] pending_map(t).contains_key(p)
        == pending_map(s).insert(e.path, (e.kind, e.received_at)).contains_key(p) by {
        if pending_map(t).contains_key(p) {
            let k = choose|k: int| 0 <= k < t.len() && (#[trigger] t[k]).path == p;
            if k < n {
                lemma_pending_map_at(s, k);
            }
        }
        if pending_map(s).contains_key(p) {
            let k = choose|k: int| 0 <= k < s.len() && (#[trigger] s[k]).path == p;
            lemma_pending_map_at(t, k);
        }
        if p == e.path {
            lemma_pending_map_at(t, n as int);
        }
    }
    assert forall|p: Seq<Seq<char>>| #[trigger] pending_map(t).contains_key(p) implies pending_map(t)[p]
        == pending_map(s).insert(e.path, (e.kind, e.received_at))[p] by {
        let k = choose|k: int| 0 <= k < t.len() && (#[trigger] t[k]).path == p;
        lemma_pending_map_at(t, k);
        if k < n {
            lemma_pending_map_at(s, k);
        }
    }
    assert(pending_map(t) =~= pending_map(s).insert(e.path, (e.kind, e.received_at)));
}

/// Records `ev` for its path: it replaces the pending event for the path,
/// keeping that event's kind where `ev`'s kind is weak and the pending one is
/// not; or it is added.
fn put_event(v: &mut Vec<PendingEvent>, ev: PendingEvent)
    requires
        distinct_paths(pending_views(old(v)@)),
    ensures
        distinct_paths(pending_views(final(v)@)),
        pending_map(pending_views(final(v)@)) == pending_map(pending_views(old(v)@)).insert(
            ev@.path,
            (merged_kind(pending_map(pending_views(old(v)@)), ev@.path, ev@.kind), ev@.received_at),
        ),
{
    let ghost s = pending_views(v@);
    let ghost evv = ev@;
    let n = v.len();
    let mut i: usize = 0;
    while i < n
        invariant
            n == v@.len(),
            s == pending_views(v@),
            v@ == old(v)@,
            evv == ev@,
            distinct_paths(s),
            i <= n,
            forall|k: int| 0 <= k < i ==> (#[trigger] s[k]).path != evv.path,
        decreases n - i,
    {
        if v[i].path.same_as(&ev.path) {
            assert(s[i as int] == v@[i as int]@);
            proof {
                lemma_pending_map_at(s, i as int);
            }
            let kind = if is_weak(ev.kind) && !is_weak(v[i].kind) {
                v[i].kind
            } else {
                ev.kind
            };
            let ghost nv = PendingView { kind, path: evv.path, received_at: evv.received_at };
            let merged = PendingEvent { kind, path: ev.path, received_at: ev.received_at };
            assert(merged@ == nv);
            v.set(i, merged);
            let ghost t = pending_views(v@);
            assert(t =~= s.update(i as int, nv));
            let ghost val = (nv.kind, nv.received_at);
            assert forall|a: int, b: int| 0 <= a < b < t.len() implies (#[trigger] t[a]).path != (
            #[trigger] t[b]).path by {
                assert(s[a].path != s[b].path);
                assert(s[i as int].path == evv.path);
            }
            assert forall|p: Seq<Seq<char>>| #[trigger] pending_map(t).contains_key(p)
                == pending_map(s).insert(evv.path, val).contains_key(p) by {
                if pending_map(t).contains_key(p) {
                    let k = choose|k: int| 0 <= k < t.len() && (#[trigger] t[k]).path == p;
                    if k != i {
                        lemma_pending_map_at(s, k);
                    }
                }
                if pending_map(s).contains_key(p) {
                    let k = choose|k: int| 0 <= k < s.len() && (#[trigger] s[k]).path == p;
                    lemma_pending_map_at(t, k);
                }
                if p == evv.path {
                    lemma_pending_map_at(t, i as int);
                }
            }
            assert forall|p: Seq<Seq<char>>| #[trigger] pending_map(t).contains_key(p) implies pending_map(t)[p]
                == pending_map(s).insert(evv.path, val)[p] by {
                let k = choose|k: int| 0 <= k < t.len() && (#[trigger] t[k]).path == p;
                lemma_pending_map_at(t, k);
                if k != i {
                    lemma_pending_map_at(s, k);
                }
            }
            assert(pending_map(t) =~= pending_map(s).insert(evv.path, val));
            return;
        }
        assert(s[i as int] == v@[i as int]@);
        i = i + 1;
    }
    proof {
        if pending_map(s).contains_key(evv.path) {
            let k = choose|k: int| 0 <= k < s.len() && (#[trigger] s[k]).path == evv.path;
            assert(s[k].path != evv.path);
        }
        lemma_pending_map_push(s, evv);
    }
    v.push(ev);
    assert(pending_views(v@) =~= s.push(evv));
}

proof fn lemma_pending_map_empty()
    ensures
        pending_map(Seq::<PendingView>::empty()) == Map::<Seq<Seq<char>>, (FsEventKind, u64)>::empty(),
{
    assert(pending_map(Seq::<PendingView>::empty()) =~= Map::<Seq<Seq<char>>, (FsEventKind, u64)>::empty());
}

impl Debouncer {
    /// No events pending.
    pub fn new() -> (r: Debouncer)
        ensures
            r@ == Map::<Seq<Seq<char>>, (FsEventKind, u64)>::empty(),
    {
        proof {
            lemma_pending_map_empty();
        }
        let r = Debouncer { pending: Vec::new() };
        assert(pending_views(r.pending@) =~= Seq::<PendingView>::empty());
        r
    }

    /// Records an event of kind `kind` received at `now` for each of `paths`;
    /// it replaces any event still pending for the same path.
    pub fn record(&mut self, paths: &Vec<FsPath>, kind: FsEventKind, now: u64)
        ensures
            final(self)@ == record_model(old(self)@, paths@.map_values(|p: FsPath| p@), kind, now),
    {
        proof {
            use_type_invariant(&*self);
        }
        let ghost m = self@;
        let ghost pv = paths@.map_values(|p: FsPath| p@);
        let mut v: Vec<PendingEvent> = Vec::new();
        std::mem::swap(&mut v, &mut self.pending);
        assert(record_model(m, pv.take(0), kind, now) =~= m);
        let n = paths.len();
        let mut i: usize = 0;
        while i < n
            invariant
                n == paths@.len(),
                pv == paths@.map_values(|p: FsPath| p@),
                i <= n,
                distinct_paths(pending_views(v@)),
                pending_map(pending_views(v@)) == record_model(m, pv.take(i as int), kind, now),
            decreases n - i,
        {
            let ghost before = pending_map(pending_views(v@));
            let ev = PendingEvent { kind, path: paths[i].clone(), received_at: now };
            put_event(&mut v, ev);
            proof {
                let q = pv[i as int];
                assert(pv.take(i as int + 1) =~= pv.take(i as int).push(q));
                assert forall|p: Seq<Seq<char>>| #[trigger] pv.take(i as int + 1).contains(p)
                    == (pv.take(i as int).contains(p) || p == q) by {
                    if pv.take(i as int + 1).contains(p) {
                        let k = choose|k: int| 0 <= k < i + 1 && #[trigger] pv.take(i as int + 1)[k] == p;
                        if k < i {
                            assert(pv.take(i as int)[k] == p);
                        }
                    }
                    if pv.take(i as int).contains(p) {
                        let k = choose|k: int| 0 <= k < i && #[trigger] pv.take(i as int)[k] == p;
                        assert(pv.take(i as int + 1)[k] == p);
                    }
                    if p == q {
                        assert(pv.take(i as int + 1)[i as int] == p);
                    }
                }
                assert(record_model(m, pv.take(i as int + 1), kind, now) =~= before.insert(q, (merged_kind(before, q, kind), now)));
            }
            i = i + 1;
        }
        assert(pv.take(n as int) =~= pv);
        self.pending = v;
    }

    /// Takes out every event that has settled at `now`, each path once, in no
    /// particular order; the others stay pending.
    pub fn take_settled(&mut self, now: u64) -> (r: Vec<PendingEvent>)
        ensures
            distinct_paths(pending_views(r@)),
            pending_map(pending_views(r@)) == settled_part(old(self)@, now),
            final(self)@ == unsettled_part(old(self)@, now),
    {
        proof {
            use_type_invariant(&*self);
        }
        let ghost m = self@;
        let mut v: Vec<PendingEvent> = Vec::new();
        std::mem::swap(&mut v, &mut self.pending);
        let ghost s = pending_views(v@);
        let n = v.len();
        let mut ready: Vec<PendingEvent> = Vec::new();
        let mut keep: Vec<PendingEvent> = Vec::new();
        proof {
            lemma_pending_map_empty();
            assert(pending_views(ready@) =~= Seq::<PendingView>::empty());
            assert(pending_views(keep@) =~= Seq::<PendingView>::empty());
            assert(s.take(0) =~= Seq::<PendingView>::empty());
            assert(settled_part(pending_map(s.take(0)), now) =~= Map::empty());
            assert(unsettled_part(pending_map(s.take(0)), now) =~= Map::empty());
        }
        let mut i: usize = 0;
        while i < n
            invariant
                n == v@.len(),
                s == pending_views(v@),
                m == pending_map(s),
                distinct_paths(s),
                i <= n,
                distinct_paths(pending_views(ready@)),
                distinct_paths(pending_views(keep@)),
                pending_map(pending_views(ready@)) == settled_part(pending_map(s.take(i as int)), now),
                pending_map(pending_views(keep@)) == unsettled_part(pending_map(s.take(i as int)), now),
            decreases n - i,
        {
            let ghost e = s[i as int];
            let ghost pre = s.take(i as int);
            let ghost rv = pending_views(ready@);
            let ghost kv = pending_views(keep@);
            proof {
                assert(s.take(i as int + 1) =~= pre.push(e));
                assert forall|a: int, b: int| 0 <= a < b < pre.len() implies (#[trigger] pre[a]).path != (
                #[trigger] pre[b]).path by {
                    assert(pre[a] == s[a] && pre[b] == s[b]);
                }
                if pending_map(pre).contains_key(e.path) {
                    let k = choose|k: int| 0 <= k < pre.len() && (#[trigger] pre[k]).path == e.path;
                    assert(s[k].path != s[i as int].path);
                }
                lemma_pending_map_push(pre, e);
                assert(e == v@[i as int]@);
            }
            let ev = v[i].clone();
            if ev.received_at <= now && now - ev.received_at >= DEBOUNCE_NANOS {
                proof {
                    if pending_map(rv).contains_key(e.path) {
                        assert(settled_part(pending_map(pre), now).contains_key(e.path));
                    }
                    lemma_pending_map_push(rv, e);
                    assert(settled_part(pending_map(pre.push(e)), now) =~= settled_part(
                        pending_map(pre),
                        now,
                    ).insert(e.path, (e.kind, e.received_at)));
                    assert(unsettled_part(pending_map(pre.push(e)), now) =~= unsettled_part(
                        pending_map(pre),
                        now,
                    ));
                }
                ready.push(ev);
                assert(pending_views(ready@) =~= rv.push(e));
            } else {
                proof {
                    if pending_map(kv).contains_key(e.path) {
                        assert(unsettled_part(pending_map(pre), now).contains_key(e.path));
                    }
                    lemma_pending_map_push(kv, e);
                    assert(unsettled_part(pending_map(pre.push(e)), now) =~= unsettled_part(
                        pending_map(pre),
                        now,
                    ).insert(e.path, (e.kind, e.received_at)));
                    assert(settled_part(pending_map(pre.push(e)), now) =~= settled_part(
                        pending_map(pre),
                        now,
                    ));
                }
                keep.push(ev);
                assert(pending_views(keep@) =~= kv.push(e));
            }
            i = i + 1;
        }
        assert(s.take(n as int) =~= s);
        self.pending = keep;
        ready
    }
}

/// After events for `paths` at `now`, a later check at `later` acts on
/// those paths exactly when the debounce window has passed, and then with
/// the time of the latest event and its kind, merged with the pending one.
pub proof fn lemma_record_then_settle(
    m: Map<Seq<Seq<char>>, (FsEventKind, u64)>,
    paths: Seq<Seq<Seq<char>>>,
    kind: FsEventKind,
    now: u64,
    later: u64,
)
    ensures
        forall|p: Seq<Seq<char>>|
            paths.contains(p) ==> (#[trigger] settled_part(record_model(m, paths, kind, now), later).contains_key(p)
                <==> is_settled(now, later)),
        forall|p: Seq<Seq<char>>|
            paths.contains(p) && is_settled(now, later) ==> #[trigger] settled_part(
                record_model(m, paths, kind, now),
                later,
            )[p] == (merged_kind(m, p, kind), now),
{
}

/// Taking the settled events splits the pending ones: what is taken and
/// what stays have no path in common and together are all that was
/// pending; nothing that stays has settled.
pub proof fn lemma_settle_partitions(m: Map<Seq<Seq<char>>, (FsEventKind, u64)>, now: u64)
    ensures
        settled_part(m, now).dom().disjoint(unsettled_part(m, now).dom()),
        settled_part(m, now).union_prefer_right(unsettled_part(m, now)) == m,
        settled_part(unsettled_part(m, now), now) == Map::<Seq<Seq<char>>, (FsEventKind, u64)>::empty(),
{
    assert(settled_part(m, now).union_prefer_right(unsettled_part(m, now)) =~= m);
    assert(settled_part(unsettled_part(m, now), now) =~= Map::<Seq<Seq<char>>, (FsEventKind, u64)>::empty());
}

/// What a settled event asks of the gallery.
pub enum EventAction {
    /// Nothing.
    Ignore,
    /// Watch the directory at the event's path and scan it for images.
    ScanDirectory,
    /// Read the file's metadata and add or refresh it under this relative path.
    UpsertFile(FsPath),
    /// Remove the image with this relative path.
    RemoveFile(FsPath),
    /// Remove every image under this relative path.
    RemoveUnder(FsPath),
}

/// What an [`EventAction`] stands for.
pub enum PlannedAction {
    Ignore,
    ScanDirectory,
    UpsertFile(Seq<Seq<char>>),
    RemoveFile(Seq<Seq<char>>),
    RemoveUnder(Seq<Seq<char>>),
}

impl View for EventAction {
    type V = PlannedAction;

    open spec fn view(&self) -> PlannedAction {
        match self {
            EventAction::Ignore => PlannedAction::Ignore,
            EventAction::ScanDirectory => PlannedAction::ScanDirectory,
            EventAction::UpsertFile(p) => PlannedAction::UpsertFile(p@),
            EventAction::RemoveFile(p) => PlannedAction::RemoveFile(p@),
            EventAction::RemoveUnder(p) => PlannedAction::RemoveUnder(p@),
        }
    }
}

/// The part of `path` below `root`.
pub open spec fn relative_to(path: Seq<Seq<char>>, root: Seq<Seq<char>>) -> Seq<Seq<char>> {
    path.subrange(root.len() as int, path.len() as int)
}

/// The number of directories on the relative path `rel`: all its
/// components for a directory, all but the last for anything else.
pub open spec fn dir_count(rel: Seq<Seq<char>>, is_dir: bool) -> int {
    if is_dir {
        rel.len() as int
    } else {
        rel.len() - 1
    }
}

/// What removing `path` asks for: an image file is removed; any other path
/// is taken for a directory, and everything under it is removed.
pub open spec fn removal_plan(path: Seq<Seq<char>>, rel: Seq<Seq<char>>) -> PlannedAction {
    if has_image_extension(path) {
        PlannedAction::RemoveFile(rel)
    } else {
        PlannedAction::RemoveUnder(rel)
    }
}

/// What a settled event of kind `kind` on `path` asks for. Paths outside
/// `root`, and paths inside a denied directory below it, are ignored. A
/// removal, or a change to a path that no longer exists, removes it. A
/// created, modified or written directory is scanned; such an image file is
/// added or refreshed. Every other event is ignored.
pub open spec fn plan_model(
    kind: FsEventKind,
    path: Seq<Seq<char>>,
    root: Seq<Seq<char>>,
    is_dir: bool,
    exists: bool,
    deny: Set<Seq<char>>,
) -> PlannedAction {
    let rel = relative_to(path, root);
    if !is_prefix_of(root, path) || denied_within(rel, dir_count(rel, is_dir), deny) {
        PlannedAction::Ignore
    } else {
        match kind {
            FsEventKind::Remove => removal_plan(path, rel),
            FsEventKind::Create | FsEventKind::Modify | FsEventKind::CloseWrite => {
                if !exists {
                    removal_plan(path, rel)
                } else if is_dir {
                    PlannedAction::ScanDirectory
                } else if has_image_extension(path) {
                    PlannedAction::UpsertFile(rel)
                } else {
                    PlannedAction::Ignore
                }
            },
            _ => PlannedAction::Ignore,
        }
    }
}

/// What a settled event asks for; `is_dir` tells whether the path is now a
/// directory, and `exists` whether anything is at the path now.
pub fn plan_event(
    kind: FsEventKind,
    path: &FsPath,
    root: &FsPath,
    is_dir: bool,
    exists: bool,
    deny: &DenySet,
) -> (r: EventAction)
    ensures
        r@ == plan_model(kind, path@, root@, is_dir, exists, deny@),
{
    let rel = match path.strip_prefix(root) {
        Some(rel) => rel,
        None => return EventAction::Ignore,
    };
    let n = rel.parts.len();
    let dirs = if is_dir {
        n
    } else if n > 0 {
        n - 1
    } else {
        0
    };
    if has_denied_dir(&rel, dirs, deny) {
        return EventAction::Ignore;
    }
    let image = is_image_extension(path);
    match kind {
        FsEventKind::Remove => {
            if image {
                EventAction::RemoveFile(rel)
            } else {
                EventAction::RemoveUnder(rel)
            }
        },
        FsEventKind::Create | FsEventKind::Modify | FsEventKind::CloseWrite => {
            if !exists {
                if image {
                    EventAction::RemoveFile(rel)
                } else {
                    EventAction::RemoveUnder(rel)
                }
            } else if is_dir {
                EventAction::ScanDirectory
            } else if image {
                EventAction::UpsertFile(rel)
            } else {
                EventAction::Ignore
            }
        },
        _ => EventAction::Ignore,
    }
}

/// A weak event (an access such as the close after a write) does not hide
/// the change pending for its path: the path keeps the pending kind and
/// takes the new time.
pub proof fn lemma_weak_event_keeps_change(
    m: Map<Seq<Seq<char>>, (FsEventKind, u64)>,
    paths: Seq<Seq<Seq<char>>>,
    kind: FsEventKind,
    now: u64,
    p: Seq<Seq<char>>,
)
    requires
        m.contains_key(p),
        !is_weak_kind(m[p].0),
        is_weak_kind(kind),
        paths.contains(p),
    ensures
        record_model(m, paths, kind, now)[p] == (m[p].0, now),
{
}

/// An event of a kind that is not weak replaces whatever kind was pending
/// for its path: the newest such event wins, and takes the new time.
pub proof fn lemma_strong_event_wins(
    m: Map<Seq<Seq<char>>, (FsEventKind, u64)>,
    paths: Seq<Seq<Seq<char>>>,
    kind: FsEventKind,
    now: u64,
    p: Seq<Seq<char>>,
)
    requires
        !is_weak_kind(kind),
        paths.contains(p),
    ensures
        record_model(m, paths, kind, now).contains_key(p),
        record_model(m, paths, kind, now)[p] == (kind, now),
{
}

/// Recording events leaves the paths it does not name as they were, and
/// adds no other path.
pub proof fn lemma_record_touches_only_named_paths(
    m: Map<Seq<Seq<char>>, (FsEventKind, u64)>,
    paths: Seq<Seq<Seq<char>>>,
    kind: FsEventKind,
    now: u64,
    p: Seq<Seq<char>>,
)
    requires
        !paths.contains(p),
    ensures
        record_model(m, paths, kind, now).contains_key(p) == m.contains_key(p),
        m.contains_key(p) ==> record_model(m, paths, kind, now)[p] == m[p],
{
}

/// A created, modified or written directory that still exists, lies under
/// `root` and is neither denied nor inside a denied directory, is watched and
/// scanned: directories moved or renamed into the tree show their images.
pub proof fn lemma_changed_directory_is_scanned(
    kind: FsEventKind,
    path: Seq<Seq<char>>,
    root: Seq<Seq<char>>,
    deny: Set<Seq<char>>,
)
    requires
        kind == FsEventKind::Create || kind == FsEventKind::Modify || kind == FsEventKind::CloseWrite,
        is_prefix_of(root, path),
        !denied_within(relative_to(path, root), relative_to(path, root).len() as int, deny),
    ensures
        plan_model(kind, path, root, true, true, deny) == PlannedAction::ScanDirectory,
{
}

/// A created, modified or written image file that still exists, lies under
/// `root` and in no denied directory, is added or refreshed.
pub proof fn lemma_written_image_is_added(
    kind: FsEventKind,
    path: Seq<Seq<char>>,
    root: Seq<Seq<char>>,
    deny: Set<Seq<char>>,
)
    requires
        kind == FsEventKind::Create || kind == FsEventKind::Modify || kind == FsEventKind::CloseWrite,
        is_prefix_of(root, path),
        has_image_extension(path),
        !denied_within(relative_to(path, root), relative_to(path, root).len() - 1, deny),
    ensures
        plan_model(kind, path, root, false, true, deny) == PlannedAction::UpsertFile(relative_to(path, root)),
{
}

/// An image path under `root` that is gone when its events settle is
/// removed, whatever change was reported for it.
pub proof fn lemma_gone_image_is_removed(
    kind: FsEventKind,
    path: Seq<Seq<char>>,
    root: Seq<Seq<char>>,
    deny: Set<Seq<char>>,
)
    requires
        kind == FsEventKind::Create || kind == FsEventKind::Modify || kind == FsEventKind::CloseWrite
            || kind == FsEventKind::Remove,
        is_prefix_of(root, path),
        has_image_extension(path),
        !denied_within(relative_to(path, root), relative_to(path, root).len() - 1, deny),
    ensures
        plan_model(kind, path, root, false, false, deny) == PlannedAction::RemoveFile(relative_to(path, root)),
{
}

/// An event on a path inside a denied directory below `root` (the path
/// itself, where it is a directory, included) is ignored.
pub proof fn lemma_denied_paths_ignored(
    kind: FsEventKind,
    path: Seq<Seq<char>>,
    root: Seq<Seq<char>>,
    is_dir: bool,
    exists: bool,
    deny: Set<Seq<char>>,
)
    requires
        denied_within(relative_to(path, root), dir_count(relative_to(path, root), is_dir), deny),
    ensures
        plan_model(kind, path, root, is_dir, exists, deny) == PlannedAction::Ignore,
{
}

/// The live-update message for a change of the given kind, if any.
pub open spec fn change_message(kind: ChangeKind, e: crate::types::EntryView) -> Option<Seq<char>> {
    match kind {
        ChangeKind::Added => Some(ws_add_text(e)),
        ChangeKind::Updated => Some(ws_update_text(e)),
        ChangeKind::Unchanged => None,
    }
}

/// A message is broadcast for a changed file exactly when the index
/// changed; an `add` message exactly when no entry had the path before.
pub proof fn lemma_message_iff_index_changed(s: Seq<crate::types::EntryView>, e: crate::types::EntryView)
    ensures
        change_message(upsert_model(s, e).0, e) is None <==> upsert_model(s, e).1 == s,
        change_message(upsert_model(s, e).0, e) == Some(ws_add_text(e)) <==> (forall|k: int|
            0 <= k < s.len() ==> (#[trigger] s[k]).path != e.path),
{
    crate::index::lemma_upsert_kind(s, e);
    crate::index::lemma_position_of(s, e.path);
    let (kind, s1) = upsert_model(s, e);
    if kind == ChangeKind::Added {
        assert(s1.len() == s.len() + 1);
    } else if kind == ChangeKind::Updated {
        let pos = crate::index::position_of(s, e.path);
        if s1 == s {
            assert(s1[0] == e);
            assert(s[0].path == e.path);
            assert(pos == 0);
        }
        reveal_strlit("{\"image\":");
        assert(ws_update_text(e) != ws_add_text(e)) by {
            reveal_strlit(",\"type\":\"add\"}");
            reveal_strlit(",\"type\":\"update\"}");
            let a = ws_add_text(e);
            let u = ws_update_text(e);
            assert(a.len() != u.len());
        }
    }
}

/// Adds or refreshes a created or modified image, and returns the message
/// to broadcast, if anything changed.
pub fn apply_file_change(index: &mut ImageIndex, entry: ImageEntry) -> (r: Option<String>)
    ensures
        final(index)@ == upsert_model(old(index)@, entry@).1,
        match r {
            Some(m) => change_message(upsert_model(old(index)@, entry@).0, entry@) == Some(m@),
            None => change_message(upsert_model(old(index)@, entry@).0, entry@) is None,
        },
{
    let (change, entry) = index.add_or_update(entry);
    match change {
        ChangeKind::Added => Some(ws_add(&entry)),
        ChangeKind::Updated => Some(ws_update(&entry)),
        ChangeKind::Unchanged => None,
    }
}

/// Removes a removed image, and returns the message to broadcast if the
/// index held it.
pub fn apply_file_removal(index: &mut ImageIndex, rel: &FsPath) -> (r: Option<String>)
    ensures
        final(index)@ == remove_model(old(index)@, rel@).1,
        match r {
            Some(m) => remove_model(old(index)@, rel@).0 is Some && m@ == ws_remove_text(rel@),
            None => remove_model(old(index)@, rel@).0 is None,
        },
{
    match index.remove(rel) {
        Some(_) => Some(ws_remove(rel)),
        None => None,
    }
}

/// Removes every image under a removed directory, and returns one message
/// per removed image, in index order.
pub fn apply_tree_removal(index: &mut ImageIndex, rel: &FsPath) -> (r: Vec<String>)
    ensures
        final(index)@ == remove_under_model(old(index)@, rel@).0,
        r@.map_values(|m: String| m@) == remove_under_model(old(index)@, rel@).1.map_values(
            |p: Seq<Seq<char>>| ws_remove_text(p),
        ),
{
    let removed = index.remove_under(rel);
    let ghost rv = removed@.map_values(|p: FsPath| p@);
    let n = removed.len();
    let mut out: Vec<String> = Vec::new();
    let mut i: usize = 0;
    while i < n
        invariant
            n == removed@.len(),
            rv == removed@.map_values(|p: FsPath| p@),
            i <= n,
            out@.len() == i,
            forall|k: int| 0 <= k < i ==> (#[trigger] out@[k])@ == ws_remove_text(rv[k]),
        decreases n - i,
    {
        out.push(ws_remove(&removed[i]));
        i = i + 1;
    }
    assert(out@.map_values(|m: String| m@) =~= rv.map_values(|p: Seq<Seq<char>>| ws_remove_text(p)));
    out
}

} // verus!
