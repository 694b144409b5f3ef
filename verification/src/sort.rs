//! Ordering image entries from the most recently modified to the least,
//! keeping the order of entries modified at the same moment.

use vstd::prelude::*;

use crate::types::{newer, EntryView, FileTime, ImageEntry};

verus! {

/// The views of a sequence of entries.
pub open spec fn entry_views(v: Seq<ImageEntry>) -> Seq<EntryView> {
    v.map_values(|e: ImageEntry| e@)
}

/// No entry is newer than one before it.
pub open spec fn recency_sorted(s: Seq<EntryView>) -> bool {
    forall|i: int, j: int| 0 <= i < j < s.len() ==> !newer(#[trigger] s[j].mtime, #[trigger] s[i].mtime)
}

/// `p` lists each of `0..n` exactly once.
pub open spec fn is_permutation(p: Seq<int>, n: int) -> bool {
    &&& p.len() == n
    &&& forall|k: int| 0 <= k < n ==> 0 <= #[trigger] p[k] < n
    &&& forall|k1: int, k2: int| 0 <= k1 < k2 < n ==> #[trigger] p[k1] != #[trigger] p[k2]
}

/// `out` is `src` rearranged by `p` (`out[k] == src[p[k]]`), newest first,
/// with entries of equal time in their order in `src`.
pub open spec fn stable_recency_order(src: Seq<EntryView>, out: Seq<EntryView>, p: Seq<int>) -> bool {
    &&& out.len() == src.len()
    &&& is_permutation(p, src.len() as int)
    &&& forall|k: int| 0 <= k < out.len() ==> #[trigger] out[k] == src[p[k]]
    &&& recency_sorted(out)
    &&& forall|k1: int, k2: int|
        0 <= k1 < k2 < out.len() && (#[trigger] out[k1]).mtime == (#[trigger] out[k2]).mtime
            ==> p[k1] < p[k2]
}

/// `out` is `src` sorted stably from newest to oldest.
pub open spec fn sorted_by_recency(src: Seq<EntryView>, out: Seq<EntryView>) -> bool {
    exists|p: Seq<int>| stable_recency_order(src, out, p)
}

/// Index `x` goes before index `y`: its time is later, or the times are
/// equal and `x` is the smaller index.
spec fn goes_before(keys: Seq<FileTime>, x: int, y: int) -> bool {
    newer(keys[x], keys[y]) || (keys[x] == keys[y] && x < y)
}

spec fn strictly_ordered(keys: Seq<FileTime>, v: Seq<usize>) -> bool {
    forall|k1: int, k2: int|
        0 <= k1 < k2 < v.len() ==> goes_before(keys, #[trigger] v[k1] as int, #[trigger] v[k2] as int)
}

spec fn within(v: Seq<usize>, lo: int, hi: int) -> bool {
    forall|k: int| 0 <= k < v.len() ==> lo <= #[trigger] v[k] < hi
}

fn goes_before_exec(keys: &Vec<FileTime>, x: usize, y: usize) -> (r: bool)
    requires
        x < keys.len(),
        y < keys.len(),
    ensures
        r == goes_before(keys@, x as int, y as int),
{
    let kx = keys[x];
    let ky = keys[y];
    kx.is_newer_than(&ky) || (kx.secs == ky.secs && kx.nanos == ky.nanos && x < y)
}

/// Merges two ordered runs of indices, the first drawn from `lo..mid` and
/// the second from `mid..hi`.
fn merge_runs(keys: &Vec<FileTime>, a: &Vec<usize>, b: &Vec<usize>, lo: usize, mid: usize, hi: usize) -> (r: Vec<usize>)
    requires
        lo <= mid <= hi <= keys.len(),
        within(a@, lo as int, mid as int),
        within(b@, mid as int, hi as int),
        strictly_ordered(keys@, a@),
        strictly_ordered(keys@, b@),
    ensures
        r.len() == a.len() + b.len(),
        within(r@, lo as int, hi as int),
        strictly_ordered(keys@, r@),
{
    let mut out: Vec<usize> = Vec::new();
    let mut i: usize = 0;
    let mut j: usize = 0;
    while i < a.len() || j < b.len()
        invariant
            lo <= mid <= hi <= keys.len(),
            within(a@, lo as int, mid as int),
            within(b@, mid as int, hi as int),
            strictly_ordered(keys@, a@),
            strictly_ordered(keys@, b@),
            i <= a.len(),
            j <= b.len(),
            out.len() == i + j,
            within(out@, lo as int, hi as int),
            strictly_ordered(keys@, out@),
            forall|k: int|
                0 <= k < out.len() && i < a.len() ==> goes_before(keys@, #[trigger] out@[k] as int, a@[i as int] as int),
            forall|k: int|
                0 <= k < out.len() && j < b.len() ==> goes_before(keys@, #[trigger] out@[k] as int, b@[j as int] as int),
        decreases a.len() + b.len() - i - j,
    {
        let take_a = if i < a.len() && j < b.len() {
            goes_before_exec(keys, a[i], b[j])
        } else {
            i < a.len()
        };
        let ghost old_out = out@;
        if take_a {
            let x = a[i];
            proof {
                if j < b.len() {
                    assert(goes_before(keys@, x as int, b@[j as int] as int));
                }
                if i + 1 < a.len() {
                    assert(goes_before(keys@, a@[i as int] as int, a@[i + 1] as int));
                }
            }
            out.push(x);
            i = i + 1;
            proof {
                assert(out@[old_out.len() as int] == x);
                assert forall|k: int| 0 <= k < out.len() && i < a.len() implies goes_before(
                    keys@,
                    #[trigger] out@[k] as int,
                    a@[i as int] as int,
                ) by {
                    assert(goes_before(keys@, a@[i - 1] as int, a@[i as int] as int));
                    if k < old_out.len() {
                        assert(out@[k] == old_out[k]);
                    }
                }
                assert forall|k1: int, k2: int| 0 <= k1 < k2 < out.len() implies goes_before(
                    keys@,
                    #[trigger] out@[k1] as int,
                    #[trigger] out@[k2] as int,
                ) by {
                    if k2 < old_out.len() {
                        assert(old_out[k1] == out@[k1] && old_out[k2] == out@[k2]);
                    } else {
                        assert(out@[k1] == old_out[k1]);
                    }
                }
            }
        } else {
            let y = b[j];
            proof {
                if i < a.len() {
                    assert(a@[i as int] != y);
                    assert(goes_before(keys@, y as int, a@[i as int] as int));
                }
                if j + 1 < b.len() {
                    assert(goes_before(keys@, b@[j as int] as int, b@[j + 1] as int));
                }
            }
            out.push(y);
            j = j + 1;
            proof {
                assert(out@[old_out.len() as int] == y);
                assert forall|k: int| 0 <= k < out.len() && j < b.len() implies goes_before(
                    keys@,
                    #[trigger] out@[k] as int,
                    b@[j as int] as int,
                ) by {
                    assert(goes_before(keys@, b@[j - 1] as int, b@[j as int] as int));
                    if k < old_out.len() {
                        assert(out@[k] == old_out[k]);
                    }
                }
                assert forall|k1: int, k2: int| 0 <= k1 < k2 < out.len() implies goes_before(
                    keys@,
                    #[trigger] out@[k1] as int,
                    #[trigger] out@[k2] as int,
                ) by {
                    if k2 < old_out.len() {
                        assert(old_out[k1] == out@[k1] && old_out[k2] == out@[k2]);
                    } else {
                        assert(out@[k1] == old_out[k1]);
                    }
                }
            }
        }
    }
    out
}

/// The indices `lo..hi`, ordered by `goes_before`.
fn sort_indices(keys: &Vec<FileTime>, lo: usize, hi: usize) -> (r: Vec<usize>)
    requires
        lo <= hi <= keys.len(),
    ensures
        r.len() == hi - lo,
        within(r@, lo as int, hi as int),
        strictly_ordered(keys@, r@),
    decreases hi - lo,
{
    if hi - lo <= 1 {
        let mut v: Vec<usize> = Vec::new();
        if hi > lo {
            v.push(lo);
        }
        v
    } else {
        let mid = lo + (hi - lo) / 2;
        let a = sort_indices(keys, lo, mid);
        let b = sort_indices(keys, mid, hi);
        merge_runs(keys, &a, &b, lo, mid, hi)
    }
}

/// The entries, newest first; entries modified at the same moment keep
/// their order.
pub fn sort_by_recency(entries: &Vec<ImageEntry>) -> (r: Vec<ImageEntry>)
    ensures
        sorted_by_recency(entry_views(entries@), entry_views(r@)),
{
    let n = entries.len();
    let mut keys: Vec<FileTime> = Vec::new();
    let mut i: usize = 0;
    while i < n
        invariant
            n == entries.len(),
            i <= n,
            keys.len() == i,
            forall|k: int| 0 <= k < i ==> #[trigger] keys@[k] == entries@[k].mtime,
        decreases n - i,
    {
        keys.push(entries[i].mtime);
        i = i + 1;
    }
    let order = sort_indices(&keys, 0, n);
    let mut out: Vec<ImageEntry> = Vec::new();
    let mut k: usize = 0;
    while k < n
        invariant
            n == entries.len(),
            n == keys.len(),
            order.len() == n,
            within(order@, 0, n as int),
            k <= n,
            out.len() == k,
            forall|m: int| 0 <= m < k ==> #[trigger] out@[m]@ == entries@[order@[m] as int]@,
        decreases n - k,
    {
        out.push(entries[order[k]].clone());
        k = k + 1;
    }
    proof {
        let src = entry_views(entries@);
        let res = entry_views(out@);
        let p = order@.map_values(|x: usize| x as int);
        assert forall|k1: int, k2: int| 0 <= k1 < k2 < n implies #[trigger] p[k1] != #[trigger] p[k2] by {
            assert(goes_before(keys@, order@[k1] as int, order@[k2] as int));
        }
        assert forall|m: int| 0 <= m < n implies #[trigger] res[m] == src[p[m]] by {
            assert(res[m] == out@[m]@);
        }
        assert forall|k1: int, k2: int| 0 <= k1 < k2 < res.len() implies !newer(
            #[trigger] res[k2].mtime,
            #[trigger] res[k1].mtime,
        ) by {
            assert(goes_before(keys@, order@[k1] as int, order@[k2] as int));
            assert(res[k1] == out@[k1]@);
            assert(res[k2] == out@[k2]@);
        }
        assert forall|k1: int, k2: int|
            0 <= k1 < k2 < res.len() && (#[trigger] res[k1]).mtime == (#[trigger] res[k2]).mtime implies p[k1] < p[k2] by {
            assert(goes_before(keys@, order@[k1] as int, order@[k2] as int));
            assert(res[k1] == out@[k1]@);
            assert(res[k2] == out@[k2]@);
        }
        assert(stable_recency_order(src, res, p));
    }
    out
}

} // verus!
