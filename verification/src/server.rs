//! The decisions behind the HTTP and WebSocket endpoints: the body of the
//! image listing, who may read an image file, what type it is served as, and
//! what a live-update connection does with each broadcast.

use vstd::prelude::*;
use vstd::string::*;

use crate::json::{decimal, info_json, json_array, json_bool, join_commas, json_quote, json_string, push_decimal, push_info_json};
use crate::path::{is_prefix_of, path_extension, path_text, FsPath};
use crate::sort::entry_views;
use crate::types::{content_type_for_extension, content_type_of, info_of, EntryView, ImageEntry};

verus! {

/// How many images a listing holds when the request names no limit.
pub const DEFAULT_PAGE_LIMIT: usize = 15;

/// The offset a listing request asks for: 0 where it names none.
pub open spec fn query_offset(offset: Option<usize>) -> int {
    match offset {
        Some(o) => o as int,
        None => 0,
    }
}

/// The limit a listing request asks for: 15 where it names none.
pub open spec fn query_limit(limit: Option<usize>) -> int {
    match limit {
        Some(l) => l as int,
        None => DEFAULT_PAGE_LIMIT as int,
    }
}

/// The entries after skipping `offset` of them, at most `limit` of them.
pub open spec fn page_of(s: Seq<EntryView>, offset: int, limit: int) -> Seq<EntryView> {
    let start = if offset < s.len() {
        offset
    } else {
        s.len() as int
    };
    let end = if limit < s.len() - start {
        start + limit
    } else {
        s.len() as int
    };
    s.subrange(start, end)
}

/// The JSON objects for the entries' information.
pub open spec fn info_items(s: Seq<EntryView>) -> Seq<Seq<char>> {
    s.map_values(|e: EntryView| info_json(info_of(e)))
}

/// The body of an image listing: the number of images in the page, whether
/// more follow it, the page itself, the watched root and the number of all
/// images, keys in sorted order.
pub open spec fn listing_text(s: Seq<EntryView>, root: Seq<Seq<char>>, offset: int, limit: int) -> Seq<char> {
    let page = page_of(s, offset, limit);
    "{\"count\":"@ + decimal(page.len()) + ",\"has_more\":"@ + json_bool(offset + limit < s.len())
        + ",\"images\":"@ + json_array(info_items(page)) + ",\"root\":"@ + json_string(path_text(root))
        + ",\"total\":"@ + decimal(s.len()) + "}"@
}

/// Consecutive pages join up: the page of `l1` entries at `o` followed by
/// the page of `l2` entries after it is the page of `l1 + l2` entries at `o`.
/// A page holds at most `limit` entries.
pub proof fn lemma_pages_concatenate(s: Seq<EntryView>, o: int, l1: int, l2: int)
    requires
        0 <= o,
        0 <= l1,
        0 <= l2,
    ensures
        page_of(s, o, l1) + page_of(s, o + l1, l2) == page_of(s, o, l1 + l2),
        page_of(s, o, l1).len() <= l1,
{
    assert(page_of(s, o, l1) + page_of(s, o + l1, l2) =~= page_of(s, o, l1 + l2));
}

/// A listing says more images follow exactly when some entry lies beyond
/// its page.
pub proof fn lemma_has_more_iff_entries_remain(s: Seq<EntryView>, o: int, l: int)
    requires
        0 <= o,
        0 <= l,
    ensures
        (o + l < s.len()) <==> page_of(s, o + l, 1).len() > 0,
{
}

/// The listing says more images follow exactly when the one-entry page right
/// after the requested page is not empty; the rest of the body is
/// the count, the page, the root and the total.
pub proof fn lemma_listing_has_more(s: Seq<EntryView>, root: Seq<Seq<char>>, o: int, l: int)
    requires
        0 <= o,
        0 <= l,
    ensures
        listing_text(s, root, o, l) == "{\"count\":"@ + decimal(page_of(s, o, l).len()) + ",\"has_more\":"@
            + json_bool(page_of(s, o + l, 1).len() > 0) + ",\"images\":"@
            + json_array(info_items(page_of(s, o, l))) + ",\"root\":"@ + json_string(path_text(root))
            + ",\"total\":"@ + decimal(s.len()) + "}"@,
{
    assert((o + l < s.len()) == (page_of(s, o + l, 1).len() > 0));
}

/// The body of the image listing for the given entries: the page after
/// `offset` entries (0 if not given) of at most `limit` entries (15 if not
/// given).
pub fn listing_body(entries: &Vec<ImageEntry>, root: &FsPath, offset: Option<usize>, limit: Option<usize>) -> (r: String)
    requires
        query_offset(offset) + query_limit(limit) <= usize::MAX,
    ensures
        r@ == listing_text(entry_views(entries@), root@, query_offset(offset), query_limit(limit)),
{
    let ghost s = entry_views(entries@);
    let total = entries.len();
    let off = match offset {
        Some(o) => o,
        None => 0,
    };
    let lim = match limit {
        Some(l) => l,
        None => DEFAULT_PAGE_LIMIT,
    };
    let start = if off < total {
        off
    } else {
        total
    };
    let end = if lim < total - start {
        start + lim
    } else {
        total
    };
    let ghost page = s.subrange(start as int, end as int);
    assert(page == page_of(s, off as int, lim as int));
    let mut out = String::from_str("{\"count\":");
    push_decimal(&mut out, (end - start) as u64);
    out.append(",\"has_more\":");
    if off + lim < total {
        out.append("true");
    } else {
        out.append("false");
    }
    out.append(",\"images\":");
    push_image_array(&mut out, entries, start, end);
    out.append(",\"root\":");
    let root_text = root.to_text();
    let quoted = json_quote(root_text.as_str());
    out.append(quoted.as_str());
    out.append(",\"total\":");
    push_decimal(&mut out, total as u64);
    out.append("}");
    assert(out@ =~= listing_text(s, root@, off as int, lim as int));
    out
}

/// Appends the JSON array of the information of `entries[start..end]`.
fn push_image_array(out: &mut String, entries: &Vec<ImageEntry>, start: usize, end: usize)
    requires
        start <= end <= entries@.len(),
    ensures
        final(out)@ == old(out)@ + json_array(info_items(entry_views(entries@).subrange(start as int, end as int))),
{
    let ghost s = entry_views(entries@);
    let ghost page = s.subrange(start as int, end as int);
    let ghost items = info_items(page);
    proof {
        reveal_strlit("[");
        reveal_strlit(",");
        reveal_strlit("]");
    }
    out.append("[");
    let ghost lead = out@;
    assert(items.take(0) =~= Seq::<Seq<char>>::empty());
    let mut k: usize = start;
    while k < end
        invariant
            start <= k <= end <= entries@.len(),
            s == entry_views(entries@),
            page == s.subrange(start as int, end as int),
            items == info_items(page),
            out@ == lead + join_commas(items.take(k - start)),
            ","@ == seq![','],
        decreases end - k,
    {
        if k > start {
            out.append(",");
        }
        let info = entries[k].to_info();
        push_info_json(out, &info);
        proof {
            let j = (k - start) as int;
            assert(s[k as int] == entries@[k as int]@);
            assert(items[j] == info_json(info_of(page[j])));
            assert(items.take(j + 1).drop_last() =~= items.take(j));
            assert(out@ =~= lead + join_commas(items.take(j + 1)));
        }
        k = k + 1;
    }
    out.append("]");
    assert(items.take(end - start) =~= items);
    assert(out@ =~= old(out)@ + json_array(items));
}

/// Whether a request for an image file may be served.
#[derive(Debug, Clone, Copy, PartialEq, Eq, Structural)]
pub enum ImageAccess {
    /// The requested file does not exist.
    NotFound,
    /// The watched root cannot be resolved.
    ServerError,
    /// The requested file lies outside the watched root.
    Forbidden,
    /// The file may be read and served.
    Allowed,
}

/// The decision on an image request, given the requested path and the
/// watched root, each resolved to its canonical form where that succeeded.
pub open spec fn access_model(canonical: Option<Seq<Seq<char>>>, canonical_root: Option<Seq<Seq<char>>>) -> ImageAccess {
    match canonical {
        None => ImageAccess::NotFound,
        Some(c) => match canonical_root {
            None => ImageAccess::ServerError,
            Some(r) => if is_prefix_of(r, c) {
                ImageAccess::Allowed
            } else {
                ImageAccess::Forbidden
            },
        },
    }
}

/// Decides an image request: only a file whose canonical path lies under
/// the canonical root is served.
pub fn authorize_image(canonical: Option<&FsPath>, canonical_root: Option<&FsPath>) -> (r: ImageAccess)
    ensures
        r == access_model(
            match canonical {
                Some(c) => Some(c@),
                None => None,
            },
            match canonical_root {
                Some(c) => Some(c@),
                None => None,
            },
        ),
        r == ImageAccess::Allowed ==> canonical is Some && canonical_root is Some && is_prefix_of(
            canonical_root.unwrap()@,
            canonical.unwrap()@,
        ),
{
    match canonical {
        None => ImageAccess::NotFound,
        Some(c) => match canonical_root {
            None => ImageAccess::ServerError,
            Some(root) => {
                if c.starts_with(root) {
                    ImageAccess::Allowed
                } else {
                    ImageAccess::Forbidden
                }
            },
        },
    }
}

/// The MIME type a file is served as, by its extension.
pub open spec fn path_content_type(p: Seq<Seq<char>>) -> Seq<char> {
    match path_extension(p) {
        Some(e) => content_type_of(e),
        None => "application/octet-stream"@,
    }
}

/// The MIME type the file at `path` is served as.
pub fn content_type_for_path(path: &FsPath) -> (r: &'static str)
    ensures
        r@ == path_content_type(path@),
{
    match path.extension() {
        Some(e) => content_type_for_extension(e.as_str()),
        None => "application/octet-stream",
    }
}

/// What a live-update connection received from the broadcast.
pub enum Delivery {
    /// The next message.
    Message(String),
    /// This many messages were dropped because the connection fell behind.
    Lagged(u64),
    /// The broadcast is closed.
    Closed,
}

/// What a live-update connection does next.
pub enum WsStep {
    /// Send this text to the browser.
    Send(String),
    /// Wait for the next message.
    Skip,
    /// Close the connection.
    Stop,
}

/// A message is forwarded, a lag is passed over, and a closed broadcast ends
/// the connection.
pub fn next_ws_step(d: Delivery) -> (r: WsStep)
    ensures
        match d {
            Delivery::Message(m) => r matches WsStep::Send(t) && t@ == m@,
            Delivery::Lagged(_) => r is Skip,
            Delivery::Closed => r is Stop,
        },
{
    match d {
        Delivery::Message(m) => WsStep::Send(m),
        Delivery::Lagged(_) => WsStep::Skip,
        Delivery::Closed => WsStep::Stop,
    }
}

} // verus!
