//! Image entries, the information sent to browsers, and the rules on image
//! file extensions.

use vstd::prelude::*;
use vstd::string::*;

use crate::json::{info_json, json_string, json_quote, push_info_json};
use crate::path::{path_extension, path_text, FsPath};
use crate::text::{ascii_lower, lower_equals};

verus! {

/// A file's modification time, as `SystemTime` holds it on Unix: whole
/// seconds relative to the Unix epoch (negative before it) and the
/// nanoseconds within that second.
#[derive(Clone, Copy, Debug, PartialEq, Eq, Structural)]
pub struct FileTime {
    pub secs: i64,
    pub nanos: u32,
}

/// `a` is a later point in time than `b`.
pub open spec fn newer(a: FileTime, b: FileTime) -> bool {
    a.secs > b.secs || (a.secs == b.secs && a.nanos > b.nanos)
}

/// Whole seconds since the Unix epoch, and 0 for a time before it
/// (`duration_since(UNIX_EPOCH).unwrap_or_default().as_secs()`).
pub open spec fn unix_secs(t: FileTime) -> u64 {
    if t.secs >= 0 {
        t.secs as u64
    } else {
        0
    }
}

impl FileTime {
    /// Whether this time is later than `other`.
    pub fn is_newer_than(&self, other: &FileTime) -> (r: bool)
        ensures
            r == newer(*self, *other),
    {
        self.secs > other.secs || (self.secs == other.secs && self.nanos > other.nanos)
    }

    /// Whole seconds since the Unix epoch, 0 before it.
    pub fn unix_secs(&self) -> (r: u64)
        ensures
            r == unix_secs(*self),
    {
        if self.secs >= 0 {
            self.secs as u64
        } else {
            0
        }
    }
}

/// An image file known to the gallery: its path relative to the watched
/// root, its modification time and its size in bytes.
pub struct ImageEntry {
    pub path: FsPath,
    pub mtime: FileTime,
    pub size: u64,
}

/// What an [`ImageEntry`] stands for.
pub struct EntryView {
    pub path: Seq<Seq<char>>,
    pub mtime: FileTime,
    pub size: u64,
}

impl View for ImageEntry {
    type V = EntryView;

    open spec fn view(&self) -> EntryView {
        EntryView { path: self.path@, mtime: self.mtime, size: self.size }
    }
}

impl Clone for ImageEntry {
    fn clone(&self) -> (r: Self)
        ensures
            r@ == self@,
    {
        ImageEntry { path: self.path.clone(), mtime: self.mtime, size: self.size }
    }
}

/// The information about an image that browsers receive.
pub struct ImageInfo {
    pub path: String,
    pub url: String,
    pub mtime: u64,
    pub size: u64,
}

/// What an [`ImageInfo`] stands for.
pub struct InfoView {
    pub path: Seq<char>,
    pub url: Seq<char>,
    pub mtime: u64,
    pub size: u64,
}

impl View for ImageInfo {
    type V = InfoView;

    open spec fn view(&self) -> InfoView {
        InfoView { path: self.path@, url: self.url@, mtime: self.mtime, size: self.size }
    }
}

/// The information sent for an entry: the path as text, the URL under
/// which the image is served, the modification time in whole seconds since
/// the epoch, and the size.
pub open spec fn info_of(e: EntryView) -> InfoView {
    InfoView {
        path: path_text(e.path),
        url: "/image/"@ + path_text(e.path),
        mtime: unix_secs(e.mtime),
        size: e.size,
    }
}

impl ImageEntry {
    /// The information about this entry that browsers receive.
    pub fn to_info(&self) -> (r: ImageInfo)
        ensures
            r@ == info_of(self@),
    {
        let path = self.path.to_text();
        let mut url = String::from_str("/image/");
        url.append(path.as_str());
        ImageInfo { path, url, mtime: self.mtime.unix_secs(), size: self.size }
    }
}

/// The lower-case extensions that the gallery shows.
pub open spec fn supported_extension(lower: Seq<char>) -> bool {
    ||| lower == "png"@
    ||| lower == "jpg"@
    ||| lower == "jpeg"@
    ||| lower == "gif"@
    ||| lower == "webp"@
    ||| lower == "svg"@
    ||| lower == "bmp"@
    ||| lower == "tiff"@
    ||| lower == "tif"@
    ||| lower == "ico"@
    ||| lower == "avif"@
}

/// The path names an image: its extension, lowered to ASCII lower case, is
/// a supported one.
pub open spec fn has_image_extension(p: Seq<Seq<char>>) -> bool {
    match path_extension(p) {
        Some(e) => supported_extension(ascii_lower(e)),
        None => false,
    }
}

/// Whether `ext`, in any ASCII case, is a supported image extension.
fn is_supported_extension(ext: &str) -> (r: bool)
    ensures
        r == supported_extension(ascii_lower(ext@)),
{
    lower_equals(ext, "png") || lower_equals(ext, "jpg") || lower_equals(ext, "jpeg")
        || lower_equals(ext, "gif") || lower_equals(ext, "webp") || lower_equals(ext, "svg")
        || lower_equals(ext, "bmp") || lower_equals(ext, "tiff") || lower_equals(ext, "tif")
        || lower_equals(ext, "ico") || lower_equals(ext, "avif")
}

/// Whether the path names an image file, judged by its extension.
pub fn is_image_extension(path: &FsPath) -> (r: bool)
    ensures
        r == has_image_extension(path@),
{
    match path.extension() {
        Some(e) => is_supported_extension(e.as_str()),
        None => false,
    }
}

/// The MIME type served for a file with extension `ext`, in any ASCII case.
pub open spec fn content_type_of(ext: Seq<char>) -> Seq<char> {
    let l = ascii_lower(ext);
    if l == "png"@ {
        "image/png"@
    } else if l == "jpg"@ || l == "jpeg"@ {
        "image/jpeg"@
    } else if l == "gif"@ {
        "image/gif"@
    } else if l == "webp"@ {
        "image/webp"@
    } else if l == "svg"@ {
        "image/svg+xml"@
    } else if l == "bmp"@ {
        "image/bmp"@
    } else if l == "tiff"@ || l == "tif"@ {
        "image/tiff"@
    } else if l == "ico"@ {
        "image/x-icon"@
    } else if l == "avif"@ {
        "image/avif"@
    } else {
        "application/octet-stream"@
    }
}

/// The MIME type served for a file with extension `ext`.
pub fn content_type_for_extension(ext: &str) -> (r: &'static str)
    ensures
        r@ == content_type_of(ext@),
{
    if lower_equals(ext, "png") {
        "image/png"
    } else if lower_equals(ext, "jpg") || lower_equals(ext, "jpeg") {
        "image/jpeg"
    } else if lower_equals(ext, "gif") {
        "image/gif"
    } else if lower_equals(ext, "webp") {
        "image/webp"
    } else if lower_equals(ext, "svg") {
        "image/svg+xml"
    } else if lower_equals(ext, "bmp") {
        "image/bmp"
    } else if lower_equals(ext, "tiff") || lower_equals(ext, "tif") {
        "image/tiff"
    } else if lower_equals(ext, "ico") {
        "image/x-icon"
    } else if lower_equals(ext, "avif") {
        "image/avif"
    } else {
        "application/octet-stream"
    }
}

/// Every supported extension is served as an image, and every other one as
/// `application/octet-stream`.
pub proof fn lemma_content_type_matches_supported(ext: Seq<char>)
    ensures
        supported_extension(ascii_lower(ext)) <==> content_type_of(ext)
            != "application/octet-stream"@,
{
    reveal_strlit("application/octet-stream");
    reveal_strlit("image/png");
    reveal_strlit("image/jpeg");
    reveal_strlit("image/gif");
    reveal_strlit("image/webp");
    reveal_strlit("image/svg+xml");
    reveal_strlit("image/bmp");
    reveal_strlit("image/tiff");
    reveal_strlit("image/x-icon");
    reveal_strlit("image/avif");
    assert("application/octet-stream"@[0] == 'a');
}

/// A file named `stem.ext` (neither part holding a `.`) counts as an image
/// exactly when its extension is served with an image type, and then the
/// type starts with `image/`.
pub proof fn lemma_image_extension_agrees_with_content_type(stem: Seq<char>, ext: Seq<char>)
    requires
        stem.len() > 0,
        forall|i: int| 0 <= i < stem.len() ==> stem[i] != '.',
        forall|i: int| 0 <= i < ext.len() ==> ext[i] != '.',
    ensures
        has_image_extension(seq![stem + seq!['.'] + ext]) <==> content_type_of(ext)
            != "application/octet-stream"@,
        has_image_extension(seq![stem + seq!['.'] + ext]) ==> content_type_of(ext).subrange(0, 6)
            == "image/"@,
{
    crate::path::lemma_simple_file_extension(stem, ext);
    lemma_content_type_matches_supported(ext);
    reveal_strlit("image/");
    reveal_strlit("image/png");
    reveal_strlit("image/jpeg");
    reveal_strlit("image/gif");
    reveal_strlit("image/webp");
    reveal_strlit("image/svg+xml");
    reveal_strlit("image/bmp");
    reveal_strlit("image/tiff");
    reveal_strlit("image/x-icon");
    reveal_strlit("image/avif");
    if supported_extension(ascii_lower(ext)) {
        assert(content_type_of(ext).subrange(0, 6) =~= "image/"@);
    }
}

/// The directory names that are never scanned or watched.
pub open spec fn default_deny_names() -> Seq<Seq<char>> {
    seq![
        "node_modules"@, ".git"@, ".hg"@, ".svn"@, ".cache"@, ".venv"@, ".env"@,
        "__pycache__"@, "target"@, "dist"@, "build"@, "vendor"@, ".next"@, ".nuxt"@,
        ".output"@, ".turbo"@, ".parcel-cache"@, "coverage"@, "tmp"@, "temp"@,
    ]
}

/// The directory names that are never scanned or watched, in their order.
pub fn default_deny_list() -> (r: Vec<&'static str>)
    ensures
        r@.map_values(|s: &'static str| s@) == default_deny_names(),
{
    let r = vec![
        "node_modules", ".git", ".hg", ".svn", ".cache", ".venv", ".env", "__pycache__",
        "target", "dist", "build", "vendor", ".next", ".nuxt", ".output", ".turbo",
        ".parcel-cache", "coverage", "tmp", "temp",
    ];
    assert(r@.map_values(|s: &'static str| s@) =~= default_deny_names());
    r
}

/// The live-update message announcing a new image.
pub open spec fn ws_add_text(e: EntryView) -> Seq<char> {
    "{\"image\":"@ + info_json(info_of(e)) + ",\"type\":\"add\"}"@
}

/// The live-update message announcing a changed image.
pub open spec fn ws_update_text(e: EntryView) -> Seq<char> {
    "{\"image\":"@ + info_json(info_of(e)) + ",\"type\":\"update\"}"@
}

/// The live-update message announcing a removed image.
pub open spec fn ws_remove_text(p: Seq<Seq<char>>) -> Seq<char> {
    "{\"path\":"@ + json_string(path_text(p)) + ",\"type\":\"remove\"}"@
}

/// The live-update message announcing a new image:
/// `{"image":{...},"type":"add"}`.
pub fn ws_add(entry: &ImageEntry) -> (r: String)
    ensures
        r@ == ws_add_text(entry@),
{
    let info = entry.to_info();
    let mut out = String::from_str("{\"image\":");
    push_info_json(&mut out, &info);
    out.append(",\"type\":\"add\"}");
    assert(out@ =~= ws_add_text(entry@));
    out
}

/// The live-update message announcing a changed image:
/// `{"image":{...},"type":"update"}`.
pub fn ws_update(entry: &ImageEntry) -> (r: String)
    ensures
        r@ == ws_update_text(entry@),
{
    let info = entry.to_info();
    let mut out = String::from_str("{\"image\":");
    push_info_json(&mut out, &info);
    out.append(",\"type\":\"update\"}");
    assert(out@ =~= ws_update_text(entry@));
    out
}

/// The live-update message announcing a removed image:
/// `{"path":"...","type":"remove"}`.
pub fn ws_remove(path: &FsPath) -> (r: String)
    ensures
        r@ == ws_remove_text(path@),
{
    let text = path.to_text();
    let quoted = json_quote(text.as_str());
    let mut out = String::from_str("{\"path\":");
    out.append(quoted.as_str());
    out.append(",\"type\":\"remove\"}");
    assert(out@ =~= ws_remove_text(path@));
    out
}

} // verus!
