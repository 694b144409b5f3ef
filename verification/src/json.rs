//! The JSON text that the gallery sends: strings quoted by serde_json,
//! numbers in decimal, objects with their keys in sorted order and no
//! spaces, as `serde_json` writes a `Value`.

use vstd::prelude::*;
use vstd::string::*;

use crate::types::{ImageInfo, InfoView};

verus! {

#[verifier::external_type_specification]
#[verifier::external_body]
pub struct ExJsonError(serde_json::Error);

/// The hexadecimal digit for `n` (below 16), in lower case.
pub open spec fn hex_digit(n: int) -> char {
    if n < 10 {
        (48 + n) as char
    } else {
        (97 + n - 10) as char
    }
}

/// How a JSON string writes the character `c`: `"` and `\` and the control
/// characters escaped, every other character as it is.
pub open spec fn json_escape(c: char) -> Seq<char> {
    if c == '"' {
        seq!['\\', '"']
    } else if c == '\\' {
        seq!['\\', '\\']
    } else if c == '\u{8}' {
        seq!['\\', 'b']
    } else if c == '\t' {
        seq!['\\', 't']
    } else if c == '\n' {
        seq!['\\', 'n']
    } else if c == '\u{c}' {
        seq!['\\', 'f']
    } else if c == '\r' {
        seq!['\\', 'r']
    } else if (c as u32) < 0x20 {
        seq!['\\', 'u', '0', '0', hex_digit((c as int) / 16), hex_digit((c as int) % 16)]
    } else {
        seq![c]
    }
}

/// The characters of `s`, each escaped for a JSON string.
pub open spec fn json_escaped(s: Seq<char>) -> Seq<char>
    decreases s.len(),
{
    if s.len() == 0 {
        Seq::empty()
    } else {
        json_escaped(s.drop_last()) + json_escape(s.last())
    }
}

/// `s` as a JSON string literal.
pub open spec fn json_string(s: Seq<char>) -> Seq<char> {
    seq!['"'] + json_escaped(s) + seq!['"']
}

/// The decimal digit for `d` (below 10).
pub open spec fn digit_char(d: nat) -> char {
    (48 + d) as char
}

/// `n` in decimal, with no leading zeros.
pub open spec fn decimal(n: nat) -> Seq<char>
    decreases n,
{
    if n < 10 {
        seq![digit_char(n)]
    } else {
        decimal(n / 10).push(digit_char(n % 10))
    }
}

/// `true` or `false` as JSON writes them.
pub open spec fn json_bool(b: bool) -> Seq<char> {
    if b {
        "true"@
    } else {
        "false"@
    }
}

/// The items joined by commas.
pub open spec fn join_commas(items: Seq<Seq<char>>) -> Seq<char>
    decreases items.len(),
{
    if items.len() == 0 {
        Seq::empty()
    } else if items.len() == 1 {
        items[0]
    } else {
        join_commas(items.drop_last()) + seq![','] + items.last()
    }
}

/// A JSON array of the given items.
pub open spec fn json_array(items: Seq<Seq<char>>) -> Seq<char> {
    seq!['['] + join_commas(items) + seq![']']
}

/// The JSON object for an image's information, keys in sorted order.
pub open spec fn info_json(i: InfoView) -> Seq<char> {
    "{\"mtime\":"@ + decimal(i.mtime as nat) + ",\"path\":"@ + json_string(i.path) + ",\"size\":"@
        + decimal(i.size as nat) + ",\"url\":"@ + json_string(i.url) + "}"@
}

/// `serde_json::to_string` on a string slice, which writes the slice as a
/// JSON string literal: a `"`, each character escaped as `json_escape` says
/// (the escape table of `serde_json::ser`), and a closing `"`. Serializing a
/// `str` into memory does not fail.
#[verifier::external_body]
fn serde_json_to_string(s: &str) -> (r: Result<String, serde_json::Error>)
    ensures
        r is Ok,
        r->Ok_0@ == json_string(s@),
{
    serde_json::to_string(s)
}

/// `String::push`: appends one character.
#[verifier::external_body]
fn push_char(s: &mut String, c: char)
    ensures
        final(s)@ == old(s)@.push(c),
{
    s.push(c)
}

/// `s` as a JSON string literal.
pub fn json_quote(s: &str) -> (r: String)
    ensures
        r@ == json_string(s@),
{
    match serde_json_to_string(s) {
        Ok(t) => t,
        Err(_) => String::new(),
    }
}

/// Appends `n` in decimal.
pub fn push_decimal(out: &mut String, n: u64)
    ensures
        final(out)@ == old(out)@ + decimal(n as nat),
    decreases n,
{
    if n >= 10 {
        push_decimal(out, n / 10);
    }
    let d = (n % 10) as u8;
    let c = (48u8 + d) as char;
    assert(c == digit_char((n % 10) as nat));
    push_char(out, c);
    assert(final(out)@ =~= old(out)@ + decimal(n as nat));
}

/// Appends the JSON object for an image's information.
pub fn push_info_json(out: &mut String, info: &ImageInfo)
    ensures
        final(out)@ == old(out)@ + info_json(info@),
{
    out.append("{\"mtime\":");
    push_decimal(out, info.mtime);
    out.append(",\"path\":");
    let p = json_quote(info.path.as_str());
    out.append(p.as_str());
    out.append(",\"size\":");
    push_decimal(out, info.size);
    out.append(",\"url\":");
    let u = json_quote(info.url.as_str());
    out.append(u.as_str());
    out.append("}");
    assert(final(out)@ =~= old(out)@ + info_json(info@));
}

} // verus!
