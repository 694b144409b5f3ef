use serde_json::Value;
use watchpix::path::FsPath;
use watchpix::types::{
    content_type_for_extension, default_deny_list, is_image_extension, ws_add, ws_remove,
    ws_update, FileTime, ImageEntry,
};

fn fp(parts: &[&str]) -> FsPath {
    FsPath { parts: parts.iter().map(|s| s.to_string()).collect() }
}

fn entry(parts: &[&str], secs: i64, size: u64) -> ImageEntry {
    ImageEntry { path: fp(parts), mtime: FileTime { secs, nanos: 0 }, size }
}

#[test]
fn starts_with_is_componentwise() {
    let p = fp(&["/", "home", "user", "pics", "a.png"]);
    assert!(p.starts_with(&fp(&["/", "home", "user"])));
    assert!(p.starts_with(&fp(&[])));
    assert!(p.starts_with(&p.clone()));
    assert!(!p.starts_with(&fp(&["/", "home", "us"])));
    assert!(!fp(&["/", "home"]).starts_with(&p));
}

#[test]
fn strip_prefix_gives_the_rest() {
    let p = fp(&["/", "root", "sub", "a.png"]);
    let rel = p.strip_prefix(&fp(&["/", "root"])).unwrap();
    assert_eq!(rel.parts, vec!["sub".to_string(), "a.png".to_string()]);
    assert!(p.strip_prefix(&fp(&["/", "other"])).is_none());
    let whole = p.strip_prefix(&p).unwrap();
    assert!(whole.parts.is_empty());
}

#[test]
fn same_as_compares_components() {
    assert!(fp(&["a", "b"]).same_as(&fp(&["a", "b"])));
    assert!(!fp(&["a", "b"]).same_as(&fp(&["a"])));
    assert!(!fp(&["a", "b"]).same_as(&fp(&["a", "c"])));
}

#[test]
fn file_name_and_extension_follow_std() {
    assert_eq!(fp(&["d", "a.png"]).file_name().map(|s| s.as_str()), Some("a.png"));
    assert_eq!(fp(&["/"]).file_name(), None);
    assert_eq!(fp(&["d", ".."]).file_name(), None);
    assert_eq!(fp(&["a.png"]).extension().as_deref(), Some("png"));
    assert_eq!(fp(&["a.tar.gz"]).extension().as_deref(), Some("gz"));
    assert_eq!(fp(&[".png"]).extension(), None);
    assert_eq!(fp(&["a."]).extension().as_deref(), Some(""));
    assert_eq!(fp(&["..png"]).extension().as_deref(), Some("png"));
    assert_eq!(fp(&["noext"]).extension(), None);
    assert_eq!(fp(&[]).extension(), None);
}

#[test]
fn to_text_joins_components() {
    assert_eq!(fp(&["/", "a", "b"]).to_text(), "/a/b");
    assert_eq!(fp(&["sub", "b.png"]).to_text(), "sub/b.png");
    assert_eq!(fp(&["/"]).to_text(), "/");
    assert_eq!(fp(&[]).to_text(), "");
    assert_eq!(fp(&["x.png"]).to_text(), "x.png");
}

#[test]
fn image_extensions_any_case() {
    for name in ["a.png", "b.JPG", "c.jpeg", "d.Gif", "e.webp", "f.svg", "g.bmp", "h.tiff", "i.TIF", "j.ico", "k.avif"] {
        assert!(is_image_extension(&fp(&["dir", name])), "{}", name);
    }
    for name in ["a.txt", "png", ".png", "a.pngx", "a.", "a.jp g"] {
        assert!(!is_image_extension(&fp(&["dir", name])), "{}", name);
    }
}

#[test]
fn content_types() {
    assert_eq!(content_type_for_extension("png"), "image/png");
    assert_eq!(content_type_for_extension("JPG"), "image/jpeg");
    assert_eq!(content_type_for_extension("jpeg"), "image/jpeg");
    assert_eq!(content_type_for_extension("gif"), "image/gif");
    assert_eq!(content_type_for_extension("WebP"), "image/webp");
    assert_eq!(content_type_for_extension("svg"), "image/svg+xml");
    assert_eq!(content_type_for_extension("bmp"), "image/bmp");
    assert_eq!(content_type_for_extension("tif"), "image/tiff");
    assert_eq!(content_type_for_extension("TIFF"), "image/tiff");
    assert_eq!(content_type_for_extension("ico"), "image/x-icon");
    assert_eq!(content_type_for_extension("avif"), "image/avif");
    assert_eq!(content_type_for_extension("txt"), "application/octet-stream");
    assert_eq!(content_type_for_extension(""), "application/octet-stream");
}

#[test]
fn supported_extensions_are_served_as_images() {
    for ext in ["png", "jpg", "jpeg", "gif", "webp", "svg", "bmp", "tiff", "tif", "ico", "avif"] {
        assert!(content_type_for_extension(ext).starts_with("image/"), "{}", ext);
        assert!(is_image_extension(&fp(&[&format!("x.{}", ext)])));
    }
    assert!(!is_image_extension(&fp(&["x.heic"])));
    assert_eq!(content_type_for_extension("heic"), "application/octet-stream");
}

#[test]
fn to_info_fields() {
    let e = entry(&["sub", "a.png"], 1_700_000_000, 1234);
    let info = e.to_info();
    assert_eq!(info.path, "sub/a.png");
    assert_eq!(info.url, "/image/sub/a.png");
    assert_eq!(info.mtime, 1_700_000_000);
    assert_eq!(info.size, 1234);
}

#[test]
fn to_info_before_epoch_is_zero() {
    let e = ImageEntry { path: fp(&["a.png"]), mtime: FileTime { secs: -5, nanos: 10 }, size: 1 };
    assert_eq!(e.to_info().mtime, 0);
    let e = ImageEntry { path: fp(&["a.png"]), mtime: FileTime { secs: 7, nanos: 999_999_999 }, size: 1 };
    assert_eq!(e.to_info().mtime, 7);
}

#[test]
fn ws_messages_exact_text() {
    let e = entry(&["sub", "a.png"], 1_700_000_000, 1234);
    assert_eq!(
        ws_add(&e),
        r#"{"image":{"mtime":1700000000,"path":"sub/a.png","size":1234,"url":"/image/sub/a.png"},"type":"add"}"#
    );
    assert_eq!(
        ws_update(&e),
        r#"{"image":{"mtime":1700000000,"path":"sub/a.png","size":1234,"url":"/image/sub/a.png"},"type":"update"}"#
    );
    assert_eq!(ws_remove(&fp(&["sub", "a.png"])), r#"{"path":"sub/a.png","type":"remove"}"#);
}

#[test]
fn ws_messages_escape_strings() {
    let p = fp(&["we\"ird\\", "x\u{1}\n.png"]);
    assert_eq!(ws_remove(&p), "{\"path\":\"we\\\"ird\\\\/x\\u0001\\n.png\",\"type\":\"remove\"}");
}

#[test]
fn ws_messages_match_serde_json_values() {
    let e = entry(&["d", "é 1.PNG"], 42, 0);
    let mut image = serde_json::Map::new();
    image.insert("path".to_string(), Value::String("d/é 1.PNG".to_string()));
    image.insert("url".to_string(), Value::String("/image/d/é 1.PNG".to_string()));
    image.insert("mtime".to_string(), Value::from(42u64));
    image.insert("size".to_string(), Value::from(0u64));
    let mut msg = serde_json::Map::new();
    msg.insert("type".to_string(), Value::String("add".to_string()));
    msg.insert("image".to_string(), Value::Object(image));
    assert_eq!(ws_add(&e), Value::Object(msg).to_string());

    let mut rm = serde_json::Map::new();
    rm.insert("type".to_string(), Value::String("remove".to_string()));
    rm.insert("path".to_string(), Value::String("d/\t\u{7f}\u{1f}.png".to_string()));
    assert_eq!(ws_remove(&fp(&["d", "\t\u{7f}\u{1f}.png"])), Value::Object(rm).to_string());
}

#[test]
fn max_values_in_decimal() {
    let e = ImageEntry { path: fp(&["a.png"]), mtime: FileTime { secs: i64::MAX, nanos: 0 }, size: u64::MAX };
    let msg = ws_add(&e);
    assert!(msg.contains("\"mtime\":9223372036854775807,"));
    assert!(msg.contains("\"size\":18446744073709551615,"));
    let z = ImageEntry { path: fp(&["a.png"]), mtime: FileTime { secs: 0, nanos: 0 }, size: 0 };
    assert!(ws_add(&z).contains("\"mtime\":0,\"path\":\"a.png\",\"size\":0,"));
}

#[test]
fn default_deny_list_names() {
    let d = default_deny_list();
    assert_eq!(d.len(), 20);
    assert!(d.contains(&"node_modules"));
    assert!(d.contains(&".git"));
    assert!(d.contains(&"target"));
    assert!(d.contains(&"__pycache__"));
}

#[test]
fn file_time_ordering() {
    let a = FileTime { secs: 5, nanos: 1 };
    let b = FileTime { secs: 5, nanos: 0 };
    let c = FileTime { secs: -1, nanos: 999 };
    assert!(a.is_newer_than(&b));
    assert!(!b.is_newer_than(&a));
    assert!(!a.is_newer_than(&a));
    assert!(b.is_newer_than(&c));
    assert_eq!(c.unix_secs(), 0);
}

#[test]
fn extension_of_simple_names_agrees_with_content_type() {
    for ext in ["png", "JPEG", "tif", "svg", "txt", "heic", "", "ICO"] {
        let image = is_image_extension(&fp(&[&format!("f.{}", ext)]));
        let ct = content_type_for_extension(ext);
        assert_eq!(image, ct != "application/octet-stream", "{}", ext);
        if image {
            assert!(ct.starts_with("image/"));
        }
    }
}
