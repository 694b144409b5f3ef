use serde_json::Value;
use watchpix::page::gallery_html;
use watchpix::path::FsPath;
use watchpix::server::{authorize_image, content_type_for_path, listing_body, next_ws_step, Delivery, ImageAccess, WsStep};
use watchpix::types::{FileTime, ImageEntry};

fn fp(parts: &[&str]) -> FsPath {
    FsPath { parts: parts.iter().map(|s| s.to_string()).collect() }
}

fn entry(name: &str, secs: i64, size: u64) -> ImageEntry {
    ImageEntry { path: fp(&[name]), mtime: FileTime { secs, nanos: 0 }, size }
}

fn info(name: &str, secs: i64, size: u64) -> String {
    format!("{{\"mtime\":{},\"path\":\"{}\",\"size\":{},\"url\":\"/image/{}\"}}", secs, name, size, name)
}

#[test]
fn listing_exact_body() {
    let entries = vec![entry("a.png", 3, 30), entry("b.png", 2, 20), entry("c.png", 1, 10)];
    let body = listing_body(&entries, &fp(&["/", "srv", "pics"]), Some(1), Some(1));
    assert_eq!(
        body,
        format!("{{\"count\":1,\"has_more\":true,\"images\":[{}],\"root\":\"/srv/pics\",\"total\":3}}", info("b.png", 2, 20))
    );
    let body = listing_body(&entries, &fp(&["/"]), None, None);
    assert_eq!(
        body,
        format!(
            "{{\"count\":3,\"has_more\":false,\"images\":[{},{},{}],\"root\":\"/\",\"total\":3}}",
            info("a.png", 3, 30),
            info("b.png", 2, 20),
            info("c.png", 1, 10)
        )
    );
}

#[test]
fn listing_edges() {
    let entries: Vec<ImageEntry> = (0..20).map(|i| entry(&format!("{}.png", i), 100 - i, i as u64)).collect();
    let body = listing_body(&entries, &fp(&["/", "r"]), None, None);
    assert!(body.starts_with("{\"count\":15,\"has_more\":true,"));
    assert!(body.ends_with(",\"root\":\"/r\",\"total\":20}"));
    let body = listing_body(&entries, &fp(&["/", "r"]), Some(15), None);
    assert!(body.starts_with("{\"count\":5,\"has_more\":false,"));
    let body = listing_body(&entries, &fp(&["/", "r"]), Some(50), Some(5));
    assert_eq!(body, "{\"count\":0,\"has_more\":false,\"images\":[],\"root\":\"/r\",\"total\":20}");
    let body = listing_body(&entries, &fp(&["/", "r"]), Some(0), Some(0));
    assert!(body.starts_with("{\"count\":0,\"has_more\":true,\"images\":[],"));
    let body = listing_body(&Vec::new(), &fp(&["/", "r"]), None, None);
    assert_eq!(body, "{\"count\":0,\"has_more\":false,\"images\":[],\"root\":\"/r\",\"total\":0}");
}

#[test]
fn listing_matches_serde_json() {
    let entries = vec![entry("q\"uote.png", 3, 30), entry("b.png", 2, 20)];
    let body = listing_body(&entries, &fp(&["/", "dir with space"]), Some(0), Some(1));
    let v: Value = serde_json::from_str(&body).unwrap();
    assert_eq!(v["count"], 1);
    assert_eq!(v["has_more"], true);
    assert_eq!(v["total"], 2);
    assert_eq!(v["root"], "/dir with space");
    assert_eq!(v["images"][0]["path"], "q\"uote.png");
    assert_eq!(v["images"][0]["url"], "/image/q\"uote.png");
    assert_eq!(v.to_string(), body);
}

#[test]
fn image_access_decisions() {
    let root = fp(&["/", "srv"]);
    assert_eq!(authorize_image(Some(&fp(&["/", "srv", "a.png"])), Some(&root)), ImageAccess::Allowed);
    assert_eq!(authorize_image(Some(&fp(&["/", "etc", "passwd"])), Some(&root)), ImageAccess::Forbidden);
    assert_eq!(authorize_image(Some(&fp(&["/", "srvx", "a.png"])), Some(&root)), ImageAccess::Forbidden);
    assert_eq!(authorize_image(None, Some(&root)), ImageAccess::NotFound);
    assert_eq!(authorize_image(Some(&fp(&["/", "srv", "a.png"])), None), ImageAccess::ServerError);
    assert_eq!(authorize_image(None, None), ImageAccess::NotFound);
}

#[test]
fn content_type_by_path() {
    assert_eq!(content_type_for_path(&fp(&["/", "a", "b.PNG"])), "image/png");
    assert_eq!(content_type_for_path(&fp(&["/", "a", "b.svg"])), "image/svg+xml");
    assert_eq!(content_type_for_path(&fp(&["/", "a", "b"])), "application/octet-stream");
    assert_eq!(content_type_for_path(&fp(&["/", "a", "b.bin"])), "application/octet-stream");
}

#[test]
fn ws_steps() {
    match next_ws_step(Delivery::Message("hi".to_string())) {
        WsStep::Send(t) => assert_eq!(t, "hi"),
        _ => panic!("expected a message"),
    }
    assert!(matches!(next_ws_step(Delivery::Lagged(3)), WsStep::Skip));
    assert!(matches!(next_ws_step(Delivery::Closed), WsStep::Stop));
}

#[test]
fn gallery_page_is_html() {
    let page = gallery_html();
    assert!(page.starts_with("<!DOCTYPE html>"));
    assert!(page.contains("/api/images"));
    assert!(page.contains("/ws"));
    assert!(page.trim_end().ends_with("</html>"));
}
