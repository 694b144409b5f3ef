use watchpix::index::{ChangeKind, ImageIndex};
use watchpix::path::FsPath;
use watchpix::scanner::{build_deny_set, collect_images, keep_walk_entry, DenySet, WalkEntry};
use watchpix::types::{FileTime, ImageEntry};
use watchpix::watcher::{
    apply_file_change, apply_file_removal, apply_tree_removal, plan_event, Debouncer, EventAction,
    FsEventKind, DEBOUNCE_NANOS,
};

fn fp(parts: &[&str]) -> FsPath {
    FsPath { parts: parts.iter().map(|s| s.to_string()).collect() }
}

fn entry(parts: &[&str], secs: i64, size: u64) -> ImageEntry {
    ImageEntry { path: fp(parts), mtime: FileTime { secs, nanos: 0 }, size }
}

fn texts(index: &ImageIndex) -> Vec<String> {
    index.get_all().iter().map(|e| e.path.to_text()).collect()
}

#[test]
fn new_sorts_newest_first_and_stable() {
    let index = ImageIndex::new(vec![
        entry(&["a.png"], 1, 0),
        entry(&["b.png"], 3, 0),
        entry(&["c.png"], 2, 0),
        entry(&["d.png"], 3, 0),
        entry(&["e.png"], 1, 0),
    ]);
    assert_eq!(texts(&index), vec!["b.png", "d.png", "c.png", "a.png", "e.png"]);
}

#[test]
fn new_orders_by_nanoseconds_too() {
    let mut a = entry(&["a.png"], 10, 0);
    a.mtime.nanos = 5;
    let b = entry(&["b.png"], 10, 0);
    let c = entry(&["c.png"], -3, 0);
    let index = ImageIndex::new(vec![c, b, a]);
    assert_eq!(texts(&index), vec!["a.png", "b.png", "c.png"]);
    assert_eq!(ImageIndex::new(Vec::new()).get_all().len(), 0);
}

#[test]
fn new_sorts_many_entries() {
    let mut v = Vec::new();
    for i in 0..200i64 {
        v.push(entry(&[&format!("{}.png", i)], (i * 37) % 101, i as u64));
    }
    let all = ImageIndex::new(v).get_all();
    assert_eq!(all.len(), 200);
    for w in all.windows(2) {
        assert!(!w[1].mtime.is_newer_than(&w[0].mtime));
        if w[0].mtime == w[1].mtime {
            assert!(w[0].size < w[1].size);
        }
    }
}

#[test]
fn add_or_update_kinds() {
    let mut index = ImageIndex::new(vec![entry(&["a.png"], 1, 10), entry(&["b.png"], 2, 20)]);
    assert_eq!(texts(&index), vec!["b.png", "a.png"]);
    let (k, e) = index.add_or_update(entry(&["c.png"], 0, 5));
    assert_eq!(k, ChangeKind::Added);
    assert_eq!(e.path.to_text(), "c.png");
    assert_eq!(texts(&index), vec!["c.png", "b.png", "a.png"]);
    let (k, _) = index.add_or_update(entry(&["a.png"], 1, 10));
    assert_eq!(k, ChangeKind::Unchanged);
    assert_eq!(texts(&index), vec!["c.png", "b.png", "a.png"]);
    let (k, _) = index.add_or_update(entry(&["a.png"], 1, 11));
    assert_eq!(k, ChangeKind::Updated);
    assert_eq!(texts(&index), vec!["a.png", "c.png", "b.png"]);
    assert_eq!(index.get_all()[0].size, 11);
    let (k, _) = index.add_or_update(entry(&["b.png"], 9, 20));
    assert_eq!(k, ChangeKind::Updated);
    assert_eq!(texts(&index), vec!["b.png", "a.png", "c.png"]);
}

#[test]
fn adding_twice_changes_nothing() {
    let mut index = ImageIndex::new(vec![entry(&["a.png"], 1, 1)]);
    let (k1, _) = index.add_or_update(entry(&["z.png"], 4, 4));
    let after_first = texts(&index);
    let (k2, _) = index.add_or_update(entry(&["z.png"], 4, 4));
    assert_eq!(k1, ChangeKind::Added);
    assert_eq!(k2, ChangeKind::Unchanged);
    assert_eq!(texts(&index), after_first);
}

#[test]
fn remove_undoes_add() {
    let mut index = ImageIndex::new(vec![entry(&["a.png"], 1, 1), entry(&["b.png"], 2, 2)]);
    let before = texts(&index);
    index.add_or_update(entry(&["n.png"], 3, 3));
    let removed = index.remove(&fp(&["n.png"])).unwrap();
    assert_eq!(removed.size, 3);
    assert_eq!(texts(&index), before);
    assert!(index.remove(&fp(&["n.png"])).is_none());
    assert_eq!(texts(&index), before);
}

#[test]
fn remove_under_splits_index() {
    let mut index = ImageIndex::new(vec![
        entry(&["x", "1.png"], 5, 0),
        entry(&["y", "2.png"], 4, 0),
        entry(&["x", "sub", "3.png"], 3, 0),
        entry(&["xx", "4.png"], 2, 0),
    ]);
    let removed: Vec<String> = index.remove_under(&fp(&["x"])).iter().map(|p| p.to_text()).collect();
    assert_eq!(removed, vec!["x/1.png", "x/sub/3.png"]);
    assert_eq!(texts(&index), vec!["y/2.png", "xx/4.png"]);
    let all: Vec<String> = index.remove_under(&fp(&[])).iter().map(|p| p.to_text()).collect();
    assert_eq!(all, vec!["y/2.png", "xx/4.png"]);
    assert!(index.get_all().is_empty());
}

#[test]
fn deny_set_defaults() {
    let set = build_deny_set(&[]);
    assert_eq!(set.len(), 20);
    for name in ["node_modules", ".git", ".hg", ".svn", ".cache", ".venv", ".env", "__pycache__", "target", "dist", "build", "vendor", ".next", ".nuxt", ".output", ".turbo", ".parcel-cache", "coverage", "tmp", "temp"] {
        assert!(set.contains(name), "{}", name);
    }
    assert!(!set.contains("src"));
    assert!(!set.contains(""));
}

#[test]
fn deny_set_extra_entries_split_and_trimmed() {
    let set = build_deny_set(&[" foo , bar,,baz ".to_string(), "target".to_string(), "\tqux\u{3000}".to_string()]);
    assert!(set.contains("foo"));
    assert!(set.contains("bar"));
    assert!(set.contains("baz"));
    assert!(set.contains("qux"));
    assert!(!set.contains(" foo "));
    assert!(!set.contains(""));
    assert_eq!(set.len(), 24);
}

#[test]
fn deny_set_insert_and_len() {
    let mut set = DenySet::new();
    assert_eq!(set.len(), 0);
    set.insert("a".to_string());
    set.insert("a".to_string());
    set.insert("b".to_string());
    assert_eq!(set.len(), 2);
    assert!(set.contains("a") && set.contains("b") && !set.contains("c"));
}

#[test]
fn walk_skips_denied_directories_only() {
    let set = build_deny_set(&[]);
    let root = fp(&["/", "w"]);
    assert!(!keep_walk_entry(&fp(&["/", "w", "node_modules"]), &root, true, &set));
    assert!(!keep_walk_entry(&fp(&["/", "w", "a", "target"]), &root, true, &set));
    assert!(keep_walk_entry(&fp(&["/", "w", "node_modules"]), &root, false, &set));
    assert!(keep_walk_entry(&fp(&["/", "w", "photos"]), &root, true, &set));
}

#[test]
fn walk_keeps_a_root_with_a_denied_name() {
    let set = build_deny_set(&[]);
    let root = fp(&["/", "w", "build"]);
    assert!(keep_walk_entry(&root, &root, true, &set));
    assert!(keep_walk_entry(&fp(&["/", "w", "build", "sub"]), &root, true, &set));
    assert!(!keep_walk_entry(&fp(&["/", "w", "build", "build"]), &root, true, &set));
    let found = collect_images(&vec![walked(&["/", "w", "build", "a.png"], true, Some((1, 1)))], &root, &set);
    assert_eq!(found.len(), 1);
    assert_eq!(found[0].path.to_text(), "a.png");
}

#[test]
fn deny_entries_with_a_slash_match_paths_below_root() {
    let set = build_deny_set(&["vendor,assets/raw".to_string()]);
    let root = fp(&["/", "r"]);
    assert!(!keep_walk_entry(&fp(&["/", "r", "assets", "raw"]), &root, true, &set));
    assert!(keep_walk_entry(&fp(&["/", "r", "assets"]), &root, true, &set));
    assert!(keep_walk_entry(&fp(&["/", "r", "other", "raw"]), &root, true, &set));
    let found = collect_images(
        &vec![
            walked(&["/", "r", "assets", "raw", "x.png"], true, Some((2, 1))),
            walked(&["/", "r", "assets", "y.png"], true, Some((1, 1))),
            walked(&["/", "r", "vendor", "z.png"], true, Some((3, 1))),
        ],
        &root,
        &set,
    );
    let names: Vec<String> = found.iter().map(|e| e.path.to_text()).collect();
    assert_eq!(names, vec!["assets/y.png"]);
}

fn walked(parts: &[&str], is_file: bool, meta: Option<(i64, u64)>) -> WalkEntry {
    WalkEntry {
        path: fp(parts),
        is_file,
        metadata: meta.map(|(s, z)| (FileTime { secs: s, nanos: 0 }, z)),
    }
}

#[test]
fn collect_images_filters_and_sorts() {
    let root = fp(&["/", "r"]);
    let found = collect_images(
        &vec![
            walked(&["/", "r"], false, Some((0, 0))),
            walked(&["/", "r", "old.png"], true, Some((1, 10))),
            walked(&["/", "r", "notes.txt"], true, Some((9, 1))),
            walked(&["/", "r", "dir.png"], false, Some((9, 1))),
            walked(&["/", "r", "gone.jpg"], true, None),
            walked(&["/", "elsewhere", "x.png"], true, Some((9, 1))),
            walked(&["/", "r", "s", "new.GIF"], true, Some((5, 20))),
            walked(&["/", "r", "tie.png"], true, Some((1, 30))),
            walked(&["/", "r", "node_modules", "m.png"], true, Some((9, 1))),
        ],
        &root,
        &build_deny_set(&[]),
    );
    let names: Vec<String> = found.iter().map(|e| e.path.to_text()).collect();
    assert_eq!(names, vec!["s/new.GIF", "old.png", "tie.png"]);
    assert_eq!(found[0].size, 20);
}

#[test]
fn debouncer_waits_out_the_window() {
    let mut d = Debouncer::new();
    d.record(&vec![fp(&["/", "a.png"])], FsEventKind::Create, 1_000);
    assert!(d.take_settled(1_000 + DEBOUNCE_NANOS - 1).is_empty());
    assert!(d.take_settled(0).is_empty());
    let ready = d.take_settled(1_000 + DEBOUNCE_NANOS);
    assert_eq!(ready.len(), 1);
    assert_eq!(ready[0].kind, FsEventKind::Create);
    assert_eq!(ready[0].received_at, 1_000);
    assert!(d.take_settled(u64::MAX).is_empty());
}

#[test]
fn debouncer_keeps_last_event_per_path() {
    let mut d = Debouncer::new();
    let a = fp(&["/", "a.png"]);
    let b = fp(&["/", "b.png"]);
    d.record(&vec![a.clone(), b.clone(), a.clone()], FsEventKind::Create, 0);
    d.record(&vec![a.clone()], FsEventKind::Remove, 50_000_000);
    let first = d.take_settled(DEBOUNCE_NANOS);
    assert_eq!(first.len(), 1);
    assert!(first[0].path.same_as(&b));
    let second = d.take_settled(50_000_000 + DEBOUNCE_NANOS);
    assert_eq!(second.len(), 1);
    assert!(second[0].path.same_as(&a));
    assert_eq!(second[0].kind, FsEventKind::Remove);
}

fn plan(kind: FsEventKind, parts: &[&str], is_dir: bool) -> String {
    plan_in(kind, parts, is_dir, true)
}

fn plan_in(kind: FsEventKind, parts: &[&str], is_dir: bool, exists: bool) -> String {
    let set = build_deny_set(&["assets/raw".to_string()]);
    match plan_event(kind, &fp(parts), &fp(&["/", "r"]), is_dir, exists, &set) {
        EventAction::Ignore => "ignore".to_string(),
        EventAction::ScanDirectory => "scan".to_string(),
        EventAction::UpsertFile(p) => format!("upsert {}", p.to_text()),
        EventAction::RemoveFile(p) => format!("remove {}", p.to_text()),
        EventAction::RemoveUnder(p) => format!("remove-under {}", p.to_text()),
    }
}

#[test]
fn written_image_survives_its_close_event() {
    let mut d = Debouncer::new();
    let a = fp(&["/", "r", "a.png"]);
    d.record(&vec![a.clone()], FsEventKind::Create, 0);
    d.record(&vec![a.clone()], FsEventKind::Modify, 10);
    d.record(&vec![a.clone()], FsEventKind::Access, 20);
    let ready = d.take_settled(20 + DEBOUNCE_NANOS);
    assert_eq!(ready.len(), 1);
    assert_eq!(ready[0].kind, FsEventKind::Modify);
    assert_eq!(ready[0].received_at, 20);
    let set = build_deny_set(&[]);
    let mut index = ImageIndex::new(Vec::new());
    match plan_event(ready[0].kind, &ready[0].path, &fp(&["/", "r"]), false, true, &set) {
        EventAction::UpsertFile(rel) => {
            let msg = apply_file_change(&mut index, ImageEntry { path: rel, mtime: FileTime { secs: 1, nanos: 0 }, size: 3 });
            assert!(msg.unwrap().ends_with(",\"type\":\"add\"}"));
        }
        _ => panic!("expected the image to be added"),
    }
    assert_eq!(texts(&index), vec!["a.png"]);

    let mut d = Debouncer::new();
    d.record(&vec![a.clone()], FsEventKind::Create, 0);
    d.record(&vec![a.clone()], FsEventKind::CloseWrite, 5);
    assert_eq!(d.take_settled(5 + DEBOUNCE_NANOS)[0].kind, FsEventKind::CloseWrite);
    let mut d = Debouncer::new();
    d.record(&vec![a.clone()], FsEventKind::Access, 0);
    assert_eq!(d.take_settled(DEBOUNCE_NANOS)[0].kind, FsEventKind::Access);
}

#[test]
fn moved_away_image_leaves_the_index() {
    let mut index = ImageIndex::new(vec![entry(&["a.png"], 1, 1)]);
    let set = build_deny_set(&[]);
    match plan_event(FsEventKind::Modify, &fp(&["/", "r", "a.png"]), &fp(&["/", "r"]), false, false, &set) {
        EventAction::RemoveFile(rel) => {
            assert_eq!(apply_file_removal(&mut index, &rel).unwrap(), r#"{"path":"a.png","type":"remove"}"#);
        }
        _ => panic!("expected a removal"),
    }
    assert!(index.get_all().is_empty());
}

#[test]
fn plan_event_cases() {
    assert_eq!(plan(FsEventKind::Create, &["/", "r", "a.png"], false), "upsert a.png");
    assert_eq!(plan(FsEventKind::Modify, &["/", "r", "s", "a.PNG"], false), "upsert s/a.PNG");
    assert_eq!(plan(FsEventKind::Modify, &["/", "r", "a.txt"], false), "ignore");
    assert_eq!(plan(FsEventKind::Create, &["/", "x", "a.png"], false), "ignore");
    assert_eq!(plan(FsEventKind::Create, &["/", "r", "photos"], true), "scan");
    assert_eq!(plan(FsEventKind::Create, &["/", "r", "node_modules"], true), "ignore");
    assert_eq!(plan(FsEventKind::CloseWrite, &["/", "r", "a.png"], false), "upsert a.png");
    assert_eq!(plan(FsEventKind::Create, &["/", "r", "node_modules", "pkg", "a.png"], false), "ignore");
    assert_eq!(plan(FsEventKind::Create, &["/", "r", "node_modules", "pkg"], true), "ignore");
    assert_eq!(plan(FsEventKind::Create, &["/", "r", "assets", "raw", "a.png"], false), "ignore");
    assert_eq!(plan(FsEventKind::Create, &["/", "r", "assets", "a.png"], false), "upsert assets/a.png");
    assert_eq!(plan(FsEventKind::Create, &["/", "r", "node_modules.png"], false), "upsert node_modules.png");
    assert_eq!(plan_in(FsEventKind::Modify, &["/", "r", "a.png"], false, false), "remove a.png");
    assert_eq!(plan_in(FsEventKind::Modify, &["/", "r", "photos"], false, false), "remove-under photos");
    assert_eq!(plan_in(FsEventKind::Create, &["/", "r", "a.png"], false, false), "remove a.png");
    assert_eq!(plan(FsEventKind::Remove, &["/", "r", "a.png"], false), "remove a.png");
    assert_eq!(plan(FsEventKind::Remove, &["/", "r", "photos"], false), "remove-under photos");
    assert_eq!(plan(FsEventKind::Remove, &["/", "x", "a.png"], false), "ignore");
    assert_eq!(plan(FsEventKind::Access, &["/", "r", "a.png"], false), "ignore");
    assert_eq!(plan(FsEventKind::Other, &["/", "r", "a.png"], false), "ignore");
    assert_eq!(plan(FsEventKind::Any, &["/", "r", "a.png"], false), "ignore");
}

#[test]
fn apply_functions_report_messages() {
    let mut index = ImageIndex::new(Vec::new());
    let m = apply_file_change(&mut index, entry(&["a.png"], 1, 2)).unwrap();
    assert!(m.ends_with(",\"type\":\"add\"}"));
    assert!(apply_file_change(&mut index, entry(&["a.png"], 1, 2)).is_none());
    let m = apply_file_change(&mut index, entry(&["a.png"], 2, 2)).unwrap();
    assert!(m.ends_with(",\"type\":\"update\"}"));
    apply_file_change(&mut index, entry(&["d", "b.png"], 2, 2));
    apply_file_change(&mut index, entry(&["d", "c.png"], 2, 2));
    assert_eq!(apply_file_removal(&mut index, &fp(&["a.png"])).unwrap(), r#"{"path":"a.png","type":"remove"}"#);
    assert!(apply_file_removal(&mut index, &fp(&["a.png"])).is_none());
    let msgs = apply_tree_removal(&mut index, &fp(&["d"]));
    assert_eq!(msgs, vec![r#"{"path":"d/c.png","type":"remove"}"#.to_string(), r#"{"path":"d/b.png","type":"remove"}"#.to_string()]);
    assert!(index.get_all().is_empty());
}

#[test]
fn deny_sets_of_joined_lists_are_unions() {
    let a = vec!["foo, bar".to_string()];
    let b = vec!["baz".to_string(), "foo".to_string()];
    let joined: Vec<String> = a.iter().chain(b.iter()).cloned().collect();
    let sa = build_deny_set(&a);
    let sb = build_deny_set(&b);
    let sj = build_deny_set(&joined);
    for name in ["foo", "bar", "baz", "node_modules"] {
        assert_eq!(sj.contains(name), sa.contains(name) || sb.contains(name), "{}", name);
    }
    assert_eq!(sj.len(), 23);
}

#[test]
fn adding_the_newest_keeps_newest_first() {
    let mut index = ImageIndex::new(vec![entry(&["a.png"], 3, 1), entry(&["b.png"], 2, 1), entry(&["c.png"], 1, 1)]);
    index.add_or_update(entry(&["b.png"], 5, 2));
    index.add_or_update(entry(&["d.png"], 5, 2));
    let all = index.get_all();
    for w in all.windows(2) {
        assert!(!w[1].mtime.is_newer_than(&w[0].mtime));
    }
    assert_eq!(texts(&index), vec!["d.png", "b.png", "a.png", "c.png"]);
}
