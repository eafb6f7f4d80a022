use space55::{Conf, SaveData, Session};
use std::collections::BTreeMap;

#[test]
fn session_round_trips_through_text() {
    let s = Session { path: String::from("/home/u/proj"), bufs: vec![String::from("a.rs"), String::from("b/c.rs")] };
    let text = s.save();
    assert_eq!(text, "/home/u/proj\na.rs\nb/c.rs\n");
    let back = Session::load(&text);
    assert_eq!(back.path, s.path);
    assert_eq!(back.bufs, s.bufs);
}

#[test]
fn session_keeps_odd_names() {
    let s = Session {
        path: String::from("/a\\b"),
        bufs: vec![String::from("line\nbreak"), String::from("back\\n"), String::new()],
    };
    let text = s.save();
    assert_eq!(text, "/a\\\\b\nline\\nbreak\nback\\\\n\n\n");
    let back = Session::load(&text);
    assert_eq!(back.path, s.path);
    assert_eq!(back.bufs, s.bufs);
}

#[test]
fn session_with_no_buffers() {
    let back = Session::load("/tmp\n");
    assert_eq!(back.path, "/tmp");
    assert!(back.bufs.is_empty());
    assert_eq!(Session::load("").path, "");
}

#[test]
fn default_conf_is_empty() {
    let c = Conf::default();
    assert!(c.width.is_none() && c.height.is_none() && c.bookmarks.is_none());
    let d = SaveData { path: String::from("/"), bookmarks: BTreeMap::new() };
    assert!(d.bookmarks.is_empty());
}
