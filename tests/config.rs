use std::path::PathBuf;

use wth::bookmark::Content;
use wth::config::{entry_for, Action, Config};

#[test]
fn entry_with_placeholder_is_a_search() {
    let b = entry_for("http://s/?q=%s".to_string(), Some("S".to_string()));
    assert_eq!(b.title, "S");
    assert!(matches!(&b.content, Content::TextInput(t) if t == "http://s/?q=%s"));
}

#[test]
fn entry_without_placeholder_is_a_link_with_default_title() {
    let b = entry_for("http://x".to_string(), None);
    assert_eq!(b.title, "New Bookmark");
    assert!(matches!(&b.content, Content::Link(u) if u == "http://x"));
}

#[test]
fn config_keeps_its_parts() {
    let c = Config::new(PathBuf::from("/tmp/root.db"), Action::Go);
    assert_eq!(c.db(), &PathBuf::from("/tmp/root.db"));
    assert!(matches!(c.action(), Action::Go));
}
