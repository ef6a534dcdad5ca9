use wth::bookmark::{Bookmark, BookmarkError, Content, Dimension};

fn children(b: &Bookmark) -> &Vec<Bookmark> {
    match &b.content {
        Content::Folder(children) => children,
        _ => panic!("not a folder"),
    }
}

#[test]
fn new_is_an_empty_untitled_folder() {
    let root = Bookmark::new();
    assert_eq!(root.title, "");
    assert!(children(&root).is_empty());
}

#[test]
fn add_appends_to_a_folder_in_order() {
    let mut root = Bookmark::new_folder("root".to_string());
    assert_eq!(root.add(Bookmark::new_link("a".to_string(), "http://a".to_string())), Ok(()));
    assert_eq!(root.add(Bookmark::new_search("b".to_string(), "http://b/%s".to_string())), Ok(()));
    let kids = children(&root);
    assert_eq!(kids.len(), 2);
    assert_eq!(kids[0].title, "a");
    assert_eq!(kids[1].title, "b");
    assert!(matches!(&kids[1].content, Content::TextInput(t) if t == "http://b/%s"));
}

#[test]
fn add_to_a_link_fails_and_leaves_it_unchanged() {
    let mut link = Bookmark::new_link("x".to_string(), "http://x".to_string());
    let r = link.add(Bookmark::new());
    assert_eq!(r, Err(BookmarkError::NotAFolder));
    assert_eq!(link.title, "x");
    assert!(matches!(&link.content, Content::Link(u) if u == "http://x"));
}

#[test]
fn add_to_a_search_or_multi_input_fails() {
    let mut search = Bookmark::new_search("s".to_string(), "http://s/%s".to_string());
    assert_eq!(search.add(Bookmark::new()), Err(BookmarkError::NotAFolder));
    assert!(matches!(&search.content, Content::TextInput(t) if t == "http://s/%s"));
    let dims = vec![Dimension::new("lang".to_string(), vec!["en".to_string()])];
    let mut multi = Bookmark::new_multi("m".to_string(), "http://m/%s".to_string(), dims);
    assert_eq!(multi.add(Bookmark::new()), Err(BookmarkError::NotAFolder));
    match &multi.content {
        Content::MultiTextInput(t, d) => {
            assert_eq!(t, "http://m/%s");
            assert_eq!(d.len(), 1);
            assert_eq!(d[0].points, vec!["en".to_string()]);
        }
        _ => panic!("variant changed"),
    }
}

#[test]
fn labels_of_each_kind() {
    assert_eq!(Bookmark::new_folder("Docs".to_string()).label(), "Docs [...]");
    assert_eq!(
        Bookmark::new_link("Rust".to_string(), "https://rust-lang.org".to_string()).label(),
        "Rust [https://rust-lang.org]"
    );
    assert_eq!(
        Bookmark::new_search("Find".to_string(), "http://s/?q=%s".to_string()).label(),
        "Find [http://s/?q=%s]"
    );
    let dims = vec![
        Dimension::new("lang".to_string(), vec!["en".to_string(), "de".to_string()]),
        Dimension::new("page".to_string(), vec!["1".to_string()]),
    ];
    let multi = Bookmark::new_multi("Wiki".to_string(), "http://%s.w/%s".to_string(), dims);
    assert_eq!(multi.label(), "Wiki http://%s.w/%s [lang][page]");
}

#[test]
fn label_of_multi_input_without_dimensions() {
    let multi = Bookmark::new_multi("Plain".to_string(), "http://p".to_string(), vec![]);
    assert_eq!(multi.label(), "Plain http://p []");
}
