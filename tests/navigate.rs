use wth::bookmark::{Bookmark, Dimension};
use wth::navigate::{NavError, Navigator, Reply, Request};

fn expect_launch(r: Result<Request, NavError>) -> String {
    match r {
        Ok(Request::Launch(url)) => url,
        _ => panic!("expected a URL"),
    }
}

fn expect_choose(r: Result<Request, NavError>) -> (String, Vec<String>) {
    match r {
        Ok(Request::Choose(prompt, items)) => (prompt, items),
        _ => panic!("expected a choice"),
    }
}

#[test]
fn folder_with_search_resolves_typed_query() {
    let mut root = Bookmark::new();
    root.add(Bookmark::new_search("S".to_string(), "http://s.example/?q=%s".to_string())).unwrap();
    let mut nav = Navigator::new(&root);
    let (prompt, items) = expect_choose(nav.request());
    assert_eq!(prompt, "Select bookmark");
    assert_eq!(items, vec!["S [http://s.example/?q=%s]".to_string()]);
    assert_eq!(nav.reply(Reply::Choice(0)), Ok(()));
    assert!(matches!(nav.request(), Ok(Request::Text)));
    assert_eq!(nav.reply(Reply::Text("hello world".to_string())), Ok(()));
    assert_eq!(expect_launch(nav.request()), "http://s.example/?q=hello%20world");
}

#[test]
fn link_resolves_to_its_url() {
    let mut root = Bookmark::new();
    root.add(Bookmark::new_link("a".to_string(), "http://a".to_string())).unwrap();
    root.add(Bookmark::new_link("b".to_string(), "http://b".to_string())).unwrap();
    let mut nav = Navigator::new(&root);
    assert_eq!(nav.reply(Reply::Choice(1)), Ok(()));
    assert_eq!(expect_launch(nav.request()), "http://b");
}

#[test]
fn multi_input_asks_each_dimension_in_order() {
    let dims = vec![
        Dimension::new("lang".to_string(), vec!["en".to_string(), "de".to_string()]),
        Dimension::new("topic".to_string(), vec!["Rust".to_string(), "Go".to_string()]),
    ];
    let root = Bookmark::new_multi("W".to_string(), "http://%s.w.org/%s".to_string(), dims);
    let mut nav = Navigator::new(&root);
    let (prompt, items) = expect_choose(nav.request());
    assert_eq!(prompt, "lang");
    assert_eq!(items, vec!["en".to_string(), "de".to_string()]);
    assert_eq!(nav.reply(Reply::Choice(1)), Ok(()));
    let (prompt, _) = expect_choose(nav.request());
    assert_eq!(prompt, "topic");
    assert_eq!(nav.reply(Reply::Choice(0)), Ok(()));
    assert_eq!(expect_launch(nav.request()), "http://de.w.org/Rust");
}

#[test]
fn multi_input_with_too_few_dimensions_fails() {
    let dims = vec![Dimension::new("one".to_string(), vec!["X".to_string()])];
    let root = Bookmark::new_multi("M".to_string(), "a%sb%sc".to_string(), dims);
    let mut nav = Navigator::new(&root);
    assert_eq!(nav.reply(Reply::Choice(0)), Ok(()));
    assert!(matches!(nav.request(), Err(NavError::Arity)));
}

#[test]
fn replies_that_do_not_fit_are_refused() {
    let mut root = Bookmark::new();
    root.add(Bookmark::new_link("a".to_string(), "http://a".to_string())).unwrap();
    let mut nav = Navigator::new(&root);
    assert_eq!(nav.reply(Reply::Choice(5)), Err(NavError::NoSuchChoice));
    assert_eq!(nav.reply(Reply::Text("x".to_string())), Err(NavError::UnexpectedReply));
    assert_eq!(nav.reply(Reply::Choice(0)), Ok(()));
    assert_eq!(nav.reply(Reply::Choice(0)), Err(NavError::UnexpectedReply));
    assert_eq!(expect_launch(nav.request()), "http://a");
}
