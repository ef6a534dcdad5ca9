use wth::template::{count_placeholders, expand_multiple, fill_placeholder, search, TemplateError};

#[test]
fn search_without_placeholder_returns_template() {
    assert_eq!(search("http://example.com/", "anything at all"), "http://example.com/");
    assert_eq!(search("", "q"), "");
}

#[test]
fn search_encodes_the_query() {
    assert_eq!(search("http://s.example/?q=%s", "hello world"), "http://s.example/?q=hello%20world");
    assert_eq!(search("http://s/?q=%s&x=1", "a&b/c"), "http://s/?q=a%26b%2Fc&x=1");
    assert_eq!(search("http://s/%s", "safe-_.~AZaz09"), "http://s/safe-_.~AZaz09");
}

#[test]
fn search_substitutes_only_the_first_placeholder() {
    assert_eq!(search("%s and %s", "x y"), "x%20y and %s");
}

#[test]
fn fill_placeholder_inserts_verbatim() {
    assert_eq!(fill_placeholder("a%sb", "x y"), "ax yb");
    assert_eq!(fill_placeholder("abc", "x"), "abc");
    assert_eq!(fill_placeholder("%%s", "x"), "%x");
}

#[test]
fn expand_multiple_round_trip() {
    let sels = vec!["X".to_string(), "Y".to_string()];
    assert_eq!(expand_multiple("a%sb%sc", &sels), Ok("aXbYc".to_string()));
}

#[test]
fn expand_multiple_arity_mismatch() {
    let sels = vec!["X".to_string()];
    assert_eq!(expand_multiple("a%sb%sc", &sels), Err(TemplateError::Arity));
}

#[test]
fn expand_multiple_edge_cases() {
    assert_eq!(expand_multiple("plain", &vec![]), Ok("plain".to_string()));
    assert_eq!(expand_multiple("%s%s", &vec!["1".to_string(), "2".to_string()]), Ok("12".to_string()));
    let extra = vec!["1".to_string(), "2".to_string()];
    assert_eq!(expand_multiple("x=%s", &extra), Ok("x=1".to_string()));
    assert_eq!(expand_multiple("x=%s", &vec!["a b".to_string()]), Ok("x=a b".to_string()));
}

#[test]
fn counts_placeholders() {
    assert_eq!(count_placeholders(""), 0);
    assert_eq!(count_placeholders("a%sb%sc"), 2);
    assert_eq!(count_placeholders("%%s"), 1);
    assert_eq!(count_placeholders("%"), 0);
}
