use wth::bookmark::{Bookmark, Content};
use wth::parse::{preprocess, xml_string_to_bookmark};

fn children(b: &Bookmark) -> &Vec<Bookmark> {
    match &b.content {
        Content::Folder(children) => children,
        _ => panic!("not a folder"),
    }
}

fn link_url(b: &Bookmark) -> &str {
    match &b.content {
        Content::Link(u) => u,
        _ => panic!("not a link"),
    }
}

fn parse_ok(text: &str) -> Bookmark {
    match xml_string_to_bookmark(text.to_string()) {
        Ok(b) => b,
        Err(e) => panic!("{}", e.message),
    }
}

#[test]
fn top_level_anchor_becomes_a_link() {
    let root = parse_ok("<A HREF=\"http://x\">Title</A>");
    assert_eq!(root.title, "");
    let kids = children(&root);
    assert_eq!(kids.len(), 1);
    assert_eq!(kids[0].title, "Title");
    assert_eq!(link_url(&kids[0]), "http://x");
}

#[test]
fn heading_and_list_become_a_folder() {
    let root = parse_ok("<DL><p><DT><H3>Folder</H3>\n<DL><p>\n<DT><A HREF=\"http://x\">Title</A>\n</DL><p>\n</DL>");
    let kids = children(&root);
    assert_eq!(kids.len(), 1);
    assert_eq!(kids[0].title, "Folder");
    let inner = children(&kids[0]);
    assert_eq!(inner.len(), 1);
    assert_eq!(inner[0].title, "Title");
    assert_eq!(link_url(&inner[0]), "http://x");
}

#[test]
fn nested_folders_keep_document_order() {
    let root = parse_ok(
        "<DL><H1>Top</H1><DL><A HREF=\"u1\">one</A><H3>Sub</H3><DL><A HREF=\"u2\">two</A></DL><A HREF=\"u3\">three</A></DL></DL>",
    );
    let top = children(&root);
    assert_eq!(top.len(), 1);
    assert_eq!(top[0].title, "Top");
    let inner = children(&top[0]);
    assert_eq!(inner.len(), 3);
    assert_eq!(inner[0].title, "one");
    assert_eq!(inner[1].title, "Sub");
    assert_eq!(children(&inner[1])[0].title, "two");
    assert_eq!(inner[2].title, "three");
}

#[test]
fn heading_without_list_is_dropped() {
    let root = parse_ok("<DL><DIV><H3>Lost</H3></DIV><DL><A HREF=\"http://y\">Y</A></DL></DL>");
    let kids = children(&root);
    assert_eq!(kids.len(), 1);
    assert_eq!(kids[0].title, "Y");
    assert_eq!(link_url(&kids[0]), "http://y");
}

#[test]
fn waiting_heading_skips_siblings_until_a_list() {
    let root = parse_ok("<DL><H3>Lost</H3><A HREF=\"http://y\">Y</A></DL>");
    assert!(children(&root).is_empty());
    let root = parse_ok("<DL><H3>F</H3><A HREF=\"a\">skipped</A><DL><A HREF=\"b\">kept</A></DL></DL>");
    let kids = children(&root);
    assert_eq!(kids.len(), 1);
    assert_eq!(kids[0].title, "F");
    assert_eq!(children(&kids[0]).len(), 1);
    assert_eq!(children(&kids[0])[0].title, "kept");
}

#[test]
fn titles_fall_back() {
    let root = parse_ok("<DL><A HREF=\"http://bare\"></A><H3></H3><DL></DL></DL>");
    let kids = children(&root);
    assert_eq!(kids.len(), 2);
    assert_eq!(kids[0].title, "http://bare");
    assert_eq!(kids[1].title, "undefined");
    assert!(children(&kids[1]).is_empty());
}

#[test]
fn ampersands_are_escaped_before_reading() {
    let root = parse_ok("<A HREF=\"http://x/?a=1&b=2\">Fish & Chips</A>");
    let kids = children(&root);
    assert_eq!(kids[0].title, "Fish & Chips");
    assert_eq!(link_url(&kids[0]), "http://x/?a=1&b=2");
}

#[test]
fn preprocess_strips_markers_and_escapes() {
    assert_eq!(preprocess("<DT><A>x</A><p>y & z"), "<A>x</A>y &amp; z");
    assert_eq!(preprocess("<P><dt>"), "<P><dt>");
    assert_eq!(preprocess(""), "");
}

#[test]
fn malformed_markup_reports_position_and_context() {
    let err = match xml_string_to_bookmark("<DL>\n<A HREF=\"u\">x</B>\n</DL>".to_string()) {
        Ok(_) => panic!("accepted malformed markup"),
        Err(e) => e,
    };
    assert_eq!(err.line, 2);
    assert!(err.column >= 1);
    assert!(err.message.starts_with("Error parsing xml: "));
    let caret = format!("{}^", " ".repeat(err.column as usize - 1));
    assert_eq!(err.context, format!("<A HREF=\"u\">x</B>\n{}", caret));
}
