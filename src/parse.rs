//! The legacy bookmark export reader: headings paired with the lists that
//! follow them become folders, anchors become links.
use crate::bookmark::{Bookmark, BookmarkModel, Content, ContentModel};
use crate::markup::{
    chars_of, context_of, read_xml, render_context, replace_all, replace_chars, same_text,
    string_of, xml_content, Markup,
};
use vstd::prelude::*;

verus! {

/// `m` is an element with the local name `name`.
pub open spec fn element_named(m: Markup, name: Seq<char>) -> bool {
    m matches Markup::Element { name: n, .. } && n@ == name
}

/// `m` is one of the two heading elements that introduce a folder.
pub open spec fn is_heading(m: Markup) -> bool {
    element_named(m, "H1"@) || element_named(m, "H3"@)
}

/// The value of the first attribute of `attrs` named `key`.
pub open spec fn attribute_of(attrs: Seq<(String, String)>, key: Seq<char>) -> Option<Seq<char>>
    decreases attrs.len(),
{
    if attrs.len() == 0 {
        None
    } else if attrs[0].0@ == key {
        Some(attrs[0].1@)
    } else {
        attribute_of(attrs.drop_first(), key)
    }
}

/// The link target of an anchor element: its `HREF` attribute.
pub open spec fn anchor_target(m: Markup) -> Option<Seq<char>> {
    match m {
        Markup::Element { name, attributes, .. } => if name@ == "A"@ {
            attribute_of(attributes@, "HREF"@)
        } else {
            None
        },
        _ => None,
    }
}

/// The text of an element's first child, when that child is a text node.
pub open spec fn leading_text(m: Markup) -> Option<Seq<char>> {
    match m {
        Markup::Element { children, .. } => if children.len() > 0 && children[0] is Text {
            Some(children[0]->Text_0@)
        } else {
            None
        },
        _ => None,
    }
}

/// The title of the folder a heading introduces.
pub open spec fn heading_title(h: Markup) -> Seq<char> {
    match leading_text(h) {
        Some(t) => t,
        None => "undefined"@,
    }
}

/// The link an anchor with target `href` stands for.
pub open spec fn link_model(a: Markup, href: Seq<char>) -> BookmarkModel {
    BookmarkModel {
        title: match leading_text(a) {
            Some(t) => t,
            None => href,
        },
        content: ContentModel::Link(href),
    }
}

/// The bookmarks that the sibling nodes `cs` contribute to the folder being
/// read, given the heading still waiting for its list, if any.
///
/// A waiting heading skips every sibling up to the next `DL` element, and
/// the two become a folder. Otherwise a heading starts waiting, an anchor
/// with a target becomes a link, and any other element is read through as
/// if its children stood in its place, with no heading waiting.
pub open spec fn collect(cs: Seq<Markup>, pending: Option<Markup>) -> Seq<BookmarkModel>
    decreases cs,
{
    if cs.len() == 0 {
        seq![]
    } else {
        let c = cs[0];
        let rest = cs.drop_first();
        match pending {
            Some(h) => if element_named(c, "DL"@) {
                match c {
                    Markup::Element { children, .. } => seq![
                        BookmarkModel {
                            title: heading_title(h),
                            content: ContentModel::Folder(collect(children@, None)),
                        },
                    ] + collect(rest, None),
                    _ => seq![],
                }
            } else {
                collect(rest, Some(h))
            },
            None => if is_heading(c) {
                collect(rest, Some(c))
            } else if anchor_target(c) is Some {
                seq![link_model(c, anchor_target(c)->0)] + collect(rest, None)
            } else {
                match c {
                    Markup::Element { children, .. } => collect(children@, None) + collect(
                        rest,
                        None,
                    ),
                    _ => collect(rest, None),
                }
            },
        }
    }
}

/// The untitled root folder holding `items`.
pub open spec fn root_model(items: Seq<BookmarkModel>) -> BookmarkModel {
    BookmarkModel { title: seq![], content: ContentModel::Folder(items) }
}

/// The models of a sequence of bookmarks.
pub open spec fn bookmarks_view(v: Seq<Bookmark>) -> Seq<BookmarkModel> {
    v.map_values(|b: Bookmark| b@)
}

/// Why a legacy export could not be read: the 1-based line and column of
/// the fault in the normalised text, a description, and that line with a
/// caret under the column.
pub struct ParseError {
    pub line: u32,
    pub column: u32,
    pub message: String,
    pub context: String,
}

/// The optional string as an optional character sequence.
pub open spec fn opt_view(o: Option<String>) -> Option<Seq<char>> {
    match o {
        Some(s) => Some(s@),
        None => None,
    }
}

fn is_element_named(m: &Markup, name: &str) -> (r: bool)
    ensures
        r == element_named(*m, name@),
{
    match m {
        Markup::Element { name: n, .. } => same_text(n.as_str(), name),
        _ => false,
    }
}

fn find_attribute(attrs: &Vec<(String, String)>, key: &str) -> (r: Option<String>)
    ensures
        opt_view(r) == attribute_of(attrs@, key@),
{
    let mut i: usize = 0;
    assert(attrs@.skip(0) =~= attrs@);
    while i < attrs.len()
        invariant
            i <= attrs.len(),
            attribute_of(attrs@.skip(i as int), key@) == attribute_of(attrs@, key@),
        decreases attrs.len() - i,
    {
        assert(attrs@.skip(i as int).drop_first() =~= attrs@.skip(i + 1));
        if same_text(attrs[i].0.as_str(), key) {
            return Some(attrs[i].1.clone());
        }
        i = i + 1;
    }
    None
}

fn anchor_target_exec(m: &Markup) -> (r: Option<String>)
    ensures
        opt_view(r) == anchor_target(*m),
{
    match m {
        Markup::Element { name, attributes, .. } => {
            if same_text(name.as_str(), "A") {
                find_attribute(attributes, "HREF")
            } else {
                None
            }
        },
        _ => None,
    }
}

fn leading_text_exec(m: &Markup) -> (r: Option<String>)
    ensures
        opt_view(r) == leading_text(*m),
{
    match m {
        Markup::Element { children, .. } => {
            if children.len() > 0 {
                match &children[0] {
                    Markup::Text(t) => Some(t.clone()),
                    _ => None,
                }
            } else {
                None
            }
        },
        _ => None,
    }
}

fn folder_of(title: String, children: Vec<Bookmark>) -> (r: Bookmark)
    ensures
        r@ == (BookmarkModel {
            title: title@,
            content: ContentModel::Folder(bookmarks_view(children@)),
        }),
{
    let r = Bookmark { title, content: Content::Folder(children) };
    assert(r@.content->Folder_0 =~= bookmarks_view(children@));
    r
}

/// Appends to `out` the bookmarks that the sibling nodes `cs` stand for.
fn collect_into(cs: &Vec<Markup>, out: &mut Vec<Bookmark>)
    ensures
        bookmarks_view(final(out)@) == bookmarks_view(old(out)@) + collect(cs@, None),
    decreases cs@,
{
    let ghost start = bookmarks_view(out@);
    let mut pending: Option<usize> = None;
    let mut i: usize = 0;
    assert(cs@.skip(0) =~= cs@);
    assert(start + collect(cs@, None) =~= bookmarks_view(out@) + collect(cs@, None));
    while i < cs.len()
        invariant
            i <= cs.len(),
            pending matches Some(j) ==> j < cs.len(),
            bookmarks_view(out@) + collect(
                cs@.skip(i as int),
                match pending {
                    Some(j) => Some(cs@[j as int]),
                    None => None,
                },
            ) == start + collect(cs@, None),
        decreases cs.len() - i,
    {
        let ghost before = bookmarks_view(out@);
        let ghost rest = cs@.skip(i as int);
        assert(rest.drop_first() =~= cs@.skip(i + 1));
        assert(rest[0] == cs@[i as int]);
        let c = &cs[i];
        match pending {
            Some(j) => {
                if is_element_named(c, "DL") {
                    match c {
                        Markup::Element { children, .. } => {
                            assert(decreases_to!(cs@ => cs@[i as int]));
                            let mut inner: Vec<Bookmark> = Vec::new();
                            collect_into(children, &mut inner);
                            let title = match leading_text_exec(&cs[j]) {
                                Some(t) => t,
                                None => String::from_str("undefined"),
                            };
                            let folder = folder_of(title, inner);
                            out.push(folder);
                            assert(bookmarks_view(out@) =~= before + seq![folder@]);
                        },
                        _ => {},
                    }
                    pending = None;
                }
            },
            None => {
                if is_element_named(c, "H1") || is_element_named(c, "H3") {
                    pending = Some(i);
                } else {
                    match anchor_target_exec(c) {
                        Some(href) => {
                            let title = match leading_text_exec(c) {
                                Some(t) => t,
                                None => href.clone(),
                            };
                            let link = Bookmark::new_link(title, href);
                            out.push(link);
                            assert(bookmarks_view(out@) =~= before + seq![link@]);
                        },
                        None => {
                            match c {
                                Markup::Element { children, .. } => {
                                    assert(decreases_to!(cs@ => cs@[i as int]));
                                    collect_into(children, out);
                                },
                                _ => {},
                            }
                        },
                    }
                }
            },
        }
        assert(bookmarks_view(out@) + collect(
            cs@.skip(i + 1),
            match pending {
                Some(j) => Some(cs@[j as int]),
                None => None,
            },
        ) =~= start + collect(cs@, None));
        i = i + 1;
    }
    assert(bookmarks_view(out@) + collect(cs@.skip(i as int), None) =~= bookmarks_view(out@));
}

/// Builds the bookmark tree that the nodes of a legacy export stand for,
/// under an untitled root folder.
pub fn bookmarks_from_markup(nodes: &Vec<Markup>) -> (r: Bookmark)
    ensures
        r@ == root_model(collect(nodes@, None)),
{
    let mut items: Vec<Bookmark> = Vec::new();
    collect_into(nodes, &mut items);
    assert(bookmarks_view(items@) =~= collect(nodes@, None));
    folder_of(String::new(), items)
}

/// The normalisation applied before a legacy export is read as XML: every
/// `<DT>` is removed, then every `<p>`, then every `&` becomes `&amp;`.
pub open spec fn preprocessed(text: Seq<char>) -> Seq<char> {
    replace_all(
        replace_all(
            replace_all(text, seq!['<', 'D', 'T', '>'], seq![]),
            seq!['<', 'p', '>'],
            seq![],
        ),
        seq!['&'],
        seq!['&', 'a', 'm', 'p', ';'],
    )
}

fn preprocessed_chars(text: &str) -> (r: Vec<char>)
    ensures
        r@ == preprocessed(text@),
{
    let chars = chars_of(text);
    let dt = vec!['<', 'D', 'T', '>'];
    let p = vec!['<', 'p', '>'];
    let amp = vec!['&'];
    let escaped = vec!['&', 'a', 'm', 'p', ';'];
    assert(dt@ =~= seq!['<', 'D', 'T', '>']);
    assert(p@ =~= seq!['<', 'p', '>']);
    assert(amp@ =~= seq!['&']);
    assert(escaped@ =~= seq!['&', 'a', 'm', 'p', ';']);
    let no_dt = replace_chars(&chars, &dt, &Vec::new());
    let no_p = replace_chars(&no_dt, &p, &Vec::new());
    replace_chars(&no_p, &amp, &escaped)
}

/// Applies the normalisation that makes a legacy export readable as XML:
/// removes the unclosed `<DT>` and `<p>` markers and escapes bare `&`.
pub fn preprocess(text: &str) -> (r: String)
    ensures
        r@ == preprocessed(text@),
{
    let cs = preprocessed_chars(text);
    string_of(&cs)
}

/// Reads a legacy bookmark export into a tree under an untitled root folder.
/// Fails, with the position, a description and the offending line, exactly
/// when the normalised text is not well-formed XML.
pub fn xml_string_to_bookmark(xml: String) -> (r: Result<Bookmark, ParseError>)
    ensures
        match xml_content(preprocessed(xml@)) {
            Ok(nodes) => r is Ok && r->Ok_0@ == root_model(collect(nodes, None)),
            Err(fault) => {
                &&& r is Err
                &&& r->Err_0.line == fault.row
                &&& r->Err_0.column == fault.col
                &&& r->Err_0.message@ == "Error parsing xml: "@ + fault.message@
                &&& r->Err_0.context@ == context_of(
                    preprocessed(xml@),
                    fault.row as nat,
                    fault.col as nat,
                )
            },
        },
{
    let contents = preprocessed_chars(xml.as_str());
    let text = string_of(&contents);
    match read_xml(text.as_str()) {
        Ok(nodes) => Ok(bookmarks_from_markup(&nodes)),
        Err(fault) => {
            let context = render_context(&contents, fault.row, fault.col);
            let message = String::from_str("Error parsing xml: ").concat(fault.message.as_str());
            Err(ParseError { line: fault.row, column: fault.col, message, context })
        },
    }
}

proof fn lemma_names_differ()
    ensures
        "DL"@ != "H1"@,
        "DL"@ != "H3"@,
        "DL"@ != "A"@,
{
    reveal_strlit("DL");
    reveal_strlit("H1");
    reveal_strlit("H3");
    reveal_strlit("A");
    assert("DL"@[0] != "H1"@[0]);
    assert("DL"@[0] != "H3"@[0]);
    assert("DL"@.len() != "A"@.len());
}

/// Siblings that hold no `DL` element contribute nothing while a heading
/// waits: a heading that no list follows is dropped.
pub proof fn lemma_unpaired_heading_dropped(cs: Seq<Markup>, h: Markup)
    requires
        forall|i: int| 0 <= i < cs.len() ==> !element_named(#[trigger] cs[i], "DL"@),
    ensures
        collect(cs, Some(h)) == Seq::<BookmarkModel>::empty(),
    decreases cs.len(),
{
    if cs.len() > 0 {
        let rest = cs.drop_first();
        assert forall|i: int| 0 <= i < rest.len() implies !element_named(
            #[trigger] rest[i],
            "DL"@,
        ) by {
            assert(rest[i] == cs[i + 1]);
        }
        lemma_unpaired_heading_dropped(rest, h);
    }
}

/// A heading followed at once by a `DL` element becomes a folder titled by
/// the heading's text and holding what the list holds.
pub proof fn lemma_heading_pairs_with_list(h: Markup, dl: Markup, rest: Seq<Markup>)
    requires
        is_heading(h),
        element_named(dl, "DL"@),
    ensures
        collect(seq![h, dl] + rest, None) == seq![
            BookmarkModel {
                title: heading_title(h),
                content: ContentModel::Folder(collect(dl->children@, None)),
            },
        ] + collect(rest, None),
{
    let cs = seq![h, dl] + rest;
    let tail = seq![dl] + rest;
    assert(cs[0] == h);
    assert(cs.drop_first() =~= tail);
    assert(tail[0] == dl);
    assert(tail.drop_first() =~= rest);
    assert(collect(cs, None) == collect(tail, Some(h)));
}

/// A heading waits only among its own siblings: when the element holding it
/// has no `DL` after it, a `DL` that follows that element is read as a plain
/// container, its entries landing directly in the current folder.
pub proof fn lemma_heading_wait_ends_with_parent(
    holder: Markup,
    h: Markup,
    after: Seq<Markup>,
    dl: Markup,
)
    requires
        holder matches Markup::Element { children, .. } && children@ == seq![h] + after,
        !is_heading(holder),
        anchor_target(holder) is None,
        is_heading(h),
        forall|i: int| 0 <= i < after.len() ==> !element_named(#[trigger] after[i], "DL"@),
        element_named(dl, "DL"@),
    ensures
        collect(seq![holder, dl], None) == collect(dl->children@, None),
{
    lemma_names_differ();
    lemma_unpaired_heading_dropped(after, h);
    let inner = seq![h] + after;
    assert(inner.drop_first() =~= after);
    assert(collect(inner, None) == collect(after, Some(h)));
    let cs = seq![holder, dl];
    assert(cs.drop_first() =~= seq![dl]);
    assert(seq![dl].drop_first() =~= Seq::<Markup>::empty());
    assert(!is_heading(dl));
    assert(anchor_target(dl) is None);
    assert(collect(Seq::<Markup>::empty(), None) =~= Seq::<BookmarkModel>::empty());
    assert(collect(seq![dl], None) == collect(dl->children@, None) + collect(
        Seq::<Markup>::empty(),
        None,
    ));
    assert(collect(seq![dl], None) =~= collect(dl->children@, None));
    assert(collect(cs, None) =~= collect(dl->children@, None));
}

} // verus!
