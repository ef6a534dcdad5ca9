//! The walk from the root of a bookmark tree down to one resolved URL, as a
//! state machine: the session states what it needs next, the caller asks
//! the user and hands the answer back.
use crate::bookmark::{label_of, Bookmark, BookmarkModel, Content, ContentModel};
use crate::template::{
    expand_multiple, fill_all, fill_first, placeholder_count, search, strings_view, url_encoded,
    TemplateError,
};
use vstd::prelude::*;

verus! {

/// What a navigation session needs next.
pub enum Request {
    /// A single choice among the given items, under the given prompt.
    Choose(String, Vec<String>),
    /// One line of free text.
    Text,
    /// Nothing more: the resolved URL is to be opened.
    Launch(String),
}

/// The user's answer to a request.
pub enum Reply {
    /// The index of the chosen item.
    Choice(usize),
    /// A line of free text.
    Text(String),
}

/// Why a session cannot go on.
#[derive(Debug, Clone, Copy, PartialEq, Eq, Structural)]
pub enum NavError {
    /// The chosen index is not that of an item on offer.
    NoSuchChoice,
    /// The reply does not answer the pending request.
    UnexpectedReply,
    /// A templated link has fewer dimensions than placeholders.
    Arity,
}

/// A walk in progress: the bookmark reached, the values picked so far for
/// its dimensions, and the query typed for it, if any.
pub struct Navigator<'a> {
    pub node: &'a Bookmark,
    pub picked: Vec<String>,
    pub query: Option<String>,
}

/// The prompt under which a folder's children are offered.
pub open spec fn folder_prompt() -> Seq<char> {
    "Select bookmark"@
}

impl<'a> Navigator<'a> {
    /// A session at `root`, with nothing picked or typed yet.
    pub fn new(root: &'a Bookmark) -> (r: Navigator<'a>)
        ensures
            r.node == root,
            r.picked@.len() == 0,
            r.query is None,
    {
        Navigator { node: root, picked: Vec::new(), query: None }
    }

    /// What the session needs next: a choice among a folder's children (by
    /// their labels), a line of text for a search, a choice among the values
    /// of the next dimension of a templated link, or, once nothing is
    /// missing, the URL to open.
    pub fn request(&self) -> (r: Result<Request, NavError>)
        ensures
            match self.node@.content {
                ContentModel::Folder(children) => r matches Ok(Request::Choose(prompt, items))
                    && prompt@ == folder_prompt() && strings_view(items@) == children.map_values(
                    |b: BookmarkModel| label_of(b),
                ),
                ContentModel::Link(url) => r matches Ok(Request::Launch(u)) && u@ == url,
                ContentModel::TextInput(template) => match self.query {
                    None => r matches Ok(Request::Text),
                    Some(q) => r matches Ok(Request::Launch(u)) && u@ == fill_first(
                        template,
                        url_encoded(q@),
                    ),
                },
                ContentModel::MultiTextInput(template, dims) => if self.picked.len() < dims.len() {
                    r matches Ok(Request::Choose(prompt, items)) && prompt@ == dims[self.picked.len() as int].title
                        && strings_view(items@) == dims[self.picked.len() as int].points
                } else if self.picked.len() < placeholder_count(template) {
                    r == Err::<Request, NavError>(NavError::Arity)
                } else {
                    r matches Ok(Request::Launch(u)) && u@ == fill_all(
                        template,
                        strings_view(self.picked@),
                    )
                },
            },
    {
        match &self.node.content {
            Content::Folder(children) => {
                let mut items: Vec<String> = Vec::new();
                let mut i: usize = 0;
                while i < children.len()
                    invariant
                        i <= children.len(),
                        strings_view(items@) == children@.take(i as int).map_values(
                            |b: Bookmark| label_of(b@),
                        ),
                    decreases children.len() - i,
                {
                    let ghost prev = items@;
                    let label = children[i].label();
                    items.push(label);
                    assert(items@ =~= prev.push(label));
                    assert(strings_view(items@) =~= strings_view(prev).push(label@));
                    assert(children@.take(i + 1).map_values(|b: Bookmark| label_of(b@))
                        =~= children@.take(i as int).map_values(|b: Bookmark| label_of(b@)).push(
                        label_of(children@[i as int]@),
                    ));
                    i = i + 1;
                }
                assert(children@.take(i as int) =~= children@);
                assert(strings_view(items@) =~= self.node@.content->Folder_0.map_values(
                    |b: BookmarkModel| label_of(b),
                ));
                Ok(Request::Choose(String::from_str("Select bookmark"), items))
            },
            Content::Link(url) => Ok(Request::Launch(url.clone())),
            Content::TextInput(template) => match &self.query {
                None => Ok(Request::Text),
                Some(q) => Ok(Request::Launch(search(template.as_str(), q.as_str()))),
            },
            Content::MultiTextInput(template, dims) => {
                let k = self.picked.len();
                if k < dims.len() {
                    let dim = &dims[k];
                    let points = clone_strings(&dim.points);
                    Ok(Request::Choose(dim.title.clone(), points))
                } else {
                    match expand_multiple(template.as_str(), &self.picked) {
                        Ok(url) => Ok(Request::Launch(url)),
                        Err(TemplateError::Arity) => Err(NavError::Arity),
                    }
                }
            },
        }
    }

    /// Takes the user's answer to the pending request. A choice in a folder
    /// moves to that child; a choice for a dimension records its value; text
    /// for a search records the query. An answer that does not fit leaves
    /// the session as it was.
    pub fn reply(&mut self, reply: Reply) -> (r: Result<(), NavError>)
        ensures
            match (old(self).node.content, reply) {
                (Content::Folder(children), Reply::Choice(i)) => if i < children.len() {
                    &&& r is Ok
                    &&& final(self).node == children@[i as int]
                    &&& final(self).picked@.len() == 0
                    &&& final(self).query is None
                } else {
                    r == Err::<(), NavError>(NavError::NoSuchChoice) && *final(self) == *old(self)
                },
                (Content::MultiTextInput(_, dims), Reply::Choice(i)) => if old(self).picked.len()
                    < dims.len() && i < dims@[old(self).picked.len() as int].points.len() {
                    &&& r is Ok
                    &&& final(self).node == old(self).node
                    &&& strings_view(final(self).picked@) == strings_view(old(self).picked@).push(
                        dims@[old(self).picked.len() as int].points@[i as int]@,
                    )
                    &&& final(self).query == old(self).query
                } else {
                    r == Err::<(), NavError>(NavError::NoSuchChoice) && *final(self) == *old(self)
                },
                (Content::TextInput(_), Reply::Text(q)) => if old(self).query is None {
                    &&& r is Ok
                    &&& final(self).node == old(self).node
                    &&& final(self).picked == old(self).picked
                    &&& final(self).query == Some(q)
                } else {
                    r == Err::<(), NavError>(NavError::UnexpectedReply) && *final(self) == *old(
                        self,
                    )
                },
                _ => r == Err::<(), NavError>(NavError::UnexpectedReply) && *final(self) == *old(
                    self,
                ),
            },
    {
        let node: &'a Bookmark = self.node;
        match (&node.content, reply) {
            (Content::Folder(children), Reply::Choice(i)) => {
                if i < children.len() {
                    self.node = &children[i];
                    self.picked = Vec::new();
                    self.query = None;
                    Ok(())
                } else {
                    Err(NavError::NoSuchChoice)
                }
            },
            (Content::MultiTextInput(_, dims), Reply::Choice(i)) => {
                let k = self.picked.len();
                if k < dims.len() && i < dims[k].points.len() {
                    let ghost before = strings_view(self.picked@);
                    self.picked.push(dims[k].points[i].clone());
                    assert(strings_view(self.picked@) =~= before.push(
                        dims@[k as int].points@[i as int]@,
                    ));
                    Ok(())
                } else {
                    Err(NavError::NoSuchChoice)
                }
            },
            (Content::TextInput(_), Reply::Text(q)) => {
                if self.query.is_none() {
                    self.query = Some(q);
                    Ok(())
                } else {
                    Err(NavError::UnexpectedReply)
                }
            },
            _ => Err(NavError::UnexpectedReply),
        }
    }
}

fn clone_strings(v: &Vec<String>) -> (r: Vec<String>)
    ensures
        strings_view(r@) == strings_view(v@),
{
    let mut r: Vec<String> = Vec::new();
    let mut i: usize = 0;
    while i < v.len()
        invariant
            i <= v.len(),
            strings_view(r@) == strings_view(v@.take(i as int)),
        decreases v.len() - i,
    {
        let ghost prev = r@;
        let s = v[i].clone();
        r.push(s);
        assert(r@ =~= prev.push(s));
        assert(strings_view(r@) =~= strings_view(prev).push(s@));
        assert(v@.take(i + 1) =~= v@.take(i as int).push(v@[i as int]));
        assert(strings_view(v@.take(i + 1)) =~= strings_view(v@.take(i as int)).push(v@[i as int]@));
        i = i + 1;
    }
    assert(v@.take(i as int) =~= v@);
    r
}

} // verus!
