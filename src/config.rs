//! What one run of the program is asked to do, and the bookmark that the
//! `add` command appends.
use crate::bookmark::{Bookmark, ContentModel};
use crate::template::{count_placeholders, placeholder_count};
use vstd::prelude::*;

verus! {

#[verifier::external_type_specification]
#[verifier::external_body]
pub struct ExPathBuf(std::path::PathBuf);

/// A command.
pub enum Action {
    /// Reads a legacy bookmark export at `path` and stores it as the tree.
    Import { path: std::path::PathBuf },
    /// Appends a link, or a search when `url` holds `%s`, to the root folder.
    Add { url: String, title: Option<String> },
    /// Walks the stored tree and opens the URL it resolves to.
    Go,
}

/// A command together with the location of the store it works on.
pub struct Config {
    pub db: std::path::PathBuf,
    pub action: Action,
}

impl Config {
    pub fn new(db: std::path::PathBuf, action: Action) -> (r: Config)
        ensures
            r.db == db,
            r.action == action,
    {
        Config { db, action }
    }

    pub fn db(&self) -> (r: &std::path::PathBuf)
        ensures
            *r == self.db,
    {
        &self.db
    }

    pub fn action(&self) -> (r: &Action)
        ensures
            *r == self.action,
    {
        &self.action
    }
}

/// The title given to an added bookmark when none is supplied.
pub open spec fn default_title() -> Seq<char> {
    "New Bookmark"@
}

/// The bookmark that `add` appends for `url`: a search when `url` holds a
/// `%s` placeholder, a literal link otherwise, titled `title` or
/// `New Bookmark`.
pub fn entry_for(url: String, title: Option<String>) -> (r: Bookmark)
    ensures
        r@.title == match title {
            Some(t) => t@,
            None => default_title(),
        },
        placeholder_count(url@) > 0 ==> r@.content == ContentModel::TextInput(url@),
        placeholder_count(url@) == 0 ==> r@.content == ContentModel::Link(url@),
{
    let title = match title {
        Some(t) => t,
        None => String::from_str("New Bookmark"),
    };
    if count_placeholders(url.as_str()) > 0 {
        Bookmark::new_search(title, url)
    } else {
        Bookmark::new_link(title, url)
    }
}

} // verus!
