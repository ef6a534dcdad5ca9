//! The bookmark tree: folders, literal links, free-text searches and
//! templated links with discrete choice dimensions.
use vstd::prelude::*;

verus! {

/// One choice list of a templated link: a prompt label and the values that
/// may fill its placeholder.
pub struct Dimension {
    pub title: String,
    pub points: Vec<String>,
}

/// What a bookmark holds; exactly one variant at a time.
pub enum Content {
    Folder(Vec<Bookmark>),
    Link(String),
    TextInput(String),
    MultiTextInput(String, Vec<Dimension>),
}

/// A node of the bookmark tree.
pub struct Bookmark {
    pub title: String,
    pub content: Content,
}

/// Why an operation on a bookmark was refused.
#[derive(Debug, Clone, Copy, PartialEq, Eq, Structural)]
pub enum BookmarkError {
    /// Children can only be appended to a folder.
    NotAFolder,
}

/// Mathematical model of a `Dimension`.
pub struct DimensionModel {
    pub title: Seq<char>,
    pub points: Seq<Seq<char>>,
}

/// Mathematical model of a `Content`.
pub enum ContentModel {
    Folder(Seq<BookmarkModel>),
    Link(Seq<char>),
    TextInput(Seq<char>),
    MultiTextInput(Seq<char>, Seq<DimensionModel>),
}

/// Mathematical model of a `Bookmark`: the whole subtree below it.
pub struct BookmarkModel {
    pub title: Seq<char>,
    pub content: ContentModel,
}

impl View for Dimension {
    type V = DimensionModel;

    open spec fn view(&self) -> DimensionModel {
        DimensionModel { title: self.title@, points: self.points@.map_values(|p: String| p@) }
    }
}

impl Bookmark {
    /// The model of this bookmark and of everything below it.
    pub open spec fn model(self) -> BookmarkModel
        decreases self,
    {
        BookmarkModel {
            title: self.title@,
            content: match self.content {
                Content::Folder(children) => ContentModel::Folder(
                    Seq::new(
                        children.len() as nat,
                        |i: int|
                            if 0 <= i < children.len() {
                                children[i].model()
                            } else {
                                arbitrary()
                            },
                    ),
                ),
                Content::Link(u) => ContentModel::Link(u@),
                Content::TextInput(t) => ContentModel::TextInput(t@),
                Content::MultiTextInput(t, dims) => ContentModel::MultiTextInput(
                    t@,
                    dims@.map_values(|d: Dimension| d@),
                ),
            },
        }
    }
}

impl View for Bookmark {
    type V = BookmarkModel;

    open spec fn view(&self) -> BookmarkModel {
        self.model()
    }
}

/// The titles of `dims`, joined by `][`.
pub open spec fn joined_titles(dims: Seq<DimensionModel>) -> Seq<char>
    decreases dims.len(),
{
    if dims.len() == 0 {
        seq![]
    } else if dims.len() == 1 {
        dims[0].title
    } else {
        joined_titles(dims.drop_last()) + seq![']', '['] + dims.last().title
    }
}

/// The menu label of a bookmark.
pub open spec fn label_of(b: BookmarkModel) -> Seq<char> {
    match b.content {
        ContentModel::Folder(_) => b.title + seq![' ', '[', '.', '.', '.', ']'],
        ContentModel::Link(u) => b.title + seq![' ', '['] + u + seq![']'],
        ContentModel::TextInput(t) => b.title + seq![' ', '['] + t + seq![']'],
        ContentModel::MultiTextInput(t, dims) => b.title + seq![' '] + t + seq![' ', '[']
            + joined_titles(dims) + seq![']'],
    }
}

impl Dimension {
    pub fn new(title: String, points: Vec<String>) -> (r: Dimension)
        ensures
            r.title == title,
            r.points == points,
    {
        Dimension { title, points }
    }

    pub fn title(&self) -> (r: &String)
        ensures
            *r == self.title,
    {
        &self.title
    }

    pub fn points(&self) -> (r: &Vec<String>)
        ensures
            *r == self.points,
    {
        &self.points
    }
}

impl Bookmark {
    /// An empty, untitled folder: the root of a fresh tree.
    pub fn new() -> (r: Bookmark)
        ensures
            r@ == (BookmarkModel { title: seq![], content: ContentModel::Folder(seq![]) }),
    {
        let r = Bookmark { title: String::new(), content: Content::Folder(Vec::new()) };
        assert(r@.content->Folder_0 =~= seq![]);
        r
    }

    /// An empty folder with the given title.
    pub fn new_folder(title: String) -> (r: Bookmark)
        ensures
            r@ == (BookmarkModel { title: title@, content: ContentModel::Folder(seq![]) }),
    {
        let r = Bookmark { title, content: Content::Folder(Vec::new()) };
        assert(r@.content->Folder_0 =~= seq![]);
        r
    }

    /// A literal link.
    pub fn new_link(title: String, content: String) -> (r: Bookmark)
        ensures
            r@ == (BookmarkModel { title: title@, content: ContentModel::Link(content@) }),
    {
        Bookmark { title, content: Content::Link(content) }
    }

    /// A free-text search: `content` holds at most one `%s`.
    pub fn new_search(title: String, content: String) -> (r: Bookmark)
        ensures
            r@ == (BookmarkModel { title: title@, content: ContentModel::TextInput(content@) }),
    {
        Bookmark { title, content: Content::TextInput(content) }
    }

    /// A templated link whose placeholders are filled from `dimensions`, in order.
    pub fn new_multi(title: String, template: String, dimensions: Vec<Dimension>) -> (r: Bookmark)
        ensures
            r@ == (BookmarkModel {
                title: title@,
                content: ContentModel::MultiTextInput(
                    template@,
                    dimensions@.map_values(|d: Dimension| d@),
                ),
            }),
    {
        Bookmark { title, content: Content::MultiTextInput(template, dimensions) }
    }

    pub fn title(&self) -> (r: &String)
        ensures
            *r == self.title,
    {
        &self.title
    }

    pub fn content(&self) -> (r: &Content)
        ensures
            *r == self.content,
    {
        &self.content
    }

    /// Appends `other` as the last child of this folder. Any other kind of
    /// bookmark is left exactly as it was and `NotAFolder` is returned.
    pub fn add(&mut self, other: Bookmark) -> (r: Result<(), BookmarkError>)
        ensures
            match old(self)@.content {
                ContentModel::Folder(children) => {
                    &&& r is Ok
                    &&& final(self)@ == (BookmarkModel {
                        title: old(self)@.title,
                        content: ContentModel::Folder(children.push(other@)),
                    })
                },
                _ => r == Err::<(), BookmarkError>(BookmarkError::NotAFolder) && *final(self)
                    == *old(self),
            },
    {
        let ghost before = self@;
        match &mut self.content {
            Content::Folder(folder) => {
                folder.push(other);
            },
            _ => {
                return Err(BookmarkError::NotAFolder);
            },
        }
        assert(self@.content->Folder_0 =~= before.content->Folder_0.push(other@));
        Ok(())
    }

    /// The menu label: `title [...]` for a folder, `title [url]` for a link
    /// or a search, `title template [d1][d2]...` for a templated link.
    pub fn label(&self) -> (r: String)
        ensures
            r@ == label_of(self@),
    {
        proof {
            reveal_strlit(" [...]");
            reveal_strlit(" [");
            reveal_strlit("]");
            reveal_strlit(" ");
            reveal_strlit("][");
        }
        let mut r = self.title.clone();
        match &self.content {
            Content::Folder(_) => {
                r.append(" [...]");
            },
            Content::Link(u) => {
                r.append(" [");
                r.append(u.as_str());
                r.append("]");
            },
            Content::TextInput(t) => {
                r.append(" [");
                r.append(t.as_str());
                r.append("]");
            },
            Content::MultiTextInput(t, dims) => {
                r.append(" ");
                r.append(t.as_str());
                r.append(" [");
                let ghost head = r@;
                let ghost models = dims@.map_values(|d: Dimension| d@);
                let mut i: usize = 0;
                while i < dims.len()
                    invariant
                        i <= dims.len(),
                        models == dims@.map_values(|d: Dimension| d@),
                        r@ == head + joined_titles(models.take(i as int)),
                    decreases dims.len() - i,
                {
                    proof {
                        reveal_strlit("][");
                    }
                    let ghost before = r@;
                    if i > 0 {
                        r.append("][");
                    }
                    r.append(dims[i].title.as_str());
                    assert(models.take(i + 1).drop_last() =~= models.take(i as int));
                    assert(models.take(i + 1).last() == dims@[i as int]@);
                    assert(r@ =~= head + joined_titles(models.take(i + 1))) by {
                        if i > 0 {
                            assert(before + seq![']', '['] + dims@[i as int].title@ =~= head + (
                            joined_titles(models.take(i as int)) + seq![']', '['] + dims@[
                            i as int].title@));
                        }
                    }
                    i = i + 1;
                }
                assert(models.take(i as int) =~= models);
                r.append("]");
            },
        }
        r
    }
}

} // verus!
