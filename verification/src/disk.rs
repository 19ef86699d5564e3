//! What is known of the file system and of `cargo metadata`.
//!
//! The library never touches a disk. Where it needs to know something of one,
//! it looks among the answers a [`Disk`] holds. A question without an answer is
//! handed back as a [`Query`]: the caller answers it, adds the answer, and runs
//! the function again. A disk that is `complete` answers every question: what
//! it does not list is not there.
use crate::model;
use crate::model::Dup;
use crate::path;
use crate::path::{DirPath, DirPathView};
use vstd::prelude::*;

verus! {

/// What is found at a path.
#[derive(Debug, Clone, Copy, PartialEq, Eq, Structural)]
pub enum Kind {
    /// Nothing.
    Absent,
    /// A regular file.
    File,
    /// A directory.
    Dir,
    /// Something else.
    Other,
}

/// One entry of a directory.
#[derive(Debug, PartialEq, Eq)]
pub struct Listed {
    pub name: String,
    /// Whether the entry is a directory; `None` where that could not be told.
    pub is_dir: Option<bool>,
}

/// What a [`Listed`] holds.
#[verifier::ext_equal]
pub struct ListedView {
    pub name: Seq<char>,
    pub is_dir: Option<bool>,
}

impl DeepView for Listed {
    type V = ListedView;

    open spec fn deep_view(&self) -> ListedView {
        ListedView {
            name: self.name@,
            is_dir: self.is_dir.deep_view(),
        }
    }
}

impl Dup for Listed {
    fn dup(&self) -> (r: Self) {
        Listed {
            name: self.name.clone(),
            is_dir: self.is_dir,
        }
    }
}

/// The outcome of reading a file.
#[derive(Debug, PartialEq, Eq)]
pub enum Contents {
    /// The file's text.
    Text(String),
    /// Why it could not be read.
    Failed(String),
}

/// What a [`Contents`] holds.
#[verifier::ext_equal]
pub enum ContentsView {
    Text(Seq<char>),
    Failed(Seq<char>),
}

impl DeepView for Contents {
    type V = ContentsView;

    open spec fn deep_view(&self) -> ContentsView {
        match self {
            Contents::Text(a) => ContentsView::Text(a@),
            Contents::Failed(a) => ContentsView::Failed(a@),
        }
    }
}

impl Dup for Contents {
    fn dup(&self) -> (r: Self) {
        match self {
            Contents::Text(a) => Contents::Text(a.clone()),
            Contents::Failed(a) => Contents::Failed(a.clone()),
        }
    }
}

/// The outcome of `cargo metadata` for a manifest.
#[derive(Debug, PartialEq, Eq)]
pub enum Metadata {
    /// It succeeded with this output.
    Output(String),
    /// It failed with this message.
    Failed(String),
    /// It could not be started.
    NotStarted(String),
}

/// What a [`Metadata`] holds.
#[verifier::ext_equal]
pub enum MetadataView {
    Output(Seq<char>),
    Failed(Seq<char>),
    NotStarted(Seq<char>),
}

impl DeepView for Metadata {
    type V = MetadataView;

    open spec fn deep_view(&self) -> MetadataView {
        match self {
            Metadata::Output(a) => MetadataView::Output(a@),
            Metadata::Failed(a) => MetadataView::Failed(a@),
            Metadata::NotStarted(a) => MetadataView::NotStarted(a@),
        }
    }
}

impl Dup for Metadata {
    fn dup(&self) -> (r: Self) {
        match self {
            Metadata::Output(a) => Metadata::Output(a.clone()),
            Metadata::Failed(a) => Metadata::Failed(a.clone()),
            Metadata::NotStarted(a) => Metadata::NotStarted(a.clone()),
        }
    }
}

/// A question to the file system or to cargo.
#[derive(Debug, PartialEq, Eq)]
pub enum Query {
    /// What is found at the path?
    Kind(DirPath),
    /// What does the file hold?
    Read(DirPath),
    /// What is the canonical form of the path?
    Canonical(DirPath),
    /// What does the directory hold?
    List(DirPath),
    /// What does `cargo metadata` say of the manifest?
    Metadata(DirPath),
}

/// What a [`Query`] holds.
#[verifier::ext_equal]
pub enum QueryView {
    Kind(DirPathView),
    Read(DirPathView),
    Canonical(DirPathView),
    List(DirPathView),
    Metadata(DirPathView),
}

impl DeepView for Query {
    type V = QueryView;

    open spec fn deep_view(&self) -> QueryView {
        match self {
            Query::Kind(a) => QueryView::Kind(a.deep_view()),
            Query::Read(a) => QueryView::Read(a.deep_view()),
            Query::Canonical(a) => QueryView::Canonical(a.deep_view()),
            Query::List(a) => QueryView::List(a.deep_view()),
            Query::Metadata(a) => QueryView::Metadata(a.deep_view()),
        }
    }
}

impl Dup for Query {
    fn dup(&self) -> (r: Self) {
        match self {
            Query::Kind(a) => Query::Kind(a.dup()),
            Query::Read(a) => Query::Read(a.dup()),
            Query::Canonical(a) => Query::Canonical(a.dup()),
            Query::List(a) => Query::List(a.dup()),
            Query::Metadata(a) => Query::Metadata(a.dup()),
        }
    }
}

/// Answers to questions about the file system and cargo.
#[derive(Debug, PartialEq, Eq)]
pub struct Disk {
    /// What is found at paths.
    pub kinds: Vec<(DirPath, Kind)>,
    /// What files hold.
    pub files: Vec<(DirPath, Contents)>,
    /// Canonical forms of paths; `None` where a path has none.
    pub canonical: Vec<(DirPath, Option<DirPath>)>,
    /// What directories hold; `None` for one that cannot be listed.
    pub lists: Vec<(DirPath, Option<Vec<Listed>>)>,
    /// What cargo says of manifests.
    pub metadata: Vec<(DirPath, Metadata)>,
    /// Whether what is not listed is known not to be there.
    pub complete: bool,
}

impl DeepView for Kind {
    type V = Kind;

    open spec fn deep_view(&self) -> Kind {
        *self
    }
}

/// What a [`Disk`] holds.
#[verifier::ext_equal]
pub struct DiskView {
    pub kinds: Seq<(DirPathView, Kind)>,
    pub files: Seq<(DirPathView, ContentsView)>,
    pub canonical: Seq<(DirPathView, Option<DirPathView>)>,
    pub lists: Seq<(DirPathView, Option<Seq<ListedView>>)>,
    pub metadata: Seq<(DirPathView, MetadataView)>,
    pub complete: bool,
}

impl DeepView for Disk {
    type V = DiskView;

    open spec fn deep_view(&self) -> DiskView {
        DiskView {
            kinds: self.kinds.deep_view(),
            files: self.files.deep_view(),
            canonical: self.canonical.deep_view(),
            lists: self.lists.deep_view(),
            metadata: self.metadata.deep_view(),
            complete: self.complete,
        }
    }
}

/// The first answer for `p` among `answers`, from `from` on.
pub open spec fn answer_from<A>(answers: Seq<(DirPathView, A)>, p: DirPathView, from: int) -> Option<A>
    decreases answers.len() - from,
{
    if from < 0 || from >= answers.len() {
        None
    } else if answers[from].0 == p {
        Some(answers[from].1)
    } else {
        answer_from(answers, p, from + 1)
    }
}

/// The answer for `p`; `absent` for a path that is not listed. Where the disk is
/// not complete that question is open, and nothing is concluded from it.
pub open spec fn answer<A>(answers: Seq<(DirPathView, A)>, p: DirPathView, absent: A) -> A {
    match answer_from(answers, p, 0) {
        Some(a) => a,
        None => absent,
    }
}

impl DiskView {
    /// What is found at `p`.
    pub open spec fn kind(self, p: DirPathView) -> Kind {
        answer(self.kinds, p, Kind::Absent)
    }

    /// Whether anything is found at `p`.
    pub open spec fn present(self, p: DirPathView) -> bool {
        self.kind(p) != Kind::Absent
    }

    /// What the file at `p` holds.
    pub open spec fn read(self, p: DirPathView) -> ContentsView {
        answer(self.files, p, ContentsView::Failed("no such file"@))
    }

    /// The canonical form of `p`, or `p` itself where it has none, as a plain
    /// path.
    pub open spec fn canonical(self, p: DirPathView) -> DirPathView {
        match self.canonical_form(p) {
            Some(c) => c,
            None => path::plain(p),
        }
    }

    /// The canonical form of `p`, where it has one. It is that of the plain path.
    pub open spec fn canonical_form(self, p: DirPathView) -> Option<DirPathView> {
        match answer(self.canonical, path::plain(p), None) {
            Some(c) => Some(path::plain(c)),
            None => None,
        }
    }

    /// The question for the canonical form of `p`, where it is still open.
    pub open spec fn canonical_question(self, p: DirPathView) -> Option<QueryView> {
        self.question(QueryView::Canonical(path::plain(p)))
    }

    /// What the directory at `p` holds.
    pub open spec fn list(self, p: DirPathView) -> Option<Seq<ListedView>> {
        answer(self.lists, p, None)
    }

    /// What cargo says of the manifest at `p`.
    pub open spec fn metadata(self, p: DirPathView) -> MetadataView {
        answer(self.metadata, p, MetadataView::NotStarted("no cargo"@))
    }

    /// The question `q` itself, where it is still open.
    pub open spec fn question(self, q: QueryView) -> Option<QueryView> {
        if self.lacks(q) {
            Some(q)
        } else {
            None
        }
    }

    /// Whether a question is still open.
    pub open spec fn lacks(self, q: QueryView) -> bool {
        !self.complete && match q {
            QueryView::Kind(p) => answer_from(self.kinds, p, 0) is None,
            QueryView::Read(p) => answer_from(self.files, p, 0) is None,
            QueryView::Canonical(p) => answer_from(self.canonical, p, 0) is None,
            QueryView::List(p) => answer_from(self.lists, p, 0) is None,
            QueryView::Metadata(p) => answer_from(self.metadata, p, 0) is None,
        }
    }
}

/// The first of two questions that is open: the second counts only where the
/// first has its answer.
pub open spec fn first_open(a: Option<QueryView>, b: Option<QueryView>) -> Option<QueryView> {
    match a {
        Some(q) => Some(q),
        None => b,
    }
}

/// Whether a result hands back the open question, and is a result where none is
/// open.
pub open spec fn asks<T>(r: Result<T, Query>, open: Option<QueryView>) -> bool {
    match r {
        Ok(_) => open is None,
        Err(q) => open == Some(q.deep_view()),
    }
}

#[verifier::loop_isolation(false)]
fn look_up<A: DeepView>(answers: &Vec<(DirPath, A)>, p: &DirPath) -> (r: Option<usize>)
    ensures
        match r {
            Some(i) => i < answers.len() && answer_from(answers.deep_view(), p.deep_view(), 0)
                == Some(answers@[i as int].1.deep_view()),
            None => answer_from(answers.deep_view(), p.deep_view(), 0) is None,
        },
{
    let ghost all = answers.deep_view();
    let mut i: usize = 0;
    while i < answers.len()
        invariant
            i <= answers.len(),
            answer_from(all, p.deep_view(), 0) == answer_from(all, p.deep_view(), i as int),
        decreases answers.len() - i,
    {
        assert(all[i as int] == answers@[i as int].deep_view());
        if answers[i].0.same(p) {
            return Some(i);
        }
        i += 1;
    }
    None
}

impl Disk {
    /// A disk nothing is known of.
    pub fn unknown() -> (r: Disk)
        ensures
            r.deep_view() == (DiskView {
                kinds: Seq::empty(),
                files: Seq::empty(),
                canonical: Seq::empty(),
                lists: Seq::empty(),
                metadata: Seq::empty(),
                complete: false,
            }),
    {
        Disk {
            kinds: model::none(),
            files: model::none(),
            canonical: model::none(),
            lists: model::none(),
            metadata: model::none(),
            complete: false,
        }
    }

    /// What is found at `p`.
    pub fn kind(&self, p: &DirPath) -> (r: Result<Kind, Query>)
        ensures
            asks(r, self.deep_view().question(QueryView::Kind(p.deep_view()))),
            match r {
                Ok(k) => k == self.deep_view().kind(p.deep_view()),
                Err(q) => self.deep_view().lacks(q.deep_view()),
            },
    {
        match look_up(&self.kinds, p) {
            Some(i) => Ok(self.kinds[i].1),
            None => if self.complete {
                Ok(Kind::Absent)
            } else {
                Err(Query::Kind(p.dup()))
            },
        }
    }

    /// Whether anything is found at `p`.
    pub fn present(&self, p: &DirPath) -> (r: Result<bool, Query>)
        ensures
            asks(r, self.deep_view().question(QueryView::Kind(p.deep_view()))),
            match r {
                Ok(b) => b == self.deep_view().present(p.deep_view()),
                Err(q) => self.deep_view().lacks(q.deep_view()),
            },
    {
        match self.kind(p) {
            Ok(k) => Ok(
                match k {
                    Kind::Absent => false,
                    _ => true,
                },
            ),
            Err(q) => Err(q),
        }
    }

    /// Whether `p` is a directory.
    pub fn is_dir(&self, p: &DirPath) -> (r: Result<bool, Query>)
        ensures
            asks(r, self.deep_view().question(QueryView::Kind(p.deep_view()))),
            match r {
                Ok(b) => b == (self.deep_view().kind(p.deep_view()) == Kind::Dir),
                Err(q) => self.deep_view().lacks(q.deep_view()),
            },
    {
        match self.kind(p) {
            Ok(k) => Ok(
                match k {
                    Kind::Dir => true,
                    _ => false,
                },
            ),
            Err(q) => Err(q),
        }
    }

    /// What the file at `p` holds.
    pub fn read(&self, p: &DirPath) -> (r: Result<Contents, Query>)
        ensures
            asks(r, self.deep_view().question(QueryView::Read(p.deep_view()))),
            match r {
                Ok(c) => c.deep_view() == self.deep_view().read(p.deep_view()),
                Err(q) => self.deep_view().lacks(q.deep_view()),
            },
    {
        match look_up(&self.files, p) {
            Some(i) => Ok(self.files[i].1.dup()),
            None => if self.complete {
                Ok(Contents::Failed("no such file".to_owned()))
            } else {
                Err(Query::Read(p.dup()))
            },
        }
    }

    /// The canonical form of `p`, where it has one.
    pub fn canonical_form(&self, p: &DirPath) -> (r: Result<Option<DirPath>, Query>)
        ensures
            asks(r, self.deep_view().canonical_question(p.deep_view())),
            match r {
                Ok(c) => c.deep_view() == self.deep_view().canonical_form(p.deep_view()),
                Err(q) => self.deep_view().lacks(q.deep_view()),
            },
    {
        let plain = p.to_plain();
        match look_up(&self.canonical, &plain) {
            Some(i) => match &self.canonical[i].1 {
                Some(c) => Ok(Some(c.to_plain())),
                None => Ok(None),
            },
            None => if self.complete {
                Ok(None)
            } else {
                Err(Query::Canonical(plain))
            },
        }
    }

    /// The canonical form of `p`, or `p` itself where it has none, as a plain
    /// path.
    pub fn canonical(&self, p: &DirPath) -> (r: Result<DirPath, Query>)
        ensures
            asks(r, self.deep_view().canonical_question(p.deep_view())),
            match r {
                Ok(c) => c.deep_view() == self.deep_view().canonical(p.deep_view()),
                Err(q) => self.deep_view().lacks(q.deep_view()),
            },
    {
        match self.canonical_form(p) {
            Ok(Some(c)) => Ok(c),
            Ok(None) => Ok(p.to_plain()),
            Err(q) => Err(q),
        }
    }

    /// What the directory at `p` holds.
    pub fn list(&self, p: &DirPath) -> (r: Result<Option<Vec<Listed>>, Query>)
        ensures
            asks(r, self.deep_view().question(QueryView::List(p.deep_view()))),
            match r {
                Ok(l) => l.deep_view() == self.deep_view().list(p.deep_view()),
                Err(q) => self.deep_view().lacks(q.deep_view()),
            },
    {
        match look_up(&self.lists, p) {
            Some(i) => Ok(self.lists[i].1.dup()),
            None => if self.complete {
                Ok(None)
            } else {
                Err(Query::List(p.dup()))
            },
        }
    }

    /// What cargo says of the manifest at `p`.
    pub fn metadata(&self, p: &DirPath) -> (r: Result<Metadata, Query>)
        ensures
            asks(r, self.deep_view().question(QueryView::Metadata(p.deep_view()))),
            match r {
                Ok(m) => m.deep_view() == self.deep_view().metadata(p.deep_view()),
                Err(q) => self.deep_view().lacks(q.deep_view()),
            },
    {
        match look_up(&self.metadata, p) {
            Some(i) => Ok(self.metadata[i].1.dup()),
            None => if self.complete {
                Ok(Metadata::NotStarted("no cargo".to_owned()))
            } else {
                Err(Query::Metadata(p.dup()))
            },
        }
    }
}

} // verus!
