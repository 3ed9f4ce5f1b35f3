use vstd::prelude::*;

use crate::json::{Json, JsonView};
use crate::text::{self, copy_opt, copy_texts, joined};

verus! {

/// A chapter of a book.
#[derive(Debug, PartialEq, Eq)]
pub struct ChapterRef {
    pub id: String,
    pub title: String,
}

/// What a [`ChapterRef`] holds.
pub struct ChapterRefView {
    pub id: Seq<char>,
    pub title: Seq<char>,
}

impl View for ChapterRef {
    type V = ChapterRefView;

    open spec fn view(&self) -> ChapterRefView {
        ChapterRefView { id: self.id@, title: self.title@ }
    }
}

impl Clone for ChapterRef {
    fn clone(&self) -> (r: Self)
        ensures
            r@ == self@,
    {
        ChapterRef { id: self.id.clone(), title: self.title.clone() }
    }
}

/// What a list of chapters holds.
pub open spec fn refs(v: Seq<ChapterRef>) -> Seq<ChapterRefView> {
    v.map_values(|c: ChapterRef| c@)
}

/// A copy of the chapters from `from` up to `to`.
pub fn copy_refs(v: &Vec<ChapterRef>, from: usize, to: usize) -> (r: Vec<ChapterRef>)
    requires
        from <= to <= v.len(),
    ensures
        refs(r@) == refs(v@).subrange(from as int, to as int),
{
    let mut out: Vec<ChapterRef> = Vec::new();
    for i in from..to
        invariant
            from <= to <= v.len(),
            out.len() == i - from,
            forall|j: int| 0 <= j < i - from ==> #[trigger] out[j]@ == v[from + j]@,
    {
        out.push(v[i].clone());
    }
    assert(refs(out@) =~= refs(v@).subrange(from as int, to as int));
    out
}

/// The chapters to download, counted from one, both ends included.
#[derive(Clone, Copy, Debug)]
pub struct ChapterRange {
    pub start: usize,
    pub end: usize,
}

/// What is known about a book.
#[derive(Debug, PartialEq, Eq)]
pub struct BookMeta {
    pub book_name: Option<String>,
    pub author: Option<String>,
    pub description: Option<String>,
    pub tags: Vec<String>,
    pub cover_url: Option<String>,
    pub detail_cover_url: Option<String>,
    pub chapter_count: Option<usize>,
    pub finished: Option<bool>,
    pub category: Option<String>,
}

/// What a [`BookMeta`] holds.
pub struct BookMetaView {
    pub book_name: Option<Seq<char>>,
    pub author: Option<Seq<char>>,
    pub description: Option<Seq<char>>,
    pub tags: Seq<Seq<char>>,
    pub cover_url: Option<Seq<char>>,
    pub detail_cover_url: Option<Seq<char>>,
    pub chapter_count: Option<usize>,
    pub finished: Option<bool>,
    pub category: Option<Seq<char>>,
}

impl View for BookMeta {
    type V = BookMetaView;

    open spec fn view(&self) -> BookMetaView {
        BookMetaView {
            book_name: text::opt_text(self.book_name),
            author: text::opt_text(self.author),
            description: text::opt_text(self.description),
            tags: text::texts(self.tags@),
            cover_url: text::opt_text(self.cover_url),
            detail_cover_url: text::opt_text(self.detail_cover_url),
            chapter_count: self.chapter_count,
            finished: self.finished,
            category: text::opt_text(self.category),
        }
    }
}

/// Nothing known about a book.
pub open spec fn empty_meta() -> BookMetaView {
    BookMetaView {
        book_name: None,
        author: None,
        description: None,
        tags: Seq::empty(),
        cover_url: None,
        detail_cover_url: None,
        chapter_count: None,
        finished: None,
        category: None,
    }
}

impl Default for BookMeta {
    fn default() -> (r: Self)
        ensures
            r@ == empty_meta(),
    {
        let r = BookMeta {
            book_name: None,
            author: None,
            description: None,
            tags: Vec::new(),
            cover_url: None,
            detail_cover_url: None,
            chapter_count: None,
            finished: None,
            category: None,
        };
        assert(text::texts(r.tags@) =~= Seq::empty());
        r
    }
}

impl Clone for BookMeta {
    fn clone(&self) -> (r: Self)
        ensures
            r@ == self@,
    {
        BookMeta {
            book_name: copy_opt(&self.book_name),
            author: copy_opt(&self.author),
            description: copy_opt(&self.description),
            tags: copy_texts(&self.tags),
            cover_url: copy_opt(&self.cover_url),
            detail_cover_url: copy_opt(&self.detail_cover_url),
            chapter_count: self.chapter_count,
            finished: self.finished,
            category: copy_opt(&self.category),
        }
    }
}

/// What is going to be downloaded.
#[derive(Debug, PartialEq, Eq)]
pub struct DownloadPlan {
    pub book_id: String,
    pub meta: BookMeta,
    pub chapters: Vec<ChapterRef>,
    /// The directory that the chapters come from.
    pub raw: Json,
}

/// What a [`DownloadPlan`] holds.
pub struct DownloadPlanView {
    pub book_id: Seq<char>,
    pub meta: BookMetaView,
    pub chapters: Seq<ChapterRefView>,
    pub raw: JsonView,
}

impl View for DownloadPlan {
    type V = DownloadPlanView;

    open spec fn view(&self) -> DownloadPlanView {
        DownloadPlanView {
            book_id: self.book_id@,
            meta: self.meta@,
            chapters: refs(self.chapters@),
            raw: self.raw@,
        }
    }
}

/// Why there is no plan.
#[derive(Clone, Copy, Debug, PartialEq, Eq)]
pub enum PlanError {
    /// The directory could not be fetched.
    FetchDirectory,
    /// The directory has no chapters.
    EmptyDirectory,
    /// No chapter of the directory has an id.
    NoChapterId,
}

/// How an error reads.
pub open spec fn error_text(e: PlanError, book_id: Seq<char>) -> Seq<char> {
    match e {
        PlanError::FetchDirectory => "fetch directory for book_id="@ + book_id,
        PlanError::EmptyDirectory => "目录为空"@,
        PlanError::NoChapterId => "解析章节列表失败（未能提取 item_id/title）"@,
    }
}

impl PlanError {
    /// How this error reads, for the book with this id.
    pub fn message(&self, book_id: &str) -> (r: String)
        ensures
            r@ == error_text(*self, book_id@),
            *self is FetchDirectory ==> r@ == "fetch directory for book_id="@ + book_id@,
            *self is EmptyDirectory ==> r@ == "目录为空"@,
            *self is NoChapterId ==> r@ == "解析章节列表失败（未能提取 item_id/title）"@,
    {
        match self {
            PlanError::FetchDirectory => joined("fetch directory for book_id=", book_id),
            PlanError::EmptyDirectory => "目录为空".to_owned(),
            PlanError::NoChapterId => "解析章节列表失败（未能提取 item_id/title）".to_owned(),
        }
    }
}

/// What is known of a chapter, of a book and of a plan is what its parts hold, part by
/// part.
pub proof fn lemma_part_views(c: ChapterRef, meta: BookMeta, plan: DownloadPlan)
    ensures
        c@.id == c.id@,
        c@.title == c.title@,
        meta@.book_name == text::opt_text(meta.book_name),
        meta@.author == text::opt_text(meta.author),
        meta@.description == text::opt_text(meta.description),
        meta@.tags == text::texts(meta.tags@),
        meta@.cover_url == text::opt_text(meta.cover_url),
        meta@.detail_cover_url == text::opt_text(meta.detail_cover_url),
        meta@.chapter_count == meta.chapter_count,
        meta@.finished == meta.finished,
        meta@.category == text::opt_text(meta.category),
        plan@.book_id == plan.book_id@,
        plan@.meta == plan.meta@,
        plan@.chapters == refs(plan.chapters@),
        plan@.raw == plan.raw@,
{
}

/// A list of chapters holds its chapters in their places.
pub proof fn lemma_refs(v: Seq<ChapterRef>)
    ensures
        refs(v).len() == v.len(),
        forall|i: int| 0 <= i < v.len() ==> #[trigger] refs(v)[i] == v[i]@,
{
}

/// Where nothing is known of a book, each part is missing, and there are no tags.
pub proof fn lemma_empty_meta()
    ensures
        empty_meta().book_name is None,
        empty_meta().author is None,
        empty_meta().description is None,
        empty_meta().tags.len() == 0,
        empty_meta().cover_url is None,
        empty_meta().detail_cover_url is None,
        empty_meta().chapter_count is None,
        empty_meta().finished is None,
        empty_meta().category is None,
{
}

} // verus!
