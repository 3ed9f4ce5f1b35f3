use vstd::prelude::*;

use crate::json::Json;
use crate::models::{
    self, BookMeta, BookMetaView, ChapterRef, DownloadPlan, DownloadPlanView, PlanError,
};
use crate::plan::{self, merge_chapters_with_web};
use crate::text::{self, same_text};
use crate::web_plan::{self, pick_first, pick_first_text, prefer_name, KeyList};

verus! {

/// A directory of the official interface.
pub struct Directory {
    pub book_id: String,
    pub meta: BookMeta,
    pub chapters: Vec<ChapterRef>,
    pub raw: Json,
}

/// A plan that still lacks what a search may tell about the book.
pub struct OfficialDraft {
    pub book_id: String,
    pub chapters: Vec<ChapterRef>,
    pub raw: Json,
    /// What the directory and the hint tell about the book.
    pub merged: BookMeta,
    pub web_plan: Option<DownloadPlan>,
}

/// How far the official directory leads.
pub enum OfficialStart {
    Settled(Result<DownloadPlan, PlanError>),
    Draft(OfficialDraft),
}

/// Starts a plan with the official directory, where it could be fetched. Where it
/// could not, or is empty, the plan by the pages of the book takes its place; else
/// what the directory tells about the book is merged with the hint by
/// `merge_hint`.
pub fn start_official_plan<M: Fn(BookMeta, BookMeta) -> BookMeta>(
    fetched: Option<Directory>,
    web_plan: Option<DownloadPlan>,
    meta_hint: BookMeta,
    merge_hint: &M,
) -> (r: OfficialStart)
    requires
        forall|a: BookMeta, b: BookMeta| #[trigger] call_requires(*merge_hint, (a, b)),
    ensures
        match (fetched, web_plan) {
            (None, Some(plan)) => r == OfficialStart::Settled(Ok(plan)),
            (None, None) => r == OfficialStart::Settled(Err(PlanError::FetchDirectory)),
            (Some(d), _) => if d.chapters.len() > 0 {
                match r {
                    OfficialStart::Draft(draft) => {
                        &&& draft.book_id == d.book_id
                        &&& draft.chapters == d.chapters
                        &&& draft.raw == d.raw
                        &&& draft.web_plan == web_plan
                        &&& call_ensures(*merge_hint, (d.meta, meta_hint), draft.merged)
                    },
                    OfficialStart::Settled(_) => false,
                }
            } else {
                match web_plan {
                    Some(plan) => r == OfficialStart::Settled(Ok(plan)),
                    None => r == OfficialStart::Settled(Err(PlanError::EmptyDirectory)),
                }
            },
        },
{
    let directory = match fetched {
        Some(d) => d,
        None => {
            return match web_plan {
                Some(plan) => OfficialStart::Settled(Ok(plan)),
                None => OfficialStart::Settled(Err(PlanError::FetchDirectory)),
            };
        },
    };
    if directory.chapters.is_empty() {
        return match web_plan {
            Some(plan) => OfficialStart::Settled(Ok(plan)),
            None => OfficialStart::Settled(Err(PlanError::EmptyDirectory)),
        };
    }
    let merged = (*merge_hint)(directory.meta, meta_hint);
    OfficialStart::Draft(
        OfficialDraft {
            book_id: directory.book_id,
            chapters: directory.chapters,
            raw: directory.raw,
            merged,
            web_plan,
        },
    )
}

/// The name, the author and the blurb are all known.
pub open spec fn is_complete(meta: BookMetaView) -> bool {
    meta.book_name is Some && meta.author is Some && meta.description is Some
}

impl OfficialDraft {
    /// Whether a search for the book is due before the plan is finished.
    pub fn needs_search(&self) -> (r: bool)
        ensures
            r == !is_complete(self.merged@),
            r <==> self.merged.book_name is None || self.merged.author is None
                || self.merged.description is None,
    {
        !(self.merged.book_name.is_some() && self.merged.author.is_some()
            && self.merged.description.is_some())
    }
}

/// `c` is what is known once a search has been merged in by `merge`, where one was
/// due; a search that found nothing counts as nothing known.
pub open spec fn completed_by_search<M: Fn(BookMeta, BookMeta) -> BookMeta>(
    merge: M,
    merged: BookMeta,
    searched: Option<BookMeta>,
    c: BookMeta,
) -> bool {
    if is_complete(merged@) {
        c == merged
    } else {
        match searched {
            Some(s) => call_ensures(merge, (merged, s), c),
            None => exists|s: BookMeta|
                s@ == models::empty_meta() && #[trigger] call_ensures(merge, (merged, s), c),
        }
    }
}

/// `c` is what is known once the plan by the pages has been merged in, where there
/// is one: its details by `merge`, its tags by `merge_tags`, without the tag that
/// `drop_category` takes away; what the pages say of the book being finished wins.
pub open spec fn completed_by_web<
    M: Fn(BookMeta, BookMeta) -> BookMeta,
    T: Fn(&Vec<String>, &Vec<String>) -> Vec<String>,
    D: Fn(&Vec<String>, &Option<String>) -> Vec<String>,
>(
    merge: M,
    merge_tags: T,
    drop_category: D,
    before: BookMeta,
    web: Option<DownloadPlan>,
    c: BookMetaView,
) -> bool {
    match web {
        None => c == before@,
        Some(w) => exists|m: BookMeta, both: BookMeta, joined: Vec<String>, tags: Vec<String>|
            {
                &&& m@ == w.meta@
                &&& #[trigger] call_ensures(merge, (before, m), both)
                &&& #[trigger] call_ensures(merge_tags, (&both.tags, &w.meta.tags), joined)
                &&& #[trigger] call_ensures(drop_category, (&joined, &both.category), tags)
                &&& c == with_web_details(both@, text::texts(tags@), w.meta.finished)
            },
    }
}

/// What is known with other tags, and with what the pages say of the book being
/// finished where they say anything.
pub open spec fn with_web_details(
    meta: BookMetaView,
    tags: Seq<Seq<char>>,
    finished: Option<bool>,
) -> BookMetaView {
    BookMetaView {
        tags,
        finished: if finished is Some {
            finished
        } else {
            meta.finished
        },
        ..meta
    }
}

/// The finished plan for what is known of the book.
pub open spec fn official_plan(
    draft: OfficialDraft,
    meta: BookMetaView,
    preferred: Option<Seq<char>>,
) -> DownloadPlanView {
    DownloadPlanView {
        book_id: draft.book_id@,
        meta: web_plan::with_name(meta, preferred),
        chapters: match draft.web_plan {
            Some(w) => plan::merged_chapters(
                models::refs(draft.chapters@),
                models::refs(w.chapters@),
            ),
            None => models::refs(draft.chapters@),
        },
        raw: draft.raw@,
    }
}

/// Finishes a plan: merges in by `merge` what a search found, where one was due,
/// then what the pages of the book tell, and gives the book its preferred name.
pub fn finish_official_plan<
    M: Fn(BookMeta, BookMeta) -> BookMeta,
    T: Fn(&Vec<String>, &Vec<String>) -> Vec<String>,
    D: Fn(&Vec<String>, &Option<String>) -> Vec<String>,
    P: Fn(&BookMeta) -> Option<String>,
>(
    draft: OfficialDraft,
    searched: Option<BookMeta>,
    merge: &M,
    merge_tags: &T,
    drop_category: &D,
    preferred_name: &P,
) -> (r: DownloadPlan)
    requires
        forall|a: BookMeta, b: BookMeta| #[trigger] call_requires(*merge, (a, b)),
        forall|a: Vec<String>, b: Vec<String>| #[trigger] call_requires(*merge_tags, (&a, &b)),
        forall|a: Vec<String>, b: Option<String>| #[trigger] call_requires(*drop_category, (&a, &b)),
        forall|m: BookMeta| #[trigger] call_requires(*preferred_name, (&m,)),
    ensures
        exists|first: BookMeta, meta: BookMeta, preferred: Option<String>|
            {
                &&& #[trigger] completed_by_search(*merge, draft.merged, searched, first)
                &&& completed_by_web(
                    *merge,
                    *merge_tags,
                    *drop_category,
                    first,
                    draft.web_plan,
                    meta@,
                )
                &&& #[trigger] call_ensures(*preferred_name, (&meta,), preferred)
                &&& r@ == official_plan(draft, meta@, text::opt_text(preferred))
            },
        r.book_id@ == draft.book_id@,
        r.raw@ == draft.raw@,
        draft.web_plan is None ==> models::refs(r.chapters@) == models::refs(draft.chapters@),
        draft.web_plan matches Some(w) ==> models::refs(r.chapters@) == plan::merged_chapters(
            models::refs(draft.chapters@),
            models::refs(w.chapters@),
        ),
        draft.web_plan is None ==> exists|first: BookMeta|
            {
                &&& #[trigger] completed_by_search(*merge, draft.merged, searched, first)
                &&& r.meta.finished == first.finished
            },
        draft.web_plan matches Some(w) ==> exists|first: BookMeta, m: BookMeta, both: BookMeta|
            {
                &&& #[trigger] completed_by_search(*merge, draft.merged, searched, first)
                &&& m@ == w.meta@
                &&& #[trigger] call_ensures(*merge, (first, m), both)
                &&& w.meta.finished is Some ==> r.meta.finished == w.meta.finished
                &&& w.meta.finished is None ==> r.meta.finished == both.finished
            },
{
    let due = draft.needs_search();
    let OfficialDraft { book_id, chapters, raw, merged, web_plan } = draft;
    let first = if due {
        let found = match searched {
            Some(s) => s,
            None => BookMeta::default(),
        };
        (*merge)(merged, found)
    } else {
        merged
    };
    assert(completed_by_search(*merge, draft.merged, searched, first));
    let meta = match &web_plan {
        Some(web) => {
            let both = (*merge)(first, web.meta.clone());
            let joined = (*merge_tags)(&both.tags, &web.meta.tags);
            let tags = (*drop_category)(&joined, &both.category);
            let finished = match web.meta.finished {
                Some(b) => Some(b),
                None => both.finished,
            };
            BookMeta { tags, finished, ..both }
        },
        None => first,
    };
    let preferred = (*preferred_name)(&meta);
    let meta = prefer_name(meta, preferred);
    let chapters = match &web_plan {
        Some(web) => merge_chapters_with_web(chapters, &web.chapters),
        None => chapters,
    };
    DownloadPlan { book_id, meta, chapters, raw }
}

/// A finished plan has every chapter of the official directory and every chapter
/// that the pages list, by id.
pub proof fn lemma_official_plan_chapters(
    draft: OfficialDraft,
    meta: BookMetaView,
    preferred: Option<Seq<char>>,
    id: Seq<char>,
)
    ensures
        plan::has_id(official_plan(draft, meta, preferred).chapters, id) <==> {
            ||| plan::has_id(models::refs(draft.chapters@), id)
            ||| draft.web_plan matches Some(w) && plan::has_id(models::refs(w.chapters@), id)
        },
{
    if let Some(w) = draft.web_plan {
        plan::lemma_merge_keeps_ids(models::refs(draft.chapters@), models::refs(w.chapters@), id);
    }
}

/// A book that a search found.
pub struct FoundBook {
    pub book_id: String,
    pub title: Option<String>,
    pub author: Option<String>,
    pub raw: Json,
}

/// The first book with the id `book_id` is the one at `k`.
pub open spec fn found_at(books: Seq<FoundBook>, book_id: Seq<char>, k: int) -> bool {
    &&& 0 <= k < books.len()
    &&& books[k].book_id@ == book_id
    &&& forall|j: int| 0 <= j < k ==> (#[trigger] books[j]).book_id@ != book_id
}

/// What the first book with the id `book_id` tells about it, among the books that
/// a search found: its title and its author, and what the pickers find in the maps
/// of its document.
pub fn search_metadata<
    C: Fn(&Json) -> Vec<Json>,
    K: Fn(&Json, KeyList) -> Option<String>,
    T: Fn(&Json) -> Option<Vec<String>>,
    V: Fn(&Json) -> Option<String>,
    W: Fn(&Json) -> Option<String>,
    F: Fn(&Json) -> Option<bool>,
    N: Fn(&Json) -> Option<usize>,
>(
    book_id: &str,
    books: Vec<FoundBook>,
    collect_maps: &C,
    pick_string: &K,
    pick_tags: T,
    pick_cover: V,
    pick_detail_cover: W,
    pick_finished: F,
    pick_chapter_count: N,
) -> (r: Option<BookMeta>)
    requires
        forall|m: Json| #[trigger] call_requires(*collect_maps, (&m,)),
        forall|m: Json, k: KeyList| #[trigger] call_requires(*pick_string, (&m, k)),
        forall|m: Json| #[trigger] call_requires(pick_tags, (&m,)),
        forall|m: Json| #[trigger] call_requires(pick_cover, (&m,)),
        forall|m: Json| #[trigger] call_requires(pick_detail_cover, (&m,)),
        forall|m: Json| #[trigger] call_requires(pick_finished, (&m,)),
        forall|m: Json| #[trigger] call_requires(pick_chapter_count, (&m,)),
    ensures
        r is None <==> forall|j: int|
            0 <= j < books.len() ==> (#[trigger] books[j]).book_id@ != book_id@,
        r matches Some(meta) ==> exists|k: int, maps: Vec<Json>, tags: Option<Vec<String>>|
            {
                &&& #[trigger] found_at(books@, book_id@, k)
                &&& #[trigger] call_ensures(*collect_maps, (&books[k].raw,), maps)
                &&& meta.book_name == books[k].title
                &&& meta.author == books[k].author
                &&& web_plan::picked_text(
                    *pick_string,
                    maps@,
                    KeyList::Description,
                    meta.description,
                )
                &&& #[trigger] web_plan::picked(pick_tags, maps@, tags)
                &&& match tags {
                    Some(t) => meta.tags == t,
                    None => meta.tags@.len() == 0,
                }
                &&& web_plan::picked(pick_cover, maps@, meta.cover_url)
                &&& web_plan::picked(pick_detail_cover, maps@, meta.detail_cover_url)
                &&& web_plan::picked(pick_finished, maps@, meta.finished)
                &&& web_plan::picked(pick_chapter_count, maps@, meta.chapter_count)
                &&& meta.category is None
            },
{
    for book in it: books
        invariant
            it.seq() == books@,
            forall|j: int| 0 <= j < it.index() ==> (#[trigger] books@[j]).book_id@ != book_id@,
            forall|m: Json| #[trigger] call_requires(*collect_maps, (&m,)),
            forall|m: Json, k: KeyList| #[trigger] call_requires(*pick_string, (&m, k)),
            forall|m: Json| #[trigger] call_requires(pick_tags, (&m,)),
            forall|m: Json| #[trigger] call_requires(pick_cover, (&m,)),
            forall|m: Json| #[trigger] call_requires(pick_detail_cover, (&m,)),
            forall|m: Json| #[trigger] call_requires(pick_finished, (&m,)),
            forall|m: Json| #[trigger] call_requires(pick_chapter_count, (&m,)),
    {
        assert(books@[it.index()] == book);
        if same_text(book.book_id.as_str(), book_id) {
            assert(found_at(books@, book_id@, it.index()));
            let maps = (*collect_maps)(&book.raw);
            let description = pick_first_text(&maps, KeyList::Description, pick_string);
            let tags = pick_first(&maps, pick_tags);
            assert(web_plan::picked(pick_tags, maps@, tags));
            let tags = match tags {
                Some(t) => t,
                None => Vec::new(),
            };
            return Some(
                BookMeta {
                    book_name: book.title,
                    author: book.author,
                    description,
                    tags,
                    cover_url: pick_first(&maps, pick_cover),
                    detail_cover_url: pick_first(&maps, pick_detail_cover),
                    chapter_count: pick_first(&maps, pick_chapter_count),
                    finished: pick_first(&maps, pick_finished),
                    category: None,
                },
            );
        }
    }
    None
}

/// A book is known completely when its name, its author and its blurb are known.
pub proof fn lemma_is_complete(meta: BookMetaView)
    ensures
        !is_complete(meta) <==> meta.book_name is None || meta.author is None || meta.description
            is None,
{
}

/// What a search found counts only where the directory and the hint leave something
/// open; it is then merged in behind them, and nothing found counts as nothing known.
pub proof fn lemma_completed_by_search<M: Fn(BookMeta, BookMeta) -> BookMeta>(
    merge: M,
    merged: BookMeta,
    searched: Option<BookMeta>,
    c: BookMeta,
)
    requires
        completed_by_search(merge, merged, searched, c),
    ensures
        merged@.book_name is Some && merged@.author is Some && merged@.description is Some ==> c
            == merged,
        merged@.book_name is None || merged@.author is None || merged@.description is None ==> exists|
            s: BookMeta,
        |
            {
                &&& #[trigger] call_ensures(merge, (merged, s), c)
                &&& searched matches Some(found) ==> s == found
                &&& searched is None ==> s@ == models::empty_meta()
            },
{
}

/// What the pages say of the book being finished stands; where they say nothing, what
/// was known before stands. The tags are those that were made of both, and nothing else
/// changes.
pub proof fn lemma_with_web_details(
    meta: BookMetaView,
    tags: Seq<Seq<char>>,
    finished: Option<bool>,
)
    ensures
        ({
            let c = with_web_details(meta, tags, finished);
            &&& finished is Some ==> c.finished == finished
            &&& finished is None ==> c.finished == meta.finished
            &&& c.tags == tags
            &&& c.book_name == meta.book_name
            &&& c.author == meta.author
            &&& c.description == meta.description
            &&& c.cover_url == meta.cover_url
            &&& c.detail_cover_url == meta.detail_cover_url
            &&& c.chapter_count == meta.chapter_count
            &&& c.category == meta.category
        }),
{
}

/// Without pages what is known stays as it is. With them, their details are merged in
/// behind it; their tags are joined to those that come of that, and the tag that is the
/// category is taken away; and they have the last word on the book being finished, where
/// they say anything.
pub proof fn lemma_completed_by_web<
    M: Fn(BookMeta, BookMeta) -> BookMeta,
    T: Fn(&Vec<String>, &Vec<String>) -> Vec<String>,
    D: Fn(&Vec<String>, &Option<String>) -> Vec<String>,
>(
    merge: M,
    merge_tags: T,
    drop_category: D,
    before: BookMeta,
    web: Option<DownloadPlan>,
    c: BookMetaView,
)
    requires
        completed_by_web(merge, merge_tags, drop_category, before, web, c),
    ensures
        web is None ==> c == before@,
        web matches Some(w) ==> exists|
            m: BookMeta,
            both: BookMeta,
            joined: Vec<String>,
            tags: Vec<String>,
        |
            {
                &&& m@ == w.meta@
                &&& #[trigger] call_ensures(merge, (before, m), both)
                &&& #[trigger] call_ensures(merge_tags, (&both.tags, &w.meta.tags), joined)
                &&& #[trigger] call_ensures(drop_category, (&joined, &both.category), tags)
                &&& c.tags == text::texts(tags@)
                &&& w.meta.finished is Some ==> c.finished == w.meta.finished
                &&& w.meta.finished is None ==> c.finished == both.finished
                &&& c.book_name == both@.book_name
                &&& c.author == both@.author
                &&& c.description == both@.description
                &&& c.cover_url == both@.cover_url
                &&& c.detail_cover_url == both@.detail_cover_url
                &&& c.chapter_count == both@.chapter_count
                &&& c.category == both@.category
            },
{
}

/// A plan never loses a finished flag that is known, where merging never does.
pub proof fn lemma_finished_flag_stays<
    M: Fn(BookMeta, BookMeta) -> BookMeta,
    T: Fn(&Vec<String>, &Vec<String>) -> Vec<String>,
    D: Fn(&Vec<String>, &Option<String>) -> Vec<String>,
>(
    draft: OfficialDraft,
    merge: M,
    merge_tags: T,
    drop_category: D,
    searched: Option<BookMeta>,
    first: BookMeta,
    meta: BookMetaView,
    preferred: Option<Seq<char>>,
)
    requires
        forall|a: BookMeta, b: BookMeta, c: BookMeta| #[trigger]
            call_ensures(merge, (a, b), c) && a.finished is Some ==> c.finished == a.finished,
        draft.merged.finished is Some,
        completed_by_search(merge, draft.merged, searched, first),
        completed_by_web(merge, merge_tags, drop_category, first, draft.web_plan, meta),
    ensures
        ({
            let plan = official_plan(draft, meta, preferred);
            &&& plan.meta.finished is Some
            &&& draft.web_plan is None ==> plan.meta.finished == draft.merged.finished
            &&& draft.web_plan matches Some(w) ==> plan.meta.finished == if w.meta.finished is Some {
                w.meta.finished
            } else {
                draft.merged.finished
            }
        }),
{
}

/// A finished plan keeps the id and the directory of its draft, and what is known of the
/// book under its preferred name. Its chapters are those of the draft, merged with those
/// of the pages where there are any.
pub proof fn lemma_official_plan_parts(
    draft: OfficialDraft,
    meta: BookMetaView,
    preferred: Option<Seq<char>>,
)
    ensures
        ({
            let plan = official_plan(draft, meta, preferred);
            &&& plan.book_id == draft.book_id@
            &&& plan.raw == draft.raw@
            &&& preferred is Some ==> plan.meta == (BookMetaView { book_name: preferred, ..meta })
            &&& preferred is None ==> plan.meta == meta
            &&& draft.web_plan is None ==> plan.chapters == models::refs(draft.chapters@)
            &&& draft.web_plan matches Some(w) ==> plan.chapters == plan::merged_chapters(
                models::refs(draft.chapters@),
                models::refs(w.chapters@),
            )
        }),
{
}

/// A book that was found has the id, and no book ahead of it has.
pub proof fn lemma_found_at(books: Seq<FoundBook>, book_id: Seq<char>, k: int, j: int)
    requires
        found_at(books, book_id, k),
    ensures
        0 <= k < books.len(),
        books[k].book_id@ == book_id,
        0 <= j < k ==> books[j].book_id@ != book_id,
{
}

} // verus!
