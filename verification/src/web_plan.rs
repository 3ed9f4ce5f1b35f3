use vstd::prelude::*;

use crate::book_info::{BookInfo, BookInfoView};
use crate::chapters;
use crate::json::{self, Json, JsonView};
use crate::models::{
    self, BookMeta, BookMetaView, ChapterRef, ChapterRefView, DownloadPlan, DownloadPlanView,
    PlanError,
};
use crate::search;
use crate::text::{self, copy_opt};

verus! {

/// The lists of names under which a value is looked up.
#[derive(Clone, Copy)]
pub enum KeyList {
    ChapterId,
    ChapterTitle,
    Description,
}

/// The names of a list, in the order in which they are tried.
pub open spec fn key_list(keys: KeyList) -> Seq<Seq<char>> {
    match keys {
        KeyList::ChapterId => chapters::chapter_id_keys(),
        KeyList::ChapterTitle => seq![
            "title"@,
            "chapter_title"@,
            "chapterTitle"@,
            "name"@,
            "chapter_name"@,
        ],
        KeyList::Description => seq![
            "description"@,
            "desc"@,
            "abstract"@,
            "intro"@,
            "summary"@,
        ],
    }
}

impl KeyList {
    /// The names of this list, in the order in which they are tried.
    pub fn names(self) -> (r: Vec<&'static str>)
        ensures
            search::key_texts(r@) == key_list(self),
    {
        let r: Vec<&'static str> = match self {
            KeyList::ChapterId => vec![
                "item_id",
                "itemId",
                "chapter_id",
                "chapterId",
                "catalog_id",
                "catalogId",
                "id",
            ],
            KeyList::ChapterTitle => vec![
                "title",
                "chapter_title",
                "chapterTitle",
                "name",
                "chapter_name",
            ],
            KeyList::Description => vec!["description", "desc", "abstract", "intro", "summary"],
        };
        assert(search::key_texts(r@) =~= key_list(self));
        r
    }
}

/// `r` is what `pick` finds in the first of `maps` in which it finds anything.
pub open spec fn picked<T, F: Fn(&Json) -> Option<T>>(
    pick: F,
    maps: Seq<Json>,
    r: Option<T>,
) -> bool {
    match r {
        Some(_) => exists|k: int|
            {
                &&& 0 <= k < maps.len()
                &&& call_ensures(pick, (&#[trigger] maps[k],), r)
                &&& forall|j: int| 0 <= j < k ==> call_ensures(pick, (&#[trigger] maps[j],), None::<T>)
            },
        None => forall|j: int| 0 <= j < maps.len() ==> call_ensures(pick, (&#[trigger] maps[j],), None::<T>),
    }
}

/// What `pick` finds in the first of `maps` in which it finds anything.
pub fn pick_first<T, F: Fn(&Json) -> Option<T>>(maps: &Vec<Json>, pick: F) -> (r: Option<T>)
    requires
        forall|m: Json| #[trigger] call_requires(pick, (&m,)),
    ensures
        picked(pick, maps@, r),
{
    for i in 0..maps.len()
        invariant
            forall|m: Json| #[trigger] call_requires(pick, (&m,)),
            forall|j: int| 0 <= j < i ==> call_ensures(pick, (&#[trigger] maps@[j],), None::<T>),
    {
        let found = pick(&maps[i]);
        if found.is_some() {
            assert(call_ensures(pick, (&maps@[i as int],), found));
            return found;
        }
    }
    None
}

/// `r` is what `pick` finds under the names of a list in the first of `maps` in
/// which it finds anything.
pub open spec fn picked_text<K: Fn(&Json, KeyList) -> Option<String>>(
    pick: K,
    maps: Seq<Json>,
    keys: KeyList,
    r: Option<String>,
) -> bool {
    match r {
        Some(_) => exists|k: int|
            {
                &&& 0 <= k < maps.len()
                &&& call_ensures(pick, (&#[trigger] maps[k], keys), r)
                &&& forall|j: int|
                    0 <= j < k ==> call_ensures(pick, (&#[trigger] maps[j], keys), None::<String>)
            },
        None => forall|j: int|
            0 <= j < maps.len() ==> call_ensures(pick, (&#[trigger] maps[j], keys), None::<String>),
    }
}

/// What `pick` finds under the names of a list in the first of `maps` in which it
/// finds anything.
pub fn pick_first_text<K: Fn(&Json, KeyList) -> Option<String>>(
    maps: &Vec<Json>,
    keys: KeyList,
    pick: &K,
) -> (r: Option<String>)
    requires
        forall|m: Json, k: KeyList| #[trigger] call_requires(*pick, (&m, k)),
    ensures
        picked_text(*pick, maps@, keys, r),
{
    for i in 0..maps.len()
        invariant
            forall|m: Json, k: KeyList| #[trigger] call_requires(*pick, (&m, k)),
            forall|j: int|
                0 <= j < i ==> call_ensures(*pick, (&#[trigger] maps@[j], keys), None::<String>),
    {
        let found = (*pick)(&maps[i], keys);
        if found.is_some() {
            assert(call_ensures(*pick, (&maps@[i as int], keys), found));
            return found;
        }
    }
    None
}

/// What an optional chapter holds.
pub open spec fn opt_ref(c: Option<ChapterRef>) -> Option<ChapterRefView> {
    match c {
        Some(r) => Some(r@),
        None => None,
    }
}

/// `r` is the chapter in `v`: its id is looked up in the maps of `v`, and so is
/// its title, which is the id where there is none; without an id there is no
/// chapter.
pub open spec fn chapter_read<C: Fn(&Json) -> Vec<Json>, K: Fn(&Json, KeyList) -> Option<String>>(
    collect_maps: C,
    pick_string: K,
    v: Json,
    r: Option<ChapterRefView>,
) -> bool {
    exists|maps: Vec<Json>, id: Option<String>, title: Option<String>|
        {
            &&& #[trigger] call_ensures(collect_maps, (&v,), maps)
            &&& #[trigger] picked_text(pick_string, maps@, KeyList::ChapterId, id)
            &&& id is Some ==> picked_text(pick_string, maps@, KeyList::ChapterTitle, title)
            &&& r == chapter_of(text::opt_text(id), #[trigger] text::opt_text(title))
        }
}

/// The chapter with an id and a title, which is the id where there is none.
pub open spec fn chapter_of(id: Option<Seq<char>>, title: Option<Seq<char>>) -> Option<
    ChapterRefView,
> {
    match id {
        None => None,
        Some(i) => Some(
            ChapterRefView {
                id: i,
                title: match title {
                    Some(t) => t,
                    None => i,
                },
            },
        ),
    }
}

/// The chapter in `v`.
pub fn parse_chapter_ref_from_value<
    C: Fn(&Json) -> Vec<Json>,
    K: Fn(&Json, KeyList) -> Option<String>,
>(v: &Json, collect_maps: &C, pick_string: &K) -> (r: Option<ChapterRef>)
    requires
        forall|m: Json| #[trigger] call_requires(*collect_maps, (&m,)),
        forall|m: Json, k: KeyList| #[trigger] call_requires(*pick_string, (&m, k)),
    ensures
        chapter_read(*collect_maps, *pick_string, *v, opt_ref(r)),
{
    let maps = (*collect_maps)(v);
    let id = pick_first_text(&maps, KeyList::ChapterId, pick_string);
    match id {
        None => {
            assert(text::opt_text(id) is None);
            let ghost none: Option<String> = None;
            assert(text::opt_text(none) is None);
            None
        },
        Some(id) => {
            let title = pick_first_text(&maps, KeyList::ChapterTitle, pick_string);
            let ghost (gid, gtitle) = (Some(id), title);
            let r = ChapterRef {
                title: match title {
                    Some(t) => t,
                    None => id.clone(),
                },
                id,
            };
            assert(picked_text(*pick_string, maps@, KeyList::ChapterId, gid));
            assert(opt_ref(Some(r)) == chapter_of(text::opt_text(gid), text::opt_text(gtitle)));
            Some(r)
        },
    }
}

/// The chapters that are there, in order.
pub open spec fn present(refs: Seq<Option<ChapterRefView>>) -> Seq<ChapterRefView>
    decreases refs.len(),
{
    if refs.len() == 0 {
        Seq::empty()
    } else {
        match refs.last() {
            Some(c) => present(refs.drop_last()).push(c),
            None => present(refs.drop_last()),
        }
    }
}

/// A chapter is kept exactly when it is there.
proof fn lemma_present(refs: Seq<Option<ChapterRefView>>, c: ChapterRefView)
    ensures
        present(refs).contains(c) <==> refs.contains(Some(c)),
    decreases refs.len(),
{
    if refs.len() > 0 {
        let front = refs.drop_last();
        let kept = present(front);
        lemma_present(front, c);
        assert(front.push(refs.last()) =~= refs);
        if front.contains(Some(c)) {
            let k = choose|k: int| 0 <= k < front.len() && front[k] == Some(c);
            assert(refs[k] == Some(c));
        }
        if refs.last() == Some(c) {
            assert(refs[refs.len() - 1] == Some(c));
            assert(present(refs)[kept.len() as int] == c);
        }
        if kept.contains(c) {
            let k = choose|k: int| 0 <= k < kept.len() && kept[k] == c;
            assert(present(refs)[k] == c);
        }
        if refs.contains(Some(c)) && refs.last() != Some(c) {
            let k = choose|k: int| 0 <= k < refs.len() && refs[k] == Some(c);
            assert(front[k] == Some(c));
        }
        if present(refs).contains(c) && refs.last() != Some(c) {
            let k = choose|k: int| 0 <= k < present(refs).len() && present(refs)[k] == c;
            assert(kept[k] == c);
        }
    }
}

/// What a list of optional chapters holds.
pub open spec fn opt_refs(refs: Seq<Option<ChapterRef>>) -> Seq<Option<ChapterRefView>> {
    refs.map_values(|c: Option<ChapterRef>| opt_ref(c))
}

/// The only chapter of a short story: the first item of the book, or the book
/// itself where it has none, under the title of the book.
pub open spec fn short_story(book_id: Seq<char>, info: BookInfoView) -> ChapterRefView {
    ChapterRefView {
        id: match info.first_item_id {
            Some(id) => id,
            None => book_id,
        },
        title: match info.book_name {
            Some(name) => name,
            None => Seq::empty(),
        },
    }
}

/// A book without a chapter list is a short story.
pub open spec fn is_short_story(chapter_values: Option<Seq<JsonView>>) -> bool {
    match chapter_values {
        Some(values) => values.len() == 0,
        None => true,
    }
}

/// The chapters of a book; `read` is what was read from the values of its list.
pub open spec fn web_chapters(
    book_id: Seq<char>,
    info: BookInfoView,
    chapter_values: Option<Seq<JsonView>>,
    read: Seq<Option<ChapterRefView>>,
) -> Seq<ChapterRefView> {
    if is_short_story(chapter_values) {
        seq![short_story(book_id, info)]
    } else {
        present(read)
    }
}

/// What the pages of a book tell about it.
pub open spec fn web_meta(info: BookInfoView) -> BookMetaView {
    BookMetaView {
        book_name: info.book_name,
        author: info.author,
        description: info.description,
        tags: match info.tags {
            Some(tags) => tags,
            None => Seq::empty(),
        },
        cover_url: info.cover_url,
        detail_cover_url: info.detail_cover_url,
        chapter_count: info.chapter_count,
        finished: info.finished,
        category: None,
    }
}

/// A preferred name, where there is one, takes the place of the name.
pub open spec fn with_name(meta: BookMetaView, preferred: Option<Seq<char>>) -> BookMetaView {
    match preferred {
        Some(name) => BookMetaView { book_name: Some(name), ..meta },
        None => meta,
    }
}

/// The directory that a plan keeps.
pub open spec fn web_raw(
    book_id: Seq<char>,
    info: BookInfoView,
    chapter_values: Option<Seq<JsonView>>,
) -> JsonView {
    if is_short_story(chapter_values) {
        let c = short_story(book_id, info);
        JsonView::Object(
            seq![
                ("book_id"@, JsonView::Text(book_id)),
                (
                    "chapters"@,
                    JsonView::Array(
                        seq![
                            JsonView::Object(
                                seq![
                                    ("item_id"@, JsonView::Text(c.id)),
                                    ("title"@, JsonView::Text(c.title)),
                                ],
                            ),
                        ],
                    ),
                ),
                ("source"@, JsonView::Text("fanqie_web_short_story"@)),
            ],
        )
    } else {
        JsonView::Object(
            seq![
                ("book_id"@, JsonView::Text(book_id)),
                ("chapters"@, JsonView::Array(chapter_values->0)),
                ("source"@, JsonView::Text("fanqie_web"@)),
            ],
        )
    }
}

/// The plan that the pages of a book make; `read` is what was read from the
/// values of its chapter list, `merged` what is known of the book once the hint is
/// merged in, `preferred` the preferred name of the book. There is no plan where
/// the list has values and none of them is a chapter.
pub open spec fn web_plan(
    book_id: Seq<char>,
    info: BookInfoView,
    chapter_values: Option<Seq<JsonView>>,
    read: Seq<Option<ChapterRefView>>,
    merged: BookMetaView,
    preferred: Option<Seq<char>>,
) -> Result<DownloadPlanView, PlanError> {
    let listed = web_chapters(book_id, info, chapter_values, read);
    if listed.len() == 0 {
        Err(PlanError::NoChapterId)
    } else {
        Ok(
            DownloadPlanView {
                book_id,
                meta: with_name(merged, preferred),
                chapters: listed,
                raw: web_raw(book_id, info, chapter_values),
            },
        )
    }
}

/// What the making of a plan gives.
pub open spec fn plan_view(r: Result<DownloadPlan, PlanError>) -> Result<
    DownloadPlanView,
    PlanError,
> {
    match r {
        Ok(plan) => Ok(plan@),
        Err(e) => Err(e),
    }
}

/// What the pages of a book tell about it.
pub fn meta_from_info(info: &BookInfo) -> (r: BookMeta)
    ensures
        r@ == web_meta(info@),
{
    let tags: Vec<String> = match &info.tags {
        Some(tags) => text::copy_texts(tags),
        None => Vec::new(),
    };
    proof {
        if info.tags is None {
            assert(text::texts(tags@) =~= Seq::empty());
        }
    }
    BookMeta {
        book_name: copy_opt(&info.book_name),
        author: copy_opt(&info.author),
        description: copy_opt(&info.description),
        tags,
        cover_url: copy_opt(&info.cover_url),
        detail_cover_url: copy_opt(&info.detail_cover_url),
        chapter_count: info.chapter_count,
        finished: info.finished,
        category: None,
    }
}

/// Puts a preferred name, where there is one, in the place of the name.
pub fn prefer_name(meta: BookMeta, preferred: Option<String>) -> (r: BookMeta)
    ensures
        r@ == with_name(meta@, text::opt_text(preferred)),
{
    match preferred {
        Some(name) => BookMeta { book_name: Some(name), ..meta },
        None => meta,
    }
}

/// The chapters that are there, in order.
fn keep_present(read: Vec<Option<ChapterRef>>) -> (r: Vec<ChapterRef>)
    ensures
        models::refs(r@) == present(opt_refs(read@)),
{
    let ghost all = opt_refs(read@);
    let mut out: Vec<ChapterRef> = Vec::new();
    let n = read.len();
    assert(models::refs(out@) =~= present(all.take(0)));
    for c in it: read
        invariant
            it.seq() == read@,
            all == opt_refs(read@),
            models::refs(out@) == present(all.take(it.index())),
    {
        let ghost i = it.index();
        let ghost before = out@;
        assert(all.take(i + 1).drop_last() =~= all.take(i));
        assert(all[i] == opt_ref(c));
        if let Some(chapter) = c {
            out.push(chapter);
            assert(models::refs(out@) =~= models::refs(before).push(chapter@));
        }
    }
    assert(all.take(n as int) =~= all);
    out
}

/// The only chapter of a short story.
fn story_chapter(book_id: &str, info: &BookInfo) -> (r: ChapterRef)
    ensures
        r@ == short_story(book_id@, info@),
{
    ChapterRef {
        id: match &info.first_item_id {
            Some(id) => id.clone(),
            None => book_id.to_owned(),
        },
        title: match &info.book_name {
            Some(name) => name.clone(),
            None => String::new(),
        },
    }
}

/// A JSON string.
fn json_text(s: &str) -> (r: Json)
    ensures
        r@ == JsonView::Text(s@),
{
    Json::Text(s.to_owned())
}

/// An object with the members `book_id`, `chapters` and `source`.
fn directory_json(book_id: &str, chapters: Vec<Json>, source: &str) -> (r: Json)
    ensures
        r@ == JsonView::Object(
            seq![
                ("book_id"@, JsonView::Text(book_id@)),
                ("chapters"@, JsonView::Array(json::items(chapters@))),
                ("source"@, JsonView::Text(source@)),
            ],
        ),
{
    let list = Json::Array(chapters);
    proof {
        json::lemma_view(list);
    }
    let m: Vec<(String, Json)> = vec![
        ("book_id".to_owned(), json_text(book_id)),
        ("chapters".to_owned(), list),
        ("source".to_owned(), json_text(source)),
    ];
    let r = Json::Object(m);
    proof {
        json::lemma_view(r);
        assert(json::members(m@) =~= seq![
            ("book_id"@, JsonView::Text(book_id@)),
            ("chapters"@, list@),
            ("source"@, JsonView::Text(source@)),
        ]);
    }
    r
}

/// An object with the members `item_id` and `title`.
fn chapter_json(c: &ChapterRef) -> (r: Json)
    ensures
        r@ == JsonView::Object(
            seq![("item_id"@, JsonView::Text(c@.id)), ("title"@, JsonView::Text(c@.title))],
        ),
{
    let m: Vec<(String, Json)> = vec![
        ("item_id".to_owned(), json_text(c.id.as_str())),
        ("title".to_owned(), json_text(c.title.as_str())),
    ];
    let r = Json::Object(m);
    proof {
        json::lemma_view(r);
        assert(json::members(m@) =~= seq![
            ("item_id"@, JsonView::Text(c@.id)),
            ("title"@, JsonView::Text(c@.title)),
        ]);
    }
    r
}

/// Whether a book has no chapter list.
fn without_list(chapter_values: &Option<Vec<Json>>) -> (r: bool)
    ensures
        r == is_short_story(chapters::opt_items(*chapter_values)),
{
    match chapter_values {
        Some(values) => values.is_empty(),
        None => true,
    }
}

/// The plan that the pages of a book make, once its chapters are read, what is
/// known of it is merged and its preferred name is picked.
pub fn plan_from_web(
    book_id: &str,
    info: &BookInfo,
    chapter_values: Option<Vec<Json>>,
    read: Vec<Option<ChapterRef>>,
    merged: BookMeta,
    preferred: Option<String>,
) -> (r: Result<DownloadPlan, PlanError>)
    ensures
        plan_view(r) == web_plan(
            book_id@,
            info@,
            chapters::opt_items(chapter_values),
            opt_refs(read@),
            merged@,
            text::opt_text(preferred),
        ),
{
    let ghost values = chapters::opt_items(chapter_values);
    if without_list(&chapter_values) {
        let story = story_chapter(book_id, info);
        let listed: Vec<Json> = vec![chapter_json(&story)];
        proof {
            assert(json::items(listed@) =~= seq![listed@[0]@]);
        }
        let raw = directory_json(book_id, listed, "fanqie_web_short_story");
        let chapters: Vec<ChapterRef> = vec![story];
        assert(models::refs(chapters@) =~= seq![short_story(book_id@, info@)]);
        Ok(
            DownloadPlan {
                book_id: book_id.to_owned(),
                meta: prefer_name(merged, preferred),
                chapters,
                raw,
            },
        )
    } else {
        let chapters = keep_present(read);
        assert(models::refs(chapters@).len() == chapters.len());
        if chapters.is_empty() {
            return Err(PlanError::NoChapterId);
        }
        let listed: Vec<Json> = match chapter_values {
            Some(values) => values,
            None => Vec::new(),
        };
        let raw = directory_json(book_id, listed, "fanqie_web");
        Ok(
            DownloadPlan {
                book_id: book_id.to_owned(),
                meta: prefer_name(merged, preferred),
                chapters,
                raw,
            },
        )
    }
}

/// `read` is what is read from the values of a chapter list, one by one; nothing
/// is read where there is no list.
pub open spec fn values_read<C: Fn(&Json) -> Vec<Json>, K: Fn(&Json, KeyList) -> Option<String>>(
    collect_maps: C,
    pick_string: K,
    chapter_values: Option<Vec<Json>>,
    read: Seq<Option<ChapterRefView>>,
) -> bool {
    match chapter_values {
        Some(values) => {
            &&& read.len() == values.len()
            &&& forall|i: int|
                0 <= i < values.len() ==> chapter_read(
                    collect_maps,
                    pick_string,
                    values@[i],
                    #[trigger] read[i],
                )
        },
        None => read.len() == 0,
    }
}

/// Reads the values of a chapter list one by one.
fn read_values<C: Fn(&Json) -> Vec<Json>, K: Fn(&Json, KeyList) -> Option<String>>(
    chapter_values: &Option<Vec<Json>>,
    collect_maps: &C,
    pick_string: &K,
) -> (r: Vec<Option<ChapterRef>>)
    requires
        forall|m: Json| #[trigger] call_requires(*collect_maps, (&m,)),
        forall|m: Json, k: KeyList| #[trigger] call_requires(*pick_string, (&m, k)),
    ensures
        values_read(*collect_maps, *pick_string, *chapter_values, opt_refs(r@)),
{
    let mut out: Vec<Option<ChapterRef>> = Vec::new();
    if let Some(values) = chapter_values {
        for i in 0..values.len()
            invariant
                forall|m: Json| #[trigger] call_requires(*collect_maps, (&m,)),
                forall|m: Json, k: KeyList| #[trigger] call_requires(*pick_string, (&m, k)),
                out.len() == i,
                forall|j: int|
                    0 <= j < i ==> chapter_read(
                        *collect_maps,
                        *pick_string,
                        values@[j],
                        opt_ref(#[trigger] out@[j]),
                    ),
        {
            out.push(parse_chapter_ref_from_value(&values[i], collect_maps, pick_string));
        }
        assert forall|i: int| 0 <= i < values.len() implies chapter_read(
            *collect_maps,
            *pick_string,
            values@[i],
            #[trigger] opt_refs(out@)[i],
        ) by {
            assert(opt_refs(out@)[i] == opt_ref(out@[i]));
        }
    }
    out
}

/// Whether a chapter is there.
fn any_present(read: &Vec<Option<ChapterRef>>) -> (r: bool)
    ensures
        r <==> present(opt_refs(read@)).len() > 0,
{
    let ghost all = opt_refs(read@);
    for i in 0..read.len()
        invariant
            all == opt_refs(read@),
            present(all.take(i as int)).len() == 0,
    {
        assert(all.take(i + 1).drop_last() =~= all.take(i as int));
        assert(all[i as int] == opt_ref(read@[i as int]));
        if read[i].is_some() {
            proof {
                lemma_present_grows(all, i + 1);
            }
            return true;
        }
    }
    assert(all.take(read.len() as int) =~= all);
    false
}

proof fn lemma_present_grows(refs: Seq<Option<ChapterRefView>>, n: int)
    requires
        0 <= n <= refs.len(),
    ensures
        present(refs.take(n)).len() <= present(refs).len(),
    decreases refs.len(),
{
    if n < refs.len() {
        lemma_present_grows(refs.drop_last(), n);
        assert(refs.drop_last().take(n) =~= refs.take(n));
    } else {
        assert(refs.take(n) =~= refs);
    }
}

/// `r` is the plan for a book, by its pages. The chapters are read with
/// `collect_maps` and `pick_string`; what the page tells is merged with the hint by
/// `merge`; `preferred_name` may give the book another name. The one failure is a
/// chapter list without a chapter in it.
pub open spec fn plan_prepared<
    C: Fn(&Json) -> Vec<Json>,
    K: Fn(&Json, KeyList) -> Option<String>,
    M: Fn(BookMeta, BookMeta) -> BookMeta,
    P: Fn(&BookMeta) -> Option<String>,
>(
    book_id: Seq<char>,
    info: BookInfoView,
    chapter_values: Option<Vec<Json>>,
    meta_hint: BookMeta,
    collect_maps: C,
    pick_string: K,
    merge: M,
    preferred_name: P,
    r: Result<DownloadPlan, PlanError>,
) -> bool {
    match r {
        Err(e) => {
            &&& e is NoChapterId
            &&& !is_short_story(chapters::opt_items(chapter_values))
            &&& exists|read: Seq<Option<ChapterRefView>>|
                {
                    &&& #[trigger] values_read(collect_maps, pick_string, chapter_values, read)
                    &&& present(read).len() == 0
                }
        },
        Ok(_) => exists|
            read: Seq<Option<ChapterRefView>>,
            meta: BookMeta,
            merged: BookMeta,
            preferred: Option<String>,
        |
            {
                &&& #[trigger] values_read(collect_maps, pick_string, chapter_values, read)
                &&& meta@ == web_meta(info)
                &&& #[trigger] call_ensures(merge, (meta, meta_hint), merged)
                &&& #[trigger] call_ensures(preferred_name, (&merged,), preferred)
                &&& plan_view(r) == web_plan(
                    book_id,
                    info,
                    chapters::opt_items(chapter_values),
                    read,
                    merged@,
                    text::opt_text(preferred),
                )
            },
    }
}

/// The plan for a book, by its pages: `info` is what its page tells, and
/// `chapter_values` the list in its directory.
pub fn prepare_download_plan_web<
    C: Fn(&Json) -> Vec<Json>,
    K: Fn(&Json, KeyList) -> Option<String>,
    M: Fn(BookMeta, BookMeta) -> BookMeta,
    P: Fn(&BookMeta) -> Option<String>,
>(
    book_id: &str,
    info: &BookInfo,
    chapter_values: Option<Vec<Json>>,
    meta_hint: BookMeta,
    collect_maps: &C,
    pick_string: &K,
    merge: &M,
    preferred_name: &P,
) -> (r: Result<DownloadPlan, PlanError>)
    requires
        forall|m: Json| #[trigger] call_requires(*collect_maps, (&m,)),
        forall|m: Json, k: KeyList| #[trigger] call_requires(*pick_string, (&m, k)),
        forall|a: BookMeta, b: BookMeta| #[trigger] call_requires(*merge, (a, b)),
        forall|m: BookMeta| #[trigger] call_requires(*preferred_name, (&m,)),
    ensures
        plan_prepared(
            book_id@,
            info@,
            chapter_values,
            meta_hint,
            *collect_maps,
            *pick_string,
            *merge,
            *preferred_name,
            r,
        ),
{
    let read = read_values(&chapter_values, collect_maps, pick_string);
    if !without_list(&chapter_values) && !any_present(&read) {
        return Err(PlanError::NoChapterId);
    }
    let meta = meta_from_info(info);
    let merged = (*merge)(meta, meta_hint);
    let preferred = (*preferred_name)(&merged);
    plan_from_web(book_id, info, chapter_values, read, merged, preferred)
}

/// The plan for a book where its pages are all there is: whatever
/// [`prepare_download_plan_web`] returns for them.
pub fn prepare_download_plan<
    C: Fn(&Json) -> Vec<Json>,
    K: Fn(&Json, KeyList) -> Option<String>,
    M: Fn(BookMeta, BookMeta) -> BookMeta,
    P: Fn(&BookMeta) -> Option<String>,
>(
    book_id: &str,
    info: &BookInfo,
    chapter_values: Option<Vec<Json>>,
    meta_hint: BookMeta,
    collect_maps: &C,
    pick_string: &K,
    merge: &M,
    preferred_name: &P,
) -> (r: Result<DownloadPlan, PlanError>)
    requires
        forall|m: Json| #[trigger] call_requires(*collect_maps, (&m,)),
        forall|m: Json, k: KeyList| #[trigger] call_requires(*pick_string, (&m, k)),
        forall|a: BookMeta, b: BookMeta| #[trigger] call_requires(*merge, (a, b)),
        forall|m: BookMeta| #[trigger] call_requires(*preferred_name, (&m,)),
    ensures
        call_ensures(
            prepare_download_plan_web::<C, K, M, P>,
            (
                book_id,
                info,
                chapter_values,
                meta_hint,
                collect_maps,
                pick_string,
                merge,
                preferred_name,
            ),
            r,
        ),
        plan_prepared(
            book_id@,
            info@,
            chapter_values,
            meta_hint,
            *collect_maps,
            *pick_string,
            *merge,
            *preferred_name,
            r,
        ),
{
    let prepare = prepare_download_plan_web::<C, K, M, P>;
    prepare(
        book_id,
        info,
        chapter_values,
        meta_hint,
        collect_maps,
        pick_string,
        merge,
        preferred_name,
    )
}

/// A plan keeps the id of the book and has a chapter. A short story always has a
/// plan, with exactly one chapter, which its directory names; any other book has
/// exactly the chapters that could be read, and its directory keeps the whole list.
pub proof fn lemma_web_plan(
    book_id: Seq<char>,
    info: BookInfoView,
    chapter_values: Option<Seq<JsonView>>,
    read: Seq<Option<ChapterRefView>>,
    merged: BookMetaView,
    preferred: Option<Seq<char>>,
)
    ensures
        is_short_story(chapter_values) ==> web_plan(
            book_id,
            info,
            chapter_values,
            read,
            merged,
            preferred,
        ) is Ok,
        web_plan(book_id, info, chapter_values, read, merged, preferred) matches Ok(plan) ==> {
            &&& plan.book_id == book_id
            &&& plan.chapters.len() > 0
            &&& plan.raw.get("book_id"@) == Some(JsonView::Text(book_id))
            &&& is_short_story(chapter_values) ==> {
                &&& plan.chapters == seq![short_story(book_id, info)]
                &&& chapters::array_under(plan.raw, "chapters"@) matches Some(a) && a.len() == 1
                    && a[0].get("item_id"@) == Some(JsonView::Text(plan.chapters[0].id))
                    && a[0].get("title"@) == Some(JsonView::Text(plan.chapters[0].title))
            }
            &&& !is_short_story(chapter_values) ==> {
                &&& forall|c: ChapterRefView| #[trigger]
                    plan.chapters.contains(c) <==> read.contains(Some(c))
                &&& plan.raw.get("chapters"@) == Some(JsonView::Array(chapter_values->0))
            }
        },
{
    assert forall|c: ChapterRefView| #[trigger]
        present(read).contains(c) <==> read.contains(Some(c)) by {
        lemma_present(read, c);
    }
    reveal_with_fuel(json::lookup, 3);
    reveal_strlit("book_id");
    reveal_strlit("chapters");
    assert("book_id"@ != "chapters"@) by {
        assert("book_id"@.len() != "chapters"@.len());
    }
    reveal_strlit("item_id");
    reveal_strlit("title");
    assert("item_id"@ != "title"@) by {
        assert("item_id"@.len() != "title"@.len());
    }
    let raw = web_raw(book_id, info, chapter_values);
    let m = raw->Object_0;
    assert(m.skip(1)[0] == m[1]);
    if is_short_story(chapter_values) {
        let c = m[1].1->Array_0[0]->Object_0;
        assert(c.skip(1)[0] == c[1]);
    }
}

/// A picker finds the same under the same names in the same value.
pub open spec fn picks_alike<K: Fn(&Json, KeyList) -> Option<String>>(pick_string: K) -> bool {
    forall|m: Json, k: KeyList, a: Option<String>, b: Option<String>| #[trigger]
        call_ensures(pick_string, (&m, k), a) && #[trigger] call_ensures(pick_string, (&m, k), b)
            ==> text::opt_text(a) == text::opt_text(b)
}

/// The same value has the same maps each time.
pub open spec fn collects_alike<C: Fn(&Json) -> Vec<Json>>(collect_maps: C) -> bool {
    forall|v: Json, a: Vec<Json>, b: Vec<Json>| #[trigger]
        call_ensures(collect_maps, (&v,), a) && #[trigger] call_ensures(collect_maps, (&v,), b)
            ==> a@ == b@
}

/// What is known of a book merges alike with the same hint.
pub open spec fn merges_alike<M: Fn(BookMeta, BookMeta) -> BookMeta>(merge: M) -> bool {
    forall|m: BookMeta, n: BookMeta, hint: BookMeta, a: BookMeta, b: BookMeta| #[trigger]
        call_ensures(merge, (m, hint), a) && #[trigger] call_ensures(merge, (n, hint), b) && m@
            == n@ ==> a@ == b@
}

/// A book of which the same is known has the same preferred name.
pub open spec fn prefers_alike<P: Fn(&BookMeta) -> Option<String>>(preferred_name: P) -> bool {
    forall|m: BookMeta, n: BookMeta, a: Option<String>, b: Option<String>| #[trigger]
        call_ensures(preferred_name, (&m,), a) && #[trigger] call_ensures(preferred_name, (&n,), b)
            && m@ == n@ ==> text::opt_text(a) == text::opt_text(b)
}

proof fn lemma_picked_text_once<K: Fn(&Json, KeyList) -> Option<String>>(
    pick: K,
    maps: Seq<Json>,
    keys: KeyList,
    a: Option<String>,
    b: Option<String>,
)
    requires
        picks_alike(pick),
        picked_text(pick, maps, keys, a),
        picked_text(pick, maps, keys, b),
    ensures
        text::opt_text(a) == text::opt_text(b),
{
    if a is Some {
        let i = choose|k: int|
            {
                &&& 0 <= k < maps.len()
                &&& call_ensures(pick, (&#[trigger] maps[k], keys), a)
                &&& forall|j: int|
                    0 <= j < k ==> call_ensures(pick, (&#[trigger] maps[j], keys), None::<String>)
            };
        if b is Some {
            let n = choose|k: int|
                {
                    &&& 0 <= k < maps.len()
                    &&& call_ensures(pick, (&#[trigger] maps[k], keys), b)
                    &&& forall|j: int|
                        0 <= j < k ==> call_ensures(
                            pick,
                            (&#[trigger] maps[j], keys),
                            None::<String>,
                        )
                };
            if i < n {
                assert(call_ensures(pick, (&maps[i], keys), None::<String>));
            } else if n < i {
                assert(call_ensures(pick, (&maps[n], keys), None::<String>));
            }
        } else {
            assert(call_ensures(pick, (&maps[i], keys), None::<String>));
        }
    } else if b is Some {
        let n = choose|k: int|
            0 <= k < maps.len() && call_ensures(pick, (&#[trigger] maps[k], keys), b);
        assert(call_ensures(pick, (&maps[n], keys), None::<String>));
    }
}

proof fn lemma_chapter_read_once<
    C: Fn(&Json) -> Vec<Json>,
    K: Fn(&Json, KeyList) -> Option<String>,
>(
    collect_maps: C,
    pick_string: K,
    v: Json,
    a: Option<ChapterRefView>,
    b: Option<ChapterRefView>,
)
    requires
        collects_alike(collect_maps),
        picks_alike(pick_string),
        chapter_read(collect_maps, pick_string, v, a),
        chapter_read(collect_maps, pick_string, v, b),
    ensures
        a == b,
{
    let (maps_a, id_a, title_a) = choose|
        maps: Vec<Json>,
        id: Option<String>,
        title: Option<String>,
    |
        {
            &&& #[trigger] call_ensures(collect_maps, (&v,), maps)
            &&& #[trigger] picked_text(pick_string, maps@, KeyList::ChapterId, id)
            &&& id is Some ==> picked_text(pick_string, maps@, KeyList::ChapterTitle, title)
            &&& a == chapter_of(text::opt_text(id), #[trigger] text::opt_text(title))
        };
    let (maps_b, id_b, title_b) = choose|
        maps: Vec<Json>,
        id: Option<String>,
        title: Option<String>,
    |
        {
            &&& #[trigger] call_ensures(collect_maps, (&v,), maps)
            &&& #[trigger] picked_text(pick_string, maps@, KeyList::ChapterId, id)
            &&& id is Some ==> picked_text(pick_string, maps@, KeyList::ChapterTitle, title)
            &&& b == chapter_of(text::opt_text(id), #[trigger] text::opt_text(title))
        };
    lemma_picked_text_once(pick_string, maps_a@, KeyList::ChapterId, id_a, id_b);
    if id_a is Some {
        lemma_picked_text_once(pick_string, maps_a@, KeyList::ChapterTitle, title_a, title_b);
    }
}

proof fn lemma_values_read_once<
    C: Fn(&Json) -> Vec<Json>,
    K: Fn(&Json, KeyList) -> Option<String>,
>(
    collect_maps: C,
    pick_string: K,
    chapter_values: Option<Vec<Json>>,
    a: Seq<Option<ChapterRefView>>,
    b: Seq<Option<ChapterRefView>>,
)
    requires
        collects_alike(collect_maps),
        picks_alike(pick_string),
        values_read(collect_maps, pick_string, chapter_values, a),
        values_read(collect_maps, pick_string, chapter_values, b),
    ensures
        a == b,
{
    if let Some(values) = chapter_values {
        assert forall|i: int| 0 <= i < a.len() implies a[i] == b[i] by {
            lemma_chapter_read_once(collect_maps, pick_string, values@[i], a[i], b[i]);
        }
    }
    assert(a =~= b);
}

/// One book has one plan, or one failure: where what is handed in gives the same for
/// the same, [`prepare_download_plan`] and [`prepare_download_plan_web`] give the
/// same, each time they are called.
pub proof fn lemma_one_plan<
    C: Fn(&Json) -> Vec<Json>,
    K: Fn(&Json, KeyList) -> Option<String>,
    M: Fn(BookMeta, BookMeta) -> BookMeta,
    P: Fn(&BookMeta) -> Option<String>,
>(
    book_id: Seq<char>,
    info: BookInfoView,
    chapter_values: Option<Vec<Json>>,
    meta_hint: BookMeta,
    collect_maps: C,
    pick_string: K,
    merge: M,
    preferred_name: P,
    a: Result<DownloadPlan, PlanError>,
    b: Result<DownloadPlan, PlanError>,
)
    requires
        collects_alike(collect_maps),
        picks_alike(pick_string),
        merges_alike(merge),
        prefers_alike(preferred_name),
        plan_prepared(
            book_id,
            info,
            chapter_values,
            meta_hint,
            collect_maps,
            pick_string,
            merge,
            preferred_name,
            a,
        ),
        plan_prepared(
            book_id,
            info,
            chapter_values,
            meta_hint,
            collect_maps,
            pick_string,
            merge,
            preferred_name,
            b,
        ),
    ensures
        plan_view(a) == plan_view(b),
{
    let made_a = lemma_plan_made(
        book_id,
        info,
        chapter_values,
        meta_hint,
        collect_maps,
        pick_string,
        merge,
        preferred_name,
        a,
    );
    let made_b = lemma_plan_made(
        book_id,
        info,
        chapter_values,
        meta_hint,
        collect_maps,
        pick_string,
        merge,
        preferred_name,
        b,
    );
    lemma_values_read_once(collect_maps, pick_string, chapter_values, made_a.0, made_b.0);
}

/// What was read, known and preferred when a plan was made.
proof fn lemma_plan_made<
    C: Fn(&Json) -> Vec<Json>,
    K: Fn(&Json, KeyList) -> Option<String>,
    M: Fn(BookMeta, BookMeta) -> BookMeta,
    P: Fn(&BookMeta) -> Option<String>,
>(
    book_id: Seq<char>,
    info: BookInfoView,
    chapter_values: Option<Vec<Json>>,
    meta_hint: BookMeta,
    collect_maps: C,
    pick_string: K,
    merge: M,
    preferred_name: P,
    r: Result<DownloadPlan, PlanError>,
) -> (w: (Seq<Option<ChapterRefView>>, BookMeta, BookMeta, Option<String>))
    requires
        plan_prepared(
            book_id,
            info,
            chapter_values,
            meta_hint,
            collect_maps,
            pick_string,
            merge,
            preferred_name,
            r,
        ),
    ensures
        values_read(collect_maps, pick_string, chapter_values, w.0),
        match r {
            Err(e) => e is NoChapterId && !is_short_story(chapters::opt_items(chapter_values))
                && present(w.0).len() == 0,
            Ok(_) => {
                &&& w.1@ == web_meta(info)
                &&& call_ensures(merge, (w.1, meta_hint), w.2)
                &&& call_ensures(preferred_name, (&w.2,), w.3)
                &&& plan_view(r) == web_plan(
                    book_id,
                    info,
                    chapters::opt_items(chapter_values),
                    w.0,
                    w.2@,
                    text::opt_text(w.3),
                )
            },
        },
{
    match r {
        Err(_) => {
            let read = choose|read: Seq<Option<ChapterRefView>>|
                {
                    &&& #[trigger] values_read(collect_maps, pick_string, chapter_values, read)
                    &&& present(read).len() == 0
                };
            (read, arbitrary(), arbitrary(), None)
        },
        Ok(_) => choose|
            read: Seq<Option<ChapterRefView>>,
            meta: BookMeta,
            merged: BookMeta,
            preferred: Option<String>,
        |
            {
                &&& #[trigger] values_read(collect_maps, pick_string, chapter_values, read)
                &&& meta@ == web_meta(info)
                &&& #[trigger] call_ensures(merge, (meta, meta_hint), merged)
                &&& #[trigger] call_ensures(preferred_name, (&merged,), preferred)
                &&& plan_view(r) == web_plan(
                    book_id,
                    info,
                    chapters::opt_items(chapter_values),
                    read,
                    merged@,
                    text::opt_text(preferred),
                )
            },
    }
}

/// The chapters that are there are kept in order, and nothing else is.
pub proof fn lemma_present_in_order(refs: Seq<Option<ChapterRefView>>)
    ensures
        present(refs) == refs.filter_map(|c: Option<ChapterRefView>| c),
{
    lemma_present_filter(refs, |c: Option<ChapterRefView>| c);
}

proof fn lemma_present_filter(
    refs: Seq<Option<ChapterRefView>>,
    f: spec_fn(Option<ChapterRefView>) -> Option<ChapterRefView>,
)
    requires
        forall|c: Option<ChapterRefView>| #[trigger] f(c) == c,
    ensures
        present(refs) == refs.filter_map(f),
    decreases refs.len(),
{
    reveal(Seq::filter_map);
    if refs.len() > 0 {
        let front = refs.drop_last();
        lemma_present_filter(front, f);
        if let Some(c) = f(refs.last()) {
            assert(front.filter_map(f) + seq![c] =~= front.filter_map(f).push(c));
        }
    }
}

/// Where a chapter that is there ends up.
proof fn lemma_present_place(refs: Seq<Option<ChapterRefView>>, k: int)
    requires
        0 <= k < refs.len(),
        refs[k] is Some,
    ensures
        present(refs.take(k)).len() < present(refs).len(),
        present(refs)[present(refs.take(k)).len() as int] == refs[k]->0,
    decreases refs.len(),
{
    let front = refs.drop_last();
    if k == refs.len() - 1 {
        assert(refs.take(k) =~= front);
    } else {
        lemma_present_place(front, k);
        assert(front.take(k) =~= refs.take(k));
    }
}

proof fn lemma_present_all(refs: Seq<Option<ChapterRefView>>)
    requires
        forall|i: int| 0 <= i < refs.len() ==> (#[trigger] refs[i]) is Some,
    ensures
        present(refs).len() == refs.len(),
        forall|i: int| 0 <= i < refs.len() ==> #[trigger] present(refs)[i] == refs[i]->0,
    decreases refs.len(),
{
    if refs.len() > 0 {
        let front = refs.drop_last();
        assert forall|i: int| 0 <= i < front.len() implies (#[trigger] front[i]) is Some by {
            assert(refs[i] is Some);
        }
        assert(refs[refs.len() - 1] is Some);
        lemma_present_all(front);
        assert forall|i: int| 0 <= i < refs.len() implies #[trigger] present(refs)[i]
            == refs[i]->0 by {
            if i < front.len() {
                assert(present(front)[i] == front[i]->0);
            }
        }
    }
}

/// The chapters of a plan stand in the order of the values that they were read from:
/// of two values that are chapters, the one that comes first in the list gives the
/// chapter that comes first in the plan. Where every value is a chapter, the plan has as
/// many chapters as the list has values, each in the place of its value.
pub proof fn lemma_plan_order(
    book_id: Seq<char>,
    info: BookInfoView,
    values: Seq<JsonView>,
    read: Seq<Option<ChapterRefView>>,
    merged: BookMetaView,
    preferred: Option<Seq<char>>,
    i: int,
    k: int,
    a: ChapterRefView,
    b: ChapterRefView,
)
    requires
        values.len() > 0,
    ensures
        ({
            let plan = web_plan(book_id, info, Some(values), read, merged, preferred);
            &&& 0 <= i < k < read.len() && read[i] == Some(a) && read[k] == Some(b) ==> (plan
                matches Ok(made) && stands_before(made.chapters, a, b))
            &&& read.len() > 0 && (forall|n: int| 0 <= n < read.len() ==> (#[trigger] read[n]) is Some)
                ==> (plan matches Ok(made) && made.chapters.len() == read.len() && forall|n: int|
                0 <= n < read.len() ==> #[trigger] read[n] == Some(made.chapters[n]))
            &&& plan matches Ok(made) ==> made.chapters == read.filter_map(
                |c: Option<ChapterRefView>| c,
            )
        }),
{
    if 0 <= i < k < read.len() && read[i] == Some(a) && read[k] == Some(b) {
        lemma_present_place(read, i);
        lemma_present_place(read, k);
        let until = read.take(k);
        assert(until[i] == read[i]);
        lemma_present_place(until, i);
        assert(until.take(i) =~= read.take(i));
        let p = present(read.take(i)).len() as int;
        let q = present(read.take(k)).len() as int;
        assert(present(read)[p] == a && present(read)[q] == b);
    }
    if forall|n: int| 0 <= n < read.len() ==> (#[trigger] read[n]) is Some {
        lemma_present_all(read);
        assert forall|n: int| 0 <= n < read.len() implies #[trigger] read[n] == Some(
            present(read)[n],
        ) by {
            assert(present(read)[n] == read[n]->0);
        }
    }
    lemma_present_in_order(read);
}

/// `a` stands somewhere in the list with `b` somewhere after it.
pub open spec fn stands_before(
    chapters: Seq<ChapterRefView>,
    a: ChapterRefView,
    b: ChapterRefView,
) -> bool {
    exists|p: int, q: int|
        0 <= p < q < chapters.len() && #[trigger] chapters[p] == a && #[trigger] chapters[q] == b
}

/// There is no plan exactly where the list has values and none of them is a chapter.
pub proof fn lemma_no_plan(
    book_id: Seq<char>,
    info: BookInfoView,
    chapter_values: Option<Seq<JsonView>>,
    read: Seq<Option<ChapterRefView>>,
    merged: BookMetaView,
    preferred: Option<Seq<char>>,
)
    ensures
        ({
            let plan = web_plan(book_id, info, chapter_values, read, merged, preferred);
            &&& plan is Err <==> {
                &&& chapter_values matches Some(values) && values.len() > 0
                &&& forall|n: int| 0 <= n < read.len() ==> (#[trigger] read[n]) is None
            }
            &&& plan matches Err(e) ==> e is NoChapterId
        }),
{
    lemma_present_none(read);
}

proof fn lemma_present_none(refs: Seq<Option<ChapterRefView>>)
    ensures
        present(refs).len() == 0 <==> forall|n: int|
            0 <= n < refs.len() ==> (#[trigger] refs[n]) is None,
    decreases refs.len(),
{
    if refs.len() > 0 {
        let front = refs.drop_last();
        lemma_present_none(front);
        assert(refs[refs.len() - 1] == refs.last());
        if forall|n: int| 0 <= n < refs.len() ==> (#[trigger] refs[n]) is None {
            assert forall|n: int| 0 <= n < front.len() implies (#[trigger] front[n]) is None by {
                assert(refs[n] is None);
            }
        }
        if present(refs).len() == 0 {
            assert forall|n: int| 0 <= n < refs.len() implies (#[trigger] refs[n]) is None by {
                if n < front.len() {
                    assert(front[n] is None);
                }
            }
        }
    }
}

/// A book without a list, or with an empty one, has one chapter: the first item that
/// its page names, or the book itself, under the title of the book, or under no title.
pub proof fn lemma_short_story_plan(
    book_id: Seq<char>,
    info: BookInfoView,
    chapter_values: Option<Seq<JsonView>>,
    read: Seq<Option<ChapterRefView>>,
    merged: BookMetaView,
    preferred: Option<Seq<char>>,
)
    requires
        chapter_values matches Some(values) ==> values.len() == 0,
    ensures
        web_plan(book_id, info, chapter_values, read, merged, preferred) matches Ok(plan)
            && plan.chapters.len() == 1 && {
            &&& match info.first_item_id {
                Some(id) => plan.chapters[0].id == id,
                None => plan.chapters[0].id == book_id,
            }
            &&& match info.book_name {
                Some(name) => plan.chapters[0].title == name,
                None => plan.chapters[0].title.len() == 0,
            }
            &&& plan.raw.get("source"@) == Some(JsonView::Text("fanqie_web_short_story"@))
            &&& plan.raw matches JsonView::Object(m) && m.len() == 3
        },
{
    let raw = web_raw(book_id, info, chapter_values);
    lemma_raw_members(raw);
}

/// The directory that a plan keeps tells where it comes from.
pub proof fn lemma_listed_plan_source(
    book_id: Seq<char>,
    info: BookInfoView,
    values: Seq<JsonView>,
    read: Seq<Option<ChapterRefView>>,
    merged: BookMetaView,
    preferred: Option<Seq<char>>,
)
    requires
        values.len() > 0,
    ensures
        web_plan(book_id, info, Some(values), read, merged, preferred) matches Ok(plan)
            ==> plan.raw.get("source"@) == Some(JsonView::Text("fanqie_web"@)) && plan.raw.get(
            "chapters"@,
        ) == Some(JsonView::Array(values)) && plan.raw.get("book_id"@) == Some(
            JsonView::Text(book_id),
        ) && (plan.raw matches JsonView::Object(m) && m.len() == 3),
{
    lemma_raw_members(web_raw(book_id, info, Some(values)));
}

proof fn lemma_raw_members(raw: JsonView)
    requires
        raw matches JsonView::Object(m) && m.len() == 3 && m[0].0 == "book_id"@ && m[1].0
            == "chapters"@ && m[2].0 == "source"@,
    ensures
        raw.get("book_id"@) == Some(raw->Object_0[0].1),
        raw.get("chapters"@) == Some(raw->Object_0[1].1),
        raw.get("source"@) == Some(raw->Object_0[2].1),
{
    reveal_with_fuel(json::lookup, 4);
    reveal_strlit("book_id");
    reveal_strlit("chapters");
    reveal_strlit("source");
    assert("book_id"@.len() == 7 && "chapters"@.len() == 8 && "source"@.len() == 6);
    let m = raw->Object_0;
    assert(m.skip(1)[0] == m[1]);
    assert(m.skip(1).skip(1)[0] == m[2]);
}

/// What is known of a book by its pages is what they tell, part by part; they tell no
/// category, and no tags count as none.
pub proof fn lemma_web_meta(info: BookInfoView)
    ensures
        web_meta(info).book_name == info.book_name,
        web_meta(info).author == info.author,
        web_meta(info).description == info.description,
        info.tags matches Some(tags) ==> web_meta(info).tags == tags,
        info.tags is None ==> web_meta(info).tags.len() == 0,
        web_meta(info).cover_url == info.cover_url,
        web_meta(info).detail_cover_url == info.detail_cover_url,
        web_meta(info).chapter_count == info.chapter_count,
        web_meta(info).finished == info.finished,
        web_meta(info).category is None,
{
}

/// A preferred name replaces the name, and nothing else changes; without one nothing
/// does.
pub proof fn lemma_with_name(meta: BookMetaView, preferred: Option<Seq<char>>)
    ensures
        preferred is Some ==> with_name(meta, preferred).book_name == preferred,
        preferred is None ==> with_name(meta, preferred).book_name == meta.book_name,
        with_name(meta, preferred).author == meta.author,
        with_name(meta, preferred).description == meta.description,
        with_name(meta, preferred).tags == meta.tags,
        with_name(meta, preferred).cover_url == meta.cover_url,
        with_name(meta, preferred).detail_cover_url == meta.detail_cover_url,
        with_name(meta, preferred).chapter_count == meta.chapter_count,
        with_name(meta, preferred).finished == meta.finished,
        with_name(meta, preferred).category == meta.category,
{
}

/// A plan keeps what is known of the book, under its preferred name.
pub proof fn lemma_plan_meta(
    book_id: Seq<char>,
    info: BookInfoView,
    chapter_values: Option<Seq<JsonView>>,
    read: Seq<Option<ChapterRefView>>,
    merged: BookMetaView,
    preferred: Option<Seq<char>>,
)
    ensures
        web_plan(book_id, info, chapter_values, read, merged, preferred) matches Ok(plan) ==> {
            &&& plan.book_id == book_id
            &&& preferred is Some ==> plan.meta == (BookMetaView { book_name: preferred, ..merged })
            &&& preferred is None ==> plan.meta == merged
        },
{
}

/// A chapter has the id that was picked; its title is the one that was picked, or the
/// id; without an id there is no chapter.
pub proof fn lemma_chapter_of(id: Seq<char>, title: Option<Seq<char>>)
    ensures
        chapter_of(None, title) is None,
        chapter_of(Some(id), title) matches Some(c) && c.id == id && match title {
            Some(t) => c.title == t,
            None => c.title == id,
        },
{
}

/// What was picked was found in a map, and nothing was found in the maps ahead of it;
/// where nothing was picked, nothing was found in any.
pub proof fn lemma_picked<T, F: Fn(&Json) -> Option<T>>(
    pick: F,
    maps: Seq<Json>,
    r: Option<T>,
)
    requires
        picked(pick, maps, r),
    ensures
        r is None ==> forall|j: int|
            0 <= j < maps.len() ==> call_ensures(pick, (&#[trigger] maps[j],), None::<T>),
        r is Some ==> exists|k: int|
            {
                &&& 0 <= k < maps.len()
                &&& call_ensures(pick, (&#[trigger] maps[k],), r)
                &&& forall|j: int|
                    0 <= j < k ==> call_ensures(pick, (&#[trigger] maps[j],), None::<T>)
            },
{
}

/// The same holds of what was picked under the names of a list.
pub proof fn lemma_picked_text<K: Fn(&Json, KeyList) -> Option<String>>(
    pick: K,
    maps: Seq<Json>,
    keys: KeyList,
    r: Option<String>,
)
    requires
        picked_text(pick, maps, keys, r),
    ensures
        r is None ==> forall|j: int|
            0 <= j < maps.len() ==> call_ensures(pick, (&#[trigger] maps[j], keys), None::<String>),
        r is Some ==> exists|k: int|
            {
                &&& 0 <= k < maps.len()
                &&& call_ensures(pick, (&#[trigger] maps[k], keys), r)
                &&& forall|j: int|
                    0 <= j < k ==> call_ensures(pick, (&#[trigger] maps[j], keys), None::<String>)
            },
{
}

/// A chapter was read from the maps of its value: its id was picked under the names of
/// an id, and its title under those of a title, or else is the id.
pub proof fn lemma_chapter_read<
    C: Fn(&Json) -> Vec<Json>,
    K: Fn(&Json, KeyList) -> Option<String>,
>(collect_maps: C, pick_string: K, v: Json, r: Option<ChapterRefView>)
    requires
        chapter_read(collect_maps, pick_string, v, r),
    ensures
        r is None ==> exists|maps: Vec<Json>|
            {
                &&& #[trigger] call_ensures(collect_maps, (&v,), maps)
                &&& picked_text(pick_string, maps@, KeyList::ChapterId, None)
            },
        r matches Some(c) ==> exists|maps: Vec<Json>, id: String, title: Option<String>|
            {
                &&& #[trigger] call_ensures(collect_maps, (&v,), maps)
                &&& #[trigger] picked_text(pick_string, maps@, KeyList::ChapterId, Some(id))
                &&& #[trigger] picked_text(pick_string, maps@, KeyList::ChapterTitle, title)
                &&& c.id == id@
                &&& title matches Some(t) ==> c.title == t@
                &&& title is None ==> c.title == id@
            },
{
    let (maps, id, title) = choose|maps: Vec<Json>, id: Option<String>, title: Option<String>|
        {
            &&& #[trigger] call_ensures(collect_maps, (&v,), maps)
            &&& #[trigger] picked_text(pick_string, maps@, KeyList::ChapterId, id)
            &&& id is Some ==> picked_text(pick_string, maps@, KeyList::ChapterTitle, title)
            &&& r == chapter_of(text::opt_text(id), #[trigger] text::opt_text(title))
        };
    if let Some(i) = id {
        assert(picked_text(pick_string, maps@, KeyList::ChapterId, Some(i)));
    }
}

/// Each value of a list is read for itself, in its place.
pub proof fn lemma_values_read<
    C: Fn(&Json) -> Vec<Json>,
    K: Fn(&Json, KeyList) -> Option<String>,
>(
    collect_maps: C,
    pick_string: K,
    values: Vec<Json>,
    read: Seq<Option<ChapterRefView>>,
    i: int,
)
    requires
        values_read(collect_maps, pick_string, Some(values), read),
    ensures
        read.len() == values.len(),
        0 <= i < values.len() ==> chapter_read(collect_maps, pick_string, values@[i], read[i]),
{
}

/// The plan for a book goes by what was read, merged and preferred for it, and by
/// nothing else: what the page tells is merged with the hint, the name is preferred by
/// what came of that, and each value of the list is read for itself.
pub proof fn lemma_plan_prepared<
    C: Fn(&Json) -> Vec<Json>,
    K: Fn(&Json, KeyList) -> Option<String>,
    M: Fn(BookMeta, BookMeta) -> BookMeta,
    P: Fn(&BookMeta) -> Option<String>,
>(
    book_id: Seq<char>,
    info: BookInfoView,
    chapter_values: Option<Vec<Json>>,
    meta_hint: BookMeta,
    collect_maps: C,
    pick_string: K,
    merge: M,
    preferred_name: P,
    plan: DownloadPlan,
)
    requires
        plan_prepared(
            book_id,
            info,
            chapter_values,
            meta_hint,
            collect_maps,
            pick_string,
            merge,
            preferred_name,
            Ok(plan),
        ),
    ensures
        plan.book_id@ == book_id,
        plan.raw@ == web_raw(book_id, info, chapters::opt_items(chapter_values)),
        (chapter_values matches Some(values) ==> values.len() == 0) ==> {
            let listed = models::refs(plan.chapters@);
            &&& listed.len() == 1
            &&& match info.first_item_id {
                Some(id) => listed[0].id == id,
                None => listed[0].id == book_id,
            }
            &&& match info.book_name {
                Some(name) => listed[0].title == name,
                None => listed[0].title.len() == 0,
            }
        },
        exists|meta: BookMeta, merged: BookMeta, preferred: Option<String>|
            {
                &&& #[trigger] call_ensures(merge, (meta, meta_hint), merged)
                &&& #[trigger] call_ensures(preferred_name, (&merged,), preferred)
                &&& meta@ == web_meta(info)
                &&& preferred matches Some(name) ==> plan.meta@ == (BookMetaView {
                    book_name: Some(name@),
                    ..merged@
                })
                &&& preferred is None ==> plan.meta@ == merged@
            },
        chapter_values matches Some(values) ==> values.len() > 0 ==> exists|
            read: Seq<Option<ChapterRefView>>,
        |
            {
                &&& #[trigger] values_read(collect_maps, pick_string, chapter_values, read)
                &&& read.len() == values.len()
                &&& forall|i: int|
                    0 <= i < values.len() ==> chapter_read(
                        collect_maps,
                        pick_string,
                        values@[i],
                        #[trigger] read[i],
                    )
                &&& models::refs(plan.chapters@) == read.filter_map(
                    |c: Option<ChapterRefView>| c,
                )
            },
{
    let made = lemma_plan_made(
        book_id,
        info,
        chapter_values,
        meta_hint,
        collect_maps,
        pick_string,
        merge,
        preferred_name,
        Ok(plan),
    );
    lemma_present_in_order(made.0);
}

/// Where there is no plan for a book, its list has values, and no chapter was read from
/// any of them.
pub proof fn lemma_plan_refused<
    C: Fn(&Json) -> Vec<Json>,
    K: Fn(&Json, KeyList) -> Option<String>,
    M: Fn(BookMeta, BookMeta) -> BookMeta,
    P: Fn(&BookMeta) -> Option<String>,
>(
    book_id: Seq<char>,
    info: BookInfoView,
    chapter_values: Option<Vec<Json>>,
    meta_hint: BookMeta,
    collect_maps: C,
    pick_string: K,
    merge: M,
    preferred_name: P,
    e: PlanError,
    i: int,
)
    requires
        plan_prepared(
            book_id,
            info,
            chapter_values,
            meta_hint,
            collect_maps,
            pick_string,
            merge,
            preferred_name,
            Err(e),
        ),
    ensures
        e is NoChapterId,
        chapter_values matches Some(values) && values.len() > 0 && (0 <= i < values.len()
            ==> chapter_read(collect_maps, pick_string, values@[i], None)),
{
    let made = lemma_plan_made(
        book_id,
        info,
        chapter_values,
        meta_hint,
        collect_maps,
        pick_string,
        merge,
        preferred_name,
        Err(e),
    );
    lemma_present_none(made.0);
    if let Some(values) = chapter_values {
        if 0 <= i < values.len() {
            assert(made.0[i] is None);
            assert(chapter_read(collect_maps, pick_string, values@[i], made.0[i]));
        }
    }
}

/// What optional chapters and outcomes hold.
pub proof fn lemma_opt_refs(
    c: ChapterRef,
    v: Seq<Option<ChapterRef>>,
    plan: DownloadPlan,
    e: PlanError,
)
    ensures
        opt_ref(Some(c)) == Some(c@),
        opt_ref(None) is None,
        opt_refs(v).len() == v.len(),
        forall|i: int| 0 <= i < v.len() ==> #[trigger] opt_refs(v)[i] == opt_ref(v[i]),
        plan_view(Ok(plan)) == Ok::<DownloadPlanView, PlanError>(plan@),
        plan_view(Err(e)) == Err::<DownloadPlanView, PlanError>(e),
{
}

} // verus!
