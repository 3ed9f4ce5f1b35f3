use vstd::prelude::*;

use vstd::hash_map::StringHashMap;
use vstd::hash_set::StringHashSet;

use crate::models::{self, copy_refs, ChapterRange, ChapterRef, ChapterRefView};
use crate::text;

verus! {

/// The chapters of a range: those from `start` to `end`, counted from one, as far
/// as there are any; none where the range is empty or starts at zero; all where
/// there is no range.
pub open spec fn in_range(
    chapters: Seq<ChapterRefView>,
    range: Option<ChapterRange>,
) -> Seq<ChapterRefView> {
    match range {
        None => chapters,
        Some(r) => if r.start == 0 || r.start > r.end || r.start > chapters.len() {
            Seq::empty()
        } else if r.end <= chapters.len() {
            chapters.subrange(r.start - 1, r.end as int)
        } else {
            chapters.subrange(r.start - 1, chapters.len() as int)
        },
    }
}

/// A chapter is in a range exactly when its number is.
pub proof fn lemma_in_range(chapters: Seq<ChapterRefView>, r: ChapterRange)
    requires
        r.start > 0,
    ensures
        forall|i: int|
            0 <= i < in_range(chapters, Some(r)).len() ==> {
                &&& #[trigger] in_range(chapters, Some(r))[i] == chapters[r.start - 1 + i]
                &&& r.start <= r.start + i <= r.end
            },
        forall|n: int|
            r.start <= n <= r.end && n <= chapters.len() ==> {
                &&& n - r.start < in_range(chapters, Some(r)).len()
                &&& in_range(chapters, Some(r))[n - r.start] == #[trigger] chapters[n - 1]
            },
{
}

/// The chapters of a range.
pub fn apply_range(chapters: &Vec<ChapterRef>, range: Option<ChapterRange>) -> (r: Vec<ChapterRef>)
    ensures
        models::refs(r@) == in_range(models::refs(chapters@), range),
{
    let total = chapters.len();
    let none: Vec<ChapterRef> = Vec::new();
    assert(models::refs(none@) =~= Seq::empty());
    match range {
        None => {
            assert(models::refs(chapters@).subrange(0, total as int) =~= models::refs(chapters@));
            copy_refs(chapters, 0, total)
        },
        Some(r) => {
            if r.start == 0 || r.start > r.end {
                return none;
            }
            let start_idx: usize = r.start - 1;
            if start_idx >= total {
                return none;
            }
            let stop: usize = if r.end <= total {
                r.end
            } else {
                total
            };
            copy_refs(chapters, start_idx, stop)
        },
    }
}

/// A chapter of the list has the id `id`.
pub open spec fn has_id(chapters: Seq<ChapterRefView>, id: Seq<char>) -> bool {
    exists|i: int| 0 <= i < chapters.len() && (#[trigger] chapters[i]).id == id
}

/// The title that the last chapter with the id `id` has; a blank id has none.
pub open spec fn title_for(chapters: Seq<ChapterRefView>, id: Seq<char>) -> Option<Seq<char>>
    decreases chapters.len(),
{
    if chapters.len() == 0 || text::is_blank(id) {
        None
    } else if chapters.last().id == id {
        Some(chapters.last().title)
    } else {
        title_for(chapters.drop_last(), id)
    }
}

/// A chapter with a blank title gets the title that the web has for it.
pub open spec fn with_title(c: ChapterRefView, web: Seq<ChapterRefView>) -> ChapterRefView {
    if text::is_blank(c.title) && title_for(web, c.id) is Some {
        ChapterRefView { id: c.id, title: title_for(web, c.id)->0 }
    } else {
        c
    }
}

/// The chapters of the official list, each id once, with titles from the web
/// where they are blank.
pub open spec fn titled_once(
    official: Seq<ChapterRefView>,
    web: Seq<ChapterRefView>,
) -> Seq<ChapterRefView>
    decreases official.len(),
{
    if official.len() == 0 {
        Seq::empty()
    } else if has_id(official.drop_last(), official.last().id) {
        titled_once(official.drop_last(), web)
    } else {
        titled_once(official.drop_last(), web).push(with_title(official.last(), web))
    }
}

/// The chapters of the web list that the official list does not have, in order.
pub open spec fn only_on_web(
    official: Seq<ChapterRefView>,
    web: Seq<ChapterRefView>,
) -> Seq<ChapterRefView>
    decreases web.len(),
{
    if web.len() == 0 {
        Seq::empty()
    } else if has_id(official, web.last().id) {
        only_on_web(official, web.drop_last())
    } else {
        only_on_web(official, web.drop_last()).push(web.last())
    }
}

/// Both lists in one: the other list where one is empty, else the official
/// chapters followed by those that only the web has.
pub open spec fn merged_chapters(
    official: Seq<ChapterRefView>,
    web: Seq<ChapterRefView>,
) -> Seq<ChapterRefView> {
    if official.len() == 0 {
        web
    } else if web.len() == 0 {
        official
    } else {
        titled_once(official, web) + only_on_web(official, web)
    }
}

/// Both chapter lists in one.
pub fn merge_chapters_with_web(official: Vec<ChapterRef>, web: &Vec<ChapterRef>) -> (r: Vec<
    ChapterRef,
>)
    ensures
        models::refs(r@) == merged_chapters(models::refs(official@), models::refs(web@)),
{
    let ghost off = models::refs(official@);
    let ghost on_web = models::refs(web@);
    if official.is_empty() {
        assert(on_web.subrange(0, on_web.len() as int) =~= on_web);
        return copy_refs(web, 0, web.len());
    }
    if web.is_empty() {
        return official;
    }
    let titles = titles_by_id(web);
    let mut seen = StringHashSet::new();
    let mut merged: Vec<ChapterRef> = Vec::new();
    assert(models::refs(merged@) =~= titled_once(off.take(0), on_web));
    let n = official.len();
    for ch in it: official
        invariant
            it.seq() == official@,
            off == models::refs(official@),
            on_web == models::refs(web@),
            forall|id: Seq<char>| #[trigger] titles@.contains_key(id) <==> title_for(on_web, id) is Some,
            forall|id: Seq<char>| #[trigger] titles@.contains_key(id) ==> Some(titles@[id]@) == title_for(on_web, id),
            forall|id: Seq<char>| #[trigger] seen@.contains(id) <==> has_id(off.take(it.index()), id),
            models::refs(merged@) == titled_once(off.take(it.index()), on_web),
    {
        let ghost i = it.index();
        let ghost before = merged@;
        proof {
            assert(off[i] == ch@);
            assert(off.take(i + 1).drop_last() =~= off.take(i));
            lemma_has_id_next(off, i);
        }
        if !seen.contains(ch.id.as_str()) {
            seen.insert(ch.id.clone());
            let id = ch.id;
            let mut title = ch.title;
            if title.as_str().trim().is_empty() {
                if let Some(t) = titles.get(id.as_str()) {
                    title = t.clone();
                }
            }
            let kept = ChapterRef { id, title };
            merged.push(kept);
            assert(models::refs(merged@) =~= models::refs(before).push(with_title(off[i], on_web)));
        }
    }
    assert(off.take(n as int) =~= off);
    let ghost front = merged@;
    assert(models::refs(merged@) =~= models::refs(front) + only_on_web(off, on_web.take(0)));
    for k in 0..web.len()
        invariant
            off == models::refs(official@),
            on_web == models::refs(web@),
            forall|id: Seq<char>| #[trigger] seen@.contains(id) <==> has_id(off, id),
            models::refs(merged@) == models::refs(front) + only_on_web(off, on_web.take(k as int)),
    {
        let ghost before = merged@;
        assert(on_web.take(k + 1).drop_last() =~= on_web.take(k as int));
        assert(on_web[k as int] == web[k as int]@);
        if !seen.contains(web[k].id.as_str()) {
            merged.push(web[k].clone());
            assert(models::refs(merged@) =~= models::refs(before).push(on_web[k as int]));
            assert(models::refs(merged@) =~= models::refs(front) + only_on_web(off, on_web.take(k + 1)));
        }
    }
    assert(on_web.take(web.len() as int) =~= on_web);
    merged
}

proof fn lemma_has_id_next(chapters: Seq<ChapterRefView>, i: int)
    requires
        0 <= i < chapters.len(),
    ensures
        forall|id: Seq<char>| #[trigger] has_id(chapters.take(i + 1), id) <==> has_id(
            chapters.take(i),
            id,
        ) || chapters[i].id == id,
{
    let before = chapters.take(i);
    let after = chapters.take(i + 1);
    assert forall|id: Seq<char>| #[trigger] has_id(after, id) <==> has_id(before, id) || chapters[i].id == id by {
        if has_id(before, id) {
            let k = choose|k: int| 0 <= k < before.len() && (#[trigger] before[k]).id == id;
            assert(after[k].id == id);
        }
        if chapters[i].id == id {
            assert(after[i].id == id);
        }
        if has_id(after, id) {
            let k = choose|k: int| 0 <= k < after.len() && (#[trigger] after[k]).id == id;
            if k < i {
                assert(before[k].id == id);
            }
        }
    }
}

/// The titles of chapters by their ids, the last one for each; chapters with a
/// blank id are left out.
fn titles_by_id(web: &Vec<ChapterRef>) -> (r: StringHashMap<String>)
    ensures
        forall|id: Seq<char>| #[trigger] r@.contains_key(id) <==> title_for(models::refs(web@), id) is Some,
        forall|id: Seq<char>| #[trigger] r@.contains_key(id) ==> Some(r@[id]@) == title_for(models::refs(web@), id),
{
    let ghost on_web = models::refs(web@);
    let mut titles: StringHashMap<String> = StringHashMap::new();
    for k in 0..web.len()
        invariant
            on_web == models::refs(web@),
            forall|id: Seq<char>| #[trigger] titles@.contains_key(id) <==> title_for(on_web.take(k as int), id) is Some,
            forall|id: Seq<char>| #[trigger]
                titles@.contains_key(id) ==> Some(titles@[id]@) == title_for(
                    on_web.take(k as int),
                    id,
                ),
    {
        assert(on_web.take(k + 1).drop_last() =~= on_web.take(k as int));
        assert(on_web[k as int] == web[k as int]@);
        if !web[k].id.as_str().trim().is_empty() {
            titles.insert(web[k].id.clone(), web[k].title.clone());
        }
    }
    assert(on_web.take(web.len() as int) =~= on_web);
    titles
}

/// A merged list has exactly the ids of the two lists.
pub proof fn lemma_merge_keeps_ids(
    official: Seq<ChapterRefView>,
    web: Seq<ChapterRefView>,
    id: Seq<char>,
)
    ensures
        has_id(merged_chapters(official, web), id) <==> has_id(official, id) || has_id(web, id),
{
    lemma_titled_once_ids(official, web, id);
    lemma_only_on_web_ids(official, web, id);
    let a = titled_once(official, web);
    let b = only_on_web(official, web);
    if official.len() > 0 && web.len() > 0 {
        if has_id(a, id) {
            let k = choose|k: int| 0 <= k < a.len() && (#[trigger] a[k]).id == id;
            assert((a + b)[k].id == id);
        }
        if has_id(b, id) {
            let k = choose|k: int| 0 <= k < b.len() && (#[trigger] b[k]).id == id;
            assert((a + b)[a.len() + k].id == id);
        }
        if has_id(a + b, id) {
            let k = choose|k: int| 0 <= k < (a + b).len() && (#[trigger] (a + b)[k]).id == id;
            if k < a.len() {
                assert(a[k].id == id);
            } else {
                assert(b[k - a.len()].id == id);
            }
        }
    }
}

/// One more chapter adds its own id.
proof fn lemma_has_id_push(chapters: Seq<ChapterRefView>, c: ChapterRefView, id: Seq<char>)
    ensures
        has_id(chapters.push(c), id) <==> has_id(chapters, id) || c.id == id,
{
    let after = chapters.push(c);
    if has_id(chapters, id) {
        let k = choose|k: int| 0 <= k < chapters.len() && (#[trigger] chapters[k]).id == id;
        assert(after[k].id == id);
    }
    if c.id == id {
        assert(after[chapters.len() as int].id == id);
    }
    if has_id(after, id) {
        let k = choose|k: int| 0 <= k < after.len() && (#[trigger] after[k]).id == id;
        if k < chapters.len() {
            assert(chapters[k].id == id);
        }
    }
}

proof fn lemma_titled_once_ids(
    official: Seq<ChapterRefView>,
    web: Seq<ChapterRefView>,
    id: Seq<char>,
)
    ensures
        has_id(titled_once(official, web), id) <==> has_id(official, id),
    decreases official.len(),
{
    if official.len() > 0 {
        let front = official.drop_last();
        let last = official.last();
        lemma_titled_once_ids(front, web, id);
        lemma_has_id_push(front, last, id);
        assert(front.push(last) =~= official);
        lemma_has_id_push(titled_once(front, web), with_title(last, web), id);
    }
}

proof fn lemma_only_on_web_ids(
    official: Seq<ChapterRefView>,
    web: Seq<ChapterRefView>,
    id: Seq<char>,
)
    ensures
        has_id(only_on_web(official, web), id) <==> has_id(web, id) && !has_id(official, id),
    decreases web.len(),
{
    if web.len() > 0 {
        let front = web.drop_last();
        let last = web.last();
        lemma_only_on_web_ids(official, front, id);
        lemma_has_id_push(front, last, id);
        assert(front.push(last) =~= web);
        lemma_has_id_push(only_on_web(official, front), last, id);
    }
}

/// Where both lists have chapters, the merged list starts with the official ids,
/// each once, and none of them comes back after those.
pub proof fn lemma_merge_official_once(official: Seq<ChapterRefView>, web: Seq<ChapterRefView>)
    requires
        official.len() > 0,
        web.len() > 0,
    ensures
        ({
            let merged = merged_chapters(official, web);
            let n = titled_once(official, web).len();
            &&& forall|i: int| 0 <= i < n ==> has_id(official, (#[trigger] merged[i]).id)
            &&& forall|i: int, k: int|
                0 <= i < k < n ==> (#[trigger] merged[i]).id != (#[trigger] merged[k]).id
            &&& forall|i: int|
                n <= i < merged.len() ==> !has_id(official, (#[trigger] merged[i]).id)
        }),
{
    let a = titled_once(official, web);
    let b = only_on_web(official, web);
    let merged = a + b;
    let n = a.len() as int;
    lemma_titled_once_distinct(official, web);
    assert forall|i: int| 0 <= i < n implies has_id(official, (#[trigger] merged[i]).id) by {
        assert(a[i] == merged[i]);
        lemma_titled_once_ids(official, web, a[i].id);
    }
    assert forall|i: int, k: int| 0 <= i < k < n implies (#[trigger] merged[i]).id != (
    #[trigger] merged[k]).id by {
        assert(a[i] == merged[i] && a[k] == merged[k]);
    }
    assert forall|i: int| n <= i < merged.len() implies !has_id(
        official,
        (#[trigger] merged[i]).id,
    ) by {
        assert(b[i - n] == merged[i]);
        lemma_only_on_web_ids(official, web, b[i - n].id);
    }
}

proof fn lemma_titled_once_distinct(official: Seq<ChapterRefView>, web: Seq<ChapterRefView>)
    ensures
        forall|i: int, k: int|
            0 <= i < k < titled_once(official, web).len() ==> (#[trigger] titled_once(
                official,
                web,
            )[i]).id != (#[trigger] titled_once(official, web)[k]).id,
    decreases official.len(),
{
    if official.len() > 0 {
        let front = official.drop_last();
        let last = official.last();
        lemma_titled_once_distinct(front, web);
        if !has_id(front, last.id) {
            let a = titled_once(front, web);
            lemma_titled_once_ids(front, web, last.id);
            let after = a.push(with_title(last, web));
            assert forall|i: int, k: int| 0 <= i < k < after.len() implies (#[trigger] after[i]).id
                != (#[trigger] after[k]).id by {
                if k < a.len() {
                    assert(a[i] == after[i] && a[k] == after[k]);
                } else {
                    assert(a[i] == after[i]);
                }
            }
        }
    }
}

/// Merging changes no title that is not blank: an official chapter keeps its
/// title, or had a blank one and takes that of a chapter of the web list with the
/// same id.
pub proof fn lemma_merge_titles(
    official: Seq<ChapterRefView>,
    web: Seq<ChapterRefView>,
    i: int,
)
    requires
        0 <= i < titled_once(official, web).len(),
    ensures
        ({
            let c = titled_once(official, web)[i];
            exists|k: int|
                {
                    &&& 0 <= k < official.len()
                    &&& (#[trigger] official[k]).id == c.id
                    &&& c.title == official[k].title || (text::is_blank(official[k].title)
                        && web.contains(c))
                }
        }),
    decreases official.len(),
{
    let front = official.drop_last();
    let last = official.last();
    let n = titled_once(front, web).len() as int;
    let c = titled_once(official, web)[i];
    if i < n {
        lemma_merge_titles(front, web, i);
        let k = choose|k: int|
            {
                &&& 0 <= k < front.len()
                &&& (#[trigger] front[k]).id == c.id
                &&& c.title == front[k].title || (text::is_blank(front[k].title) && web.contains(c))
            };
        assert(official[k] == front[k]);
    } else {
        assert(official[official.len() - 1] == last);
        lemma_title_for(web, last.id);
    }
}

proof fn lemma_title_for(web: Seq<ChapterRefView>, id: Seq<char>)
    ensures
        title_for(web, id) matches Some(t) ==> web.contains(ChapterRefView { id, title: t }),
    decreases web.len(),
{
    if web.len() > 0 && !text::is_blank(id) {
        if web.last().id == id {
            assert(web[web.len() - 1] == ChapterRefView { id, title: web.last().title });
        } else {
            lemma_title_for(web.drop_last(), id);
            if let Some(t) = title_for(web.drop_last(), id) {
                let c = ChapterRefView { id, title: t };
                let k = choose|k: int|
                    0 <= k < web.drop_last().len() && #[trigger] web.drop_last()[k] == c;
                assert(web[k] == c);
            }
        }
    }
}

/// All chapters are taken where there is no range, and none where the range starts at
/// zero.
pub proof fn lemma_without_range(chapters: Seq<ChapterRefView>, r: ChapterRange)
    ensures
        in_range(chapters, None) == chapters,
        r.start == 0 ==> in_range(chapters, Some(r)).len() == 0,
{
}

/// An empty list adds nothing to the other, which stays as it is.
pub proof fn lemma_merge_with_empty(chapters: Seq<ChapterRefView>)
    ensures
        merged_chapters(Seq::empty(), chapters) == chapters,
        merged_chapters(chapters, Seq::empty()) == chapters,
{
}

/// The chapter `k` is the first of the list with its id.
pub open spec fn is_first_with_id(chapters: Seq<ChapterRefView>, k: int) -> bool {
    0 <= k < chapters.len() && forall|j: int|
        0 <= j < k ==> (#[trigger] chapters[j]).id != chapters[k].id
}

/// A chapter of the list is the first with the id `id`.
pub open spec fn has_first_with_id(chapters: Seq<ChapterRefView>, id: Seq<char>) -> bool {
    exists|k: int| #[trigger] is_first_with_id(chapters, k) && chapters[k].id == id
}

/// The chapters of the web list whose ids the official list does not have.
pub open spec fn web_extras(
    official: Seq<ChapterRefView>,
    web: Seq<ChapterRefView>,
) -> Seq<ChapterRefView> {
    web.filter(
        |c: ChapterRefView|
            forall|i: int| 0 <= i < official.len() ==> (#[trigger] official[i]).id != c.id,
    )
}

/// Where both lists have chapters, the merged list is the official chapters, each id
/// once and each the first of its id, followed by those chapters of the web list whose
/// ids are not official, as they are and in their order.
pub proof fn lemma_merge_parts(official: Seq<ChapterRefView>, web: Seq<ChapterRefView>)
    requires
        official.len() > 0,
        web.len() > 0,
    ensures
        ({
            let merged = merged_chapters(official, web);
            let extras = web_extras(official, web);
            let n = merged.len() - extras.len();
            &&& n >= 0
            &&& merged.skip(n) == extras
            &&& forall|p: int|
                0 <= p < n ==> has_first_with_id(official, (#[trigger] merged[p]).id)
            &&& forall|p: int, q: int|
                0 <= p < q < n ==> (#[trigger] merged[p]).id != (#[trigger] merged[q]).id
        }),
{
    let head = titled_once(official, web);
    let merged = merged_chapters(official, web);
    lemma_web_extras(
        official,
        web,
        |c: ChapterRefView|
            forall|i: int| 0 <= i < official.len() ==> (#[trigger] official[i]).id != c.id,
    );
    assert(merged.skip(head.len() as int) =~= only_on_web(official, web));
    lemma_titled_once_distinct(official, web);
    let n = head.len() as int;
    assert forall|p: int| 0 <= p < n implies has_first_with_id(
        official,
        (#[trigger] merged[p]).id,
    ) by {
        assert(merged[p] == head[p]);
        assert(has_id(head, head[p].id));
        lemma_titled_once_ids(official, web, head[p].id);
        lemma_first_with_id(official, head[p].id);
    }
    assert forall|p: int, q: int| 0 <= p < q < n implies (#[trigger] merged[p]).id != (
    #[trigger] merged[q]).id by {
        assert(merged[p] == head[p] && merged[q] == head[q]);
    }
}

proof fn lemma_first_with_id(chapters: Seq<ChapterRefView>, id: Seq<char>)
    requires
        has_id(chapters, id),
    ensures
        has_first_with_id(chapters, id),
    decreases chapters.len(),
{
    let front = chapters.drop_last();
    if has_id(front, id) {
        lemma_first_with_id(front, id);
        let k = choose|k: int| #[trigger] is_first_with_id(front, k) && front[k].id == id;
        assert forall|j: int| 0 <= j < k implies (#[trigger] chapters[j]).id != chapters[k].id by {
            assert(front[j].id != front[k].id);
        }
        assert(is_first_with_id(chapters, k));
    } else {
        let k = chapters.len() - 1;
        let i = choose|i: int| 0 <= i < chapters.len() && (#[trigger] chapters[i]).id == id;
        if i < k {
            assert(front[i].id == id);
        }
        assert forall|j: int| 0 <= j < k implies (#[trigger] chapters[j]).id != chapters[k].id by {
            assert(front[j] == chapters[j]);
        }
        assert(is_first_with_id(chapters, k));
    }
}

proof fn lemma_web_extras(
    official: Seq<ChapterRefView>,
    web: Seq<ChapterRefView>,
    f: spec_fn(ChapterRefView) -> bool,
)
    requires
        forall|c: ChapterRefView| #[trigger]
            f(c) <==> forall|i: int| 0 <= i < official.len() ==> (#[trigger] official[i]).id != c.id,
    ensures
        only_on_web(official, web) == web.filter(f),
    decreases web.len(),
{
    reveal(Seq::filter);
    if web.len() > 0 {
        lemma_web_extras(official, web.drop_last(), f);
        let c = web.last();
        assert(f(c) <==> !has_id(official, c.id));
    }
}

/// Where the first official chapter with an id ends up.
proof fn lemma_place(official: Seq<ChapterRefView>, web: Seq<ChapterRefView>, k: int)
    requires
        is_first_with_id(official, k),
    ensures
        titled_once(official.take(k), web).len() < titled_once(official, web).len(),
        titled_once(official, web)[titled_once(official.take(k), web).len() as int] == with_title(
            official[k],
            web,
        ),
    decreases official.len(),
{
    let front = official.drop_last();
    if k == official.len() - 1 {
        assert(official.take(k) =~= front);
        assert(!has_id(front, official[k].id)) by {
            if has_id(front, official[k].id) {
                let i = choose|i: int|
                    0 <= i < front.len() && (#[trigger] front[i]).id == official[k].id;
                assert(official[i].id == official[k].id);
            }
        }
    } else {
        assert(is_first_with_id(front, k)) by {
            assert forall|j: int| 0 <= j < k implies (#[trigger] front[j]).id != front[k].id by {
                assert(official[j].id != official[k].id);
            }
        }
        lemma_place(front, web, k);
        assert(front.take(k) =~= official.take(k));
    }
}

/// The official chapters stay in their order: of two that are each the first with
/// their id, the one that comes first in the official list comes first in the merged
/// list, ahead of all that only the web has.
pub proof fn lemma_merge_order(
    official: Seq<ChapterRefView>,
    web: Seq<ChapterRefView>,
    i: int,
    k: int,
)
    requires
        web.len() > 0,
        is_first_with_id(official, i),
        is_first_with_id(official, k),
        i < k,
    ensures
        exists|p: int, q: int|
            {
                &&& 0 <= p < q < merged_chapters(official, web).len() - web_extras(
                    official,
                    web,
                ).len()
                &&& (#[trigger] merged_chapters(official, web)[p]).id == official[i].id
                &&& (#[trigger] merged_chapters(official, web)[q]).id == official[k].id
            },
{
    let merged = merged_chapters(official, web);
    let head = titled_once(official, web);
    lemma_place(official, web, i);
    lemma_place(official, web, k);
    let until = official.take(k);
    assert(is_first_with_id(until, i)) by {
        assert forall|j: int| 0 <= j < i implies (#[trigger] until[j]).id != until[i].id by {
            assert(official[j].id != official[i].id);
        }
    }
    lemma_place(until, web, i);
    assert(until.take(i) =~= official.take(i));
    let p = titled_once(official.take(i), web).len() as int;
    let q = titled_once(official.take(k), web).len() as int;
    lemma_web_extras(
        official,
        web,
        |c: ChapterRefView|
            forall|i: int| 0 <= i < official.len() ==> (#[trigger] official[i]).id != c.id,
    );
    assert(merged[p] == head[p]);
    assert(merged[q] == head[q]);
}

/// An official chapter, the first with its id, keeps a title that is not blank. One with
/// a blank title takes the title of the last chapter of the web list with its id, here
/// the chapter `j`, unless the id is blank; without such a chapter it keeps its own.
pub proof fn lemma_merge_title(
    official: Seq<ChapterRefView>,
    web: Seq<ChapterRefView>,
    k: int,
    j: int,
)
    requires
        web.len() > 0,
        is_first_with_id(official, k),
        -1 <= j < web.len(),
        j >= 0 ==> web[j].id == official[k].id,
        forall|i: int| j < i < web.len() ==> (#[trigger] web[i]).id != official[k].id,
    ensures
        merged_chapters(official, web).contains(
            ChapterRefView {
                id: official[k].id,
                title: if text::is_blank(official[k].title) && j >= 0 && !text::is_blank(
                    official[k].id,
                ) {
                    web[j].title
                } else {
                    official[k].title
                },
            },
        ),
{
    let head = titled_once(official, web);
    lemma_place(official, web, k);
    lemma_last_title(web, official[k].id, j);
    let p = titled_once(official.take(k), web).len() as int;
    assert(merged_chapters(official, web)[p] == head[p]);
}

proof fn lemma_last_title(web: Seq<ChapterRefView>, id: Seq<char>, j: int)
    requires
        -1 <= j < web.len(),
        j >= 0 ==> web[j].id == id,
        forall|i: int| j < i < web.len() ==> (#[trigger] web[i]).id != id,
    ensures
        title_for(web, id) == if j >= 0 && !text::is_blank(id) {
            Some(web[j].title)
        } else {
            None
        },
    decreases web.len(),
{
    if web.len() > 0 && !text::is_blank(id) && j < web.len() - 1 {
        assert(web[web.len() - 1].id != id);
        lemma_last_title(web.drop_last(), id, j);
    }
}

} // verus!
