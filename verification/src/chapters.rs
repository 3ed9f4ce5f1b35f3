use vstd::prelude::*;

use crate::json::{self, copy_items, member, Json, JsonView, Members};
use crate::search;

verus! {

/// What an optional list of documents holds.
pub open spec fn opt_items(a: Option<Vec<Json>>) -> Option<Seq<JsonView>> {
    match a {
        Some(v) => Some(json::items(v@)),
        None => None,
    }
}

/// The names under which an object carries the id of a chapter.
pub open spec fn chapter_id_keys() -> Seq<Seq<char>> {
    seq![
        "item_id"@,
        "itemId"@,
        "chapter_id"@,
        "chapterId"@,
        "catalog_id"@,
        "catalogId"@,
        "id"@,
    ]
}

/// An object that carries the id of a chapter.
pub open spec fn is_chapter_like(m: Members) -> bool {
    exists|i: int|
        0 <= i < chapter_id_keys().len() && json::lookup(m, #[trigger] chapter_id_keys()[i]) is Some
}

/// Whether an object carries the id of a chapter.
pub fn is_chapter_like_object(map: &Vec<(String, Json)>) -> (r: bool)
    ensures
        r == is_chapter_like(json::members(map@)),
{
    let keys: [&str; 7] = [
        "item_id",
        "itemId",
        "chapter_id",
        "chapterId",
        "catalog_id",
        "catalogId",
        "id",
    ];
    let ghost all = chapter_id_keys();
    let ghost m = json::members(map@);
    for i in 0..7usize
        invariant
            all == chapter_id_keys(),
            m == json::members(map@),
            keys@.len() == 7,
            forall|j: int| 0 <= j < 7 ==> #[trigger] all[j] == keys@[j]@,
            forall|j: int| 0 <= j < i ==> json::lookup(m, #[trigger] all[j]) is None,
    {
        assert(all[i as int] == keys@[i as int]@);
        if member(map, keys[i]).is_some() {
            return true;
        }
    }
    false
}

/// An array that has a chapter among its items.
pub open spec fn is_candidate(a: Seq<JsonView>) -> bool {
    exists|i: int| 0 <= i < a.len() && is_chapter(#[trigger] a[i])
}

/// An item that is a chapter.
pub open spec fn is_chapter(j: JsonView) -> bool {
    match j {
        JsonView::Object(m) => is_chapter_like(m),
        _ => false,
    }
}

/// Whether an array has a chapter among its items.
pub fn has_chapter(arr: &Vec<Json>) -> (r: bool)
    ensures
        r == is_candidate(json::items(arr@)),
{
    let ghost a = json::items(arr@);
    for i in 0..arr.len()
        invariant
            a == json::items(arr@),
            forall|j: int| 0 <= j < i ==> !is_chapter(#[trigger] a[j]),
    {
        proof {
            json::lemma_view(arr[i as int]);
        }
        assert(a[i as int] == arr[i as int]@);
        match &arr[i] {
            Json::Object(map) => {
                if is_chapter_like_object(map) {
                    return true;
                }
            },
            _ => {},
        }
    }
    false
}

/// The arrays of a document, an array before those inside it, and those inside
/// one member or item before those inside the next.
pub open spec fn arrays_in(j: JsonView) -> Seq<Seq<JsonView>>
    decreases j,
{
    match j {
        JsonView::Array(a) => seq![a] + arrays_in_items(a),
        JsonView::Object(m) => arrays_in_members(m),
        _ => Seq::empty(),
    }
}

/// The arrays inside the items of an array, item by item.
pub open spec fn arrays_in_items(a: Seq<JsonView>) -> Seq<Seq<JsonView>>
    decreases a,
{
    if a.len() == 0 {
        Seq::empty()
    } else {
        arrays_in_items(a.drop_last()) + arrays_in(a.last())
    }
}

/// The arrays inside the members of an object, member by member.
pub open spec fn arrays_in_members(m: Members) -> Seq<Seq<JsonView>>
    decreases m,
{
    if m.len() == 0 {
        Seq::empty()
    } else {
        arrays_in_members(m.drop_last()) + arrays_in(m.last().1)
    }
}

/// The better of what was found so far and one more array: a candidate wins over
/// nothing and over what is shorter.
pub open spec fn better(best: Option<Seq<JsonView>>, a: Seq<JsonView>) -> Option<Seq<JsonView>> {
    if is_candidate(a) && (best is None || a.len() > best->0.len()) {
        Some(a)
    } else {
        best
    }
}

/// The best of what was found so far and the arrays of a list, in order.
pub open spec fn best_of(
    best: Option<Seq<JsonView>>,
    arrays: Seq<Seq<JsonView>>,
) -> Option<Seq<JsonView>>
    decreases arrays.len(),
{
    if arrays.len() == 0 {
        best
    } else {
        better(best_of(best, arrays.drop_last()), arrays.last())
    }
}

/// The longest array of a document that has a chapter among its items, the first
/// of them where several are as long.
pub open spec fn chapter_array(j: JsonView) -> Option<Seq<JsonView>> {
    best_of(None, arrays_in(j))
}

proof fn lemma_best_of_add(
    best: Option<Seq<JsonView>>,
    a: Seq<Seq<JsonView>>,
    b: Seq<Seq<JsonView>>,
)
    ensures
        best_of(best, a + b) == best_of(best_of(best, a), b),
    decreases b.len(),
{
    if b.len() == 0 {
        assert(a + b =~= a);
    } else {
        assert((a + b).drop_last() =~= a + b.drop_last());
        lemma_best_of_add(best, a, b.drop_last());
    }
}

/// `a` is the first longest candidate of a list.
pub open spec fn is_first_longest(arrays: Seq<Seq<JsonView>>, a: Seq<JsonView>) -> bool {
    exists|k: int|
        {
            &&& 0 <= k < arrays.len()
            &&& #[trigger] arrays[k] == a
            &&& is_candidate(a)
            &&& forall|i: int|
                0 <= i < arrays.len() && is_candidate(#[trigger] arrays[i]) ==> {
                    &&& arrays[i].len() <= a.len()
                    &&& i < k ==> arrays[i].len() < a.len()
                }
        }
}

/// A document without a candidate has no chapter array; any other has the
/// longest candidate for one, the first of them where several are as long.
pub proof fn lemma_chapter_array(j: JsonView)
    ensures
        chapter_array(j) is None <==> forall|i: int|
            0 <= i < arrays_in(j).len() ==> !is_candidate(#[trigger] arrays_in(j)[i]),
        chapter_array(j) matches Some(a) ==> is_first_longest(arrays_in(j), a),
{
    lemma_best_of(arrays_in(j));
}

proof fn lemma_best_of(arrays: Seq<Seq<JsonView>>)
    ensures
        best_of(None, arrays) is None <==> forall|i: int|
            0 <= i < arrays.len() ==> !is_candidate(#[trigger] arrays[i]),
        best_of(None, arrays) matches Some(a) ==> is_first_longest(arrays, a),
    decreases arrays.len(),
{
    if arrays.len() > 0 {
        let front = arrays.drop_last();
        let n = front.len() as int;
        lemma_best_of(front);
        assert forall|i: int| 0 <= i < n implies #[trigger] arrays[i] == front[i] by {}
        assert(arrays[n] == arrays.last());
        let before = best_of(None, front);
        if is_candidate(arrays.last()) && (before is None || arrays.last().len() > before->0.len()) {
            let a = arrays.last();
            assert(arrays[n] == a);
            assert forall|i: int| 0 <= i < arrays.len() && is_candidate(#[trigger] arrays[i]) implies {
                &&& arrays[i].len() <= a.len()
                &&& i < n ==> arrays[i].len() < a.len()
            } by {
                if i < n {
                    assert(arrays[i] == front[i]);
                    assert(before is Some);
                }
            }
            assert(is_first_longest(arrays, a));
        } else if before is Some {
            let a = before->0;
            let k = choose|k: int|
                {
                    &&& 0 <= k < front.len()
                    &&& #[trigger] front[k] == a
                    &&& is_candidate(a)
                    &&& forall|i: int|
                        0 <= i < front.len() && is_candidate(#[trigger] front[i]) ==> {
                            &&& front[i].len() <= a.len()
                            &&& i < k ==> front[i].len() < a.len()
                        }
                };
            assert(arrays[k] == front[k]);
            assert forall|i: int| 0 <= i < arrays.len() && is_candidate(#[trigger] arrays[i]) implies {
                &&& arrays[i].len() <= a.len()
                &&& i < k ==> arrays[i].len() < a.len()
            } by {
                if i < n {
                    assert(arrays[i] == front[i]);
                }
            }
            assert(is_first_longest(arrays, a));
        } else {
            assert forall|i: int| 0 <= i < arrays.len() implies !is_candidate(#[trigger] arrays[i]) by {
                if i < n {
                    assert(arrays[i] == front[i]);
                }
            }
        }
    }
}

/// Keeps in `best` the best of it and the arrays of a document.
fn walk(value: &Json, best: &mut Option<Vec<Json>>)
    ensures
        opt_items(*final(best)) == best_of(opt_items(*old(best)), arrays_in(value@)),
    decreases value,
{
    proof {
        json::lemma_view(*value);
    }
    let ghost start = opt_items(*best);
    match value {
        Json::Array(arr) => {
            let ghost a = json::items(arr@);
            if has_chapter(arr) {
                let replace = match &*best {
                    Some(existing) => arr.len() > existing.len(),
                    None => true,
                };
                if replace {
                    *best = Some(copy_items(arr));
                }
            }
            proof {
                reveal_with_fuel(best_of, 2);
                assert(seq![a].drop_last() =~= Seq::<Seq<JsonView>>::empty());
                assert(opt_items(*best) == best_of(start, seq![a]));
                assert(a.take(0) =~= Seq::empty());
            }
            for i in 0..arr.len()
                invariant
                    a == json::items(arr@),
                    decreases_to!(value => arr),
                    opt_items(*best) == best_of(best_of(start, seq![a]), arrays_in_items(a.take(i as int))),
            {
                assert(a.take(i + 1).drop_last() =~= a.take(i as int));
                assert(a[i as int] == arr[i as int]@);
                proof {
                    lemma_best_of_add(
                        best_of(start, seq![a]),
                        arrays_in_items(a.take(i as int)),
                        arrays_in(a[i as int]),
                    );
                }
                walk(&arr[i], best);
            }
            proof {
                assert(a.take(arr.len() as int) =~= a);
                lemma_best_of_add(start, seq![a], arrays_in_items(a));
            }
        },
        Json::Object(map) => {
            let ghost m = json::members(map@);
            assert(m.take(0) =~= Seq::empty());
            for i in 0..map.len()
                invariant
                    m == json::members(map@),
                    decreases_to!(value => map),
                    opt_items(*best) == best_of(start, arrays_in_members(m.take(i as int))),
            {
                assert(m.take(i + 1).drop_last() =~= m.take(i as int));
                assert(m[i as int].1 == map[i as int].1@);
                proof {
                    lemma_best_of_add(
                        start,
                        arrays_in_members(m.take(i as int)),
                        arrays_in(m[i as int].1),
                    );
                }
                walk(&map[i].1, best);
            }
            assert(m.take(map.len() as int) =~= m);
        },
        _ => {},
    }
}

/// The longest array of a document that has a chapter among its items.
pub fn find_chapter_array(value: &Json) -> (r: Option<Vec<Json>>)
    ensures
        opt_items(r) == chapter_array(value@),
{
    let mut best: Option<Vec<Json>> = None;
    walk(value, &mut best);
    best
}

/// The names under which a directory carries its chapters, in the order in which
/// they are tried.
pub open spec fn list_keys() -> Seq<Seq<char>> {
    seq![
        "chapterList"@,
        "chapter_list"@,
        "chapters"@,
        "item_list"@,
        "items"@,
        "list"@,
    ]
}

/// The same names, in the order in which they are tried one level deeper.
pub open spec fn inner_list_keys() -> Seq<Seq<char>> {
    seq![
        "list"@,
        "chapterList"@,
        "chapter_list"@,
        "items"@,
        "item_list"@,
        "chapters"@,
    ]
}

/// The array under `key`, where there is one.
pub open spec fn array_under(j: JsonView, key: Seq<char>) -> Option<Seq<JsonView>> {
    match j.get(key) {
        Some(v) => v.as_array(),
        None => None,
    }
}

/// The array under the first of `keys` that has one.
pub open spec fn first_array(j: JsonView, keys: Seq<Seq<char>>) -> Option<Seq<JsonView>>
    decreases keys.len(),
{
    if keys.len() == 0 {
        None
    } else if array_under(j, keys[0]) is Some {
        array_under(j, keys[0])
    } else {
        first_array(j, keys.skip(1))
    }
}

/// The chapters of all volumes in a row; what is no array holds none.
pub open spec fn chapters_of_volumes(volumes: Seq<JsonView>) -> Seq<JsonView>
    decreases volumes.len(),
{
    if volumes.len() == 0 {
        Seq::empty()
    } else {
        chapters_of_volumes(volumes.drop_last()) + match volumes.last().as_array() {
            Some(a) => a,
            None => Seq::empty(),
        }
    }
}

/// The chapters that a directory lists by volume, where it lists any.
pub open spec fn volume_chapters(root: JsonView) -> Option<Seq<JsonView>> {
    match array_under(root, "chapterListWithVolume"@) {
        Some(volumes) => if chapters_of_volumes(volumes).len() > 0 {
            Some(chapters_of_volumes(volumes))
        } else {
            None
        },
        None => None,
    }
}

/// What a directory reply is about: its member `data`, or the whole of it.
pub open spec fn root_of(data: JsonView) -> JsonView {
    match data.get("data"@) {
        Some(v) => v,
        None => data,
    }
}

/// The list one level deeper, under `data`.
pub open spec fn inner_chapters(root: JsonView) -> Option<Seq<JsonView>> {
    match root.get("data"@) {
        Some(inner) => first_array(inner, inner_list_keys()),
        None => None,
    }
}

/// The chapters in a directory reply: a list under a known name, else the
/// chapters by volume, else a list one level deeper, else the longest array with
/// a chapter in it.
pub open spec fn chapter_data(data: JsonView) -> Option<Seq<JsonView>> {
    let root = root_of(data);
    if first_array(root, list_keys()) is Some {
        first_array(root, list_keys())
    } else if volume_chapters(root) is Some {
        volume_chapters(root)
    } else if inner_chapters(root) is Some {
        inner_chapters(root)
    } else {
        chapter_array(root)
    }
}

/// Chapters are found in every directory reply that has an array with a chapter
/// in it, wherever it stands.
pub proof fn lemma_chapter_data_complete(data: JsonView, i: int)
    requires
        0 <= i < arrays_in(root_of(data)).len(),
        is_candidate(arrays_in(root_of(data))[i]),
    ensures
        chapter_data(data) is Some,
{
    lemma_chapter_array(root_of(data));
}

proof fn lemma_first_array_skip(j: JsonView, keys: Seq<Seq<char>>, n: int)
    requires
        0 <= n <= keys.len(),
        forall|i: int| 0 <= i < n ==> array_under(j, #[trigger] keys[i]) is None,
    ensures
        first_array(j, keys) == first_array(j, keys.skip(n)),
    decreases n,
{
    if n > 0 {
        lemma_first_array_skip(j, keys.skip(1), n - 1);
        assert(keys.skip(1).skip(n - 1) =~= keys.skip(n));
    } else {
        assert(keys.skip(0) =~= keys);
    }
}

/// A copy of the array under the first of `keys` that has one.
fn array_by_key(value: &Json, keys: [&str; 6]) -> (r: Option<Vec<Json>>)
    ensures
        opt_items(r) == first_array(value@, search::key_texts(keys@)),
{
    let ghost all = search::key_texts(keys@);
    for i in 0..6usize
        invariant
            all == search::key_texts(keys@),
            keys@.len() == 6,
            forall|j: int| 0 <= j < i ==> array_under(value@, #[trigger] all[j]) is None,
    {
        assert(all[i as int] == keys@[i as int]@);
        if let Some(v) = value.get(keys[i]) {
            if let Some(arr) = v.as_array() {
                proof {
                    lemma_first_array_skip(value@, all, i as int);
                    assert(all.skip(i as int)[0] == all[i as int]);
                }
                return Some(copy_items(arr));
            }
        }
    }
    proof {
        lemma_first_array_skip(value@, all, 6);
    }
    None
}

/// The chapters of all volumes in a row.
fn join_volumes(volumes: &Vec<Json>) -> (r: Vec<Json>)
    ensures
        json::items(r@) == chapters_of_volumes(json::items(volumes@)),
{
    let mut all_chapters: Vec<Json> = Vec::new();
    let ghost v = json::items(volumes@);
    assert(json::items(all_chapters@) =~= chapters_of_volumes(v.take(0)));
    for i in 0..volumes.len()
        invariant
            v == json::items(volumes@),
            json::items(all_chapters@) == chapters_of_volumes(v.take(i as int)),
    {
        assert(v.take(i + 1).drop_last() =~= v.take(i as int));
        assert(v[i as int] == volumes[i as int]@);
        if let Some(chapters) = volumes[i].as_array() {
            let ghost before = all_chapters@;
            let mut more = copy_items(chapters);
            let ghost added = more@;
            all_chapters.append(&mut more);
            assert(json::items(all_chapters@) =~= json::items(before) + json::items(added));
        } else {
            assert(json::items(all_chapters@) + Seq::<JsonView>::empty() =~= json::items(all_chapters@));
        }
    }
    assert(v.take(volumes.len() as int) =~= v);
    all_chapters
}

/// The chapters in a directory reply.
pub fn parse_chapter_data(data: &Json) -> (r: Option<Vec<Json>>)
    ensures
        opt_items(r) == chapter_data(data@),
{
    let root = match data.get("data") {
        Some(v) => v,
        None => data,
    };
    let keys: [&str; 6] = ["chapterList", "chapter_list", "chapters", "item_list", "items", "list"];
    assert(search::key_texts(keys@) =~= list_keys());
    let listed = array_by_key(root, keys);
    if listed.is_some() {
        return listed;
    }
    if let Some(v) = root.get("chapterListWithVolume") {
        if let Some(volumes) = v.as_array() {
            let all_chapters = join_volumes(volumes);
            assert(json::items(all_chapters@).len() == all_chapters.len());
            if !all_chapters.is_empty() {
                return Some(all_chapters);
            }
        }
    }
    if let Some(inner) = root.get("data") {
        let inner_keys: [&str; 6] = [
            "list",
            "chapterList",
            "chapter_list",
            "items",
            "item_list",
            "chapters",
        ];
        assert(search::key_texts(inner_keys@) =~= inner_list_keys());
        let listed = array_by_key(inner, inner_keys);
        if listed.is_some() {
            return listed;
        }
    }
    find_chapter_array(root)
}

/// An object carries the id of a chapter exactly when it has a member under one of
/// the names of such an id, whatever its value.
pub proof fn lemma_chapter_like(m: Members)
    ensures
        is_chapter_like(m) <==> {
            ||| json::lookup(m, "item_id"@) is Some
            ||| json::lookup(m, "itemId"@) is Some
            ||| json::lookup(m, "chapter_id"@) is Some
            ||| json::lookup(m, "chapterId"@) is Some
            ||| json::lookup(m, "catalog_id"@) is Some
            ||| json::lookup(m, "catalogId"@) is Some
            ||| json::lookup(m, "id"@) is Some
        },
{
    let keys = chapter_id_keys();
    assert(keys[0] == "item_id"@ && keys[1] == "itemId"@ && keys[2] == "chapter_id"@ && keys[3]
        == "chapterId"@ && keys[4] == "catalog_id"@ && keys[5] == "catalogId"@ && keys[6] == "id"@);
}

/// An item of `a` is an object that carries the id of a chapter.
pub open spec fn lists_a_chapter(a: Seq<JsonView>) -> bool {
    exists|i: int, m: Members|
        0 <= i < a.len() && #[trigger] a[i] == JsonView::Object(m) && #[trigger] is_chapter_like(m)
}

/// An array has a chapter among its items exactly when one of them is an object that
/// carries the id of a chapter.
pub proof fn lemma_lists_a_chapter(a: Seq<JsonView>)
    ensures
        lists_a_chapter(a) <==> is_candidate(a),
{
    if is_candidate(a) {
        let i = choose|i: int| 0 <= i < a.len() && is_chapter(#[trigger] a[i]);
        let m = a[i]->Object_0;
        assert(a[i] == JsonView::Object(m) && is_chapter_like(m));
    }
    if lists_a_chapter(a) {
        let (i, m) = choose|i: int, m: Members|
            0 <= i < a.len() && #[trigger] a[i] == JsonView::Object(m)
                && #[trigger] is_chapter_like(m);
        assert(is_chapter(a[i]));
    }
}

/// The search for the chapter array reaches every array at every depth: where an
/// array of the document lists a chapter, one is found, and it is no shorter; what is
/// found is an array of the document that lists a chapter.
pub proof fn lemma_chapter_array_reaches(j: JsonView, a: Seq<JsonView>)
    ensures
        json::inside(JsonView::Array(a), j) && lists_a_chapter(a) ==> {
            &&& chapter_array(j) matches Some(found) && a.len() <= found.len()
        },
        chapter_array(j) == Some(a) ==> json::inside(JsonView::Array(a), j) && lists_a_chapter(a),
{
    let all = arrays_in(j);
    lemma_chapter_array(j);
    lemma_arrays_in(j, a);
    lemma_lists_a_chapter(a);
    if all.contains(a) && is_candidate(a) {
        let i = choose|i: int| 0 <= i < all.len() && all[i] == a;
        assert(is_candidate(all[i]));
        let found = chapter_array(j)->0;
        assert(is_first_longest(all, found));
    }
    if chapter_array(j) == Some(a) {
        let k = choose|k: int| 0 <= k < all.len() && #[trigger] all[k] == a && is_candidate(a);
        assert(all[k] == a);
    }
}

proof fn lemma_arrays_in(j: JsonView, x: Seq<JsonView>)
    ensures
        arrays_in(j).contains(x) <==> json::inside(JsonView::Array(x), j),
    decreases j,
{
    match j {
        JsonView::Array(a) => {
            lemma_arrays_in_items(a, x);
            let deep = arrays_in_items(a);
            assert((seq![a] + deep)[0] == a);
            if deep.contains(x) {
                let i = choose|i: int| 0 <= i < deep.len() && deep[i] == x;
                assert((seq![a] + deep)[i + 1] == x);
            }
            if (seq![a] + deep).contains(x) && x != a {
                let i = choose|i: int| 0 <= i < (seq![a] + deep).len() && (seq![a] + deep)[i] == x;
                assert(deep[i - 1] == x);
            }
        },
        JsonView::Object(m) => {
            lemma_arrays_in_members(m, x);
        },
        _ => {},
    }
}

proof fn lemma_arrays_in_items(a: Seq<JsonView>, x: Seq<JsonView>)
    ensures
        arrays_in_items(a).contains(x) <==> exists|i: int|
            0 <= i < a.len() && json::inside(JsonView::Array(x), #[trigger] a[i]),
    decreases a,
{
    if a.len() > 0 {
        let front = a.drop_last();
        lemma_arrays_in_items(front, x);
        lemma_arrays_in(a.last(), x);
        vstd::seq_lib::lemma_seq_concat_contains_all_elements(
            arrays_in_items(front),
            arrays_in(a.last()),
            x,
        );
        if arrays_in_items(front).contains(x) {
            let i = choose|i: int|
                0 <= i < front.len() && json::inside(JsonView::Array(x), #[trigger] front[i]);
            assert(a[i] == front[i]);
        }
        if exists|i: int| 0 <= i < a.len() && json::inside(JsonView::Array(x), #[trigger] a[i]) {
            let i = choose|i: int|
                0 <= i < a.len() && json::inside(JsonView::Array(x), #[trigger] a[i]);
            if i < front.len() {
                assert(front[i] == a[i]);
            }
        }
        assert(a[a.len() - 1] == a.last());
    }
}

proof fn lemma_arrays_in_members(m: Members, x: Seq<JsonView>)
    ensures
        arrays_in_members(m).contains(x) <==> exists|i: int|
            0 <= i < m.len() && json::inside(JsonView::Array(x), (#[trigger] m[i]).1),
    decreases m,
{
    if m.len() > 0 {
        let front = m.drop_last();
        lemma_arrays_in_members(front, x);
        lemma_arrays_in(m.last().1, x);
        vstd::seq_lib::lemma_seq_concat_contains_all_elements(
            arrays_in_members(front),
            arrays_in(m.last().1),
            x,
        );
        if arrays_in_members(front).contains(x) {
            let i = choose|i: int|
                0 <= i < front.len() && json::inside(JsonView::Array(x), (#[trigger] front[i]).1);
            assert(m[i] == front[i]);
        }
        if exists|i: int|
            0 <= i < m.len() && json::inside(JsonView::Array(x), (#[trigger] m[i]).1) {
            let i = choose|i: int|
                0 <= i < m.len() && json::inside(JsonView::Array(x), (#[trigger] m[i]).1);
            if i < front.len() {
                assert(front[i] == m[i]);
            }
        }
        assert(m[m.len() - 1] == m.last());
    }
}

/// The longer of two arrays that may be missing, the first where they are as long.
pub open spec fn longer(
    first: Option<Seq<JsonView>>,
    second: Option<Seq<JsonView>>,
) -> Option<Seq<JsonView>> {
    match (first, second) {
        (Some(a), Some(b)) => if b.len() > a.len() {
            second
        } else {
            first
        },
        (None, _) => second,
        (_, None) => first,
    }
}

/// The chapter array of an object is the longer of those of its members, and among
/// equals that of the member that comes first.
pub proof fn lemma_chapter_array_of_members(front: Members, back: Members, name: Seq<char>, v: JsonView)
    ensures
        chapter_array(JsonView::Object(front + back)) == longer(
            chapter_array(JsonView::Object(front)),
            chapter_array(JsonView::Object(back)),
        ),
        chapter_array(JsonView::Object(seq![(name, v)])) == chapter_array(v),
        chapter_array(JsonView::Object(Seq::empty())) is None,
{
    lemma_arrays_in_members_add(front, back);
    lemma_best_of_add(None, arrays_in_members(front), arrays_in_members(back));
    lemma_best_of_longer(best_of(None, arrays_in_members(front)), arrays_in_members(back));
    let one = seq![(name, v)];
    assert(one.drop_last() =~= Seq::empty());
    assert(arrays_in_members(one.drop_last()) =~= Seq::empty());
    assert(Seq::<Seq<JsonView>>::empty() + arrays_in(v) =~= arrays_in(v));
}

/// The chapter array of an array is the array itself, where it lists a chapter and
/// none of those of its items is longer, else the longest of those, and among equals
/// that of the item that comes first: the items count as the members of an object do.
pub proof fn lemma_chapter_array_of_items(a: Seq<JsonView>, m: Members)
    requires
        m.len() == a.len(),
        forall|i: int| 0 <= i < a.len() ==> (#[trigger] m[i]).1 == a[i],
    ensures
        chapter_array(JsonView::Array(a)) == longer(
            if lists_a_chapter(a) {
                Some(a)
            } else {
                None
            },
            chapter_array(JsonView::Object(m)),
        ),
{
    lemma_same_arrays(a, m);
    lemma_lists_a_chapter(a);
    lemma_best_of_add(None, seq![a], arrays_in_items(a));
    lemma_best_of_longer(best_of(None, seq![a]), arrays_in_items(a));
    reveal_with_fuel(best_of, 2);
    assert(seq![a].drop_last() =~= Seq::<Seq<JsonView>>::empty());
}

/// A document that is neither an array nor an object has no chapter array.
pub proof fn lemma_chapter_array_of_scalar(j: JsonView)
    requires
        !(j is Array) && !(j is Object),
    ensures
        chapter_array(j) is None,
{
}

proof fn lemma_arrays_in_members_add(front: Members, back: Members)
    ensures
        arrays_in_members(front + back) == arrays_in_members(front) + arrays_in_members(back),
    decreases back.len(),
{
    if back.len() == 0 {
        assert(front + back =~= front);
        assert(arrays_in_members(front) + Seq::<Seq<JsonView>>::empty() =~= arrays_in_members(
            front,
        ));
    } else {
        lemma_arrays_in_members_add(front, back.drop_last());
        assert((front + back).drop_last() =~= front + back.drop_last());
        assert(arrays_in_members(front) + (arrays_in_members(back.drop_last()) + arrays_in(
            back.last().1,
        )) =~= (arrays_in_members(front) + arrays_in_members(back.drop_last())) + arrays_in(
            back.last().1,
        ));
    }
}

proof fn lemma_same_arrays(a: Seq<JsonView>, m: Members)
    requires
        m.len() == a.len(),
        forall|i: int| 0 <= i < a.len() ==> (#[trigger] m[i]).1 == a[i],
    ensures
        arrays_in_items(a) == arrays_in_members(m),
    decreases a.len(),
{
    if a.len() > 0 {
        assert(m[a.len() - 1].1 == a.last());
        lemma_same_arrays(a.drop_last(), m.drop_last());
    }
}

proof fn lemma_best_of_longer(best: Option<Seq<JsonView>>, arrays: Seq<Seq<JsonView>>)
    ensures
        best_of(best, arrays) == longer(best, best_of(None, arrays)),
    decreases arrays.len(),
{
    if arrays.len() > 0 {
        lemma_best_of_longer(best, arrays.drop_last());
    }
}

/// The names under which a directory lists its chapters are tried in this order, and
/// the array under the first of them that has one is the list, here the name `k`.
pub proof fn lemma_chapter_data_by_name(data: JsonView, root: JsonView, k: int, a: Seq<JsonView>)
    requires
        root == match data.get("data"@) {
            Some(v) => v,
            None => data,
        },
        0 <= k < 6,
    ensures
        ({
            let names = seq![
                "chapterList"@,
                "chapter_list"@,
                "chapters"@,
                "item_list"@,
                "items"@,
                "list"@,
            ];
            root.get(names[k]) == Some(JsonView::Array(a)) && (forall|i: int|
                0 <= i < k ==> !(root.get(#[trigger] names[i]) matches Some(JsonView::Array(_))))
                ==> chapter_data(data) == Some(a)
        }),
{
    let names = list_keys();
    if root.get(names[k]) == Some(JsonView::Array(a)) && (forall|i: int|
        0 <= i < k ==> !(root.get(#[trigger] names[i]) matches Some(JsonView::Array(_)))) {
        assert forall|i: int| 0 <= i < k implies array_under(root, #[trigger] names[i]) is None by {
            assert(!(root.get(names[i]) matches Some(JsonView::Array(_))));
        }
        lemma_first_array_skip(root, names, k);
        assert(names.skip(k)[0] == names[k]);
    }
}

/// A directory without an array under one of these names.
pub open spec fn lists_nothing(j: JsonView) -> bool {
    &&& !(j.get("chapterList"@) matches Some(JsonView::Array(_)))
    &&& !(j.get("chapter_list"@) matches Some(JsonView::Array(_)))
    &&& !(j.get("chapters"@) matches Some(JsonView::Array(_)))
    &&& !(j.get("item_list"@) matches Some(JsonView::Array(_)))
    &&& !(j.get("items"@) matches Some(JsonView::Array(_)))
    &&& !(j.get("list"@) matches Some(JsonView::Array(_)))
}

/// The chapters of all volumes, one volume after the other; a volume that is no array
/// has none.
pub open spec fn in_volumes(volumes: Seq<JsonView>) -> Seq<JsonView> {
    volumes.map_values(
        |v: JsonView|
            match v {
                JsonView::Array(a) => a,
                _ => Seq::empty(),
            },
    ).flatten()
}

/// Where a directory lists nothing by name, the chapters of its volumes are its
/// chapters, if there are any; else the first array one level deeper, under the names
/// in this order; else the chapter array of the whole.
pub proof fn lemma_chapter_data_otherwise(
    data: JsonView,
    root: JsonView,
    volumes: Seq<JsonView>,
    k: int,
    a: Seq<JsonView>,
)
    requires
        root == match data.get("data"@) {
            Some(v) => v,
            None => data,
        },
        lists_nothing(root),
        root.get("chapterListWithVolume"@) matches Some(JsonView::Array(v)) ==> v == volumes,
        !(root.get("chapterListWithVolume"@) matches Some(JsonView::Array(_))) ==> volumes.len()
            == 0,
        0 <= k < 6,
    ensures
        in_volumes(volumes).len() > 0 ==> chapter_data(data) == Some(in_volumes(volumes)),
        in_volumes(volumes).len() == 0 ==> {
            let names = seq![
                "list"@,
                "chapterList"@,
                "chapter_list"@,
                "items"@,
                "item_list"@,
                "chapters"@,
            ];
            root.get("data"@) matches Some(inner) ==> inner.get(names[k]) == Some(
                JsonView::Array(a),
            ) ==> (forall|i: int|
                0 <= i < k ==> !(inner.get(#[trigger] names[i]) matches Some(JsonView::Array(_))))
                ==> chapter_data(data) == Some(a)
        },
        in_volumes(volumes).len() == 0 && (root.get("data"@) matches Some(inner) ==> lists_nothing(
            inner,
        )) ==> chapter_data(data) == chapter_array(root),
{
    let outer = list_keys();
    assert(outer[0] == "chapterList"@ && outer[1] == "chapter_list"@ && outer[2] == "chapters"@
        && outer[3] == "item_list"@ && outer[4] == "items"@ && outer[5] == "list"@);
    lemma_first_array_skip(root, outer, 6);
    assert(first_array(root, outer) is None);
    lemma_in_volumes(volumes);
    assert(root_of(data) == root);
    if in_volumes(volumes).len() == 0 {
        assert(volume_chapters(root) is None);
        if let Some(inner) = root.get("data"@) {
            let names = inner_list_keys();
            assert(names[0] == "list"@ && names[1] == "chapterList"@ && names[2] == "chapter_list"@
                && names[3] == "items"@ && names[4] == "item_list"@ && names[5] == "chapters"@);
            if lists_nothing(inner) {
                lemma_first_array_skip(inner, names, 6);
            }
            if inner.get(names[k]) == Some(JsonView::Array(a)) && (forall|i: int|
                0 <= i < k ==> !(inner.get(#[trigger] names[i]) matches Some(JsonView::Array(_)))) {
                assert forall|i: int| 0 <= i < k implies array_under(
                    inner,
                    #[trigger] names[i],
                ) is None by {
                    assert(!(inner.get(names[i]) matches Some(JsonView::Array(_))));
                }
                lemma_first_array_skip(inner, names, k);
                assert(names.skip(k)[0] == names[k]);
            }
        }
    }
}

proof fn lemma_in_volumes(volumes: Seq<JsonView>)
    ensures
        chapters_of_volumes(volumes) == in_volumes(volumes),
    decreases volumes.len(),
{
    let f = |v: JsonView|
        match v {
            JsonView::Array(a) => a,
            _ => Seq::empty(),
        };
    let lists = volumes.map_values(f);
    if volumes.len() > 0 {
        let front = volumes.drop_last();
        lemma_in_volumes(front);
        assert(lists =~= front.map_values(f).push(f(volumes.last())));
        front.map_values(f).lemma_flatten_push(f(volumes.last()));
    } else {
        assert(lists =~= Seq::empty());
    }
}

/// Chapters are found in every directory reply that holds an array with a chapter in
/// it, wherever it stands, and by the search of last resort only where there is one.
pub proof fn lemma_chapter_data_reaches(data: JsonView, root: JsonView, a: Seq<JsonView>)
    requires
        root == match data.get("data"@) {
            Some(v) => v,
            None => data,
        },
        json::inside(JsonView::Array(a), root),
        lists_a_chapter(a),
    ensures
        chapter_data(data) is Some,
{
    lemma_chapter_array_reaches(root, a);
}

/// An optional list of documents holds the items of the list.
pub proof fn lemma_opt_items(v: Vec<Json>)
    ensures
        opt_items(Some(v)) == Some(json::items(v@)),
        opt_items(None) is None,
{
}

} // verus!
