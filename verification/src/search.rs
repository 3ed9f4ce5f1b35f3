use vstd::prelude::*;

use crate::json::{self, member, Json, JsonView, Members, NumberView};
use crate::text::{self, parse_i64, parse_usize, same_text};

verus! {

/// The objects of a document, an object before those inside it, and those inside
/// one member or item before those inside the next.
pub open spec fn objects_in(j: JsonView) -> Seq<Members>
    decreases j,
{
    match j {
        JsonView::Object(m) => seq![m] + objects_in_members(m),
        JsonView::Array(a) => objects_in_items(a),
        _ => Seq::empty(),
    }
}

/// The objects inside the members of an object, member by member.
pub open spec fn objects_in_members(m: Members) -> Seq<Members>
    decreases m,
{
    if m.len() == 0 {
        Seq::empty()
    } else {
        objects_in_members(m.drop_last()) + objects_in(m.last().1)
    }
}

/// The objects inside the items of an array, item by item.
pub open spec fn objects_in_items(a: Seq<JsonView>) -> Seq<Members>
    decreases a,
{
    if a.len() == 0 {
        Seq::empty()
    } else {
        objects_in_items(a.drop_last()) + objects_in(a.last())
    }
}

/// What `read` makes of the member `key` of an object.
pub open spec fn hit<T>(
    m: Members,
    key: Seq<char>,
    read: spec_fn(JsonView) -> Option<T>,
) -> Option<T> {
    match json::lookup(m, key) {
        Some(v) => read(v),
        None => None,
    }
}

/// What `read` makes of the member `key` of the first object for which it makes
/// anything.
pub open spec fn first_hit<T>(
    objects: Seq<Members>,
    key: Seq<char>,
    read: spec_fn(JsonView) -> Option<T>,
) -> Option<T>
    decreases objects.len(),
{
    if objects.len() == 0 {
        None
    } else if hit(objects[0], key, read) is Some {
        hit(objects[0], key, read)
    } else {
        first_hit(objects.skip(1), key, read)
    }
}

/// The first thing that `read` finds under `key` in a document.
pub open spec fn find_first<T>(
    j: JsonView,
    key: Seq<char>,
    read: spec_fn(JsonView) -> Option<T>,
) -> Option<T> {
    first_hit(objects_in(j), key, read)
}

/// A search that fails has looked at every object of the document, and one that
/// succeeds stopped at the first object that has what it looks for.
pub proof fn lemma_find_first<T>(j: JsonView, key: Seq<char>, read: spec_fn(JsonView) -> Option<T>)
    ensures
        find_first(j, key, read) is None <==> forall|i: int|
            0 <= i < objects_in(j).len() ==> hit(#[trigger] objects_in(j)[i], key, read) is None,
        find_first(j, key, read) is Some ==> exists|i: int|
            {
                &&& 0 <= i < objects_in(j).len()
                &&& hit(#[trigger] objects_in(j)[i], key, read) == find_first(j, key, read)
                &&& forall|k: int|
                    0 <= k < i ==> hit(#[trigger] objects_in(j)[k], key, read) is None
            },
{
    lemma_first_hit(objects_in(j), key, read);
}

proof fn lemma_first_hit<T>(
    objects: Seq<Members>,
    key: Seq<char>,
    read: spec_fn(JsonView) -> Option<T>,
)
    ensures
        first_hit(objects, key, read) is None <==> forall|i: int|
            0 <= i < objects.len() ==> hit(#[trigger] objects[i], key, read) is None,
        first_hit(objects, key, read) is Some ==> exists|i: int|
            {
                &&& 0 <= i < objects.len()
                &&& hit(#[trigger] objects[i], key, read) == first_hit(objects, key, read)
                &&& forall|k: int| 0 <= k < i ==> hit(#[trigger] objects[k], key, read) is None
            },
    decreases objects.len(),
{
    if objects.len() > 0 {
        let rest = objects.skip(1);
        lemma_first_hit(rest, key, read);
        assert forall|i: int| 0 < i < objects.len() implies #[trigger] objects[i] == rest[i - 1] by {}
        if hit(objects[0], key, read) is None {
            if first_hit(rest, key, read) is Some {
                let i = choose|i: int|
                    {
                        &&& 0 <= i < rest.len()
                        &&& hit(#[trigger] rest[i], key, read) == first_hit(rest, key, read)
                        &&& forall|k: int| 0 <= k < i ==> hit(#[trigger] rest[k], key, read) is None
                    };
                assert(objects[i + 1] == rest[i]);
                assert forall|k: int| 0 <= k < i + 1 implies hit(#[trigger] objects[k], key, read) is None by {
                    if k > 0 {
                        assert(objects[k] == rest[k - 1]);
                    }
                }
            } else {
                assert forall|i: int| 0 <= i < objects.len() implies hit(#[trigger] objects[i], key, read) is None by {
                    if i > 0 {
                        assert(objects[i] == rest[i - 1]);
                    }
                }
            }
        }
    }
}

proof fn lemma_first_hit_add<T>(
    a: Seq<Members>,
    b: Seq<Members>,
    key: Seq<char>,
    read: spec_fn(JsonView) -> Option<T>,
)
    ensures
        first_hit(a + b, key, read) == if first_hit(a, key, read) is Some {
            first_hit(a, key, read)
        } else {
            first_hit(b, key, read)
        },
    decreases a.len(),
{
    if a.len() == 0 {
        assert(a + b =~= b);
    } else {
        assert((a + b).skip(1) =~= a.skip(1) + b);
        lemma_first_hit_add(a.skip(1), b, key, read);
    }
}

/// The search through the members of an object ends in the first member where it
/// succeeds.
proof fn lemma_first_hit_in_members<T>(
    a: Members,
    n: int,
    key: Seq<char>,
    read: spec_fn(JsonView) -> Option<T>,
)
    requires
        0 <= n <= a.len(),
        forall|i: int| 0 <= i < n ==> find_first((#[trigger] a[i]).1, key, read) is None,
        n < a.len() ==> find_first(a[n].1, key, read) is Some,
    ensures
        first_hit(objects_in_members(a), key, read) == if n < a.len() {
            find_first(a[n].1, key, read)
        } else {
            None
        },
    decreases a.len(),
{
    if a.len() > 0 {
        let front = a.drop_last();
        lemma_first_hit_add(objects_in_members(front), objects_in(a.last().1), key, read);
        lemma_first_hit_in_members(
            front,
            if n == a.len() {
                n - 1
            } else {
                n
            },
            key,
            read,
        );
    }
}

/// The search through the items of an array ends in the first item where it
/// succeeds.
proof fn lemma_first_hit_in_items<T>(
    a: Seq<JsonView>,
    n: int,
    key: Seq<char>,
    read: spec_fn(JsonView) -> Option<T>,
)
    requires
        0 <= n <= a.len(),
        forall|i: int| 0 <= i < n ==> find_first(#[trigger] a[i], key, read) is None,
        n < a.len() ==> find_first(a[n], key, read) is Some,
    ensures
        first_hit(objects_in_items(a), key, read) == if n < a.len() {
            find_first(a[n], key, read)
        } else {
            None
        },
    decreases a.len(),
{
    if a.len() > 0 {
        let front = a.drop_last();
        lemma_first_hit_add(objects_in_items(front), objects_in(a.last()), key, read);
        lemma_first_hit_in_items(
            front,
            if n == a.len() {
                n - 1
            } else {
                n
            },
            key,
            read,
        );
    }
}

/// The search in an object looks at the object itself, then at its members.
proof fn lemma_find_first_in_object<T>(
    m: Members,
    key: Seq<char>,
    read: spec_fn(JsonView) -> Option<T>,
)
    ensures
        find_first(JsonView::Object(m), key, read) == if hit(m, key, read) is Some {
            hit(m, key, read)
        } else {
            first_hit(objects_in_members(m), key, read)
        },
{
    assert((seq![m] + objects_in_members(m)).skip(1) =~= objects_in_members(m));
}

/// A way to read a value: what it makes of a document.
trait Reading {
    /// What is read.
    type Out;

    /// What `Out` holds.
    type Held;

    /// What something that was read holds.
    spec fn held(out: Self::Out) -> Self::Held;

    /// What is read from a document.
    spec fn of() -> spec_fn(JsonView) -> Option<Self::Held>;

    /// Reads a document.
    fn read(v: &Json) -> (r: Option<Self::Out>)
        ensures
            Self::of()(v@) == match r {
                Some(out) => Some(Self::held(out)),
                None => None,
            },
    ;
}

/// What something that may have been read holds.
spec fn held_by<R: Reading>(r: Option<R::Out>) -> Option<R::Held> {
    match r {
        Some(out) => Some(R::held(out)),
        None => None,
    }
}

/// The first thing that is read under `target`.
fn find_first_for_key<R: Reading>(value: &Json, target: &str) -> (r: Option<R::Out>)
    ensures
        held_by::<R>(r) == find_first(value@, target@, R::of()),
    decreases value,
{
    proof {
        json::lemma_view(*value);
    }
    let ghost read = R::of();
    match value {
        Json::Object(map) => {
            let ghost m = value@->Object_0;
            proof {
                lemma_find_first_in_object(m, target@, read);
            }
            if let Some(v) = member(map, target) {
                let found = R::read(v);
                if found.is_some() {
                    return found;
                }
            }
            for i in 0..map.len()
                invariant
                    m == json::members(map@),
                    value@ == JsonView::Object(m),
                    read == R::of(),
                    decreases_to!(value => map),
                    hit(m, target@, read) is None,
                    find_first(value@, target@, read) == first_hit(
                        objects_in_members(m),
                        target@,
                        read,
                    ),
                    forall|j: int|
                        0 <= j < i ==> find_first((#[trigger] m[j]).1, target@, read) is None,
            {
                assert(m[i as int].1 == map[i as int].1@);
                let found = find_first_for_key::<R>(&map[i].1, target);
                if found.is_some() {
                    proof {
                        lemma_first_hit_in_members(m, i as int, target@, read);
                    }
                    return found;
                }
            }
            proof {
                lemma_first_hit_in_members(m, map.len() as int, target@, read);
            }
            None
        },
        Json::Array(arr) => {
            let ghost a = value@->Array_0;
            for i in 0..arr.len()
                invariant
                    a == json::items(arr@),
                    value@ == JsonView::Array(a),
                    read == R::of(),
                    decreases_to!(value => arr),
                    forall|j: int| 0 <= j < i ==> find_first(#[trigger] a[j], target@, read) is None,
            {
                assert(a[i as int] == arr[i as int]@);
                let found = find_first_for_key::<R>(&arr[i], target);
                if found.is_some() {
                    proof {
                        lemma_first_hit_in_items(a, i as int, target@, read);
                    }
                    return found;
                }
            }
            proof {
                lemma_first_hit_in_items(a, arr.len() as int, target@, read);
            }
            None
        },
        _ => None,
    }
}

/// A string is read as it is.
pub open spec fn read_string() -> spec_fn(JsonView) -> Option<Seq<char>> {
    |v: JsonView| v.as_str()
}

struct Text;

impl Reading for Text {
    type Out = String;

    type Held = Seq<char>;

    spec fn held(out: String) -> Seq<char> {
        out@
    }

    spec fn of() -> spec_fn(JsonView) -> Option<Seq<char>> {
        read_string()
    }

    fn read(v: &Json) -> (r: Option<String>) {
        match v.as_str() {
            Some(s) => Some(s.to_owned()),
            None => None,
        }
    }
}

/// The first string under `target`.
pub fn find_first_string_for_key(value: &Json, target: &str) -> (r: Option<String>)
    ensures
        text::opt_text(r) == find_first(value@, target@, read_string()),
{
    find_first_for_key::<Text>(value, target)
}

/// A count is an integer from zero up, or a string that writes one.
pub open spec fn count_of(v: JsonView) -> Option<usize> {
    match v.as_u64() {
        Some(n) => Some(n as usize),
        None => match v.as_str() {
            Some(s) => text::usize_value(s),
            None => None,
        },
    }
}

/// Reads a count.
pub open spec fn read_usize() -> spec_fn(JsonView) -> Option<usize> {
    |v: JsonView| count_of(v)
}

struct Count;

impl Reading for Count {
    type Out = usize;

    type Held = usize;

    spec fn held(out: usize) -> usize {
        out
    }

    spec fn of() -> spec_fn(JsonView) -> Option<usize> {
        read_usize()
    }

    fn read(v: &Json) -> (r: Option<usize>) {
        if let Some(n) = v.as_u64() {
            return Some(n as usize);
        }
        match v.as_str() {
            Some(s) => parse_usize(s),
            None => None,
        }
    }
}

/// The first count under `target`.
pub fn find_first_usize_for_key(value: &Json, target: &str) -> (r: Option<usize>)
    ensures
        r == find_first(value@, target@, read_usize()),
{
    find_first_for_key::<Count>(value, target)
}

/// A status is an integer that fits an `i64`, or a string that writes one.
pub open spec fn status_of(v: JsonView) -> Option<i64> {
    match v.as_i64() {
        Some(n) => Some(n),
        None => match v.as_str() {
            Some(s) => text::i64_value(s),
            None => None,
        },
    }
}

/// Reads a status.
pub open spec fn read_i64() -> spec_fn(JsonView) -> Option<i64> {
    |v: JsonView| status_of(v)
}

struct Status;

impl Reading for Status {
    type Out = i64;

    type Held = i64;

    spec fn held(out: i64) -> i64 {
        out
    }

    spec fn of() -> spec_fn(JsonView) -> Option<i64> {
        read_i64()
    }

    fn read(v: &Json) -> (r: Option<i64>) {
        if let Some(n) = v.as_i64() {
            return Some(n);
        }
        match v.as_str() {
            Some(s) => parse_i64(s),
            None => None,
        }
    }
}

/// The first status under `target`.
pub fn find_first_i64_for_key(value: &Json, target: &str) -> (r: Option<i64>)
    ensures
        r == find_first(value@, target@, read_i64()),
{
    find_first_for_key::<Status>(value, target)
}

/// The strings among the items of an array, in order.
pub open spec fn strings_among(a: Seq<JsonView>) -> Seq<Seq<char>>
    decreases a.len(),
{
    if a.len() == 0 {
        Seq::empty()
    } else {
        match a.last().as_str() {
            Some(s) => strings_among(a.drop_last()).push(s),
            None => strings_among(a.drop_last()),
        }
    }
}

/// A list of strings is an array with at least one string; its other items are
/// passed over.
pub open spec fn string_list_of(v: JsonView) -> Option<Seq<Seq<char>>> {
    match v.as_array() {
        Some(a) => if strings_among(a).len() > 0 {
            Some(strings_among(a))
        } else {
            None
        },
        None => None,
    }
}

/// The strings among `arr`, in order.
pub fn strings_in(arr: &Vec<Json>) -> (r: Vec<String>)
    ensures
        text::texts(r@) == strings_among(json::items(arr@)),
{
    let mut out: Vec<String> = Vec::new();
    let ghost a = json::items(arr@);
    assert(text::texts(out@) =~= strings_among(a.take(0)));
    for i in 0..arr.len()
        invariant
            a == json::items(arr@),
            text::texts(out@) == strings_among(a.take(i as int)),
    {
        let ghost before = out@;
        assert(a.take(i + 1).drop_last() =~= a.take(i as int));
        if let Some(s) = arr[i].as_str() {
            out.push(s.to_owned());
            assert(text::texts(out@) =~= text::texts(before).push(s@));
        }
    }
    assert(a.take(arr.len() as int) =~= a);
    out
}

/// Reads a list of strings.
pub open spec fn read_string_array() -> spec_fn(JsonView) -> Option<Seq<Seq<char>>> {
    |v: JsonView| string_list_of(v)
}

struct TextList;

impl Reading for TextList {
    type Out = Vec<String>;

    type Held = Seq<Seq<char>>;

    spec fn held(out: Vec<String>) -> Seq<Seq<char>> {
        text::texts(out@)
    }

    spec fn of() -> spec_fn(JsonView) -> Option<Seq<Seq<char>>> {
        read_string_array()
    }

    fn read(v: &Json) -> (r: Option<Vec<String>>) {
        let arr = v.as_array()?;
        let out = strings_in(arr);
        assert(text::texts(out@).len() == out.len());
        if out.is_empty() {
            None
        } else {
            Some(out)
        }
    }
}

/// The first list of strings under `target`.
pub fn find_first_string_array_for_key(value: &Json, target: &str) -> (r: Option<Vec<String>>)
    ensures
        text::opt_texts(r) == find_first(value@, target@, read_string_array()),
{
    find_first_for_key::<TextList>(value, target)
}

/// The texts of a list of keys.
pub open spec fn key_texts(keys: Seq<&str>) -> Seq<Seq<char>> {
    keys.map_values(|k: &str| k@)
}

/// What is found under the first of `keys` under which anything is found.
pub open spec fn find_by_key<T>(
    j: JsonView,
    keys: Seq<Seq<char>>,
    read: spec_fn(JsonView) -> Option<T>,
) -> Option<T>
    decreases keys.len(),
{
    if keys.len() == 0 {
        None
    } else if find_first(j, keys[0], read) is Some {
        find_first(j, keys[0], read)
    } else {
        find_by_key(j, keys.skip(1), read)
    }
}

/// Keys under which nothing is found can be left out.
proof fn lemma_find_by_key_skip<T>(
    j: JsonView,
    keys: Seq<Seq<char>>,
    n: int,
    read: spec_fn(JsonView) -> Option<T>,
)
    requires
        0 <= n <= keys.len(),
        forall|i: int| 0 <= i < n ==> find_first(j, #[trigger] keys[i], read) is None,
    ensures
        find_by_key(j, keys, read) == find_by_key(j, keys.skip(n), read),
    decreases n,
{
    if n > 0 {
        lemma_find_by_key_skip(j, keys.skip(1), n - 1, read);
        assert(keys.skip(1).skip(n - 1) =~= keys.skip(n));
    } else {
        assert(keys.skip(0) =~= keys);
    }
}

/// The first thing that is read under one of `keys`, tried in order.
fn find_for_keys<R: Reading, const N: usize>(value: &Json, keys: [&str; N]) -> (r: Option<R::Out>)
    ensures
        held_by::<R>(r) == find_by_key(value@, key_texts(keys@), R::of()),
{
    let ghost all = key_texts(keys@);
    for i in 0..N
        invariant
            all == key_texts(keys@),
            keys@.len() == N,
            forall|j: int| 0 <= j < i ==> find_first(value@, #[trigger] all[j], R::of()) is None,
    {
        assert(all[i as int] == keys@[i as int]@);
        let found = find_first_for_key::<R>(value, keys[i]);
        if found.is_some() {
            proof {
                lemma_find_by_key_skip(value@, all, i as int, R::of());
                assert(all.skip(i as int)[0] == all[i as int]);
            }
            return found;
        }
    }
    proof {
        lemma_find_by_key_skip(value@, all, N as int, R::of());
    }
    None
}

/// The first string under one of `keys`, tried in order.
pub fn find_string_by_key<const N: usize>(value: &Json, keys: [&str; N]) -> (r: Option<String>)
    ensures
        text::opt_text(r) == find_by_key(value@, key_texts(keys@), read_string()),
{
    find_for_keys::<Text, N>(value, keys)
}

/// The first count under one of `keys`, tried in order.
pub fn find_usize_by_key<const N: usize>(value: &Json, keys: [&str; N]) -> (r: Option<usize>)
    ensures
        r == find_by_key(value@, key_texts(keys@), read_usize()),
{
    find_for_keys::<Count, N>(value, keys)
}

/// The first list of strings under one of `keys`, tried in order.
pub fn find_string_array_by_key<const N: usize>(value: &Json, keys: [&str; N]) -> (r: Option<
    Vec<String>,
>)
    ensures
        text::opt_texts(r) == find_by_key(value@, key_texts(keys@), read_string_array()),
{
    find_for_keys::<TextList, N>(value, keys)
}

/// Whether a book is finished when its member `key` holds the status `n`: the
/// serial status counts from one, every other from zero.
pub open spec fn finished_by_status(key: Seq<char>, n: i64) -> Option<bool> {
    if key == "serial_status"@ {
        if n == 1 {
            Some(false)
        } else if n == 2 {
            Some(true)
        } else {
            None
        }
    } else if n == 0 {
        Some(false)
    } else if n == 1 || n == 2 {
        Some(true)
    } else {
        None
    }
}

/// Whether a book is finished when its member `key` holds the status `n`.
pub fn map_status_to_finished(key: &str, n: i64) -> (r: Option<bool>)
    ensures
        r == finished_by_status(key@, n),
{
    if same_text(key, "serial_status") {
        match n {
            1 => Some(false),
            2 => Some(true),
            _ => None,
        }
    } else {
        match n {
            1 | 2 => Some(true),
            0 => Some(false),
            _ => None,
        }
    }
}

/// The members that tell whether a book is finished, in the order in which they
/// are tried.
pub open spec fn finished_keys() -> Seq<Seq<char>> {
    seq![
        "status"@,
        "serial_status"@,
        "finish_status"@,
        "finishStatus"@,
        "is_finish"@,
        "is_finished"@,
    ]
}

/// What the first status under `key` says of the book.
pub open spec fn finished_under(j: JsonView, key: Seq<char>) -> Option<bool> {
    match find_first(j, key, read_i64()) {
        Some(n) => finished_by_status(key, n),
        None => None,
    }
}

/// What the first of `keys` that says anything says.
pub open spec fn finished_by_keys(j: JsonView, keys: Seq<Seq<char>>) -> Option<bool>
    decreases keys.len(),
{
    if keys.len() == 0 {
        None
    } else if finished_under(j, keys[0]) is Some {
        finished_under(j, keys[0])
    } else {
        finished_by_keys(j, keys.skip(1))
    }
}

/// Whether a document says that the book is finished.
pub open spec fn finished_in(j: JsonView) -> Option<bool> {
    finished_by_keys(j, finished_keys())
}

proof fn lemma_finished_skip(j: JsonView, keys: Seq<Seq<char>>, n: int)
    requires
        0 <= n <= keys.len(),
        forall|i: int| 0 <= i < n ==> finished_under(j, #[trigger] keys[i]) is None,
    ensures
        finished_by_keys(j, keys) == finished_by_keys(j, keys.skip(n)),
    decreases n,
{
    if n > 0 {
        lemma_finished_skip(j, keys.skip(1), n - 1);
        assert(keys.skip(1).skip(n - 1) =~= keys.skip(n));
    } else {
        assert(keys.skip(0) =~= keys);
    }
}

/// Whether a document says that the book is finished.
pub fn find_finished_by_key(value: &Json) -> (r: Option<bool>)
    ensures
        r == finished_in(value@),
{
    let keys: [&str; 6] = [
        "status",
        "serial_status",
        "finish_status",
        "finishStatus",
        "is_finish",
        "is_finished",
    ];
    let ghost all = finished_keys();
    assert(all =~= key_texts(keys@));
    for i in 0..6usize
        invariant
            all == finished_keys(),
            all == key_texts(keys@),
            keys@.len() == 6,
            forall|j: int| 0 <= j < i ==> finished_under(value@, #[trigger] all[j]) is None,
    {
        assert(all[i as int] == keys@[i as int]@);
        if let Some(n) = find_first_i64_for_key(value, keys[i]) {
            if let Some(b) = map_status_to_finished(keys[i], n) {
                proof {
                    lemma_finished_skip(value@, all, i as int);
                    assert(all.skip(i as int)[0] == all[i as int]);
                }
                return Some(b);
            }
        }
    }
    proof {
        lemma_finished_skip(value@, all, 6);
    }
    None
}

/// The search in an object gives what its own member `key` reads as; where that is
/// nothing, it gives what it gives in the first member in which it succeeds, here
/// the member `n`, and nothing where it succeeds in none.
pub proof fn lemma_search_object<T>(
    m: Members,
    n: int,
    key: Seq<char>,
    read: spec_fn(JsonView) -> Option<T>,
)
    requires
        0 <= n <= m.len(),
        forall|i: int| 0 <= i < n ==> find_first((#[trigger] m[i]).1, key, read) is None,
        n < m.len() ==> find_first(m[n].1, key, read) is Some,
    ensures
        find_first(JsonView::Object(m), key, read) == match json::lookup(m, key) {
            Some(v) if read(v) is Some => read(v),
            _ => if n < m.len() {
                find_first(m[n].1, key, read)
            } else {
                None
            },
        },
{
    lemma_find_first_in_object(m, key, read);
    lemma_first_hit_in_members(m, n, key, read);
}

/// The search in an array gives what it gives in the first item in which it
/// succeeds, here the item `n`; the search in anything but an array or an object
/// finds nothing.
pub proof fn lemma_search_array<T>(
    j: JsonView,
    n: int,
    key: Seq<char>,
    read: spec_fn(JsonView) -> Option<T>,
)
    requires
        !(j is Object),
        j matches JsonView::Array(a) ==> {
            &&& 0 <= n <= a.len()
            &&& forall|i: int| 0 <= i < n ==> find_first(#[trigger] a[i], key, read) is None
            &&& n < a.len() ==> find_first(a[n], key, read) is Some
        },
    ensures
        find_first(j, key, read) == match j {
            JsonView::Array(a) if n < a.len() => find_first(a[n], key, read),
            _ => None,
        },
{
    if let JsonView::Array(a) = j {
        lemma_first_hit_in_items(a, n, key, read);
    }
}

/// The search reaches every object at every depth: it finds nothing exactly where no
/// object of the document has anything to read under `key`, and what it finds stands
/// under `key` in an object of the document.
pub proof fn lemma_search_reaches<T>(
    j: JsonView,
    key: Seq<char>,
    read: spec_fn(JsonView) -> Option<T>,
)
    ensures
        find_first(j, key, read) is None <==> forall|m: Members|
            json::inside(JsonView::Object(m), j) ==> match #[trigger] json::lookup(m, key) {
                Some(v) => read(v) is None,
                None => true,
            },
        find_first(j, key, read) is Some ==> exists|m: Members|
            {
                &&& json::inside(JsonView::Object(m), j)
                &&& #[trigger] json::lookup(m, key) is Some
                &&& read(json::lookup(m, key)->0) == find_first(j, key, read)
            },
{
    let all = objects_in(j);
    lemma_first_hit(all, key, read);
    assert forall|m: Members| json::inside(JsonView::Object(m), j) <==> #[trigger] all.contains(
        m,
    ) by {
        lemma_objects_in(j, m);
    }
    if find_first(j, key, read) is None {
        assert forall|m: Members| json::inside(JsonView::Object(m), j) implies match
            #[trigger] json::lookup(m, key) {
            Some(v) => read(v) is None,
            None => true,
        } by {
            assert(all.contains(m));
            let i = choose|i: int| 0 <= i < all.len() && all[i] == m;
            assert(hit(all[i], key, read) is None);
        }
    } else {
        let i = choose|i: int|
            {
                &&& 0 <= i < all.len()
                &&& hit(#[trigger] all[i], key, read) == first_hit(all, key, read)
                &&& forall|k: int| 0 <= k < i ==> hit(#[trigger] all[k], key, read) is None
            };
        assert(all.contains(all[i]));
        assert(json::lookup(all[i], key) is Some);
    }
}

proof fn lemma_objects_in(j: JsonView, x: Members)
    ensures
        objects_in(j).contains(x) <==> json::inside(JsonView::Object(x), j),
    decreases j,
{
    match j {
        JsonView::Object(m) => {
            lemma_objects_in_members(m, x);
            let deep = objects_in_members(m);
            assert((seq![m] + deep)[0] == m);
            if deep.contains(x) {
                let i = choose|i: int| 0 <= i < deep.len() && deep[i] == x;
                assert((seq![m] + deep)[i + 1] == x);
            }
            if (seq![m] + deep).contains(x) && x != m {
                let i = choose|i: int| 0 <= i < (seq![m] + deep).len() && (seq![m] + deep)[i] == x;
                assert(deep[i - 1] == x);
            }
        },
        JsonView::Array(a) => {
            lemma_objects_in_items(a, x);
        },
        _ => {},
    }
}

proof fn lemma_objects_in_members(m: Members, x: Members)
    ensures
        objects_in_members(m).contains(x) <==> exists|i: int|
            0 <= i < m.len() && json::inside(JsonView::Object(x), (#[trigger] m[i]).1),
    decreases m,
{
    if m.len() > 0 {
        let front = m.drop_last();
        lemma_objects_in_members(front, x);
        lemma_objects_in(m.last().1, x);
        vstd::seq_lib::lemma_seq_concat_contains_all_elements(
            objects_in_members(front),
            objects_in(m.last().1),
            x,
        );
        if objects_in_members(front).contains(x) {
            let i = choose|i: int|
                0 <= i < front.len() && json::inside(JsonView::Object(x), (#[trigger] front[i]).1);
            assert(m[i] == front[i]);
        }
        if exists|i: int|
            0 <= i < m.len() && json::inside(JsonView::Object(x), (#[trigger] m[i]).1) {
            let i = choose|i: int|
                0 <= i < m.len() && json::inside(JsonView::Object(x), (#[trigger] m[i]).1);
            if i < front.len() {
                assert(front[i] == m[i]);
            }
        }
        assert(m[m.len() - 1] == m.last());
    }
}

proof fn lemma_objects_in_items(a: Seq<JsonView>, x: Members)
    ensures
        objects_in_items(a).contains(x) <==> exists|i: int|
            0 <= i < a.len() && json::inside(JsonView::Object(x), #[trigger] a[i]),
    decreases a,
{
    if a.len() > 0 {
        let front = a.drop_last();
        lemma_objects_in_items(front, x);
        lemma_objects_in(a.last(), x);
        vstd::seq_lib::lemma_seq_concat_contains_all_elements(
            objects_in_items(front),
            objects_in(a.last()),
            x,
        );
        if objects_in_items(front).contains(x) {
            let i = choose|i: int|
                0 <= i < front.len() && json::inside(JsonView::Object(x), #[trigger] front[i]);
            assert(a[i] == front[i]);
        }
        if exists|i: int| 0 <= i < a.len() && json::inside(JsonView::Object(x), #[trigger] a[i]) {
            let i = choose|i: int|
                0 <= i < a.len() && json::inside(JsonView::Object(x), #[trigger] a[i]);
            if i < front.len() {
                assert(front[i] == a[i]);
            }
        }
        assert(a[a.len() - 1] == a.last());
    }
}

/// A list of keys holds the texts of its keys in their places.
pub proof fn lemma_key_texts(keys: Seq<&str>)
    ensures
        key_texts(keys).len() == keys.len(),
        forall|i: int| 0 <= i < keys.len() ==> #[trigger] key_texts(keys)[i] == keys[i]@,
{
}

/// `r` is what the search finds under the first of `keys` under which it finds
/// anything, and nothing where it finds nothing under any.
pub open spec fn is_first_under<T>(
    j: JsonView,
    keys: Seq<Seq<char>>,
    read: spec_fn(JsonView) -> Option<T>,
    r: Option<T>,
) -> bool {
    match r {
        Some(_) => exists|k: int|
            {
                &&& 0 <= k < keys.len()
                &&& find_first(j, #[trigger] keys[k], read) == r
                &&& forall|i: int| 0 <= i < k ==> find_first(j, #[trigger] keys[i], read) is None
            },
        None => forall|k: int| 0 <= k < keys.len() ==> find_first(j, #[trigger] keys[k], read) is None,
    }
}

/// A key is of account only where the search finds nothing under the keys ahead of
/// it.
pub proof fn lemma_find_by_key<T>(
    j: JsonView,
    keys: Seq<Seq<char>>,
    read: spec_fn(JsonView) -> Option<T>,
)
    ensures
        is_first_under(j, keys, read, find_by_key(j, keys, read)),
    decreases keys.len(),
{
    if keys.len() > 0 {
        if find_first(j, keys[0], read) is Some {
            assert(find_first(j, keys[0], read) == find_by_key(j, keys, read));
        } else {
            let rest = keys.skip(1);
            lemma_find_by_key(j, rest, read);
            if find_by_key(j, rest, read) is Some {
                let k = choose|k: int|
                    {
                        &&& 0 <= k < rest.len()
                        &&& find_first(j, #[trigger] rest[k], read) == find_by_key(j, rest, read)
                        &&& forall|i: int|
                            0 <= i < k ==> find_first(j, #[trigger] rest[i], read) is None
                    };
                assert(keys[k + 1] == rest[k]);
                assert forall|i: int| 0 <= i < k + 1 implies find_first(
                    j,
                    #[trigger] keys[i],
                    read,
                ) is None by {
                    if i > 0 {
                        assert(keys[i] == rest[i - 1]);
                    }
                }
            } else {
                assert forall|i: int| 0 <= i < keys.len() implies find_first(
                    j,
                    #[trigger] keys[i],
                    read,
                ) is None by {
                    if i > 0 {
                        assert(keys[i] == rest[i - 1]);
                    }
                }
            }
        }
    }
}

/// Strings read as they are; an integer from zero up reads as a count, one that fits
/// an `i64` as a status, and a string reads as either where it writes one; nothing
/// else reads as any of these.
pub proof fn lemma_reading(v: JsonView, s: Seq<char>, n: u64, i: i64)
    ensures
        read_string()(v) == Some(s) <==> v == JsonView::Text(s),
        read_usize()(JsonView::Text(s)) == text::usize_value(s),
        read_usize()(JsonView::Number(NumberView::Unsigned(n))) == Some(n as usize),
        read_usize()(v) is Some ==> v is Text || (v is Number && v->Number_0 is Unsigned),
        read_i64()(JsonView::Text(s)) == text::i64_value(s),
        read_i64()(JsonView::Number(NumberView::Negative(i))) == Some(i),
        i >= 0 ==> read_i64()(JsonView::Number(NumberView::Unsigned(i as u64))) == Some(i),
        n > i64::MAX ==> read_i64()(JsonView::Number(NumberView::Unsigned(n))) is None,
        read_i64()(v) is Some ==> v is Text || (v is Number && !(v->Number_0 is Real)),
{
}

/// An array reads as the strings among its items, in order, where it has any; nothing
/// else reads as a list of strings.
pub proof fn lemma_reading_lists(v: JsonView, a: Seq<JsonView>)
    ensures
        !(v is Array) ==> read_string_array()(v) is None,
        ({
            let strings = a.filter_map(
                |x: JsonView|
                    match x {
                        JsonView::Text(s) => Some(s),
                        _ => None,
                    },
            );
            &&& strings_among(a) == strings
            &&& read_string_array()(JsonView::Array(a)) == if strings.len() > 0 {
                Some(strings)
            } else {
                None
            }
        }),
{
    lemma_strings_among(
        a,
        |x: JsonView|
            match x {
                JsonView::Text(s) => Some(s),
                _ => None,
            },
    );
}

proof fn lemma_strings_among(a: Seq<JsonView>, f: spec_fn(JsonView) -> Option<Seq<char>>)
    requires
        forall|x: JsonView| #[trigger] f(x) == x.as_str(),
    ensures
        strings_among(a) == a.filter_map(f),
    decreases a.len(),
{
    reveal(Seq::filter_map);
    if a.len() > 0 {
        lemma_strings_among(a.drop_last(), f);
        if let Some(s) = f(a.last()) {
            assert(a.drop_last().filter_map(f) + seq![s] =~= a.drop_last().filter_map(f).push(s));
        }
    }
}

/// A serial status says running with one and finished with two; any other status
/// says running with zero and finished with one and two; no other number says
/// anything.
pub proof fn lemma_finished_by_status(key: Seq<char>, n: i64, b: bool)
    ensures
        key == "serial_status"@ ==> (finished_by_status(key, n) == Some(b) <==> (n == 1 && !b) || (n
            == 2 && b)),
        key != "serial_status"@ ==> (finished_by_status(key, n) == Some(b) <==> (n == 0 && !b) || (n
            == 1 && b) || (n == 2 && b)),
{
}

/// What a document says of the book being finished is what the first status says
/// under the first name whose first status says anything; it says nothing where there
/// is no such name.
pub proof fn lemma_finished_in(j: JsonView)
    ensures
        ({
            let keys = seq![
                "status"@,
                "serial_status"@,
                "finish_status"@,
                "finishStatus"@,
                "is_finish"@,
                "is_finished"@,
            ];
            match finished_in(j) {
                Some(b) => exists|k: int|
                    {
                        &&& 0 <= k < 6
                        &&& find_first(j, #[trigger] keys[k], read_i64()) matches Some(n)
                            && finished_by_status(keys[k], n) == Some(b)
                        &&& forall|i: int|
                            0 <= i < k ==> (find_first(j, #[trigger] keys[i], read_i64()) matches Some(
                                n,
                            ) ==> finished_by_status(keys[i], n) is None)
                    },
                None => forall|k: int|
                    0 <= k < 6 ==> (find_first(j, #[trigger] keys[k], read_i64()) matches Some(n)
                        ==> finished_by_status(keys[k], n) is None),
            }
        }),
{
    lemma_finished_by_keys(j, finished_keys());
    let keys = finished_keys();
    if let Some(b) = finished_in(j) {
        let k = choose|k: int|
            {
                &&& 0 <= k < keys.len()
                &&& finished_under(j, #[trigger] keys[k]) == finished_by_keys(j, keys)
                &&& forall|i: int| 0 <= i < k ==> finished_under(j, #[trigger] keys[i]) is None
            };
        assert(find_first(j, keys[k], read_i64()) is Some);
        assert forall|i: int| 0 <= i < k implies (find_first(j, #[trigger] keys[i], read_i64())
            matches Some(n) ==> finished_by_status(keys[i], n) is None) by {
            assert(finished_under(j, keys[i]) is None);
        }
    } else {
        assert forall|k: int| 0 <= k < 6 implies (find_first(j, #[trigger] keys[k], read_i64())
            matches Some(n) ==> finished_by_status(keys[k], n) is None) by {
            assert(finished_under(j, keys[k]) is None);
        }
    }
}

proof fn lemma_finished_by_keys(j: JsonView, keys: Seq<Seq<char>>)
    ensures
        match finished_by_keys(j, keys) {
            Some(_) => exists|k: int|
                {
                    &&& 0 <= k < keys.len()
                    &&& finished_under(j, #[trigger] keys[k]) == finished_by_keys(j, keys)
                    &&& forall|i: int| 0 <= i < k ==> finished_under(j, #[trigger] keys[i]) is None
                },
            None => forall|k: int|
                0 <= k < keys.len() ==> finished_under(j, #[trigger] keys[k]) is None,
        },
    decreases keys.len(),
{
    if keys.len() > 0 {
        if finished_under(j, keys[0]) is Some {
            assert(finished_under(j, keys[0]) == finished_by_keys(j, keys));
        } else {
            let rest = keys.skip(1);
            lemma_finished_by_keys(j, rest);
            if finished_by_keys(j, rest) is Some {
                let k = choose|k: int|
                    {
                        &&& 0 <= k < rest.len()
                        &&& finished_under(j, #[trigger] rest[k]) == finished_by_keys(j, rest)
                        &&& forall|i: int|
                            0 <= i < k ==> finished_under(j, #[trigger] rest[i]) is None
                    };
                assert(keys[k + 1] == rest[k]);
                assert forall|i: int| 0 <= i < k + 1 implies finished_under(
                    j,
                    #[trigger] keys[i],
                ) is None by {
                    if i > 0 {
                        assert(keys[i] == rest[i - 1]);
                    }
                }
            } else {
                assert forall|i: int| 0 <= i < keys.len() implies finished_under(
                    j,
                    #[trigger] keys[i],
                ) is None by {
                    if i > 0 {
                        assert(keys[i] == rest[i - 1]);
                    }
                }
            }
        }
    }
}

} // verus!
