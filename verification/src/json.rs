use vstd::prelude::*;

use crate::text::{self, same_text};

verus! {

/// A JSON number.
#[derive(Debug, PartialEq, Eq)]
pub enum JsonNumber {
    /// An integer from zero up.
    Unsigned(u64),
    /// An integer below zero.
    Negative(i64),
    /// Any other number, as it prints.
    Real(String),
}

/// A JSON document. The members of an object stand in the order in which they
/// are walked.
#[derive(Debug, PartialEq, Eq)]
pub enum Json {
    Null,
    Bool(bool),
    Number(JsonNumber),
    Text(String),
    Array(Vec<Json>),
    Object(Vec<(String, Json)>),
}

/// What a [`JsonNumber`] holds.
pub enum NumberView {
    Unsigned(u64),
    Negative(i64),
    Real(Seq<char>),
}

/// What a [`Json`] holds.
pub enum JsonView {
    Null,
    Bool(bool),
    Number(NumberView),
    Text(Seq<char>),
    Array(Seq<JsonView>),
    Object(Seq<(Seq<char>, JsonView)>),
}

/// The members of an object, in order.
pub type Members = Seq<(Seq<char>, JsonView)>;

impl View for JsonNumber {
    type V = NumberView;

    open spec fn view(&self) -> NumberView {
        match self {
            JsonNumber::Unsigned(n) => NumberView::Unsigned(*n),
            JsonNumber::Negative(n) => NumberView::Negative(*n),
            JsonNumber::Real(s) => NumberView::Real(s@),
        }
    }
}

impl View for Json {
    type V = JsonView;

    open spec fn view(&self) -> JsonView {
        json_view(*self)
    }
}

/// The view of a document, member by member.
pub open spec fn json_view(j: Json) -> JsonView
    decreases j,
{
    match j {
        Json::Null => JsonView::Null,
        Json::Bool(b) => JsonView::Bool(b),
        Json::Number(n) => JsonView::Number(n@),
        Json::Text(s) => JsonView::Text(s@),
        Json::Array(a) => JsonView::Array(
            Seq::new(
                a@.len(),
                |i: int|
                    if 0 <= i < a@.len() {
                        json_view(a@[i])
                    } else {
                        JsonView::Null
                    },
            ),
        ),
        Json::Object(m) => JsonView::Object(
            Seq::new(
                m@.len(),
                |i: int|
                    if 0 <= i < m@.len() {
                        (m@[i].0@, json_view(m@[i].1))
                    } else {
                        (Seq::empty(), JsonView::Null)
                    },
            ),
        ),
    }
}

/// What a list of documents holds.
pub open spec fn items(a: Seq<Json>) -> Seq<JsonView> {
    Seq::new(a.len(), |i: int| a[i]@)
}

/// What a list of members holds.
pub open spec fn members(m: Seq<(String, Json)>) -> Members {
    Seq::new(m.len(), |i: int| (m[i].0@, m[i].1@))
}

/// The view of an array is made of the views of its items, and that of an object
/// of those of its members.
pub proof fn lemma_view(j: Json)
    ensures
        j matches Json::Array(a) ==> j@ == JsonView::Array(items(a@)),
        j matches Json::Object(m) ==> j@ == JsonView::Object(members(m@)),
{
    match j {
        Json::Array(a) => {
            assert(j@->Array_0 =~= items(a@));
        },
        Json::Object(m) => {
            assert(j@->Object_0 =~= members(m@));
        },
        _ => {},
    }
}

impl Clone for Json {
    fn clone(&self) -> (r: Self)
        ensures
            r@ == self@,
        decreases self,
    {
        match self {
            Json::Null => Json::Null,
            Json::Bool(b) => Json::Bool(*b),
            Json::Number(n) => Json::Number(match n {
                JsonNumber::Unsigned(u) => JsonNumber::Unsigned(*u),
                JsonNumber::Negative(i) => JsonNumber::Negative(*i),
                JsonNumber::Real(s) => JsonNumber::Real(s.clone()),
            }),
            Json::Text(s) => Json::Text(s.clone()),
            Json::Array(a) => {
                let mut out: Vec<Json> = Vec::new();
                for i in 0..a.len()
                    invariant
                        out.len() == i,
                        decreases_to!(self => a),
                        forall|j: int| 0 <= j < i ==> #[trigger] out[j]@ == a[j]@,
                {
                    out.push(a[i].clone());
                }
                let r = Json::Array(out);
                proof {
                    lemma_view(r);
                    lemma_view(*self);
                    assert(items(out@) =~= items(a@));
                }
                r
            },
            Json::Object(m) => {
                let mut out: Vec<(String, Json)> = Vec::new();
                for i in 0..m.len()
                    invariant
                        out.len() == i,
                        decreases_to!(self => m),
                        forall|j: int| 0 <= j < i ==> (#[trigger] out[j]).0@ == m[j].0@ && out[j].1@ == m[j].1@,
                {
                    out.push((m[i].0.clone(), m[i].1.clone()));
                }
                let r = Json::Object(out);
                proof {
                    lemma_view(r);
                    lemma_view(*self);
                    assert(members(out@) =~= members(m@));
                }
                r
            },
        }
    }
}

/// The value of the first member called `key`.
pub open spec fn lookup(m: Members, key: Seq<char>) -> Option<JsonView>
    decreases m.len(),
{
    if m.len() == 0 {
        None
    } else if m[0].0 == key {
        Some(m[0].1)
    } else {
        lookup(m.skip(1), key)
    }
}

impl JsonView {
    /// The member called `key`, where this is an object that has one.
    pub open spec fn get(self, key: Seq<char>) -> Option<JsonView> {
        match self {
            JsonView::Object(m) => lookup(m, key),
            _ => None,
        }
    }

    pub open spec fn as_str(self) -> Option<Seq<char>> {
        match self {
            JsonView::Text(s) => Some(s),
            _ => None,
        }
    }

    pub open spec fn as_array(self) -> Option<Seq<JsonView>> {
        match self {
            JsonView::Array(a) => Some(a),
            _ => None,
        }
    }

    pub open spec fn as_u64(self) -> Option<u64> {
        match self {
            JsonView::Number(NumberView::Unsigned(n)) => Some(n),
            _ => None,
        }
    }

    /// The integer here, where it fits an `i64`.
    pub open spec fn as_i64(self) -> Option<i64> {
        match self {
            JsonView::Number(NumberView::Unsigned(n)) => if n <= i64::MAX {
                Some(n as i64)
            } else {
                None
            },
            JsonView::Number(NumberView::Negative(n)) => Some(n),
            _ => None,
        }
    }
}

/// A document in which no object has two members of one name and a negative
/// integer is below zero.
pub open spec fn well_formed(j: JsonView) -> bool
    decreases j,
{
    match j {
        JsonView::Number(NumberView::Negative(n)) => n < 0,
        JsonView::Array(a) => forall|i: int| 0 <= i < a.len() ==> well_formed(#[trigger] a[i]),
        JsonView::Object(m) => {
            &&& forall|i: int, k: int| 0 <= i < k < m.len() ==> (#[trigger] m[i]).0 != (#[trigger] m[k]).0
            &&& forall|i: int| 0 <= i < m.len() ==> well_formed((#[trigger] m[i]).1)
        },
        _ => true,
    }
}

/// In an object without a repeated name, looking a name up gives the value of
/// the one member that has it.
pub proof fn lemma_lookup_unique(m: Members, key: Seq<char>, value: JsonView)
    requires
        well_formed(JsonView::Object(m)),
    ensures
        lookup(m, key) == Some(value) <==> m.contains((key, value)),
        lookup(m, key) is None <==> forall|i: int| 0 <= i < m.len() ==> (#[trigger] m[i]).0 != key,
    decreases m.len(),
{
    if m.len() > 0 {
        let rest = m.skip(1);
        let whole = JsonView::Object(m);
        assert(whole->Object_0 == m);
        assert(well_formed(whole));
        assert forall|i: int, k: int| 0 <= i < k < rest.len() implies (#[trigger] rest[i]).0 != (
        #[trigger] rest[k]).0 by {
            assert(rest[i] == m[i + 1] && rest[k] == m[k + 1]);
        }
        assert forall|i: int| 0 <= i < rest.len() implies well_formed((#[trigger] rest[i]).1) by {
            assert(rest[i] == m[i + 1]);
        }
        lemma_lookup_unique(rest, key, value);
        assert forall|i: int| 0 < i < m.len() implies #[trigger] m[i] == rest[i - 1] by {}
        if m[0].0 == key {
            assert(forall|i: int| 0 < i < m.len() ==> (#[trigger] m[i]).0 != m[0].0);
        } else {
            if m.contains((key, value)) {
                let i = choose|i: int| 0 <= i < m.len() && m[i] == (key, value);
                assert(rest[i - 1] == m[i]);
            }
            if rest.contains((key, value)) {
                let i = choose|i: int| 0 <= i < rest.len() && rest[i] == (key, value);
                assert(rest[i] == m[i + 1]);
            }
            if forall|i: int| 0 <= i < m.len() ==> (#[trigger] m[i]).0 != key {
                assert forall|i: int| 0 <= i < rest.len() implies (#[trigger] rest[i]).0 != key by {
                    assert(rest[i] == m[i + 1]);
                }
            }
        }
    }
}

/// Passing over members that are not called `key` changes no lookup.
proof fn lemma_lookup_skip(m: Members, key: Seq<char>, n: int)
    requires
        0 <= n <= m.len(),
        forall|i: int| 0 <= i < n ==> (#[trigger] m[i]).0 != key,
    ensures
        lookup(m, key) == lookup(m.skip(n), key),
    decreases n,
{
    if n > 0 {
        lemma_lookup_skip(m.skip(1), key, n - 1);
        assert(m.skip(1).skip(n - 1) =~= m.skip(n));
    } else {
        assert(m.skip(0) =~= m);
    }
}

/// The value of the first member called `key`.
pub fn member<'a>(m: &'a Vec<(String, Json)>, key: &str) -> (r: Option<&'a Json>)
    ensures
        r is Some <==> lookup(members(m@), key@) is Some,
        r is Some ==> lookup(members(m@), key@) == Some(r->0@),
{
    for i in 0..m.len()
        invariant
            forall|j: int| 0 <= j < i ==> (#[trigger] members(m@)[j]).0 != key@,
    {
        if same_text(m[i].0.as_str(), key) {
            proof {
                lemma_lookup_skip(members(m@), key@, i as int);
                assert(members(m@).skip(i as int)[0] == members(m@)[i as int]);
            }
            return Some(&m[i].1);
        }
    }
    proof {
        lemma_lookup_skip(members(m@), key@, m.len() as int);
    }
    None
}

impl Json {
    /// The member called `key`, where this is an object that has one.
    pub fn get(&self, key: &str) -> (r: Option<&Json>)
        ensures
            r is Some <==> self@.get(key@) is Some,
            r is Some ==> self@.get(key@) == Some(r->0@),
    {
        proof {
            lemma_view(*self);
        }
        match self {
            Json::Object(m) => member(m, key),
            _ => None,
        }
    }

    pub fn as_str(&self) -> (r: Option<&str>)
        ensures
            r is Some <==> self@.as_str() is Some,
            r is Some ==> self@.as_str() == Some(r->0@),
    {
        match self {
            Json::Text(s) => Some(s.as_str()),
            _ => None,
        }
    }

    pub fn as_array(&self) -> (r: Option<&Vec<Json>>)
        ensures
            r is Some <==> self@.as_array() is Some,
            r is Some ==> self@.as_array() == Some(items(r->0@)),
    {
        proof {
            lemma_view(*self);
        }
        match self {
            Json::Array(a) => Some(a),
            _ => None,
        }
    }

    pub fn as_u64(&self) -> (r: Option<u64>)
        ensures
            r == self@.as_u64(),
    {
        match self {
            Json::Number(JsonNumber::Unsigned(n)) => Some(*n),
            _ => None,
        }
    }

    pub fn as_i64(&self) -> (r: Option<i64>)
        ensures
            r == self@.as_i64(),
    {
        match self {
            Json::Number(JsonNumber::Unsigned(n)) => if *n <= i64::MAX as u64 {
                Some(*n as i64)
            } else {
                None
            },
            Json::Number(JsonNumber::Negative(n)) => Some(*n),
            _ => None,
        }
    }
}

/// A copy of a list of documents.
pub fn copy_items(a: &Vec<Json>) -> (r: Vec<Json>)
    ensures
        items(r@) == items(a@),
{
    let mut out: Vec<Json> = Vec::new();
    for i in 0..a.len()
        invariant
            out.len() == i,
            forall|j: int| 0 <= j < i ==> #[trigger] out[j]@ == a[j]@,
    {
        out.push(a[i].clone());
    }
    assert(items(out@) =~= items(a@));
    out
}

/// `serde_json::Value`, a parsed document.
#[verifier::external_type_specification]
#[verifier::external_body]
pub struct ExValue(serde_json::Value);

/// What a `serde_json::Value` holds: the members of an object in the order in
/// which `serde_json::Map` walks them, a number that is no integer as it prints.
pub uninterp spec fn value_view(v: serde_json::Value) -> JsonView;

/// The document that `serde_json::from_str::<serde_json::Value>` reads in a text;
/// `None` where the text is refused.
pub uninterp spec fn json_document(text: Seq<char>) -> Option<JsonView>;

/// The outermost layer of a `serde_json::Value`. A number comes with what
/// `as_u64` and `as_i64` make of it and as it prints.
pub enum ValueLayer {
    Null,
    Bool(bool),
    Number(Option<u64>, Option<i64>, String),
    Text(String),
    Array(Vec<serde_json::Value>),
    Object(Vec<(String, serde_json::Value)>),
}

/// The document whose outermost layer this is.
pub open spec fn layer_view(layer: ValueLayer) -> JsonView {
    match layer {
        ValueLayer::Null => JsonView::Null,
        ValueLayer::Bool(b) => JsonView::Bool(b),
        ValueLayer::Number(Some(n), _, _) => JsonView::Number(NumberView::Unsigned(n)),
        ValueLayer::Number(None, Some(n), _) => JsonView::Number(NumberView::Negative(n)),
        ValueLayer::Number(None, None, s) => JsonView::Number(NumberView::Real(s@)),
        ValueLayer::Text(s) => JsonView::Text(s@),
        ValueLayer::Array(a) => JsonView::Array(Seq::new(a@.len(), |i: int| value_view(a@[i]))),
        ValueLayer::Object(m) => JsonView::Object(
            Seq::new(m@.len(), |i: int| (m@[i].0@, value_view(m@[i].1))),
        ),
    }
}

/// Takes a `serde_json::Value` apart by its variant. An integer from zero up has
/// `as_u64`, one below zero has `as_i64` alone, no other number has either; the
/// names in a `serde_json::Map` differ.
#[verifier::external_body]
fn value_layer(v: serde_json::Value) -> (r: ValueLayer)
    ensures
        layer_view(r) == value_view(v),
        r matches ValueLayer::Number(None, Some(n), _) ==> n < 0,
        r matches ValueLayer::Object(m) ==> forall|i: int, k: int|
            0 <= i < k < m.len() ==> (#[trigger] m[i]).0@ != (#[trigger] m[k]).0@,
{
    match v {
        serde_json::Value::Null => ValueLayer::Null,
        serde_json::Value::Bool(b) => ValueLayer::Bool(b),
        serde_json::Value::Number(n) => ValueLayer::Number(n.as_u64(), n.as_i64(), n.to_string()),
        serde_json::Value::String(s) => ValueLayer::Text(s),
        serde_json::Value::Array(a) => ValueLayer::Array(a),
        serde_json::Value::Object(m) => ValueLayer::Object(m.into_iter().collect()),
    }
}

/// `serde_json::from_str::<serde_json::Value>`.
#[verifier::external_body]
fn parse_value(text: &str) -> (r: Option<serde_json::Value>)
    ensures
        r is Some <==> json_document(text@) is Some,
        r is Some ==> json_document(text@) == Some(value_view(r->0)),
{
    serde_json::from_str::<serde_json::Value>(text).ok()
}

/// The document that a `serde_json::Value` holds.
pub fn json_from_value(v: serde_json::Value) -> (r: Json)
    ensures
        r@ == value_view(v),
        well_formed(r@),
    decreases value_view(v),
{
    let ghost whole = value_view(v);
    match value_layer(v) {
        ValueLayer::Null => Json::Null,
        ValueLayer::Bool(b) => Json::Bool(b),
        ValueLayer::Number(Some(n), _, _) => Json::Number(JsonNumber::Unsigned(n)),
        ValueLayer::Number(None, Some(n), _) => Json::Number(JsonNumber::Negative(n)),
        ValueLayer::Number(None, None, s) => Json::Number(JsonNumber::Real(s)),
        ValueLayer::Text(s) => Json::Text(s),
        ValueLayer::Array(a) => {
            let mut out: Vec<Json> = Vec::new();
            for x in it: a
                invariant
                    it.seq() == a@,
                    whole == value_view(v),
                    whole == layer_view(ValueLayer::Array(a)),
                    out.len() == it.index(),
                    forall|j: int|
                        0 <= j < it.index() ==> #[trigger] out[j]@ == value_view(a@[j])
                            && well_formed(out[j]@),
            {
                assert(whole->Array_0[it.index()] == value_view(x));
                assert(decreases_to!(whole => whole->Array_0[it.index()]));
                out.push(json_from_value(x));
            }
            let r = Json::Array(out);
            proof {
                lemma_view(r);
                assert(items(out@) =~= whole->Array_0);
            }
            r
        },
        ValueLayer::Object(m) => {
            let mut out: Vec<(String, Json)> = Vec::new();
            for x in it: m
                invariant
                    it.seq() == m@,
                    whole == value_view(v),
                    whole == layer_view(ValueLayer::Object(m)),
                    out.len() == it.index(),
                    forall|j: int|
                        0 <= j < it.index() ==> (#[trigger] out[j]).0@ == m@[j].0@ && out[j].1@ == value_view(
                            m@[j].1,
                        ) && well_formed(out[j].1@),
            {
                assert(whole->Object_0[it.index()].1 == value_view(x.1));
                assert(decreases_to!(whole => whole->Object_0[it.index()].1));
                out.push((x.0, json_from_value(x.1)));
            }
            let r = Json::Object(out);
            proof {
                lemma_view(r);
                assert(members(out@) =~= whole->Object_0);
            }
            r
        },
    }
}

/// What an optional document holds.
pub open spec fn opt_json(j: Option<Json>) -> Option<JsonView> {
    match j {
        Some(v) => Some(v@),
        None => None,
    }
}

/// The document in `text`, where it is one.
pub fn parse_json(text: &str) -> (r: Option<Json>)
    ensures
        opt_json(r) == json_document(text@),
        r matches Some(j) ==> well_formed(j@),
{
    match parse_value(text) {
        Some(v) => Some(json_from_value(v)),
        None => None,
    }
}

/// The string that `serde_json::from_str::<String>` reads in a text; `None` where
/// the text is refused.
pub uninterp spec fn json_string(text: Seq<char>) -> Option<Seq<char>>;

/// `serde_json::from_str::<String>`.
#[verifier::external_body]
pub(crate) fn parse_json_string(text: &str) -> (r: Option<String>)
    ensures
        text::opt_text(r) == json_string(text@),
{
    serde_json::from_str::<String>(text).ok()
}

/// The document that `serde_json::from_slice::<serde_json::Value>` reads in bytes;
/// `None` where they are refused.
pub uninterp spec fn bytes_document(bytes: Seq<u8>) -> Option<JsonView>;

/// The bytes that `serde_json::to_vec` writes for a document.
pub uninterp spec fn document_bytes(j: JsonView) -> Seq<u8>;

/// `serde_json::from_slice::<serde_json::Value>`.
#[verifier::external_body]
pub(crate) fn parse_value_bytes(bytes: &Vec<u8>) -> (r: Option<serde_json::Value>)
    ensures
        r is Some <==> bytes_document(bytes@) is Some,
        r is Some ==> bytes_document(bytes@) == Some(value_view(r->0)),
{
    serde_json::from_slice::<serde_json::Value>(bytes).ok()
}

/// A document whose numbers are integers and whose arrays and objects are nested
/// at most `depth` deep.
pub open spec fn is_plain(j: JsonView, depth: nat) -> bool
    decreases depth, j,
{
    match j {
        JsonView::Number(NumberView::Real(_)) => false,
        JsonView::Array(a) => depth > 0 && forall|i: int|
            0 <= i < a.len() ==> is_plain(#[trigger] a[i], (depth - 1) as nat),
        JsonView::Object(m) => depth > 0 && forall|i: int|
            0 <= i < m.len() ==> is_plain((#[trigger] m[i]).1, (depth - 1) as nat),
        _ => true,
    }
}

/// How deep `serde_json` reads arrays and objects that are nested.
pub open spec fn nesting() -> nat {
    127
}

/// `serde_json::to_vec` for a `serde_json::Value`, which does not fail: every
/// value can be written, and so can every member name. What it writes,
/// `serde_json` reads back as the same value where all numbers are integers and
/// the nesting is no deeper than it reads; nothing is said of what comes back of
/// another number, which may be changed in its last place.
#[verifier::external_body]
pub(crate) fn encode_value(v: &serde_json::Value) -> (r: Option<Vec<u8>>)
    ensures
        r is Some,
        r matches Some(b) ==> b@ == document_bytes(value_view(*v)),
        r matches Some(b) ==> is_plain(value_view(*v), nesting()) ==> bytes_document(b@) == Some(
            value_view(*v),
        ),
{
    serde_json::to_vec(v).ok()
}

/// The document in `bytes`, where it is one.
pub fn parse_json_bytes(bytes: &Vec<u8>) -> (r: Option<Json>)
    ensures
        opt_json(r) == bytes_document(bytes@),
        r matches Some(j) ==> well_formed(j@),
{
    match parse_value_bytes(bytes) {
        Some(v) => Some(json_from_value(v)),
        None => None,
    }
}

/// `v` is `j`, or stands somewhere in it: in an item of an array, or in the value of
/// a member of an object, at any depth.
pub open spec fn inside(v: JsonView, j: JsonView) -> bool
    decreases j,
{
    v == j || match j {
        JsonView::Array(a) => exists|i: int| 0 <= i < a.len() && inside(v, #[trigger] a[i]),
        JsonView::Object(m) => exists|i: int| 0 <= i < m.len() && inside(v, (#[trigger] m[i]).1),
        _ => false,
    }
}

/// What stands in something that stands in a document stands in the document.
pub proof fn lemma_inside(u: JsonView, v: JsonView, j: JsonView)
    requires
        inside(u, v),
        inside(v, j),
    ensures
        inside(u, j),
    decreases j,
{
    if v != j {
        match j {
            JsonView::Array(a) => {
                let i = choose|i: int| 0 <= i < a.len() && inside(v, #[trigger] a[i]);
                lemma_inside(u, v, a[i]);
            },
            JsonView::Object(m) => {
                let i = choose|i: int| 0 <= i < m.len() && inside(v, (#[trigger] m[i]).1);
                lemma_inside(u, v, m[i].1);
            },
            _ => {},
        }
    }
}

/// Looking a name up gives the value of the first member that has it, and nothing
/// exactly where no member has it.
pub proof fn lemma_lookup_first(m: Members, key: Seq<char>)
    ensures
        lookup(m, key) is None <==> forall|i: int| 0 <= i < m.len() ==> (#[trigger] m[i]).0 != key,
        lookup(m, key) is Some ==> exists|i: int|
            {
                &&& 0 <= i < m.len()
                &&& (#[trigger] m[i]).0 == key
                &&& lookup(m, key) == Some(m[i].1)
                &&& forall|k: int| 0 <= k < i ==> (#[trigger] m[k]).0 != key
            },
    decreases m.len(),
{
    if m.len() > 0 {
        let rest = m.skip(1);
        lemma_lookup_first(rest, key);
        assert forall|i: int| 0 < i < m.len() implies #[trigger] m[i] == rest[i - 1] by {}
        if m[0].0 != key {
            if lookup(rest, key) is Some {
                let i = choose|i: int|
                    {
                        &&& 0 <= i < rest.len()
                        &&& (#[trigger] rest[i]).0 == key
                        &&& lookup(rest, key) == Some(rest[i].1)
                        &&& forall|k: int| 0 <= k < i ==> (#[trigger] rest[k]).0 != key
                    };
                assert(m[i + 1] == rest[i]);
                assert forall|k: int| 0 <= k < i + 1 implies (#[trigger] m[k]).0 != key by {
                    if k > 0 {
                        assert(m[k] == rest[k - 1]);
                    }
                }
            } else {
                assert forall|i: int| 0 <= i < m.len() implies (#[trigger] m[i]).0 != key by {
                    if i > 0 {
                        assert(m[i] == rest[i - 1]);
                    }
                }
            }
        } else {
            assert(m[0].0 == key);
        }
    }
}

/// Only objects have members, only strings are strings, only arrays are arrays.
pub proof fn lemma_parts(j: JsonView, key: Seq<char>, m: Members, s: Seq<char>, a: Seq<JsonView>)
    ensures
        JsonView::Object(m).get(key) == lookup(m, key),
        !(j is Object) ==> j.get(key) is None,
        j.as_str() == Some(s) <==> j == JsonView::Text(s),
        j.as_array() == Some(a) <==> j == JsonView::Array(a),
{
}

/// A document gives the integer that it is, wherever it fits, and no other document
/// gives one.
pub proof fn lemma_integers(j: JsonView, u: u64, n: i64)
    requires
        well_formed(j),
    ensures
        j.as_u64() == Some(u) <==> j == JsonView::Number(NumberView::Unsigned(u)),
        j.as_i64() == Some(n) <==> j == JsonView::Number(
            if n < 0 {
                NumberView::Negative(n)
            } else {
                NumberView::Unsigned(n as u64)
            },
        ),
{
}

/// The view of a document that is no array and no object is the document.
pub proof fn lemma_scalar_view(j: Json)
    ensures
        j is Null <==> j@ is Null,
        j matches Json::Bool(b) ==> j@ == JsonView::Bool(b),
        j matches Json::Text(s) ==> j@ == JsonView::Text(s@),
        j matches Json::Number(JsonNumber::Unsigned(n)) ==> j@ == JsonView::Number(
            NumberView::Unsigned(n),
        ),
        j matches Json::Number(JsonNumber::Negative(n)) ==> j@ == JsonView::Number(
            NumberView::Negative(n),
        ),
        j matches Json::Number(JsonNumber::Real(s)) ==> j@ == JsonView::Number(
            NumberView::Real(s@),
        ),
{
}

/// An optional document holds the document.
pub proof fn lemma_opt_json(j: Json)
    ensures
        opt_json(Some(j)) == Some(j@),
        opt_json(None) is None,
{
}

/// The views of items and members stand in the places of the items and members.
pub proof fn lemma_item_views(a: Seq<Json>, m: Seq<(String, Json)>)
    ensures
        items(a).len() == a.len(),
        forall|i: int| 0 <= i < a.len() ==> #[trigger] items(a)[i] == a[i]@,
        members(m).len() == m.len(),
        forall|i: int| 0 <= i < m.len() ==> #[trigger] members(m)[i] == (m[i].0@, m[i].1@),
{
}

} // verus!
