use vstd::prelude::*;

use crate::json::{self, parse_json, parse_json_string, Json, JsonView};
use crate::pattern::{self, capture_all, capture_first, escape};
use crate::text::{self, contains, joined, joined3, parse_usize, starts_with};

verus! {

/// The script that carries the state of the page.
pub const NEXT_DATA: &'static str = r#"(?s)<script[^>]*id="__NEXT_DATA__"[^>]*>(.*?)</script>"#;

/// The statement that sets the first state of the page.
pub const INITIAL_STATE: &'static str = r#"(?s)window\.__INITIAL_STATE__\s*=\s*(\{.*?\})\s*;"#;

/// A grey label, which is a tag of the book.
pub const GREY_LABEL: &'static str = r#"<span[^>]*class="info-label-grey"[^>]*>([^<]+)</span>"#;

/// A yellow label, which tells whether the book is finished.
pub const YELLOW_LABEL: &'static str = r#"<span[^>]*class="info-label-yellow"[^>]*>([^<]+)</span>"#;

/// A block of linked data.
pub const LINKED_DATA: &'static str = r#"<script[^>]*type="application/ld\+json"[^>]*>\s*([\s\S]*?)\s*</script>"#;

/// What a pattern captures in a page, without the white space around it.
pub open spec fn trimmed_group(pattern: Seq<char>, html: Seq<char>) -> Option<Seq<char>> {
    match pattern::first_group(pattern, html) {
        Some(s) => Some(text::trimmed(s)),
        None => None,
    }
}

/// The text of the script that carries the state of the page.
pub fn extract_next_data_json(html: &str) -> (r: Option<String>)
    ensures
        text::opt_text(r) == trimmed_group(NEXT_DATA@, html@),
        text::opt_text(r) == trimmed_group(
            r#"(?s)<script[^>]*id="__NEXT_DATA__"[^>]*>(.*?)</script>"#@,
            html@,
        ),
{
    let group = capture_first(NEXT_DATA, html)?;
    Some(group.as_str().trim().to_owned())
}

/// The text that sets the first state of the page.
pub fn extract_initial_state_json(html: &str) -> (r: Option<String>)
    ensures
        text::opt_text(r) == trimmed_group(INITIAL_STATE@, html@),
        text::opt_text(r) == trimmed_group(
            r#"(?s)window\.__INITIAL_STATE__\s*=\s*(\{.*?\})\s*;"#@,
            html@,
        ),
{
    let group = capture_first(INITIAL_STATE, html)?;
    Some(group.as_str().trim().to_owned())
}

/// The labels that are not blank, without the white space around them, in order.
pub open spec fn labels_of(groups: Seq<Option<Seq<char>>>) -> Seq<Seq<char>>
    decreases groups.len(),
{
    if groups.len() == 0 {
        Seq::empty()
    } else {
        match groups.last() {
            Some(s) => if text::is_blank(s) {
                labels_of(groups.drop_last())
            } else {
                labels_of(groups.drop_last()).push(text::trimmed(s))
            },
            None => labels_of(groups.drop_last()),
        }
    }
}

/// The tags that labels make: none where a label is missing or all are blank.
pub open spec fn tags_of(groups: Seq<Option<Seq<char>>>) -> Option<Seq<Seq<char>>> {
    if exists|i: int| 0 <= i < groups.len() && #[trigger] groups[i] is None {
        None
    } else if labels_of(groups).len() == 0 {
        None
    } else {
        Some(labels_of(groups))
    }
}

/// No tag is blank, and none begins or ends with white space.
pub proof fn lemma_tags(groups: Seq<Option<Seq<char>>>, i: int)
    requires
        0 <= i < labels_of(groups).len(),
    ensures
        labels_of(groups)[i].len() > 0,
        text::trimmed(labels_of(groups)[i]) == labels_of(groups)[i],
    decreases groups.len(),
{
    let front = groups.drop_last();
    if i < labels_of(front).len() {
        lemma_tags(front, i);
    } else {
        text::lemma_trimmed(groups.last()->0);
    }
}

/// The tags that labels make.
pub fn tags_from_labels(groups: &Vec<Option<String>>) -> (r: Option<Vec<String>>)
    ensures
        text::opt_texts(r) == tags_of(pattern::opt_list(groups@)),
{
    let ghost all = pattern::opt_list(groups@);
    let mut out: Vec<String> = Vec::new();
    assert(text::texts(out@) =~= labels_of(all.take(0)));
    for i in 0..groups.len()
        invariant
            all == pattern::opt_list(groups@),
            forall|j: int| 0 <= j < i ==> #[trigger] all[j] is Some,
            text::texts(out@) == labels_of(all.take(i as int)),
    {
        let ghost before = out@;
        assert(all.take(i + 1).drop_last() =~= all.take(i as int));
        assert(all[i as int] == text::opt_text(groups[i as int]));
        match &groups[i] {
            Some(s) => {
                let raw = s.as_str().trim();
                if !raw.is_empty() {
                    out.push(raw.to_owned());
                    assert(text::texts(out@) =~= text::texts(before).push(raw@));
                }
            },
            None => {
                return None;
            },
        }
    }
    assert(all.take(groups.len() as int) =~= all);
    assert(text::texts(out@).len() == out.len());
    if out.is_empty() {
        None
    } else {
        Some(out)
    }
}

/// The tags on a page.
pub open spec fn page_tags(html: Seq<char>) -> Option<Seq<Seq<char>>> {
    match pattern::all_groups(GREY_LABEL@, html) {
        Some(groups) => tags_of(groups),
        None => None,
    }
}

/// The tags on a page: its grey labels.
pub fn parse_tags_from_info_label(html: &str) -> (r: Option<Vec<String>>)
    ensures
        text::opt_texts(r) == page_tags(html@),
{
    let groups = capture_all(GREY_LABEL, html)?;
    tags_from_labels(&groups)
}

/// What a label says of the book: running where it says so, else finished where
/// it says so.
pub open spec fn finished_by_label(label: Seq<char>) -> Option<bool> {
    if text::has_part(label, "未完结"@) || text::has_part(label, "连载"@) {
        Some(false)
    } else if text::has_part(label, "完结"@) {
        Some(true)
    } else {
        None
    }
}

/// What a label says of the book.
pub fn finished_from_label(label: &str) -> (r: Option<bool>)
    ensures
        r == finished_by_label(text::trimmed(label@)),
{
    let label = label.trim();
    if contains(label, "未完结") || contains(label, "连载") {
        return Some(false);
    }
    if contains(label, "完结") {
        return Some(true);
    }
    None
}

/// Whether a page says that the book is finished.
pub open spec fn page_finished(html: Seq<char>) -> Option<bool> {
    match trimmed_group(YELLOW_LABEL@, html) {
        Some(label) => finished_by_label(label),
        None => None,
    }
}

/// Whether a page says that the book is finished: its first yellow label.
pub fn parse_finished_from_info_label(html: &str) -> (r: Option<bool>)
    ensures
        r == page_finished(html@),
{
    let label = capture_first(YELLOW_LABEL, html)?;
    finished_from_label(label.as_str())
}

/// A text that is the address of something on the web.
pub open spec fn is_web_address(s: Seq<char>) -> bool {
    text::has_prefix(s, "http://"@) || text::has_prefix(s, "https://"@)
}

/// The address that a text holds.
pub open spec fn address_of(s: Seq<char>) -> Option<Seq<char>> {
    if is_web_address(text::trimmed(s)) {
        Some(text::trimmed(s))
    } else {
        None
    }
}

/// The address that a text holds.
fn web_address(s: &str) -> (r: Option<String>)
    ensures
        text::opt_text(r) == address_of(s@),
{
    let u = s.trim();
    proof {
        reveal_strlit("http://");
        reveal_strlit("https://");
    }
    if !u.is_empty() && (starts_with(u, "http://") || starts_with(u, "https://")) {
        Some(u.to_owned())
    } else {
        None
    }
}

/// The address of the image under `key`: a string, or the first item of an array.
pub open spec fn image_under(v: JsonView, key: Seq<char>) -> Option<Seq<char>> {
    match v.get(key) {
        Some(JsonView::Array(a)) => if a.len() > 0 && a[0].as_str() is Some {
            address_of(a[0].as_str()->0)
        } else {
            None
        },
        Some(JsonView::Text(s)) => address_of(s),
        _ => None,
    }
}

/// The address of the image that a block of linked data names.
pub open spec fn image_of(v: JsonView) -> Option<Seq<char>> {
    text::or_text(image_under(v, "image"@), image_under(v, "images"@))
}

fn image_by_key(value: &Json, key: &str) -> (r: Option<String>)
    ensures
        text::opt_text(r) == image_under(value@, key@),
{
    let v = value.get(key)?;
    if let Some(arr) = v.as_array() {
        if arr.len() > 0 {
            assert(json::items(arr@)[0] == arr[0]@);
            if let Some(url) = arr[0].as_str() {
                return web_address(url);
            }
        }
        return None;
    }
    if let Some(url) = v.as_str() {
        return web_address(url);
    }
    None
}

/// The address of the image that a block of linked data names.
pub fn image_url(value: &Json) -> (r: Option<String>)
    ensures
        text::opt_text(r) == image_of(value@),
{
    let first = image_by_key(value, "image");
    if first.is_some() {
        return first;
    }
    image_by_key(value, "images")
}

/// The address of the first image that blocks of linked data name; a block that
/// is no document is passed over, a missing one ends the search.
pub open spec fn first_image(blocks: Seq<Option<Seq<char>>>) -> Option<Seq<char>>
    decreases blocks.len(),
{
    if blocks.len() == 0 {
        None
    } else {
        match blocks[0] {
            None => None,
            Some(block) => match json::json_document(block) {
                None => first_image(blocks.skip(1)),
                Some(v) => text::or_text(image_of(v), first_image(blocks.skip(1))),
            },
        }
    }
}

/// The address of the first image that blocks of linked data name.
pub fn image_from_blocks(blocks: &Vec<Option<String>>) -> (r: Option<String>)
    ensures
        text::opt_text(r) == first_image(pattern::opt_list(blocks@)),
{
    let ghost all = pattern::opt_list(blocks@);
    assert(all.skip(0) =~= all);
    for i in 0..blocks.len()
        invariant
            all == pattern::opt_list(blocks@),
            first_image(all) == first_image(all.skip(i as int)),
    {
        assert(all[i as int] == text::opt_text(blocks[i as int]));
        assert(all.skip(i as int)[0] == all[i as int]);
        assert(all.skip(i as int).skip(1) =~= all.skip(i + 1));
        match &blocks[i] {
            Some(block) => {
                if let Some(value) = parse_json(block.as_str()) {
                    let url = image_url(&value);
                    if url.is_some() {
                        return url;
                    }
                }
            },
            None => {
                return None;
            },
        }
    }
    None
}

/// The address of the cover that a page names in its linked data.
pub open spec fn page_image(html: Seq<char>) -> Option<Seq<char>> {
    match pattern::all_groups(LINKED_DATA@, html) {
        Some(blocks) => first_image(blocks),
        None => None,
    }
}

/// The address of the cover that a page names in its linked data.
pub fn parse_html_img_cover_url(html: &str) -> (r: Option<String>)
    ensures
        text::opt_text(r) == page_image(html@),
{
    let blocks = capture_all(LINKED_DATA, html)?;
    image_from_blocks(&blocks)
}

/// The pattern of a string under `field`.
pub open spec fn string_field_pattern(field: Seq<char>) -> Seq<char> {
    r#"\""#@ + pattern::escaped(field) + r#"\"\s*:\s*\"(.*?)\""#@
}

/// The pattern of digits under `field`.
pub open spec fn digits_field_pattern(field: Seq<char>) -> Seq<char> {
    r#"\""#@ + pattern::escaped(field) + r#"\"\s*:\s*(\d+)"#@
}

/// A text between quotation marks.
pub open spec fn quoted(raw: Seq<char>) -> Seq<char> {
    "\""@ + raw + "\""@
}

/// What a string is that stands between quotation marks in a page: what it means
/// as a JSON string, or as it stands where it means nothing.
pub open spec fn unquoted(raw: Seq<char>) -> Seq<char> {
    match json::json_string(quoted(raw)) {
        Some(s) => s,
        None => raw,
    }
}

/// The first string under `field` in a page.
pub open spec fn string_field(html: Seq<char>, field: Seq<char>) -> Option<Seq<char>> {
    match pattern::first_group(string_field_pattern(field), html) {
        Some(raw) => Some(unquoted(raw)),
        None => None,
    }
}

/// The decoded string, or `raw` where there is none.
pub fn decoded_or_raw(decoded: Option<String>, raw: &str) -> (r: String)
    ensures
        decoded matches Some(s) ==> r@ == s@,
        decoded is None ==> r@ == raw@,
{
    match decoded {
        Some(s) => s,
        None => raw.to_owned(),
    }
}

/// The first string under `field` in a page.
pub fn regex_json_string_field(html: &str, field: &str) -> (r: Option<String>)
    ensures
        text::opt_text(r) == string_field(html@, field@),
{
    let pattern = joined3(r#"\""#, escape(field).as_str(), r#"\"\s*:\s*\"(.*?)\""#);
    let raw = capture_first(pattern.as_str(), html)?;
    let quoted = joined3("\"", raw.as_str(), "\"");
    Some(decoded_or_raw(parse_json_string(quoted.as_str()), raw.as_str()))
}

/// The first number under `field` in a page, where it fits.
pub open spec fn usize_field(html: Seq<char>, field: Seq<char>) -> Option<usize> {
    match pattern::first_group(digits_field_pattern(field), html) {
        Some(digits) => text::usize_value(digits),
        None => None,
    }
}

/// The first number under `field` in a page.
pub fn regex_json_usize_field(html: &str, field: &str) -> (r: Option<usize>)
    ensures
        r == usize_field(html@, field@),
{
    let pattern = joined3(r#"\""#, escape(field).as_str(), r#"\"\s*:\s*(\d+)"#);
    let digits = capture_first(pattern.as_str(), html)?;
    parse_usize(digits.as_str())
}

/// Where covers are kept.
pub const COVER_HOST: &'static str = "https://p3-reading-sign.fqnovelpic.com/";

/// The address of the cover that `uri` names: nothing where it is blank, itself
/// where it is an address, else its place where covers are kept.
pub open spec fn cover_address(uri: Seq<char>) -> Option<Seq<char>> {
    let t = text::trimmed(uri);
    if t.len() == 0 {
        None
    } else if is_web_address(t) {
        Some(t)
    } else {
        Some(COVER_HOST@ + t)
    }
}

/// A cover always has an address on the web, and there is one for every name that
/// is not blank.
pub proof fn lemma_cover_address(uri: Seq<char>)
    ensures
        cover_address(uri) is Some <==> !text::is_blank(uri),
        cover_address(uri) matches Some(a) ==> is_web_address(a),
{
    reveal_strlit("https://p3-reading-sign.fqnovelpic.com/");
    reveal_strlit("https://");
    let t = text::trimmed(uri);
    assert((COVER_HOST@ + t).take(8) =~= "https://"@);
}

/// The address of the cover that `uri` names.
pub fn build_cover_url_from_thumb_uri(uri: &str) -> (r: Option<String>)
    ensures
        text::opt_text(r) == cover_address(uri@),
{
    let trimmed = uri.trim();
    if trimmed.is_empty() {
        return None;
    }
    if starts_with(trimmed, "http://") || starts_with(trimmed, "https://") {
        return Some(trimmed.to_owned());
    }
    Some(joined(COVER_HOST, trimmed))
}

/// What a group captures is taken without the white space around it, and a group that
/// captures nothing gives nothing.
pub proof fn lemma_trimmed_group(pattern: Seq<char>, html: Seq<char>, s: Seq<char>)
    ensures
        pattern::first_group(pattern, html) == Some(s) ==> trimmed_group(pattern, html) == Some(
            text::trimmed(s),
        ),
        pattern::first_group(pattern, html) is None ==> trimmed_group(pattern, html) is None,
{
}

/// Labels make tags in order, each without the white space around it and none of them
/// blank; they make none where no label is left, or where a label was not captured.
pub proof fn lemma_tags_of(groups: Seq<Option<Seq<char>>>)
    ensures
        ({
            let labels = groups.filter_map(
                |g: Option<Seq<char>>|
                    match g {
                        Some(s) if text::trimmed(s).len() > 0 => Some(text::trimmed(s)),
                        _ => None,
                    },
            );
            tags_of(groups) == if groups.contains(None) || labels.len() == 0 {
                None
            } else {
                Some(labels)
            }
        }),
{
    lemma_labels_of(
        groups,
        |g: Option<Seq<char>>|
            match g {
                Some(s) if text::trimmed(s).len() > 0 => Some(text::trimmed(s)),
                _ => None,
            },
    );
    if groups.contains(None) {
        let i = choose|i: int| 0 <= i < groups.len() && groups[i] == None::<Seq<char>>;
        assert(groups[i] is None);
    }
    if exists|i: int| 0 <= i < groups.len() && #[trigger] groups[i] is None {
        let i = choose|i: int| 0 <= i < groups.len() && #[trigger] groups[i] is None;
        assert(groups[i] == None::<Seq<char>>);
    }
}

proof fn lemma_labels_of(
    groups: Seq<Option<Seq<char>>>,
    f: spec_fn(Option<Seq<char>>) -> Option<Seq<char>>,
)
    requires
        forall|g: Option<Seq<char>>| #[trigger]
            f(g) == match g {
                Some(s) if text::trimmed(s).len() > 0 => Some(text::trimmed(s)),
                _ => None,
            },
    ensures
        labels_of(groups) == groups.filter_map(f),
    decreases groups.len(),
{
    reveal(Seq::filter_map);
    if groups.len() > 0 {
        let front = groups.drop_last();
        lemma_labels_of(front, f);
        if let Some(s) = f(groups.last()) {
            assert(front.filter_map(f) + seq![s] =~= front.filter_map(f).push(s));
        }
    }
}

/// The tags of a page are those that its grey labels make.
pub proof fn lemma_page_tags(html: Seq<char>)
    ensures
        page_tags(html) == match pattern::all_groups(
            r#"<span[^>]*class="info-label-grey"[^>]*>([^<]+)</span>"#@,
            html,
        ) {
            Some(groups) => tags_of(groups),
            None => None,
        },
{
}

/// The first yellow label of a page tells whether the book is finished: one that says
/// that it runs or is unfinished says no, one that only says finished says yes, and
/// any other, or none, says nothing.
pub proof fn lemma_page_finished(html: Seq<char>, s: Seq<char>)
    ensures
        ({
            let pattern = r#"<span[^>]*class="info-label-yellow"[^>]*>([^<]+)</span>"#@;
            let label = text::trimmed(s);
            let running = text::has_part(label, "未完结"@) || text::has_part(label, "连载"@);
            &&& pattern::first_group(pattern, html) is None ==> page_finished(html) is None
            &&& pattern::first_group(pattern, html) == Some(s) ==> {
                &&& page_finished(html) == Some(false) <==> running
                &&& page_finished(html) == Some(true) <==> !running && text::has_part(
                    label,
                    "完结"@,
                )
            }
        }),
{
}

/// A label says the same by itself as on a page.
pub proof fn lemma_finished_by_label(label: Seq<char>)
    ensures
        finished_by_label(label) == Some(false) <==> text::has_part(label, "未完结"@)
            || text::has_part(label, "连载"@),
        finished_by_label(label) == Some(true) <==> text::has_part(label, "完结"@)
            && !text::has_part(label, "未完结"@) && !text::has_part(label, "连载"@),
{
}

/// The text that stands for an image under `key`: a string, or the first item of an
/// array where it is a string.
pub open spec fn image_text(v: JsonView, key: Seq<char>, s: Seq<char>) -> bool {
    v.get(key) matches Some(u) && (u == JsonView::Text(s) || (u matches JsonView::Array(a) && a.len()
        > 0 && a[0] == JsonView::Text(s)))
}

/// `u` is the address that a text for an image under `key` gives.
pub open spec fn names_image(v: JsonView, key: Seq<char>, u: Seq<char>) -> bool {
    exists|s: Seq<char>|
        {
            &&& image_text(v, key, s)
            &&& u == #[trigger] text::trimmed(s)
            &&& text::has_prefix(u, "http://"@) || text::has_prefix(u, "https://"@)
        }
}

/// The image of a block of linked data is the one under `image`, where an address
/// stands there, else the one under `images`.
pub proof fn lemma_image_of(v: JsonView, u: Seq<char>)
    ensures
        image_of(v) == Some(u) <==> names_image(v, "image"@, u) || (names_image(v, "images"@, u)
            && forall|w: Seq<char>| !names_image(v, "image"@, w)),
{
    lemma_image_under(v, "image"@, u);
    lemma_image_under(v, "images"@, u);
    assert forall|w: Seq<char>| names_image(v, "image"@, w) <==> image_under(v, "image"@) == Some(
        w,
    ) by {
        lemma_image_under(v, "image"@, w);
    }
    if let Some(w) = image_under(v, "image"@) {
        assert(names_image(v, "image"@, w));
    }
}

proof fn lemma_image_under(v: JsonView, key: Seq<char>, u: Seq<char>)
    ensures
        names_image(v, key, u) <==> image_under(v, key) == Some(u),
{
    if image_under(v, key) == Some(u) {
        let s = match v.get(key) {
            Some(JsonView::Array(a)) => a[0]->Text_0,
            Some(JsonView::Text(s)) => s,
            _ => Seq::empty(),
        };
        assert(image_text(v, key, s));
        assert(u == text::trimmed(s));
    }
}

/// The image of a page is the first that its blocks of linked data name.
pub proof fn lemma_page_image(html: Seq<char>)
    ensures
        page_image(html) == match pattern::all_groups(
            r#"<script[^>]*type="application/ld\+json"[^>]*>\s*([\s\S]*?)\s*</script>"#@,
            html,
        ) {
            Some(blocks) => first_image(blocks),
            None => None,
        },
{
}

/// The first image is that of the first block of linked data that has one, here the
/// block `n`; a block that is no document is passed over, and one that was not captured
/// ends the search. There is none where no block has one.
pub proof fn lemma_first_image(blocks: Seq<Option<Seq<char>>>, n: int)
    requires
        0 <= n <= blocks.len(),
        forall|i: int|
            0 <= i < n ==> (#[trigger] blocks[i]) is Some && (json::json_document(blocks[i]->0)
                matches Some(v) ==> image_of(v) is None),
        n < blocks.len() && blocks[n] is Some ==> (json::json_document(blocks[n]->0) matches Some(
            v,
        ) && image_of(v) is Some),
    ensures
        first_image(blocks) == if n < blocks.len() && blocks[n] is Some {
            image_of(json::json_document(blocks[n]->0)->0)
        } else {
            None
        },
    decreases blocks.len(),
{
    if n > 0 {
        let rest = blocks.skip(1);
        assert(blocks[0] is Some);
        assert forall|i: int| 0 <= i < n - 1 implies (#[trigger] rest[i]) is Some && (
        json::json_document(rest[i]->0) matches Some(v) ==> image_of(v) is None) by {
            assert(rest[i] == blocks[i + 1]);
        }
        if n < blocks.len() {
            assert(rest[n - 1] == blocks[n]);
        }
        lemma_first_image(rest, n - 1);
    }
}

/// A string under a name in the text of a page is what it means as a JSON string, or
/// stands as it is where it means nothing.
pub proof fn lemma_string_field(html: Seq<char>, field: Seq<char>, raw: Seq<char>)
    ensures
        ({
            let found = pattern::first_group(
                r#"\""#@ + pattern::escaped(field) + r#"\"\s*:\s*\"(.*?)\""#@,
                html,
            );
            let meaning = json::json_string("\""@ + raw + "\""@);
            &&& found is None ==> string_field(html, field) is None
            &&& found == Some(raw) && meaning is Some ==> string_field(html, field) == meaning
            &&& found == Some(raw) && meaning is None ==> string_field(html, field) == Some(raw)
        }),
{
}

/// A number under a name in the text of a page is what its digits write, where that
/// fits.
pub proof fn lemma_usize_field(html: Seq<char>, field: Seq<char>, digits: Seq<char>)
    ensures
        ({
            let found = pattern::first_group(
                r#"\""#@ + pattern::escaped(field) + r#"\"\s*:\s*(\d+)"#@,
                html,
            );
            &&& found is None ==> usize_field(html, field) is None
            &&& found == Some(digits) ==> usize_field(html, field) == text::usize_value(digits)
        }),
{
}

/// The cover that a name stands for is the name itself, without the white space
/// around it, where it is an address, else the name under the place where covers are
/// kept.
pub proof fn lemma_cover_of_name(uri: Seq<char>)
    requires
        !text::is_blank(uri),
    ensures
        ({
            let name = text::trimmed(uri);
            let is_address = text::has_prefix(name, "http://"@) || text::has_prefix(
                name,
                "https://"@,
            );
            cover_address(uri) == Some(
                if is_address {
                    name
                } else {
                    "https://p3-reading-sign.fqnovelpic.com/"@ + name
                },
            )
        }),
{
}

} // verus!
