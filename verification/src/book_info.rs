use vstd::prelude::*;

use crate::json::{self, parse_json, Json, JsonView};
use crate::page::{
    self, build_cover_url_from_thumb_uri, extract_initial_state_json, extract_next_data_json,
    parse_finished_from_info_label, parse_html_img_cover_url, parse_tags_from_info_label,
    regex_json_string_field, regex_json_usize_field,
};
use crate::pattern;
use crate::search::{
    self, find_finished_by_key, find_string_array_by_key, find_string_by_key, find_usize_by_key,
};
use crate::text::{self, copy_opt};

verus! {

/// What a page tells about a book.
#[derive(Debug, Clone, PartialEq, Eq)]
pub struct BookInfo {
    pub book_name: Option<String>,
    pub author: Option<String>,
    pub description: Option<String>,
    pub tags: Option<Vec<String>>,
    pub cover_url: Option<String>,
    pub detail_cover_url: Option<String>,
    pub html_img_cover_url: Option<String>,
    pub chapter_count: Option<usize>,
    pub finished: Option<bool>,
    /// The id of the first chapter, which is the whole of a short story.
    pub first_item_id: Option<String>,
}

/// What a [`BookInfo`] holds.
pub struct BookInfoView {
    pub book_name: Option<Seq<char>>,
    pub author: Option<Seq<char>>,
    pub description: Option<Seq<char>>,
    pub tags: Option<Seq<Seq<char>>>,
    pub cover_url: Option<Seq<char>>,
    pub detail_cover_url: Option<Seq<char>>,
    pub html_img_cover_url: Option<Seq<char>>,
    pub chapter_count: Option<usize>,
    pub finished: Option<bool>,
    pub first_item_id: Option<Seq<char>>,
}

impl View for BookInfo {
    type V = BookInfoView;

    open spec fn view(&self) -> BookInfoView {
        BookInfoView {
            book_name: text::opt_text(self.book_name),
            author: text::opt_text(self.author),
            description: text::opt_text(self.description),
            tags: text::opt_texts(self.tags),
            cover_url: text::opt_text(self.cover_url),
            detail_cover_url: text::opt_text(self.detail_cover_url),
            html_img_cover_url: text::opt_text(self.html_img_cover_url),
            chapter_count: self.chapter_count,
            finished: self.finished,
            first_item_id: text::opt_text(self.first_item_id),
        }
    }
}

/// Nothing known of a book.
pub open spec fn nothing_known() -> BookInfoView {
    BookInfoView {
        book_name: None,
        author: None,
        description: None,
        tags: None,
        cover_url: None,
        detail_cover_url: None,
        html_img_cover_url: None,
        chapter_count: None,
        finished: None,
        first_item_id: None,
    }
}

impl Default for BookInfo {
    fn default() -> (r: Self)
        ensures
            r@ == nothing_known(),
    {
        BookInfo {
            book_name: None,
            author: None,
            description: None,
            tags: None,
            cover_url: None,
            detail_cover_url: None,
            html_img_cover_url: None,
            chapter_count: None,
            finished: None,
            first_item_id: None,
        }
    }
}

/// The parts of a [`BookInfo`], in order.
pub type BookInfoParts = (
    Option<String>,
    Option<String>,
    Option<String>,
    Option<Vec<String>>,
    Option<String>,
    Option<String>,
    Option<String>,
    Option<usize>,
    Option<bool>,
    Option<String>,
);

impl BookInfo {
    /// The parts, in order.
    pub fn into_parts(self) -> (r: BookInfoParts)
        ensures
            r.0 == self.book_name,
            r.1 == self.author,
            r.2 == self.description,
            r.3 == self.tags,
            r.4 == self.cover_url,
            r.5 == self.detail_cover_url,
            r.6 == self.html_img_cover_url,
            r.7 == self.chapter_count,
            r.8 == self.finished,
            r.9 == self.first_item_id,
    {
        (
            self.book_name,
            self.author,
            self.description,
            self.tags,
            self.cover_url,
            self.detail_cover_url,
            self.html_img_cover_url,
            self.chapter_count,
            self.finished,
            self.first_item_id,
        )
    }
}

/// The first string in a document under one of `keys`, tried in order.
pub open spec fn string_in(v: JsonView, keys: Seq<Seq<char>>) -> Option<Seq<char>> {
    search::find_by_key(v, keys, search::read_string())
}

/// The title of the book in a document.
pub open spec fn name_in(v: JsonView) -> Option<Seq<char>> {
    string_in(v, seq!["bookName"@, "book_name"@, "title"@, "name"@])
}

/// The blurb of the book in a document.
pub open spec fn description_in(v: JsonView) -> Option<Seq<char>> {
    string_in(v, seq!["abstract"@, "description"@, "intro"@, "introduce"@])
}

/// The address of the cover in a document: under one of the names for an address,
/// else made of the name of a thumbnail.
pub open spec fn cover_in(v: JsonView) -> Option<Seq<char>> {
    let direct = string_in(
        v,
        seq![
            "thumb_url"@,
            "expand_thumb_url"@,
            "cover_url"@,
            "cover"@,
            "horiz_thumb_url"@,
            "audio_thumb_url_hd"@,
        ],
    );
    if direct is Some {
        direct
    } else {
        match string_in(v, seq!["thumb_uri"@]) {
            Some(uri) => page::cover_address(uri),
            None => None,
        }
    }
}

/// The address of the large cover in a document, which is that of the cover where
/// there is no other.
pub open spec fn detail_cover_in(v: JsonView) -> Option<Seq<char>> {
    text::or_text(
        string_in(
            v,
            seq!["detail_page_thumb_url"@, "detail_cover_url"@, "detail_thumb_url"@],
        ),
        cover_in(v),
    )
}

/// The tags of the book in a document.
pub open spec fn tags_in(v: JsonView) -> Option<Seq<Seq<char>>> {
    search::find_by_key(
        v,
        seq!["tags"@, "tagNames"@, "tag_names"@],
        search::read_string_array(),
    )
}

/// The id of the first chapter in a document.
pub open spec fn first_item_in(v: JsonView) -> Option<Seq<char>> {
    string_in(
        v,
        seq!["first_chapter_item_id"@, "firstChapterItemId"@, "item_id"@, "itemId"@],
    )
}

/// What the state of the page tells; what the labels and the linked data of the
/// page say is given.
pub open spec fn next_data_info(
    v: JsonView,
    label_finished: Option<bool>,
    image: Option<Seq<char>>,
) -> BookInfoView {
    BookInfoView {
        book_name: name_in(v),
        author: string_in(v, seq!["author"@, "authorName"@, "author_name"@]),
        description: description_in(v),
        tags: tags_in(v),
        cover_url: cover_in(v),
        detail_cover_url: detail_cover_in(v),
        html_img_cover_url: image,
        chapter_count: search::find_by_key(
            v,
            seq!["chapterCount"@, "chapter_count"@],
            search::read_usize(),
        ),
        finished: if label_finished is Some {
            label_finished
        } else {
            search::finished_in(v)
        },
        first_item_id: first_item_in(v),
    }
}

/// What the first state of the page tells; what the labels and the linked data of
/// the page say is given.
pub open spec fn initial_state_info(
    v: JsonView,
    label_finished: Option<bool>,
    image: Option<Seq<char>>,
    label_tags: Option<Seq<Seq<char>>>,
) -> BookInfoView {
    BookInfoView {
        book_name: name_in(v),
        author: string_in(v, seq!["authorName"@, "author"@, "author_name"@]),
        description: description_in(v),
        tags: if tags_in(v) is Some {
            tags_in(v)
        } else {
            label_tags
        },
        cover_url: cover_in(v),
        detail_cover_url: detail_cover_in(v),
        html_img_cover_url: image,
        chapter_count: search::find_by_key(
            v,
            seq!["chapterTotal"@, "chapterCount"@, "chapter_count"@],
            search::read_usize(),
        ),
        finished: if label_finished is Some {
            label_finished
        } else {
            search::finished_in(v)
        },
        first_item_id: first_item_in(v),
    }
}

/// The first of `fields` that the text of the page has.
pub open spec fn first_field(html: Seq<char>, fields: Seq<Seq<char>>) -> Option<Seq<char>>
    decreases fields.len(),
{
    if fields.len() == 0 {
        None
    } else {
        text::or_text(page::string_field(html, fields[0]), first_field(html, fields.skip(1)))
    }
}

/// The address of the cover in the text of the page.
pub open spec fn cover_field(html: Seq<char>) -> Option<Seq<char>> {
    let direct = first_field(
        html,
        seq![
            "thumb_url"@,
            "expand_thumb_url"@,
            "cover_url"@,
            "cover"@,
            "horiz_thumb_url"@,
            "audio_thumb_url_hd"@,
        ],
    );
    if direct is Some {
        direct
    } else {
        match page::string_field(html, "thumb_uri"@) {
            Some(uri) => page::cover_address(uri),
            None => None,
        }
    }
}

/// What the text of the page tells; what its labels and its linked data say is
/// given.
pub open spec fn text_info(
    html: Seq<char>,
    label_finished: Option<bool>,
    image: Option<Seq<char>>,
) -> BookInfoView {
    BookInfoView {
        book_name: first_field(html, seq!["bookName"@, "book_name"@]),
        author: first_field(html, seq!["author"@, "authorName"@]),
        description: first_field(html, seq!["abstract"@, "description"@]),
        tags: page::page_tags(html),
        cover_url: cover_field(html),
        detail_cover_url: text::or_text(
            first_field(
                html,
                seq!["detail_page_thumb_url"@, "detail_cover_url"@, "detail_thumb_url"@],
            ),
            cover_field(html),
        ),
        html_img_cover_url: image,
        chapter_count: if page::usize_field(html, "chapterCount"@) is Some {
            page::usize_field(html, "chapterCount"@)
        } else {
            page::usize_field(html, "chapter_count"@)
        },
        finished: label_finished,
        first_item_id: first_field(
            html,
            seq!["first_chapter_item_id"@, "firstChapterItemId"@, "itemId"@],
        ),
    }
}

/// A book that is known by its title or by its first chapter.
pub open spec fn is_identified(info: BookInfoView) -> bool {
    info.book_name is Some || info.first_item_id is Some
}

/// The document that a pattern captures in a page.
pub open spec fn document_in(pattern: Seq<char>, html: Seq<char>) -> Option<JsonView> {
    match page::trimmed_group(pattern, html) {
        Some(t) => json::json_document(t),
        None => None,
    }
}

/// What the state of the page tells, where it identifies the book.
pub open spec fn info_by_next_data(html: Seq<char>) -> Option<BookInfoView> {
    match document_in(page::NEXT_DATA@, html) {
        Some(v) => {
            let info = next_data_info(v, page::page_finished(html), page::page_image(html));
            if is_identified(info) {
                Some(info)
            } else {
                None
            }
        },
        None => None,
    }
}

/// What the first state of the page tells, where it identifies the book.
pub open spec fn info_by_initial_state(html: Seq<char>) -> Option<BookInfoView> {
    match document_in(page::INITIAL_STATE@, html) {
        Some(v) => {
            let info = initial_state_info(
                v,
                page::page_finished(html),
                page::page_image(html),
                page::page_tags(html),
            );
            if is_identified(info) {
                Some(info)
            } else {
                None
            }
        },
        None => None,
    }
}

/// What a page tells about a book: by its state, else by its first state, else by
/// its text.
pub open spec fn book_info_of(html: Seq<char>) -> BookInfoView {
    if info_by_next_data(html) is Some {
        info_by_next_data(html)->0
    } else if info_by_initial_state(html) is Some {
        info_by_initial_state(html)->0
    } else {
        text_info(html, page::page_finished(html), page::page_image(html))
    }
}

/// However a page is read, its linked data give the image, its yellow label wins
/// over what the rest says of the book being finished, and where there is a cover
/// there is a large cover.
pub proof fn lemma_book_info(html: Seq<char>)
    ensures
        book_info_of(html).html_img_cover_url == page::page_image(html),
        page::page_finished(html) is Some ==> book_info_of(html).finished == page::page_finished(
            html,
        ),
        book_info_of(html).cover_url is Some ==> book_info_of(html).detail_cover_url is Some,
{
}

/// The text of a page is read only where neither of its two states identifies the
/// book, and the first state only where the state does not.
pub proof fn lemma_reading_order(html: Seq<char>)
    ensures
        document_in(page::NEXT_DATA@, html) matches Some(v) ==> {
            let info = next_data_info(v, page::page_finished(html), page::page_image(html));
            is_identified(info) ==> book_info_of(html) == info
        },
        info_by_next_data(html) is Some || info_by_initial_state(html) is Some ==> is_identified(
            book_info_of(html),
        ),
        info_by_next_data(html) is None && info_by_initial_state(html) is None ==> book_info_of(
            html,
        ) == text_info(html, page::page_finished(html), page::page_image(html)),
{
}

/// The first of two optional strings that is there.
fn or_else_opt(a: Option<String>, b: Option<String>) -> (r: Option<String>)
    ensures
        text::opt_text(r) == text::or_text(text::opt_text(a), text::opt_text(b)),
{
    match a {
        Some(s) => Some(s),
        None => b,
    }
}

fn find_name(value: &Json) -> (r: Option<String>)
    ensures
        text::opt_text(r) == name_in(value@),
{
    let keys: [&str; 4] = ["bookName", "book_name", "title", "name"];
    assert(search::key_texts(keys@) =~= seq!["bookName"@, "book_name"@, "title"@, "name"@]);
    find_string_by_key(value, keys)
}

fn find_description(value: &Json) -> (r: Option<String>)
    ensures
        text::opt_text(r) == description_in(value@),
{
    let keys: [&str; 4] = ["abstract", "description", "intro", "introduce"];
    assert(search::key_texts(keys@) =~= seq!["abstract"@, "description"@, "intro"@, "introduce"@]);
    find_string_by_key(value, keys)
}

fn find_cover(value: &Json) -> (r: Option<String>)
    ensures
        text::opt_text(r) == cover_in(value@),
{
    let keys: [&str; 6] = [
        "thumb_url",
        "expand_thumb_url",
        "cover_url",
        "cover",
        "horiz_thumb_url",
        "audio_thumb_url_hd",
    ];
    assert(search::key_texts(keys@) =~= seq![
        "thumb_url"@,
        "expand_thumb_url"@,
        "cover_url"@,
        "cover"@,
        "horiz_thumb_url"@,
        "audio_thumb_url_hd"@,
    ]);
    let direct = find_string_by_key(value, keys);
    if direct.is_some() {
        return direct;
    }
    let uri_keys: [&str; 1] = ["thumb_uri"];
    assert(search::key_texts(uri_keys@) =~= seq!["thumb_uri"@]);
    let uri = find_string_by_key(value, uri_keys)?;
    build_cover_url_from_thumb_uri(uri.as_str())
}

fn find_detail_cover(value: &Json, cover_url: &Option<String>) -> (r: Option<String>)
    requires
        text::opt_text(*cover_url) == cover_in(value@),
    ensures
        text::opt_text(r) == detail_cover_in(value@),
{
    let keys: [&str; 3] = ["detail_page_thumb_url", "detail_cover_url", "detail_thumb_url"];
    assert(search::key_texts(keys@) =~= seq![
        "detail_page_thumb_url"@,
        "detail_cover_url"@,
        "detail_thumb_url"@,
    ]);
    or_else_opt(find_string_by_key(value, keys), copy_opt(cover_url))
}

fn find_tags(value: &Json) -> (r: Option<Vec<String>>)
    ensures
        text::opt_texts(r) == tags_in(value@),
{
    let keys: [&str; 3] = ["tags", "tagNames", "tag_names"];
    assert(search::key_texts(keys@) =~= seq!["tags"@, "tagNames"@, "tag_names"@]);
    find_string_array_by_key(value, keys)
}

fn find_first_item(value: &Json) -> (r: Option<String>)
    ensures
        text::opt_text(r) == first_item_in(value@),
{
    let keys: [&str; 4] = ["first_chapter_item_id", "firstChapterItemId", "item_id", "itemId"];
    assert(search::key_texts(keys@) =~= seq![
        "first_chapter_item_id"@,
        "firstChapterItemId"@,
        "item_id"@,
        "itemId"@,
    ]);
    find_string_by_key(value, keys)
}

/// What the state of the page tells.
pub fn info_from_next_data(
    value: &Json,
    finished_from_label: Option<bool>,
    html_img_cover_url: Option<String>,
) -> (r: BookInfo)
    ensures
        r@ == next_data_info(value@, finished_from_label, text::opt_text(html_img_cover_url)),
{
    let book_name = find_name(value);
    let author_keys: [&str; 3] = ["author", "authorName", "author_name"];
    assert(search::key_texts(author_keys@) =~= seq!["author"@, "authorName"@, "author_name"@]);
    let author = find_string_by_key(value, author_keys);
    let description = find_description(value);
    let cover_url = find_cover(value);
    let detail_cover_url = find_detail_cover(value, &cover_url);
    let count_keys: [&str; 2] = ["chapterCount", "chapter_count"];
    assert(search::key_texts(count_keys@) =~= seq!["chapterCount"@, "chapter_count"@]);
    let chapter_count = find_usize_by_key(value, count_keys);
    let tags = find_tags(value);
    let finished = match finished_from_label {
        Some(b) => Some(b),
        None => find_finished_by_key(value),
    };
    let first_item_id = find_first_item(value);
    BookInfo {
        book_name,
        author,
        description,
        tags,
        cover_url,
        detail_cover_url,
        html_img_cover_url,
        chapter_count,
        finished,
        first_item_id,
    }
}

/// What the first state of the page tells.
pub fn info_from_initial_state(
    value: &Json,
    finished_from_label: Option<bool>,
    html_img_cover_url: Option<String>,
    tags_from_label: Option<Vec<String>>,
) -> (r: BookInfo)
    ensures
        r@ == initial_state_info(
            value@,
            finished_from_label,
            text::opt_text(html_img_cover_url),
            text::opt_texts(tags_from_label),
        ),
{
    let book_name = find_name(value);
    let author_keys: [&str; 3] = ["authorName", "author", "author_name"];
    assert(search::key_texts(author_keys@) =~= seq!["authorName"@, "author"@, "author_name"@]);
    let author = find_string_by_key(value, author_keys);
    let description = find_description(value);
    let cover_url = find_cover(value);
    let detail_cover_url = find_detail_cover(value, &cover_url);
    let count_keys: [&str; 3] = ["chapterTotal", "chapterCount", "chapter_count"];
    assert(search::key_texts(count_keys@) =~= seq![
        "chapterTotal"@,
        "chapterCount"@,
        "chapter_count"@,
    ]);
    let chapter_count = find_usize_by_key(value, count_keys);
    let tags = match find_tags(value) {
        Some(tags) => Some(tags),
        None => tags_from_label,
    };
    let finished = match finished_from_label {
        Some(b) => Some(b),
        None => find_finished_by_key(value),
    };
    let first_item_id = find_first_item(value);
    BookInfo {
        book_name,
        author,
        description,
        tags,
        cover_url,
        detail_cover_url,
        html_img_cover_url,
        chapter_count,
        finished,
        first_item_id,
    }
}

/// The first of `fields` that the text of the page has.
fn find_field<const N: usize>(html: &str, fields: [&str; N]) -> (r: Option<String>)
    ensures
        text::opt_text(r) == first_field(html@, search::key_texts(fields@)),
{
    let ghost all = search::key_texts(fields@);
    assert(all.skip(0) =~= all);
    for i in 0..N
        invariant
            all == search::key_texts(fields@),
            fields@.len() == N,
            first_field(html@, all) == first_field(html@, all.skip(i as int)),
    {
        assert(all.skip(i as int)[0] == fields@[i as int]@);
        assert(all.skip(i as int).skip(1) =~= all.skip(i + 1));
        let found = regex_json_string_field(html, fields[i]);
        if found.is_some() {
            return found;
        }
    }
    None
}

fn find_cover_field(html: &str) -> (r: Option<String>)
    ensures
        text::opt_text(r) == cover_field(html@),
{
    let fields: [&str; 6] = [
        "thumb_url",
        "expand_thumb_url",
        "cover_url",
        "cover",
        "horiz_thumb_url",
        "audio_thumb_url_hd",
    ];
    assert(search::key_texts(fields@) =~= seq![
        "thumb_url"@,
        "expand_thumb_url"@,
        "cover_url"@,
        "cover"@,
        "horiz_thumb_url"@,
        "audio_thumb_url_hd"@,
    ]);
    let direct = find_field(html, fields);
    if direct.is_some() {
        return direct;
    }
    let uri = regex_json_string_field(html, "thumb_uri")?;
    build_cover_url_from_thumb_uri(uri.as_str())
}

/// What the text of the page tells.
pub fn info_from_text(
    html: &str,
    finished_from_label: Option<bool>,
    html_img_cover_url: Option<String>,
) -> (r: BookInfo)
    ensures
        r@ == text_info(html@, finished_from_label, text::opt_text(html_img_cover_url)),
{
    let names: [&str; 2] = ["bookName", "book_name"];
    assert(search::key_texts(names@) =~= seq!["bookName"@, "book_name"@]);
    let book_name = find_field(html, names);
    let authors: [&str; 2] = ["author", "authorName"];
    assert(search::key_texts(authors@) =~= seq!["author"@, "authorName"@]);
    let author = find_field(html, authors);
    let descriptions: [&str; 2] = ["abstract", "description"];
    assert(search::key_texts(descriptions@) =~= seq!["abstract"@, "description"@]);
    let description = find_field(html, descriptions);
    let cover_url = find_cover_field(html);
    let details: [&str; 3] = ["detail_page_thumb_url", "detail_cover_url", "detail_thumb_url"];
    assert(search::key_texts(details@) =~= seq![
        "detail_page_thumb_url"@,
        "detail_cover_url"@,
        "detail_thumb_url"@,
    ]);
    let detail_cover_url = or_else_opt(find_field(html, details), copy_opt(&cover_url));
    let chapter_count = match regex_json_usize_field(html, "chapterCount") {
        Some(n) => Some(n),
        None => regex_json_usize_field(html, "chapter_count"),
    };
    let tags = parse_tags_from_info_label(html);
    let firsts: [&str; 3] = ["first_chapter_item_id", "firstChapterItemId", "itemId"];
    assert(search::key_texts(firsts@) =~= seq![
        "first_chapter_item_id"@,
        "firstChapterItemId"@,
        "itemId"@,
    ]);
    let first_item_id = find_field(html, firsts);
    BookInfo {
        book_name,
        author,
        description,
        tags,
        cover_url,
        detail_cover_url,
        html_img_cover_url,
        chapter_count,
        finished: finished_from_label,
        first_item_id,
    }
}

/// Reads what a page tells about a book.
pub struct ContentParser;

impl ContentParser {
    /// What a page tells about a book: by its state, else by its first state, else
    /// by its text.
    pub fn parse_book_info(html: &str, _book_id: &str) -> (r: BookInfo)
        ensures
            r@ == book_info_of(html@),
    {
        let finished_from_label = parse_finished_from_info_label(html);
        let html_img_cover_url = parse_html_img_cover_url(html);

        if let Some(json_text) = extract_next_data_json(html) {
            if let Some(value) = parse_json(json_text.as_str()) {
                let info = info_from_next_data(
                    &value,
                    finished_from_label,
                    copy_opt(&html_img_cover_url),
                );
                if info.book_name.is_some() || info.first_item_id.is_some() {
                    return info;
                }
            }
        }
        if let Some(json_text) = extract_initial_state_json(html) {
            if let Some(value) = parse_json(json_text.as_str()) {
                let info = info_from_initial_state(
                    &value,
                    finished_from_label,
                    copy_opt(&html_img_cover_url),
                    parse_tags_from_info_label(html),
                );
                if info.book_name.is_some() || info.first_item_id.is_some() {
                    return info;
                }
            }
        }
        info_from_text(html, finished_from_label, html_img_cover_url)
    }
}

/// A document with a string under one of the names for the title of a book, or under
/// one of those for the id of its first chapter.
pub open spec fn identifies(v: JsonView) -> bool {
    ||| search::find_first(v, "bookName"@, search::read_string()) is Some
    ||| search::find_first(v, "book_name"@, search::read_string()) is Some
    ||| search::find_first(v, "title"@, search::read_string()) is Some
    ||| search::find_first(v, "name"@, search::read_string()) is Some
    ||| search::find_first(v, "first_chapter_item_id"@, search::read_string()) is Some
    ||| search::find_first(v, "firstChapterItemId"@, search::read_string()) is Some
    ||| search::find_first(v, "item_id"@, search::read_string()) is Some
    ||| search::find_first(v, "itemId"@, search::read_string()) is Some
}

/// The state of a page is the document `v`, which identifies the book.
pub open spec fn has_state(html: Seq<char>, v: JsonView) -> bool {
    identifies(v) && exists|t: Seq<char>|
        {
            &&& pattern::first_group(
                r#"(?s)<script[^>]*id="__NEXT_DATA__"[^>]*>(.*?)</script>"#@,
                html,
            ) == Some(t)
            &&& json::json_document(#[trigger] text::trimmed(t)) == Some(v)
        }
}

/// The first state of a page is the document `v`, which identifies the book.
pub open spec fn has_first_state(html: Seq<char>, v: JsonView) -> bool {
    identifies(v) && exists|t: Seq<char>|
        {
            &&& pattern::first_group(
                r#"(?s)window\.__INITIAL_STATE__\s*=\s*(\{.*?\})\s*;"#@,
                html,
            ) == Some(t)
            &&& json::json_document(#[trigger] text::trimmed(t)) == Some(v)
        }
}

proof fn lemma_identifies(v: JsonView)
    ensures
        identifies(v) <==> name_in(v) is Some || first_item_in(v) is Some,
{
    let names = seq!["bookName"@, "book_name"@, "title"@, "name"@];
    let firsts = seq!["first_chapter_item_id"@, "firstChapterItemId"@, "item_id"@, "itemId"@];
    search::lemma_find_by_key(v, names, search::read_string());
    search::lemma_find_by_key(v, firsts, search::read_string());
    assert(names[0] == "bookName"@ && names[1] == "book_name"@ && names[2] == "title"@ && names[3]
        == "name"@);
    assert(firsts[0] == "first_chapter_item_id"@ && firsts[1] == "firstChapterItemId"@ && firsts[2]
        == "item_id"@ && firsts[3] == "itemId"@);
}

proof fn lemma_has_state(html: Seq<char>, v: JsonView)
    ensures
        has_state(html, v) <==> info_by_next_data(html) is Some && document_in(
            page::NEXT_DATA@,
            html,
        ) == Some(v),
        has_first_state(html, v) <==> info_by_initial_state(html) is Some && document_in(
            page::INITIAL_STATE@,
            html,
        ) == Some(v),
{
    lemma_identifies(v);
    if document_in(page::NEXT_DATA@, html) == Some(v) {
        let t = pattern::first_group(page::NEXT_DATA@, html)->0;
        assert(json::json_document(text::trimmed(t)) == Some(v));
    }
    if document_in(page::INITIAL_STATE@, html) == Some(v) {
        let t = pattern::first_group(page::INITIAL_STATE@, html)->0;
        assert(json::json_document(text::trimmed(t)) == Some(v));
    }
}

/// `r` is the cover that a document names: the first string under the first of the
/// names of an address that has one, else what the first `thumb_uri` stands for.
pub open spec fn is_cover_of(v: JsonView, r: Option<Seq<char>>) -> bool {
    let names = seq![
        "thumb_url"@,
        "expand_thumb_url"@,
        "cover_url"@,
        "cover"@,
        "horiz_thumb_url"@,
        "audio_thumb_url_hd"@,
    ];
    if search::is_first_under(v, names, search::read_string(), None) {
        match search::find_first(v, "thumb_uri"@, search::read_string()) {
            Some(uri) => r == page::cover_address(uri),
            None => r is None,
        }
    } else {
        search::is_first_under(v, names, search::read_string(), r)
    }
}

/// `r` is the large cover that a document names, or `cover` where it names none.
pub open spec fn is_detail_cover_of(
    v: JsonView,
    cover: Option<Seq<char>>,
    r: Option<Seq<char>>,
) -> bool {
    let names = seq!["detail_page_thumb_url"@, "detail_cover_url"@, "detail_thumb_url"@];
    if search::is_first_under(v, names, search::read_string(), None) {
        r == cover
    } else {
        search::is_first_under(v, names, search::read_string(), r)
    }
}

proof fn lemma_cover_in(v: JsonView)
    ensures
        is_cover_of(v, cover_in(v)),
        is_detail_cover_of(v, cover_in(v), detail_cover_in(v)),
{
    let read = search::read_string();
    let names = seq![
        "thumb_url"@,
        "expand_thumb_url"@,
        "cover_url"@,
        "cover"@,
        "horiz_thumb_url"@,
        "audio_thumb_url_hd"@,
    ];
    let large = seq!["detail_page_thumb_url"@, "detail_cover_url"@, "detail_thumb_url"@];
    search::lemma_find_by_key(v, names, read);
    search::lemma_find_by_key(v, large, read);
    search::lemma_find_by_key(v, seq!["thumb_uri"@], read);
    assert(seq!["thumb_uri"@][0] == "thumb_uri"@);
}

/// Whichever state tells about the book, these are told alike: the title, the blurb,
/// the covers and the first chapter, each under its names in this order; the image by
/// the linked data; and whether it is finished, by the yellow label first.
pub open spec fn tells_alike(
    v: JsonView,
    label_finished: Option<bool>,
    image: Option<Seq<char>>,
    info: BookInfoView,
) -> bool {
    let read = search::read_string();
    &&& search::is_first_under(
        v,
        seq!["bookName"@, "book_name"@, "title"@, "name"@],
        read,
        info.book_name,
    )
    &&& search::is_first_under(
        v,
        seq!["abstract"@, "description"@, "intro"@, "introduce"@],
        read,
        info.description,
    )
    &&& is_cover_of(v, info.cover_url)
    &&& is_detail_cover_of(v, info.cover_url, info.detail_cover_url)
    &&& info.html_img_cover_url == image
    &&& search::is_first_under(
        v,
        seq!["first_chapter_item_id"@, "firstChapterItemId"@, "item_id"@, "itemId"@],
        read,
        info.first_item_id,
    )
    &&& match label_finished {
        Some(b) => info.finished == Some(b),
        None => info.finished == search::finished_in(v),
    }
}

proof fn lemma_tells_alike(
    v: JsonView,
    label_finished: Option<bool>,
    image: Option<Seq<char>>,
    info: BookInfoView,
)
    requires
        info.book_name == name_in(v),
        info.description == description_in(v),
        info.cover_url == cover_in(v),
        info.detail_cover_url == detail_cover_in(v),
        info.html_img_cover_url == image,
        info.first_item_id == first_item_in(v),
        info.finished == if label_finished is Some {
            label_finished
        } else {
            search::finished_in(v)
        },
    ensures
        tells_alike(v, label_finished, image, info),
{
    let read = search::read_string();
    search::lemma_find_by_key(v, seq!["bookName"@, "book_name"@, "title"@, "name"@], read);
    search::lemma_find_by_key(
        v,
        seq!["abstract"@, "description"@, "intro"@, "introduce"@],
        read,
    );
    search::lemma_find_by_key(
        v,
        seq!["first_chapter_item_id"@, "firstChapterItemId"@, "item_id"@, "itemId"@],
        read,
    );
    lemma_cover_in(v);
}

/// `info` is what the state `v` of a page tells: each part is the first thing under the
/// first of its names, in the order given here, that the document has anything under.
pub open spec fn is_told_by_state(
    v: JsonView,
    label_finished: Option<bool>,
    image: Option<Seq<char>>,
    info: BookInfoView,
) -> bool {
    &&& tells_alike(v, label_finished, image, info)
    &&& search::is_first_under(
        v,
        seq!["author"@, "authorName"@, "author_name"@],
        search::read_string(),
        info.author,
    )
    &&& search::is_first_under(
        v,
        seq!["tags"@, "tagNames"@, "tag_names"@],
        search::read_string_array(),
        info.tags,
    )
    &&& search::is_first_under(
        v,
        seq!["chapterCount"@, "chapter_count"@],
        search::read_usize(),
        info.chapter_count,
    )
}

/// What a state tells is what stands in it under the right names.
pub proof fn lemma_next_data_info(
    v: JsonView,
    label_finished: Option<bool>,
    image: Option<Seq<char>>,
)
    ensures
        is_told_by_state(v, label_finished, image, next_data_info(v, label_finished, image)),
{
    lemma_tells_alike(v, label_finished, image, next_data_info(v, label_finished, image));
    search::lemma_find_by_key(
        v,
        seq!["author"@, "authorName"@, "author_name"@],
        search::read_string(),
    );
    search::lemma_find_by_key(
        v,
        seq!["tags"@, "tagNames"@, "tag_names"@],
        search::read_string_array(),
    );
    search::lemma_find_by_key(v, seq!["chapterCount"@, "chapter_count"@], search::read_usize());
}

/// A page whose state identifies the book is read by that state alone.
pub proof fn lemma_told_by_state(html: Seq<char>, v: JsonView)
    requires
        has_state(html, v),
    ensures
        is_told_by_state(v, page::page_finished(html), page::page_image(html), book_info_of(html)),
{
    lemma_has_state(html, v);
    lemma_next_data_info(v, page::page_finished(html), page::page_image(html));
}

/// `info` is what the first state `v` of a page tells: the author and the number of
/// chapters go by other orders of names than in the state, and the grey labels stand in
/// for tags that are missing.
pub open spec fn is_told_by_first_state(
    v: JsonView,
    label_finished: Option<bool>,
    image: Option<Seq<char>>,
    label_tags: Option<Seq<Seq<char>>>,
    info: BookInfoView,
) -> bool {
    let names = seq!["tags"@, "tagNames"@, "tag_names"@];
    &&& tells_alike(v, label_finished, image, info)
    &&& search::is_first_under(
        v,
        seq!["authorName"@, "author"@, "author_name"@],
        search::read_string(),
        info.author,
    )
    &&& if search::is_first_under(v, names, search::read_string_array(), None) {
        info.tags == label_tags
    } else {
        search::is_first_under(v, names, search::read_string_array(), info.tags)
    }
    &&& search::is_first_under(
        v,
        seq!["chapterTotal"@, "chapterCount"@, "chapter_count"@],
        search::read_usize(),
        info.chapter_count,
    )
}

/// What a first state tells is what stands in it under the right names.
pub proof fn lemma_initial_state_info(
    v: JsonView,
    label_finished: Option<bool>,
    image: Option<Seq<char>>,
    label_tags: Option<Seq<Seq<char>>>,
)
    ensures
        is_told_by_first_state(
            v,
            label_finished,
            image,
            label_tags,
            initial_state_info(v, label_finished, image, label_tags),
        ),
{
    lemma_tells_alike(
        v,
        label_finished,
        image,
        initial_state_info(v, label_finished, image, label_tags),
    );
    search::lemma_find_by_key(
        v,
        seq!["authorName"@, "author"@, "author_name"@],
        search::read_string(),
    );
    search::lemma_find_by_key(
        v,
        seq!["tags"@, "tagNames"@, "tag_names"@],
        search::read_string_array(),
    );
    search::lemma_find_by_key(
        v,
        seq!["chapterTotal"@, "chapterCount"@, "chapter_count"@],
        search::read_usize(),
    );
}

/// A page whose state does not identify the book, but whose first state does, is read
/// by the first state.
pub proof fn lemma_told_by_first_state(html: Seq<char>, v: JsonView)
    requires
        forall|u: JsonView| !has_state(html, u),
        has_first_state(html, v),
    ensures
        is_told_by_first_state(
            v,
            page::page_finished(html),
            page::page_image(html),
            page::page_tags(html),
            book_info_of(html),
        ),
{
    lemma_has_state(html, v);
    if let Some(u) = document_in(page::NEXT_DATA@, html) {
        lemma_has_state(html, u);
        assert(!has_state(html, u));
    }
    lemma_initial_state_info(
        v,
        page::page_finished(html),
        page::page_image(html),
        page::page_tags(html),
    );
}

/// `r` is the string under the first of `fields` that the text of a page has.
pub open spec fn is_first_field(
    html: Seq<char>,
    fields: Seq<Seq<char>>,
    r: Option<Seq<char>>,
) -> bool {
    match r {
        Some(_) => exists|k: int|
            {
                &&& 0 <= k < fields.len()
                &&& page::string_field(html, #[trigger] fields[k]) == r
                &&& forall|i: int|
                    0 <= i < k ==> page::string_field(html, #[trigger] fields[i]) is None
            },
        None => forall|k: int|
            0 <= k < fields.len() ==> page::string_field(html, #[trigger] fields[k]) is None,
    }
}

proof fn lemma_first_field(html: Seq<char>, fields: Seq<Seq<char>>)
    ensures
        is_first_field(html, fields, first_field(html, fields)),
    decreases fields.len(),
{
    if fields.len() > 0 {
        if page::string_field(html, fields[0]) is Some {
            assert(page::string_field(html, fields[0]) == first_field(html, fields));
        } else {
            let rest = fields.skip(1);
            lemma_first_field(html, rest);
            let r = first_field(html, rest);
            if r is Some {
                let k = choose|k: int|
                    {
                        &&& 0 <= k < rest.len()
                        &&& page::string_field(html, #[trigger] rest[k]) == r
                        &&& forall|i: int|
                            0 <= i < k ==> page::string_field(html, #[trigger] rest[i]) is None
                    };
                assert(fields[k + 1] == rest[k]);
                assert forall|i: int| 0 <= i < k + 1 implies page::string_field(
                    html,
                    #[trigger] fields[i],
                ) is None by {
                    if i > 0 {
                        assert(fields[i] == rest[i - 1]);
                    }
                }
            } else {
                assert forall|i: int| 0 <= i < fields.len() implies page::string_field(
                    html,
                    #[trigger] fields[i],
                ) is None by {
                    if i > 0 {
                        assert(fields[i] == rest[i - 1]);
                    }
                }
            }
        }
    }
}

/// `info` is what the text of a page tells: each string by the first of its names that
/// the text has, the tags by the grey labels, and whether the book is finished by the
/// yellow label alone.
pub open spec fn is_told_by_text(
    html: Seq<char>,
    label_finished: Option<bool>,
    image: Option<Seq<char>>,
    info: BookInfoView,
) -> bool {
    let covers = seq![
        "thumb_url"@,
        "expand_thumb_url"@,
        "cover_url"@,
        "cover"@,
        "horiz_thumb_url"@,
        "audio_thumb_url_hd"@,
    ];
    let large = seq!["detail_page_thumb_url"@, "detail_cover_url"@, "detail_thumb_url"@];
    &&& is_first_field(html, seq!["bookName"@, "book_name"@], info.book_name)
    &&& is_first_field(html, seq!["author"@, "authorName"@], info.author)
    &&& is_first_field(html, seq!["abstract"@, "description"@], info.description)
    &&& info.tags == page::page_tags(html)
    &&& if is_first_field(html, covers, None) {
        match page::string_field(html, "thumb_uri"@) {
            Some(uri) => info.cover_url == page::cover_address(uri),
            None => info.cover_url is None,
        }
    } else {
        is_first_field(html, covers, info.cover_url)
    }
    &&& if is_first_field(html, large, None) {
        info.detail_cover_url == info.cover_url
    } else {
        is_first_field(html, large, info.detail_cover_url)
    }
    &&& info.html_img_cover_url == image
    &&& match page::usize_field(html, "chapterCount"@) {
        Some(n) => info.chapter_count == Some(n),
        None => info.chapter_count == page::usize_field(html, "chapter_count"@),
    }
    &&& info.finished == label_finished
    &&& is_first_field(
        html,
        seq!["first_chapter_item_id"@, "firstChapterItemId"@, "itemId"@],
        info.first_item_id,
    )
}

/// What the text of a page tells is what stands in it under the right names.
pub proof fn lemma_text_info(
    html: Seq<char>,
    label_finished: Option<bool>,
    image: Option<Seq<char>>,
)
    ensures
        is_told_by_text(html, label_finished, image, text_info(html, label_finished, image)),
{
    lemma_first_field(html, seq!["bookName"@, "book_name"@]);
    lemma_first_field(html, seq!["author"@, "authorName"@]);
    lemma_first_field(html, seq!["abstract"@, "description"@]);
    lemma_first_field(
        html,
        seq![
            "thumb_url"@,
            "expand_thumb_url"@,
            "cover_url"@,
            "cover"@,
            "horiz_thumb_url"@,
            "audio_thumb_url_hd"@,
        ],
    );
    lemma_first_field(
        html,
        seq!["detail_page_thumb_url"@, "detail_cover_url"@, "detail_thumb_url"@],
    );
    lemma_first_field(html, seq!["first_chapter_item_id"@, "firstChapterItemId"@, "itemId"@]);
}

/// A page neither of whose states identifies the book is read by its text.
pub proof fn lemma_told_by_text(html: Seq<char>)
    requires
        forall|u: JsonView| !has_state(html, u),
        forall|u: JsonView| !has_first_state(html, u),
    ensures
        is_told_by_text(
            html,
            page::page_finished(html),
            page::page_image(html),
            book_info_of(html),
        ),
{
    if let Some(u) = document_in(page::NEXT_DATA@, html) {
        lemma_has_state(html, u);
        assert(!has_state(html, u));
    }
    if let Some(u) = document_in(page::INITIAL_STATE@, html) {
        lemma_has_state(html, u);
        assert(!has_first_state(html, u));
    }
    lemma_text_info(html, page::page_finished(html), page::page_image(html));
}

/// The name of a book is the first string under `bookName` wherever there is one;
/// without one, the first under `book_name`; `title` is of account only where neither
/// is there, and `name` only where none of the three is.
pub proof fn lemma_name_order(html: Seq<char>, v: JsonView)
    requires
        has_state(html, v) || (has_first_state(html, v) && forall|u: JsonView| !has_state(html, u)),
    ensures
        ({
            let first = search::find_first(v, "bookName"@, search::read_string());
            let second = search::find_first(v, "book_name"@, search::read_string());
            let third = search::find_first(v, "title"@, search::read_string());
            let name = book_info_of(html).book_name;
            &&& first is Some ==> name == first
            &&& first is None && second is Some ==> name == second
            &&& first is None && second is None && third is Some ==> name == third
            &&& first is None && second is None && third is None ==> name == search::find_first(
                v,
                "name"@,
                search::read_string(),
            )
        }),
{
    if has_state(html, v) {
        lemma_told_by_state(html, v);
    } else {
        lemma_told_by_first_state(html, v);
    }
    let names = seq!["bookName"@, "book_name"@, "title"@, "name"@];
    assert(names[0] == "bookName"@ && names[1] == "book_name"@ && names[2] == "title"@ && names[3]
        == "name"@);
}

/// What is known of a book is what its parts hold, part by part.
pub proof fn lemma_info_view(info: BookInfo)
    ensures
        info@.book_name == text::opt_text(info.book_name),
        info@.author == text::opt_text(info.author),
        info@.description == text::opt_text(info.description),
        info@.tags == text::opt_texts(info.tags),
        info@.cover_url == text::opt_text(info.cover_url),
        info@.detail_cover_url == text::opt_text(info.detail_cover_url),
        info@.html_img_cover_url == text::opt_text(info.html_img_cover_url),
        info@.chapter_count == info.chapter_count,
        info@.finished == info.finished,
        info@.first_item_id == text::opt_text(info.first_item_id),
{
}

/// Where nothing is known, each part is missing.
pub proof fn lemma_nothing_known()
    ensures
        nothing_known().book_name is None,
        nothing_known().author is None,
        nothing_known().description is None,
        nothing_known().tags is None,
        nothing_known().cover_url is None,
        nothing_known().detail_cover_url is None,
        nothing_known().html_img_cover_url is None,
        nothing_known().chapter_count is None,
        nothing_known().finished is None,
        nothing_known().first_item_id is None,
{
}

} // verus!
