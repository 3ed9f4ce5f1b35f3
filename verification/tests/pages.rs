use tomato_plan::book_info::{
    info_from_initial_state, info_from_next_data, info_from_text, BookInfo, ContentParser,
};
use tomato_plan::json::parse_json;
use tomato_plan::page::{
    build_cover_url_from_thumb_uri, decoded_or_raw, extract_initial_state_json,
    extract_next_data_json, finished_from_label, image_from_blocks, image_url,
    parse_finished_from_info_label, parse_html_img_cover_url, parse_tags_from_info_label,
    regex_json_string_field, regex_json_usize_field, tags_from_labels,
};

fn some(s: &str) -> Option<String> {
    Some(s.to_string())
}

fn next_data(json: &str) -> String {
    format!(r#"<html><script id="__NEXT_DATA__" type="application/json">{json}</script></html>"#)
}

fn initial_state(json: &str) -> String {
    format!("<script>window.__INITIAL_STATE__ = {json} ;</script>")
}

#[test]
fn the_state_of_a_page_is_cut_out_and_trimmed() {
    assert_eq!(extract_next_data_json(&next_data(" {\"a\":\n1} ")), some("{\"a\":\n1}"));
    assert_eq!(extract_next_data_json("<script id=\"other\">{}</script>"), None);
    assert_eq!(extract_initial_state_json(&initial_state("{\"a\":1}")), some("{\"a\":1}"));
    assert_eq!(extract_initial_state_json("window.__INITIAL_STATE__ = 5;"), None);
}

#[test]
fn grey_labels_are_tags() {
    let html = r#"<span class="info-label-grey"> 都市 </span><span class="info-label-grey"> </span>
        <span id="x" class="info-label-grey">脑洞</span>"#;
    assert_eq!(parse_tags_from_info_label(html), Some(vec!["都市".to_string(), "脑洞".to_string()]));
    assert_eq!(parse_tags_from_info_label("<span>x</span>"), None);
    assert_eq!(tags_from_labels(&vec![some(" a\u{3000}"), some("\u{85}")]), Some(vec!["a".to_string()]));
    assert_eq!(tags_from_labels(&vec![some("a"), None]), None);
    assert_eq!(tags_from_labels(&vec![some("  ")]), None);
    assert_eq!(tags_from_labels(&Vec::new()), None);
}

#[test]
fn the_yellow_label_tells_whether_a_book_is_finished() {
    let label = |s: &str| format!(r#"<span class="info-label-yellow">{s}</span>"#);
    assert_eq!(parse_finished_from_info_label(&label("已完结")), Some(true));
    assert_eq!(parse_finished_from_info_label(&label("未完结")), Some(false));
    assert_eq!(parse_finished_from_info_label(&label("连载中")), Some(false));
    assert_eq!(parse_finished_from_info_label(&label("新书")), None);
    assert_eq!(parse_finished_from_info_label(""), None);
    assert_eq!(finished_from_label(" 完结 "), Some(true));
    assert_eq!(finished_from_label("完"), None);
}

#[test]
fn linked_data_name_the_image() {
    let block = |s: &str| format!(r#"<script type="application/ld+json"> {s} </script>"#);
    let html = block("nonsense") + &block(r#"{"image":[" https://a/b.jpg "]}"#);
    assert_eq!(parse_html_img_cover_url(&html), some("https://a/b.jpg"));
    let html = block(r#"{"image":"ftp://a","images":"http://c"}"#);
    assert_eq!(parse_html_img_cover_url(&html), some("http://c"));
    assert_eq!(parse_html_img_cover_url(&block(r#"{"image":[]}"#)), None);
    assert_eq!(parse_html_img_cover_url(&block(r#"{"image":[5]}"#)), None);
    assert_eq!(parse_html_img_cover_url("<script>{}</script>"), None);
    assert_eq!(image_url(&parse_json(r#"{"image":"https://x"}"#).unwrap()), some("https://x"));
    assert_eq!(image_url(&parse_json(r#"{"image":"https:/x"}"#).unwrap()), None);
    assert_eq!(image_from_blocks(&vec![some("{}"), some(r#"{"images":"http://y"}"#)]), some("http://y"));
    assert_eq!(image_from_blocks(&vec![None, some(r#"{"images":"http://y"}"#)]), None);
}

#[test]
fn fields_are_read_from_the_text_of_a_page() {
    let html = r#"x "bookName" : "a中b\n" "bookName":"other" "n": 42, "m":"7" "#;
    assert_eq!(regex_json_string_field(html, "bookName"), some("a中b\n"));
    assert_eq!(regex_json_string_field(html, "missing"), None);
    assert_eq!(regex_json_string_field(r#""k":"bad \q""#, "k"), some(r"bad \q"));
    assert_eq!(regex_json_usize_field(html, "n"), Some(42));
    assert_eq!(regex_json_usize_field(html, "m"), None);
    assert_eq!(regex_json_usize_field(r#""n":99999999999999999999999"#, "n"), None);
    assert_eq!(decoded_or_raw(some("d"), "r"), "d");
    assert_eq!(decoded_or_raw(None, "r"), "r");
}

#[test]
fn a_field_name_is_no_pattern() {
    assert_eq!(regex_json_string_field(r#""aXb":"1""#, "a.b"), None);
    assert_eq!(regex_json_string_field(r#""a.b":"1""#, "a.b"), some("1"));
    assert_eq!(regex_json_usize_field(r#""a(b":5"#, "a(b"), Some(5));
    let every = r"\.+*?()|[]{}^$#&-~";
    assert_eq!(regex_json_usize_field(&format!("\"{every}\":6"), every), Some(6));
}

#[test]
fn covers_are_addresses_or_names_of_thumbnails() {
    assert_eq!(build_cover_url_from_thumb_uri("  "), None);
    assert_eq!(build_cover_url_from_thumb_uri(" http://a "), some("http://a"));
    assert_eq!(build_cover_url_from_thumb_uri("https://a"), some("https://a"));
    assert_eq!(
        build_cover_url_from_thumb_uri(" novel/1 "),
        some("https://p3-reading-sign.fqnovelpic.com/novel/1")
    );
}

#[test]
fn a_page_is_read_by_its_state() {
    let html = next_data(
        r#"{"bookName":"N","author":"A","authorName":"B","abstract":"D","thumb_uri":"t/1",
            "chapterCount":"12","tags":["x","y"],"serial_status":1,"item_id":"77"}"#,
    );
    let info = ContentParser::parse_book_info(&html, "1");
    let expected = BookInfo {
        book_name: some("N"),
        author: some("A"),
        description: some("D"),
        tags: Some(vec!["x".to_string(), "y".to_string()]),
        cover_url: some("https://p3-reading-sign.fqnovelpic.com/t/1"),
        detail_cover_url: some("https://p3-reading-sign.fqnovelpic.com/t/1"),
        html_img_cover_url: None,
        chapter_count: Some(12),
        finished: Some(false),
        first_item_id: some("77"),
    };
    assert_eq!(info, expected);
}

#[test]
fn the_label_wins_over_the_state() {
    let html = next_data(r#"{"bookName":"N","status":1}"#)
        + r#"<span class="info-label-yellow">连载</span><script type="application/ld+json">{"image":"http://i"}</script>"#;
    let info = ContentParser::parse_book_info(&html, "1");
    assert_eq!(info.finished, Some(false));
    assert_eq!(info.html_img_cover_url, some("http://i"));
    assert_eq!(info.cover_url, None);
    assert_eq!(info.detail_cover_url, None);
}

#[test]
fn a_page_is_read_by_its_first_state_next() {
    let html = next_data(r#"{"author":"nobody"}"#)
        + &initial_state(r#"{"title":"T","author":"A","authorName":"B","chapterTotal":3,"cover":"http://c","detail_cover_url":"http://d"}"#)
        + r#"<span class="info-label-grey">g</span>"#;
    let info = ContentParser::parse_book_info(&html, "1");
    assert_eq!(info.book_name, some("T"));
    assert_eq!(info.author, some("B"));
    assert_eq!(info.chapter_count, Some(3));
    assert_eq!(info.tags, Some(vec!["g".to_string()]));
    assert_eq!(info.cover_url, some("http://c"));
    assert_eq!(info.detail_cover_url, some("http://d"));
    assert_eq!(info.first_item_id, None);
}

#[test]
fn a_page_is_read_by_its_text_last() {
    let html = r#"{"book_name":"T","authorName":"A","description":"D","expand_thumb_url":"http://e",
        "chapter_count":4,"itemId":"9","status":1}<span class="info-label-yellow">完结</span>"#;
    let info = ContentParser::parse_book_info(html, "1");
    let expected = BookInfo {
        book_name: some("T"),
        author: some("A"),
        description: some("D"),
        tags: None,
        cover_url: some("http://e"),
        detail_cover_url: some("http://e"),
        html_img_cover_url: None,
        chapter_count: Some(4),
        finished: Some(true),
        first_item_id: some("9"),
    };
    assert_eq!(info, expected);
    assert_eq!(ContentParser::parse_book_info("", "1"), BookInfo::default());
}

#[test]
fn the_text_of_a_page_does_not_tell_item_id() {
    let html = r#""item_id":"9""#;
    assert_eq!(ContentParser::parse_book_info(html, "1").first_item_id, None);
    assert_eq!(info_from_text(html, Some(true), some("http://i")).finished, Some(true));
}

#[test]
fn the_two_states_differ_in_author_tags_and_count() {
    let v = parse_json(r#"{"author":"a","authorName":"b","chapterTotal":5,"chapterCount":6}"#).unwrap();
    let next = info_from_next_data(&v, None, some("i"));
    let first = info_from_initial_state(&v, Some(true), None, Some(vec!["t".to_string()]));
    assert_eq!(next.author, some("a"));
    assert_eq!(next.chapter_count, Some(6));
    assert_eq!(next.tags, None);
    assert_eq!(next.html_img_cover_url, some("i"));
    assert_eq!(first.author, some("b"));
    assert_eq!(first.chapter_count, Some(5));
    assert_eq!(first.tags, Some(vec!["t".to_string()]));
    assert_eq!(first.finished, Some(true));
}

#[test]
fn the_parts_of_what_is_known_come_in_order() {
    let info = BookInfo {
        book_name: some("1"),
        author: some("2"),
        description: some("3"),
        tags: Some(Vec::new()),
        cover_url: some("5"),
        detail_cover_url: some("6"),
        html_img_cover_url: some("7"),
        chapter_count: Some(8),
        finished: Some(true),
        first_item_id: some("10"),
    };
    let (a, b, c, d, e, f, g, h, i, j) = info.into_parts();
    assert_eq!((a, b, c, d), (some("1"), some("2"), some("3"), Some(Vec::new())));
    assert_eq!((e, f, g, h, i, j), (some("5"), some("6"), some("7"), Some(8), Some(true), some("10")));
}
