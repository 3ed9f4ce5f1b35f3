use tomato_plan::book_info::BookInfo;
use tomato_plan::cover::{
    after_cover, cover_kind, cover_pause, cover_to_fetch, next_cover_attempt, CoverKind, CoverStep,
    COVER_ATTEMPTS, COVER_TIMEOUT,
};
use tomato_plan::json::{parse_json, parse_json_bytes, Json};
use tomato_plan::web::{
    after_attempt, after_page, after_reader, attempts, cache_file_name, chapters_from_cache,
    cover_web_config, default_headers, directory_url, is_valid_book_id, page_url, plan_web_config,
    throttle_wait, wants_page_body, wants_reader_body, BookInfoStep, DirectoryNext, DirectoryReply,
    FanqieWebConfig, PageReply, DIRECTORY_GAP,
};

const AGENT: &str = "Mozilla/5.0 (Windows NT 10.0; Win64; x64) AppleWebKit/537.36 (KHTML, like Gecko) Chrome/120 Safari/537.36";

fn pairs(v: &[(String, String)]) -> Vec<(&str, &str)> {
    v.iter().map(|(a, b)| (a.as_str(), b.as_str())).collect()
}

fn answered(status: u16, body: Option<&str>) -> DirectoryReply {
    DirectoryReply::Answered { status, body: body.map(|b| b.as_bytes().to_vec()) }
}

fn page(status: u16, body: Option<&str>) -> PageReply {
    PageReply::Answered { status, body: body.map(str::to_string) }
}

fn list(text: &str) -> Vec<Json> {
    parse_json(text).unwrap().as_array().unwrap().clone()
}

#[test]
fn configurations_have_their_defaults() {
    let c = FanqieWebConfig::default();
    assert_eq!((c.request_timeout, c.max_retries, c.insecure_tls), (15, 3, false));
    assert_eq!(c.user_agent, AGENT);
    assert_eq!(c.cache_dir, None);
    let c = plan_web_config(0, 0);
    assert_eq!(c.cache_dir, None);
    assert_eq!((c.request_timeout, c.max_retries, c.insecure_tls), (1, 1, false));
    assert_eq!(c.user_agent, AGENT);
    let c = plan_web_config(30, 5);
    assert_eq!((c.request_timeout, c.max_retries), (30, 5));
    let c = cover_web_config(0);
    assert_eq!((c.request_timeout, c.max_retries), (1, 2));
    assert_eq!(cover_web_config(9).request_timeout, 9);
    assert_eq!(attempts(&FanqieWebConfig { max_retries: 0, ..FanqieWebConfig::default() }), 1);
    assert_eq!(attempts(&FanqieWebConfig::default()), 3);
}

#[test]
fn addresses_carry_the_book_id() {
    assert_eq!(page_url("12"), "https://fanqienovel.com/page/12");
    assert_eq!(
        directory_url("12"),
        "https://fanqienovel.com/api/reader/directory/detail?bookId=12"
    );
    assert_eq!(cache_file_name("12"), "12.json");
}

#[test]
fn headers_name_the_browser_and_the_page() {
    let c = FanqieWebConfig::default();
    assert_eq!(
        pairs(&default_headers()),
        vec![("accept-encoding", "identity"), ("connection", "keep-alive")]
    );
    assert_eq!(
        pairs(&c.get_headers()),
        vec![
            ("accept", "text/html,application/xhtml+xml,application/xml;q=0.9,*/*;q=0.8"),
            ("user-agent", AGENT),
        ]
    );
    assert_eq!(
        pairs(&c.get_json_headers("12")),
        vec![
            ("accept", "application/json, text/plain, */*"),
            ("content-type", "application/json"),
            ("user-agent", AGENT),
            ("referer", "https://fanqienovel.com/page/12"),
        ]
    );
}

#[test]
fn headers_leave_out_what_cannot_stand_in_one() {
    let agent = |a: &str| {
        let c = FanqieWebConfig { user_agent: a.to_string(), ..FanqieWebConfig::default() };
        c.get_headers()[1].1.clone()
    };
    assert_eq!(agent("a\nb"), "Mozilla/5.0");
    assert_eq!(agent("a\u{7f}"), "Mozilla/5.0");
    assert_eq!(agent("a\tb"), "a\tb");
    assert_eq!(agent("浏览器"), "浏览器");
    assert_eq!(agent(""), "");
    let c = FanqieWebConfig::default();
    assert_eq!(c.get_json_headers("1\r2").len(), 3);
    assert_eq!(c.get_json_headers("书").len(), 4);
}

#[test]
fn book_ids_are_digits() {
    assert!(is_valid_book_id("0123"));
    assert!(!is_valid_book_id(""));
    assert!(!is_valid_book_id("  "));
    assert!(!is_valid_book_id("12 "));
    assert!(!is_valid_book_id("12a"));
}

#[test]
fn a_page_that_is_missing_leads_to_the_reader() {
    assert_eq!(
        after_page("12", &page(404, None)),
        BookInfoStep::FetchReader("https://fanqienovel.com/reader/12".to_string())
    );
    assert_eq!(after_page("12", &page(500, None)), BookInfoStep::Done(BookInfo::default()));
    assert_eq!(after_page("12", &page(200, None)), BookInfoStep::Done(BookInfo::default()));
    assert_eq!(after_page("12", &PageReply::Unsent), BookInfoStep::Done(BookInfo::default()));
    let named = BookInfo { book_name: Some("T".to_string()), ..BookInfo::default() };
    let body = r#""bookName":"T""#;
    assert_eq!(after_page("12", &page(200, Some(body))), BookInfoStep::Done(named.clone()));
    assert_eq!(after_page("12", &page(304, Some(body))), BookInfoStep::Done(named.clone()));
    assert_eq!(after_page("12", &page(403, Some(body))), BookInfoStep::Done(BookInfo::default()));
    assert_eq!(after_reader("12", &page(200, Some(body))), named);
    assert_eq!(after_reader("12", &page(304, Some(body))), BookInfo::default());
    assert_eq!(after_reader("12", &page(200, None)), BookInfo::default());
    assert_eq!(after_reader("12", &PageReply::Unsent), BookInfo::default());
}

#[test]
fn bodies_are_read_where_the_status_allows() {
    for (status, of_page, of_reader) in [
        (199, true, false),
        (200, true, true),
        (299, true, true),
        (300, true, false),
        (399, true, false),
        (400, false, false),
        (599, false, false),
        (600, true, false),
    ] {
        assert_eq!(wants_page_body(status), of_page);
        assert_eq!(wants_reader_body(status), of_reader);
    }
}

#[test]
fn a_reply_with_chapters_ends_the_search() {
    let body = r#"{"data":{"chapterList":[{"id":"1"},{"id":"2"}]},"a":1}"#;
    let action = after_attempt(1, 3, &answered(200, Some(body)));
    assert!(!action.warm_up);
    assert_eq!(action.next, DirectoryNext::Return(list(r#"[{"id":"1"},{"id":"2"}]"#)));
    let kept = action.keep.unwrap();
    assert_eq!(parse_json_bytes(&kept), parse_json(body));
    assert_eq!(kept, br#"{"a":1,"data":{"chapterList":[{"id":"1"},{"id":"2"}]}}"#.to_vec());
    assert_eq!(chapters_from_cache(Some(kept)), Some(list(r#"[{"id":"1"},{"id":"2"}]"#)));
}

#[test]
fn other_replies_are_followed_by_the_next_request() {
    let again = |attempt, jitter_tenths| DirectoryNext::Again { attempt, jitter_tenths };
    let action = after_attempt(1, 3, &answered(403, None));
    assert!(action.warm_up && action.keep.is_none());
    assert_eq!(action.next, again(2, 4));
    let action = after_attempt(2, 3, &answered(403, Some("[]")));
    assert!(!action.warm_up && action.keep.is_none());
    assert_eq!(action.next, again(3, 4));
    let action = after_attempt(3, 3, &answered(403, None));
    assert_eq!(action.next, DirectoryNext::UseCache);
    for reply in [DirectoryReply::Unsent, answered(500, Some("[]")), answered(200, None)] {
        let action = after_attempt(1, 2, &reply);
        assert!(!action.warm_up && action.keep.is_none());
        assert_eq!(action.next, again(2, 3));
    }
    let action = after_attempt(1, 2, &answered(200, Some("no document")));
    assert!(action.keep.is_none());
    assert_eq!(action.next, again(2, 3));
    let action = after_attempt(1, 1, &answered(200, Some("{ }")));
    assert_eq!(action.keep, Some(b"{}".to_vec()));
    assert_eq!(action.next, DirectoryNext::UseCache);
}

#[test]
fn the_first_good_reply_is_the_outcome() {
    let replies = [
        DirectoryReply::Unsent,
        answered(403, None),
        answered(200, Some(r#"{"list":[{"id":"1"}]}"#)),
        answered(200, Some(r#"{"list":[{"id":"2"}]}"#)),
    ];
    let mut attempt = 1;
    let mut asked = 0;
    let outcome = loop {
        asked += 1;
        match after_attempt(attempt, 4, &replies[attempt - 1]).next {
            DirectoryNext::Return(v) => break Some(v),
            DirectoryNext::UseCache => break None,
            DirectoryNext::Again { attempt: next, .. } => attempt = next,
        }
    };
    assert_eq!(asked, 3);
    assert_eq!(outcome, Some(list(r#"[{"id":"1"}]"#)));
}

#[test]
fn the_last_document_is_the_one_that_is_kept() {
    let replies = [
        answered(200, Some(r#"{"a":1}"#)),
        answered(200, Some(r#"{"b":[1]}"#)),
        answered(500, Some(r#"{"list":[{"id":"1"}]}"#)),
    ];
    let mut kept = Some(br#"{"list":[{"id":"0"}]}"#.to_vec());
    assert_eq!(chapters_from_cache(kept.clone()), Some(list(r#"[{"id":"0"}]"#)));
    for (i, reply) in replies.iter().enumerate() {
        if let Some(bytes) = after_attempt(i + 1, 3, reply).keep {
            kept = Some(bytes);
        }
    }
    assert_eq!(kept, Some(br#"{"b":[1]}"#.to_vec()));
    assert_eq!(after_attempt(3, 3, &replies[2]).next, DirectoryNext::UseCache);
    assert_eq!(chapters_from_cache(kept), None);
}

#[test]
fn kept_directories_may_be_missing_or_broken() {
    assert_eq!(chapters_from_cache(None), None);
    assert_eq!(chapters_from_cache(Some(b"{".to_vec())), None);
    assert_eq!(chapters_from_cache(Some(b"{}".to_vec())), None);
}

#[test]
fn requests_for_directories_keep_their_distance() {
    assert_eq!(DIRECTORY_GAP, 800);
    assert_eq!(throttle_wait(300, 800), Some(500));
    assert_eq!(throttle_wait(800, 800), None);
    assert_eq!(throttle_wait(900, 800), None);
    assert_eq!(throttle_wait(0, 0), None);
}

#[test]
fn covers_are_asked_for_at_growing_distances() {
    assert_eq!((COVER_ATTEMPTS, COVER_TIMEOUT), (3, 10_000));
    let pauses: Vec<u64> = (0..6).map(cover_pause).collect();
    assert_eq!(pauses, vec![0, 600, 1200, 2400, 2400, 2400]);
}

#[test]
fn a_cover_is_asked_for_three_times() {
    assert_eq!(next_cover_attempt(0), Some(1));
    assert_eq!(next_cover_attempt(1), Some(2));
    assert_eq!(next_cover_attempt(2), None);
    assert_eq!(next_cover_attempt(u32::MAX), None);
}

#[test]
fn the_first_cover_that_can_be_written_is_saved() {
    let saved = |fetched: &[Option<Vec<u8>>], written: &[bool]| -> Option<u32> {
        let mut next = Some(0u32);
        while let Some(attempt) = next {
            match after_cover(&fetched[attempt as usize]) {
                CoverStep::Stop => return None,
                CoverStep::Save(_) if written[attempt as usize] => return Some(attempt),
                _ => next = next_cover_attempt(attempt),
            }
        }
        None
    };
    let jpg = || Some(vec![0xff]);
    let heic = || Some(b"....ftypheic".to_vec());
    assert_eq!(saved(&[None, jpg(), jpg()], &[true, false, true]), Some(2));
    assert_eq!(saved(&[jpg(), jpg(), jpg()], &[false, false, false]), None);
    assert_eq!(saved(&[None, heic(), jpg()], &[true, true, true]), None);
}

#[test]
fn blank_addresses_are_not_fetched() {
    assert_eq!(cover_to_fetch(None), None);
    assert_eq!(cover_to_fetch(Some(" \t".to_string())), None);
    assert_eq!(cover_to_fetch(Some(" http://a".to_string())), Some(" http://a".to_string()));
}

#[test]
fn pictures_are_told_apart_by_their_first_bytes() {
    for brand in ["heic", "heix", "mif1", "msf1"] {
        let bytes = format!("....ftyp{brand}").into_bytes();
        assert_eq!(cover_kind(&bytes), CoverKind::Heic);
        assert_eq!(after_cover(&Some(bytes)), CoverStep::Stop);
    }
    assert_eq!(cover_kind(&b"....ftypavif".to_vec()), CoverKind::Jpeg);
    assert_eq!(cover_kind(&b"....ftyphei".to_vec()), CoverKind::Jpeg);
    assert_eq!(cover_kind(&b"\x89PNG\r\n\x1a\n".to_vec()), CoverKind::Png);
    assert_eq!(cover_kind(&b"\x89PNG\r\n\x1a".to_vec()), CoverKind::Jpeg);
    assert_eq!(cover_kind(&b"RIFF....WEBP".to_vec()), CoverKind::Webp);
    assert_eq!(cover_kind(&b"RIFF....WAVE".to_vec()), CoverKind::Jpeg);
    assert_eq!(cover_kind(&b"\x89PNGftypheic".to_vec()), CoverKind::Heic);
    assert_eq!(cover_kind(&Vec::new()), CoverKind::Jpeg);
}

#[test]
fn pictures_are_saved_by_their_kind() {
    let save = |ext: &str| CoverStep::Save(ext.to_string());
    assert_eq!(after_cover(&None), CoverStep::Retry);
    assert_eq!(after_cover(&Some(Vec::new())), CoverStep::Retry);
    assert_eq!(after_cover(&Some(b"\x89PNG....".to_vec())), save("png"));
    assert_eq!(after_cover(&Some(b"RIFF....WEBP".to_vec())), save("webp"));
    assert_eq!(after_cover(&Some(vec![0xff, 0xd8])), save("jpg"));
}
