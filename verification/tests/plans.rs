use tomato_plan::book_info::BookInfo;
use tomato_plan::json::{parse_json, Json};
use tomato_plan::models::{
    copy_refs, BookMeta, ChapterRange, ChapterRef, DownloadPlan, PlanError,
};
use tomato_plan::official_plan::{
    finish_official_plan, search_metadata, start_official_plan, Directory, FoundBook,
    OfficialDraft, OfficialStart,
};
use tomato_plan::plan::{apply_range, merge_chapters_with_web};
use tomato_plan::web_plan::{
    meta_from_info, parse_chapter_ref_from_value, pick_first, pick_first_text, plan_from_web,
    prefer_name, prepare_download_plan, prepare_download_plan_web, KeyList,
};

fn some(s: &str) -> Option<String> {
    Some(s.to_string())
}

fn chapter(id: &str, title: &str) -> ChapterRef {
    ChapterRef { id: id.to_string(), title: title.to_string() }
}

fn chapters(list: &[(&str, &str)]) -> Vec<ChapterRef> {
    list.iter().map(|(id, title)| chapter(id, title)).collect()
}

fn doc(text: &str) -> Json {
    parse_json(text).unwrap()
}

fn maps_of(v: &Json) -> Vec<Json> {
    let mut out = Vec::new();
    if let Json::Object(m) = v {
        out.push(v.clone());
        for (_, inner) in m {
            out.extend(maps_of(inner));
        }
    }
    out
}

fn pick_text(m: &Json, keys: KeyList) -> Option<String> {
    keys.names().iter().find_map(|k| m.get(k).and_then(|v| v.as_str()).map(str::to_string))
}

fn prefer_hint(meta: BookMeta, hint: BookMeta) -> BookMeta {
    BookMeta { book_name: hint.book_name.or(meta.book_name), ..meta }
}

fn fill_in(a: BookMeta, b: BookMeta) -> BookMeta {
    BookMeta {
        book_name: a.book_name.or(b.book_name),
        author: a.author.or(b.author),
        description: a.description.or(b.description),
        finished: a.finished.or(b.finished),
        ..a
    }
}

fn both_tags(a: &Vec<String>, b: &Vec<String>) -> Vec<String> {
    a.iter().chain(b.iter()).cloned().collect()
}

fn without_category(tags: &Vec<String>, category: &Option<String>) -> Vec<String> {
    tags.iter().filter(|t| Some(*t) != category.as_ref()).cloned().collect()
}

fn no_name(_: &BookMeta) -> Option<String> {
    None
}

fn prepare(
    info: &BookInfo,
    values: Option<Vec<Json>>,
    hint: BookMeta,
) -> Result<DownloadPlan, PlanError> {
    prepare_download_plan("12", info, values, hint, &maps_of, &pick_text, &prefer_hint, &no_name)
}

fn web_plan(list: &[(&str, &str)], meta: BookMeta) -> DownloadPlan {
    DownloadPlan { book_id: "12".to_string(), meta, chapters: chapters(list), raw: Json::Null }
}

#[test]
fn ranges_count_from_one_and_take_in_both_ends() {
    let all = chapters(&[("1", "a"), ("2", "b"), ("3", "c")]);
    let ids = |range: Option<(usize, usize)>| -> Vec<String> {
        apply_range(&all, range.map(|(start, end)| ChapterRange { start, end }))
            .into_iter()
            .map(|c| c.id)
            .collect()
    };
    assert_eq!(ids(None), vec!["1", "2", "3"]);
    assert_eq!(ids(Some((1, 1))), vec!["1"]);
    assert_eq!(ids(Some((2, 3))), vec!["2", "3"]);
    assert_eq!(ids(Some((2, 99))), vec!["2", "3"]);
    assert_eq!(ids(Some((3, usize::MAX))), vec!["3"]);
    assert!(ids(Some((0, 2))).is_empty());
    assert!(ids(Some((3, 2))).is_empty());
    assert!(ids(Some((4, 9))).is_empty());
    assert!(apply_range(&Vec::new(), Some(ChapterRange { start: 1, end: 1 })).is_empty());
    assert_eq!(copy_refs(&all, 1, 2), chapters(&[("2", "b")]));
}

#[test]
fn an_empty_list_gives_way_to_the_other() {
    let web = chapters(&[("1", "a"), ("1", "a")]);
    assert_eq!(merge_chapters_with_web(Vec::new(), &web), web);
    assert_eq!(merge_chapters_with_web(web.clone(), &Vec::new()), web);
}

#[test]
fn merged_lists_keep_official_order_and_titles() {
    let official = chapters(&[("1", " "), ("2", "two"), ("1", "again"), ("3", "")]);
    let web = chapters(&[("9", "nine"), ("1", "old"), ("1", "one"), ("2", "other"), ("9", "ix")]);
    assert_eq!(
        merge_chapters_with_web(official, &web),
        chapters(&[("1", "one"), ("2", "two"), ("3", ""), ("9", "nine"), ("9", "ix")])
    );
}

#[test]
fn a_blank_id_takes_no_title() {
    let official = chapters(&[(" ", ""), ("1", "")]);
    let web = chapters(&[(" ", "blank"), ("1", "")]);
    assert_eq!(merge_chapters_with_web(official, &web), chapters(&[(" ", ""), ("1", "")]));
}

#[test]
fn chapters_are_read_from_the_maps_of_a_value() {
    let read = |text: &str| parse_chapter_ref_from_value(&doc(text), &maps_of, &pick_text);
    assert_eq!(read(r#"{"item_id":"1","title":"a"}"#), Some(chapter("1", "a")));
    assert_eq!(read(r#"{"id":"1","x":{"itemId":"2","name":"b"}}"#), Some(chapter("1", "b")));
    assert_eq!(read(r#"{"catalogId":"7"}"#), Some(chapter("7", "7")));
    assert_eq!(read(r#"{"title":"a"}"#), None);
    assert_eq!(read("5"), None);
}

#[test]
fn key_lists_name_their_keys_in_order() {
    assert_eq!(
        KeyList::ChapterId.names(),
        vec!["item_id", "itemId", "chapter_id", "chapterId", "catalog_id", "catalogId", "id"]
    );
    assert_eq!(
        KeyList::ChapterTitle.names(),
        vec!["title", "chapter_title", "chapterTitle", "name", "chapter_name"]
    );
    assert_eq!(
        KeyList::Description.names(),
        vec!["description", "desc", "abstract", "intro", "summary"]
    );
    let maps = vec![doc("{}"), doc(r#"{"desc":"x"}"#), doc(r#"{"desc":"y"}"#)];
    assert_eq!(pick_first_text(&maps, KeyList::Description, &pick_text), some("x"));
    assert_eq!(pick_first_text(&maps, KeyList::ChapterId, &pick_text), None);
    assert_eq!(pick_first(&maps, |m: &Json| m.get("desc").map(|_| 3u8)), Some(3));
    assert_eq!(pick_first(&maps, |_: &Json| None::<u8>), None);
}

#[test]
fn a_book_with_a_list_gets_its_chapters() {
    let info = BookInfo { book_name: some("T"), tags: Some(vec!["x".to_string()]), ..BookInfo::default() };
    let values = vec![doc(r#"{"id":"1","title":"a"}"#), doc("5"), doc(r#"{"id":"2"}"#)];
    let hint = BookMeta { book_name: some("H"), ..BookMeta::default() };
    let plan = prepare(&info, Some(values), hint).unwrap();
    assert_eq!(plan.book_id, "12");
    assert_eq!(plan.meta.book_name, some("H"));
    assert_eq!(plan.meta.tags, vec!["x"]);
    assert_eq!(plan.chapters, chapters(&[("1", "a"), ("2", "2")]));
    assert_eq!(
        plan.raw,
        doc(r#"{"book_id":"12","chapters":[{"id":"1","title":"a"},5,{"id":"2"}],"source":"fanqie_web"}"#)
    );
}

#[test]
fn a_book_without_a_list_is_a_short_story() {
    let info = BookInfo { book_name: some("T"), first_item_id: some("77"), ..BookInfo::default() };
    for values in [None, Some(Vec::new())] {
        let plan = prepare(&info, values, BookMeta::default()).unwrap();
        assert_eq!(plan.chapters, chapters(&[("77", "T")]));
        assert_eq!(
            plan.raw,
            doc(r#"{"book_id":"12","chapters":[{"item_id":"77","title":"T"}],"source":"fanqie_web_short_story"}"#)
        );
    }
    let plan = prepare(&BookInfo::default(), None, BookMeta::default()).unwrap();
    assert_eq!(plan.chapters, chapters(&[("12", "")]));
}

#[test]
fn the_plan_by_the_pages_is_the_plan() {
    let info = BookInfo { book_name: some("T"), ..BookInfo::default() };
    for values in [None, Some(vec![doc("5")]), Some(vec![doc(r#"{"id":"1"}"#)])] {
        let by_pages = prepare_download_plan_web(
            "12",
            &info,
            values.clone(),
            BookMeta::default(),
            &maps_of,
            &pick_text,
            &prefer_hint,
            &no_name,
        );
        assert_eq!(prepare(&info, values, BookMeta::default()), by_pages);
    }
}

#[test]
fn a_list_without_a_chapter_makes_no_plan() {
    let r = prepare(&BookInfo::default(), Some(vec![doc("5")]), BookMeta::default());
    assert_eq!(r, Err(PlanError::NoChapterId));
    let r = plan_from_web("12", &BookInfo::default(), Some(vec![doc("5")]), vec![None], BookMeta::default(), None);
    assert_eq!(r, Err(PlanError::NoChapterId));
}

#[test]
fn a_preferred_name_replaces_the_name() {
    let meta = BookMeta { book_name: some("a"), author: some("b"), ..BookMeta::default() };
    assert_eq!(prefer_name(meta.clone(), None), meta);
    let renamed = prefer_name(meta, some("c"));
    assert_eq!((renamed.book_name, renamed.author), (some("c"), some("b")));
    let plan = prepare_download_plan_web(
        "12",
        &BookInfo::default(),
        None,
        BookMeta::default(),
        &maps_of,
        &pick_text,
        &prefer_hint,
        &|_: &BookMeta| Some("p".to_string()),
    );
    assert_eq!(plan.unwrap().meta.book_name, some("p"));
    let plan = plan_from_web(
        "12",
        &BookInfo::default(),
        Some(vec![doc("1")]),
        vec![None, Some(chapter("1", "a"))],
        BookMeta::default(),
        some("q"),
    )
    .unwrap();
    assert_eq!((plan.meta.book_name, plan.chapters), (some("q"), chapters(&[("1", "a")])));
}

#[test]
fn what_a_page_tells_is_taken_over() {
    let info = BookInfo {
        author: some("a"),
        description: some("d"),
        cover_url: some("c"),
        detail_cover_url: some("e"),
        chapter_count: Some(3),
        finished: Some(true),
        html_img_cover_url: some("i"),
        ..BookInfo::default()
    };
    let meta = meta_from_info(&info);
    let expected = BookMeta {
        author: some("a"),
        description: some("d"),
        cover_url: some("c"),
        detail_cover_url: some("e"),
        chapter_count: Some(3),
        finished: Some(true),
        ..BookMeta::default()
    };
    assert_eq!(meta, expected);
}

#[test]
fn errors_read_as_they_should() {
    assert_eq!(PlanError::FetchDirectory.message("12"), "fetch directory for book_id=12");
    assert_eq!(PlanError::EmptyDirectory.message("12"), "目录为空");
    assert_eq!(PlanError::NoChapterId.message("12"), "解析章节列表失败（未能提取 item_id/title）");
}

fn directory(list: &[(&str, &str)], meta: BookMeta) -> Directory {
    Directory { book_id: "34".to_string(), meta, chapters: chapters(list), raw: Json::Bool(true) }
}

fn draft(start: OfficialStart) -> OfficialDraft {
    match start {
        OfficialStart::Draft(d) => d,
        OfficialStart::Settled(_) => panic!("no draft"),
    }
}

fn settled(start: OfficialStart) -> Result<DownloadPlan, PlanError> {
    match start {
        OfficialStart::Settled(r) => r,
        OfficialStart::Draft(_) => panic!("a draft"),
    }
}

#[test]
fn without_an_official_directory_the_pages_decide() {
    let start = |fetched, web| settled(start_official_plan(fetched, web, BookMeta::default(), &prefer_hint));
    let web = || web_plan(&[("1", "a")], BookMeta::default());
    let empty = || Some(directory(&[], BookMeta::default()));
    assert_eq!(start(None, Some(web())), Ok(web()));
    assert_eq!(start(None, None), Err(PlanError::FetchDirectory));
    assert_eq!(start(empty(), Some(web())), Ok(web()));
    assert_eq!(start(empty(), None), Err(PlanError::EmptyDirectory));
}

#[test]
fn an_official_plan_is_completed_by_search_and_pages() {
    let from_dir = BookMeta {
        author: some("dir"),
        tags: vec!["t".to_string(), "cat".to_string()],
        category: some("cat"),
        finished: Some(false),
        ..BookMeta::default()
    };
    let hint = BookMeta { book_name: some("hint"), ..BookMeta::default() };
    let on_web = BookMeta {
        description: some("web"),
        tags: vec!["w".to_string()],
        finished: Some(true),
        ..BookMeta::default()
    };
    let web = web_plan(&[("1", "one"), ("3", "three")], on_web);
    let d = draft(start_official_plan(
        Some(directory(&[("1", ""), ("2", "two")], from_dir)),
        Some(web),
        hint,
        &prefer_hint,
    ));
    assert!(d.needs_search());
    let searched = BookMeta { description: some("found"), ..BookMeta::default() };
    let plan = finish_official_plan(d, Some(searched), &fill_in, &both_tags, &without_category, &no_name);
    assert_eq!(plan.book_id, "34");
    assert_eq!(plan.raw, Json::Bool(true));
    assert_eq!(plan.chapters, chapters(&[("1", "one"), ("2", "two"), ("3", "three")]));
    let expected = BookMeta {
        book_name: some("hint"),
        author: some("dir"),
        description: some("found"),
        tags: vec!["t".to_string(), "w".to_string()],
        finished: Some(true),
        category: some("cat"),
        ..BookMeta::default()
    };
    assert_eq!(plan.meta, expected);
}

#[test]
fn a_complete_draft_ignores_the_search() {
    let meta = BookMeta {
        book_name: some("n"),
        author: some("a"),
        description: some("d"),
        ..BookMeta::default()
    };
    let d = draft(start_official_plan(
        Some(directory(&[("1", "x"), ("1", "y")], meta)),
        None,
        BookMeta::default(),
        &prefer_hint,
    ));
    assert!(!d.needs_search());
    let searched = BookMeta { finished: Some(true), ..BookMeta::default() };
    let plan = finish_official_plan(
        d,
        Some(searched),
        &fill_in,
        &both_tags,
        &without_category,
        &|_: &BookMeta| Some("p".to_string()),
    );
    assert_eq!(plan.meta.finished, None);
    assert_eq!(plan.meta.book_name, some("p"));
    assert_eq!(plan.chapters, chapters(&[("1", "x"), ("1", "y")]));
}

#[test]
fn a_search_tells_about_the_book_with_the_id() {
    let books = || {
        vec![
            FoundBook { book_id: "1".to_string(), title: some("other"), author: None, raw: doc("{}") },
            FoundBook {
                book_id: "12".to_string(),
                title: some("T"),
                author: some("A"),
                raw: doc(r#"{"x":{"intro":"I","tags":["t"],"n":4,"done":true}}"#),
            },
            FoundBook { book_id: "12".to_string(), title: some("late"), author: None, raw: doc("{}") },
        ]
    };
    let search = |id: &str| {
        search_metadata(
            id,
            books(),
            &maps_of,
            &pick_text,
            |m: &Json| m.get("tags").and_then(|v| v.as_array()).map(|a| {
                a.iter().filter_map(|t| t.as_str()).map(str::to_string).collect()
            }),
            |_: &Json| Some("c".to_string()),
            |_: &Json| None,
            |m: &Json| m.get("done").map(|v| *v == Json::Bool(true)),
            |m: &Json| m.get("n").and_then(|v| v.as_u64()).map(|n| n as usize),
        )
    };
    let expected = BookMeta {
        book_name: some("T"),
        author: some("A"),
        description: some("I"),
        tags: vec!["t".to_string()],
        cover_url: some("c"),
        detail_cover_url: None,
        chapter_count: Some(4),
        finished: Some(true),
        category: None,
    };
    assert_eq!(search("12"), Some(expected));
    assert_eq!(search("99"), None);
    assert_eq!(search("1").unwrap().tags, Vec::<String>::new());
}
