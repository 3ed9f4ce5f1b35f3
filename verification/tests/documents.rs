use tomato_plan::chapters::{
    find_chapter_array, has_chapter, is_chapter_like_object, parse_chapter_data,
};
use tomato_plan::json::{json_from_value, parse_json, parse_json_bytes, Json, JsonNumber};
use tomato_plan::search::{
    find_finished_by_key, find_first_i64_for_key, find_first_string_array_for_key,
    find_first_string_for_key, find_first_usize_for_key, find_string_array_by_key,
    find_string_by_key, find_usize_by_key, map_status_to_finished, strings_in,
};
use tomato_plan::text::{is_all_digits, joined, joined3};

fn doc(text: &str) -> Json {
    parse_json(text).unwrap()
}

fn ids(list: &[Json]) -> Vec<String> {
    list.iter()
        .map(|c| c.get("id").and_then(|v| v.as_str()).unwrap_or("?").to_string())
        .collect()
}

#[test]
fn json_keeps_every_kind_of_value() {
    let j = doc(r#"{"b":[null,true,7,-7,1.5,"x"],"a":{}}"#);
    let expected = Json::Object(vec![
        ("a".to_string(), Json::Object(Vec::new())),
        (
            "b".to_string(),
            Json::Array(vec![
                Json::Null,
                Json::Bool(true),
                Json::Number(JsonNumber::Unsigned(7)),
                Json::Number(JsonNumber::Negative(-7)),
                Json::Number(JsonNumber::Real("1.5".to_string())),
                Json::Text("x".to_string()),
            ]),
        ),
    ]);
    assert_eq!(j, expected);
    assert_eq!(j.clone(), expected);
    assert_eq!(json_from_value(serde_json::from_str(r#"{"a":1}"#).unwrap()), doc(r#"{"a":1}"#));
}

#[test]
fn json_refuses_what_is_no_document() {
    assert!(parse_json("{").is_none());
    assert!(parse_json("").is_none());
    assert!(parse_json_bytes(&b"[1,".to_vec()).is_none());
    assert!(parse_json_bytes(&vec![0xff, 0xfe]).is_none());
    assert_eq!(parse_json_bytes(&b" [1] ".to_vec()), parse_json("[1]"));
}

#[test]
fn json_reads_members_and_scalars() {
    let j = doc(r#"{"n":18446744073709551615,"m":9223372036854775807,"k":-3,"s":"t","a":[1]}"#);
    assert_eq!(j.get("n").unwrap().as_u64(), Some(u64::MAX));
    assert_eq!(j.get("n").unwrap().as_i64(), None);
    assert_eq!(j.get("m").unwrap().as_i64(), Some(i64::MAX));
    assert_eq!(j.get("k").unwrap().as_i64(), Some(-3));
    assert_eq!(j.get("k").unwrap().as_u64(), None);
    assert_eq!(j.get("s").unwrap().as_str(), Some("t"));
    assert_eq!(j.get("a").unwrap().as_array().unwrap().len(), 1);
    assert!(j.get("z").is_none());
    assert!(doc("[1]").get("a").is_none());
}

#[test]
fn texts_are_joined_and_tested_for_digits() {
    assert_eq!(joined("a", "b"), "ab");
    assert_eq!(joined3("a", "", "c"), "ac");
    assert!(is_all_digits("0123456789"));
    assert!(is_all_digits(""));
    assert!(!is_all_digits("12a"));
    assert!(!is_all_digits("１２"));
}

#[test]
fn a_search_takes_the_outer_object_first() {
    let j = doc(r#"{"a":{"title":"inner"},"title":"outer"}"#);
    assert_eq!(find_first_string_for_key(&j, "title"), Some("outer".to_string()));
    let j = doc(r#"{"title":5,"a":[{"x":1},{"title":"deep"}],"b":{"title":"later"}}"#);
    assert_eq!(find_first_string_for_key(&j, "title"), Some("deep".to_string()));
    assert_eq!(find_first_string_for_key(&j, "none"), None);
    assert_eq!(find_first_string_for_key(&doc("\"title\""), "title"), None);
}

#[test]
fn a_search_walks_members_by_name() {
    let j = doc(r#"{"z":{"title":"of z"},"c":{"title":"of c"}}"#);
    assert_eq!(find_first_string_for_key(&j, "title"), Some("of c".to_string()));
}

#[test]
fn counts_are_numbers_or_digits() {
    assert_eq!(find_first_usize_for_key(&doc(r#"{"n":12}"#), "n"), Some(12));
    assert_eq!(find_first_usize_for_key(&doc(r#"{"n":"34"}"#), "n"), Some(34));
    assert_eq!(find_first_usize_for_key(&doc(r#"{"n":"+5"}"#), "n"), Some(5));
    assert_eq!(find_first_usize_for_key(&doc(r#"{"n":"-5"}"#), "n"), None);
    assert_eq!(find_first_usize_for_key(&doc(r#"{"n":" 5"}"#), "n"), None);
    assert_eq!(find_first_usize_for_key(&doc(r#"{"n":""}"#), "n"), None);
    assert_eq!(find_first_usize_for_key(&doc(r#"{"n":"99999999999999999999999"}"#), "n"), None);
    assert_eq!(find_first_usize_for_key(&doc(r#"{"n":-1,"m":{"n":3}}"#), "n"), Some(3));
    assert_eq!(find_first_usize_for_key(&doc(r#"{"n":1.5}"#), "n"), None);
}

#[test]
fn statuses_are_numbers_or_digits() {
    assert_eq!(find_first_i64_for_key(&doc(r#"{"n":-12}"#), "n"), Some(-12));
    assert_eq!(find_first_i64_for_key(&doc(r#"{"n":"-34"}"#), "n"), Some(-34));
    assert_eq!(find_first_i64_for_key(&doc(r#"{"n":"+34"}"#), "n"), Some(34));
    assert_eq!(find_first_i64_for_key(&doc(r#"{"n":"-"}"#), "n"), None);
    assert_eq!(
        find_first_i64_for_key(&doc(r#"{"n":"-9223372036854775808"}"#), "n"),
        Some(i64::MIN)
    );
    assert_eq!(find_first_i64_for_key(&doc(r#"{"n":"9223372036854775808"}"#), "n"), None);
    assert_eq!(find_first_i64_for_key(&doc(r#"[{"n":"x"},{"n":2}]"#), "n"), Some(2));
}

#[test]
fn string_lists_pass_over_other_items() {
    let j = doc(r#"{"tags":[1,"a",null,"b"]}"#);
    assert_eq!(
        find_first_string_array_for_key(&j, "tags"),
        Some(vec!["a".to_string(), "b".to_string()])
    );
    assert_eq!(strings_in(j.get("tags").unwrap().as_array().unwrap()), vec!["a", "b"]);
    let j = doc(r#"{"tags":[],"x":{"tags":["c"]}}"#);
    assert_eq!(find_first_string_array_for_key(&j, "tags"), Some(vec!["c".to_string()]));
    assert_eq!(find_first_string_array_for_key(&doc(r#"{"tags":"a"}"#), "tags"), None);
}

#[test]
fn keys_are_tried_in_order() {
    let j = doc(r#"{"x":{"first":"1"},"second":"2"}"#);
    assert_eq!(find_string_by_key(&j, ["first", "second"]), Some("1".to_string()));
    assert_eq!(find_string_by_key(&j, ["second", "first"]), Some("2".to_string()));
    assert_eq!(find_string_by_key(&j, ["third"]), None);
    assert_eq!(find_usize_by_key(&j, ["zero", "second"]), Some(2));
    assert_eq!(find_usize_by_key(&j, ["zero"]), None);
    assert_eq!(
        find_string_array_by_key(&doc(r#"{"b":["y"]}"#), ["a", "b"]),
        Some(vec!["y".to_string()])
    );
    assert_eq!(find_string_array_by_key(&j, ["first"]), None);
}

#[test]
fn statuses_mean_finished_or_running() {
    for (key, n, expected) in [
        ("status", 0, Some(false)),
        ("status", 1, Some(true)),
        ("status", 2, Some(true)),
        ("status", 3, None),
        ("serial_status", 0, None),
        ("serial_status", 1, Some(false)),
        ("serial_status", 2, Some(true)),
        ("is_finish", 0, Some(false)),
        ("is_finish", 1, Some(true)),
        ("is_finish", 2, Some(true)),
        ("is_finish", -1, None),
    ] {
        assert_eq!(map_status_to_finished(key, n), expected, "{key} {n}");
    }
}

#[test]
fn a_status_that_says_nothing_is_passed_over() {
    assert_eq!(find_finished_by_key(&doc(r#"{"status":9,"serial_status":1}"#)), Some(false));
    assert_eq!(find_finished_by_key(&doc(r#"{"is_finished":"1"}"#)), Some(true));
    assert_eq!(find_finished_by_key(&doc(r#"{"status":9}"#)), None);
    assert_eq!(find_finished_by_key(&doc("{}")), None);
}

#[test]
fn objects_with_an_id_are_chapters() {
    for key in ["item_id", "itemId", "chapter_id", "chapterId", "catalog_id", "catalogId", "id"] {
        assert!(is_chapter_like_object(&vec![(key.to_string(), Json::Null)]));
    }
    assert!(!is_chapter_like_object(&vec![("title".to_string(), Json::Null)]));
    assert!(!is_chapter_like_object(&Vec::new()));
    assert!(has_chapter(&vec![Json::Null, doc(r#"{"id":1}"#)]));
    assert!(!has_chapter(&vec![Json::Null]));
}

#[test]
fn the_first_longest_array_with_a_chapter_wins() {
    let j = doc(
        r#"{"a":[{"id":"1"}],"b":[{"id":"2"},{"x":0}],"c":[{"id":"3"},{"id":"4"}],"d":[1,2,3]}"#,
    );
    assert_eq!(ids(&find_chapter_array(&j).unwrap()), vec!["2", "?"]);
    let nested = doc(r#"[[{"id":"1"},{"id":"2"}],{"id":"3"}]"#);
    assert_eq!(find_chapter_array(&nested).unwrap().len(), 2);
    assert_eq!(find_chapter_array(&nested).unwrap(), *nested.as_array().unwrap());
    assert!(find_chapter_array(&doc(r#"{"d":[1,2,3]}"#)).is_none());
}

#[test]
fn directories_list_chapters_under_known_names() {
    let j = doc(r#"{"data":{"list":[{"id":"9"}],"chapterList":[{"id":"1"},{"id":"2"}]}}"#);
    assert_eq!(ids(&parse_chapter_data(&j).unwrap()), vec!["1", "2"]);
    let j = doc(r#"{"items":[]}"#);
    assert_eq!(parse_chapter_data(&j), Some(Vec::new()));
    let j = doc(r#"{"data":{"chapterList":"none","chapters":[{"id":"1"}]}}"#);
    assert_eq!(ids(&parse_chapter_data(&j).unwrap()), vec!["1"]);
}

#[test]
fn directories_list_chapters_by_volume() {
    let j = doc(r#"{"data":{"chapterListWithVolume":[[{"id":"1"}],5,[],[{"id":"2"},{"id":"3"}]]}}"#);
    assert_eq!(ids(&parse_chapter_data(&j).unwrap()), vec!["1", "2", "3"]);
    let j = doc(r#"{"data":{"chapterListWithVolume":[[]],"data":{"list":[{"id":"4"}]}}}"#);
    assert_eq!(ids(&parse_chapter_data(&j).unwrap()), vec!["4"]);
}

#[test]
fn directories_list_chapters_one_level_deeper() {
    let j = doc(r#"{"data":{"data":{"chapters":[{"id":"1"}],"list":[{"id":"2"}]}}}"#);
    assert_eq!(ids(&parse_chapter_data(&j).unwrap()), vec!["2"]);
}

#[test]
fn directories_are_searched_as_a_last_resort() {
    let j = doc(r#"{"data":{"x":{"y":[{"itemId":"1"},{"itemId":"2"}]},"z":[{"id":"3"}]}}"#);
    assert_eq!(parse_chapter_data(&j).unwrap().len(), 2);
    assert!(parse_chapter_data(&doc(r#"{"data":{"x":1}}"#)).is_none());
    assert!(parse_chapter_data(&doc("null")).is_none());
}
