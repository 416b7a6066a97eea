use crator::json::Json;

#[test]
fn key_value_follows_the_first_colon() {
    assert_eq!(Json::get_key_value(r#"{"a": 1, "b": 2}"#, "b"), "2");
    assert_eq!(Json::get_key_value(r#"{"a" : "x"}"#, "a"), "\"x\"");
    assert_eq!(Json::get_key_value(r#"{"a":{"b":[1,2]}}"#, "a"), r#"{"b":[1,2]}"#);
}

#[test]
fn key_value_keeps_the_quotes() {
    assert_eq!(Json::get_key_value(r#"{"max_version":"1.5.0"}"#, "max_version"), "\"1.5.0\"");
}

#[test]
fn key_without_colon_or_without_match_gives_sentinel() {
    assert_eq!(Json::get_key_value(r#"{"a":1}"#, "b"), "N/A");
    assert_eq!(Json::get_key_value(r#"["a"]"#, "a"), "N/A");
    assert_eq!(Json::get_key_value(r#"{a:1}"#, "a"), "N/A");
    assert_eq!(Json::get_key_value("", "a"), "N/A");
}

#[test]
fn key_with_nothing_behind_the_colon_has_an_empty_value() {
    assert_eq!(Json::get_key_value(r#"{"a":"#, "a"), "");
    assert_eq!(Json::get_key_value(r#"{"a":}"#, "a"), "");
}

#[test]
fn empty_key_matches_a_pair_of_quotes() {
    assert_eq!(Json::get_key_value(r#"{"":5}"#, ""), "5");
}

#[test]
fn array_element_by_index() {
    assert_eq!(Json::get_array_index(r#"[{"v":1},{"v":2}]"#, 1), r#"{"v":2}"#);
    assert_eq!(Json::get_array_index("  [1]", 0), "1");
    assert_eq!(Json::get_array_index("[ 1 , 2 , 3 ]", 2), "3");
    assert_eq!(Json::get_array_index("[\"a\",\"b\"]", 0), "\"a\"");
    assert_eq!(Json::get_array_index("[1,2]tail", 1), "2");
}

#[test]
fn array_element_past_the_end_gives_sentinel() {
    assert_eq!(Json::get_array_index("[1,2,3]", 3), "N/A");
    assert_eq!(Json::get_array_index("[1,2,3]", usize::MAX), "N/A");
    assert_eq!(Json::get_array_index("[]", 0), "N/A");
    assert_eq!(Json::get_array_index("[ ]", 0), "N/A");
    assert_eq!(Json::get_array_index("[", 0), "N/A");
}

#[test]
fn text_that_is_no_array_gives_sentinel() {
    assert_eq!(Json::get_array_index("x[1]", 0), "N/A");
    assert_eq!(Json::get_array_index("{\"a\":[1]}", 0), "N/A");
    assert_eq!(Json::get_array_index("", 0), "N/A");
    assert_eq!(Json::get_array_index("   ", 0), "N/A");
}

#[test]
fn empty_element_ends_the_array() {
    assert_eq!(Json::get_array_index("[1,,2]", 0), "1");
    assert_eq!(Json::get_array_index("[1,,2]", 1), "N/A");
    assert_eq!(Json::get_array_index("[1,,2]", 2), "N/A");
    assert_eq!(Json::get_array_index("[,1]", 0), "N/A");
}

#[test]
fn elements_must_be_separated_by_commas() {
    assert_eq!(Json::get_array_index("[1 2,3]", 0), "1");
    assert_eq!(Json::get_array_index("[1 2,3]", 1), "N/A");
}
