use crator::json::Json;
use crator::{CrateInfo, Json as RootJson};

#[test]
fn top_level_string_is_unquoted() {
    assert_eq!(Json::extract(r#"{"max_version":"1.5.0"}"#, "max_version"), "1.5.0");
}

#[test]
fn nested_number_is_found() {
    let body = r#"{"stats":{"downloads":56000}}"#;
    assert_eq!(Json::extract(body, "stats.downloads"), "56000");
    assert_eq!(Json::extract_u64(body, "stats.downloads"), 56000);
}

#[test]
fn array_index_then_key() {
    let body = r#"{"releases":[{"v":"0.1"},{"v":"0.2"}]}"#;
    assert_eq!(Json::extract(body, "releases.1.v"), "0.2");
    assert_eq!(Json::extract(body, "releases.0.v"), "0.1");
    assert_eq!(Json::extract(body, "releases.1"), r#"{"v":"0.2"}"#);
}

#[test]
fn missing_path_gives_sentinel_and_zero() {
    assert_eq!(Json::extract(r#"{"a":1}"#, "missing.path"), "N/A");
    assert_eq!(Json::extract_int(r#"{"a":1}"#, "missing.path"), 0);
}

#[test]
fn path_resolves_through_three_objects() {
    assert_eq!(Json::extract(r#"{"a":{"b":{"c":5}}}"#, "a.b.c"), "5");
    assert_eq!(Json::extract(r#"{"a":{"b":{"c":5}}}"#, "a.b"), r#"{"c":5}"#);
    assert_eq!(Json::extract(r#"{"a":{"b":{"c":5}}}"#, "a"), r#"{"b":{"c":5}}"#);
}

#[test]
fn path_resolves_through_pretty_printed_text() {
    let body = "{\n  \"crate\": {\n    \"name\": \"cans\",\n    \"tags\": [ \"a\" , \"b\" ]\n  }\n}";
    assert_eq!(Json::extract(body, "crate.name"), "cans");
    assert_eq!(Json::extract(body, "crate.tags.0"), "a");
    assert_eq!(Json::extract(body, "crate.tags.1"), "b");
    assert_eq!(Json::extract(body, "crate.tags.2"), "N/A");
}

#[test]
fn quoted_value_keeps_commas_and_braces() {
    assert_eq!(Json::extract(r#"{"k":"a,b}c"}"#, "k"), "a,b}c");
    assert_eq!(Json::extract(r#"{"k":"[1, 2] {x}","z":0}"#, "k"), "[1, 2] {x}");
}

#[test]
fn quoted_value_keeps_escaped_quotes() {
    assert_eq!(Json::extract(r#"{"k":"say \"hi\", ok","z":1}"#, "k"), r#"say \"hi\", ok"#);
}

#[test]
fn bare_literal_before_closing_brace() {
    assert_eq!(Json::extract(r#"{"a":1,"b":true}"#, "b"), "true");
    assert_eq!(Json::extract(r#"{"a":1,"b":12345}"#, "b"), "12345");
    assert_eq!(Json::extract(r#"{"n": 42 }"#, "n"), "42");
    assert_eq!(Json::extract("{\"n\":null\n}", "n"), "null");
}

#[test]
fn array_indices_count_from_zero() {
    let body = r#"{"xs":[10,20,30]}"#;
    assert_eq!(Json::extract(body, "xs.0"), "10");
    assert_eq!(Json::extract(body, "xs.1"), "20");
    assert_eq!(Json::extract(body, "xs.2"), "30");
}

#[test]
fn index_out_of_range_gives_sentinel() {
    let body = r#"{"xs":[10,20,30]}"#;
    assert_eq!(Json::extract(body, "xs.3"), "N/A");
    assert_eq!(Json::extract(body, "xs.100"), "N/A");
    assert_eq!(Json::extract(r#"{"xs":[]}"#, "xs.0"), "N/A");
    assert_eq!(Json::extract(r#"{"xs":[ ]}"#, "xs.0"), "N/A");
    assert_eq!(Json::extract("[]", "0"), "N/A");
}

#[test]
fn top_level_array_is_indexed() {
    assert_eq!(Json::extract("[1,2]", "1"), "2");
    assert_eq!(Json::extract("  [ \"a\" , \"b\" ]", "0"), "a");
    assert_eq!(Json::extract("[[1,2],[3,4]]", "1.0"), "3");
}

#[test]
fn index_may_carry_a_plus_sign_and_leading_zeros() {
    assert_eq!(Json::extract("[7,8,9]", "+1"), "8");
    assert_eq!(Json::extract("[7,8,9]", "002"), "9");
}

#[test]
fn segment_that_is_no_index_is_a_key() {
    assert_eq!(Json::extract(r#"{"-1":"minus"}"#, "-1"), "minus");
    assert_eq!(Json::extract(r#"{"1a":"mixed"}"#, "1a"), "mixed");
    assert_eq!(Json::extract(r#"{"99999999999999999999999":"big"}"#, "99999999999999999999999"), "big");
}

#[test]
fn numeric_segment_is_never_a_key() {
    assert_eq!(Json::extract(r#"{"0":"x"}"#, "0"), "N/A");
}

#[test]
fn empty_segment_gives_sentinel() {
    let body = r#"{"a":{"b":1},"":"empty"}"#;
    assert_eq!(Json::extract(body, ""), "N/A");
    assert_eq!(Json::extract(body, ".a"), "N/A");
    assert_eq!(Json::extract(body, "a."), "N/A");
    assert_eq!(Json::extract(body, "a..b"), "N/A");
    assert_eq!(Json::extract(body, "."), "N/A");
}

#[test]
fn wrong_kind_of_container_gives_sentinel() {
    assert_eq!(Json::extract(r#"{"a":1}"#, "0"), "N/A");
    assert_eq!(Json::extract("[1,2]", "a"), "N/A");
    assert_eq!(Json::extract(r#"{"a":{"b":1}}"#, "a.0"), "N/A");
    assert_eq!(Json::extract(r#"{"a":[1,2]}"#, "a.b"), "N/A");
}

#[test]
fn malformed_input_never_fails() {
    assert_eq!(Json::extract("", "a"), "N/A");
    assert_eq!(Json::extract("{", "a"), "N/A");
    assert_eq!(Json::extract("not json at all", "a"), "N/A");
    assert_eq!(Json::extract(r#"{"a""#, "a"), "N/A");
    assert_eq!(Json::extract(r#"{"a":"#, "a"), "");
    assert_eq!(Json::extract(r#"{"a":[1,2"#, "a.1"), "2");
    assert_eq!(Json::extract(r#"{"a":[1,2"#, "a.2"), "N/A");
    assert_eq!(Json::extract("]]]", "0"), "N/A");
    assert_eq!(Json::extract("[", "0"), "N/A");
}

#[test]
fn lone_quote_is_returned_as_it_is() {
    assert_eq!(Json::extract(r#"{"a":"}"#, "a"), "\"");
}

#[test]
fn empty_string_value_is_empty() {
    assert_eq!(Json::extract(r#"{"a":"","b":1}"#, "a"), "");
}

#[test]
fn value_that_spells_the_sentinel() {
    assert_eq!(Json::extract(r#"{"a":"N/A"}"#, "a"), "N/A");
    assert_eq!(Json::extract(r#"{"a":N/A}"#, "a"), "N/A");
}

#[test]
fn key_search_is_textual() {
    // The first occurrence of the quoted key is taken, also where it is a
    // value or the key of a nested object.
    assert_eq!(Json::extract(r#"{"x":"k","y":1,"k":"v"}"#, "k"), "1");
    assert_eq!(Json::extract(r#"{"outer":{"inner":"v"}}"#, "inner"), "v");
    assert_eq!(Json::extract(r#"{"a":{"id":1},"id":2}"#, "id"), "1");
}

#[test]
fn non_ascii_text_is_extracted_whole() {
    assert_eq!(Json::extract("{\"name\":\"héllo wörld ✓\",\"n\":1}", "name"), "héllo wörld ✓");
    assert_eq!(Json::extract("{\"ключ\":\"значение\"}", "ключ"), "значение");
    assert_eq!(Json::extract("{\"a\":\u{a0}7\u{a0},\"b\":1}", "a"), "7");
}

#[test]
fn int_reads_signed_decimals() {
    assert_eq!(Json::extract_int(r#"{"t":-12}"#, "t"), -12);
    assert_eq!(Json::extract_int(r#"{"t":+5}"#, "t"), 5);
    assert_eq!(Json::extract_int(r#"{"t":"42"}"#, "t"), 42);
    assert_eq!(Json::extract_int(r#"{"t":007}"#, "t"), 7);
    assert_eq!(Json::extract_int(r#"{"t":-9223372036854775808}"#, "t"), i64::MIN);
    assert_eq!(Json::extract_int(r#"{"t":9223372036854775807}"#, "t"), i64::MAX);
}

#[test]
fn int_defaults_to_zero() {
    assert_eq!(Json::extract_int(r#"{"t":12.5}"#, "t"), 0);
    assert_eq!(Json::extract_int(r#"{"t":"abc"}"#, "t"), 0);
    assert_eq!(Json::extract_int(r#"{"t":9223372036854775808}"#, "t"), 0);
    assert_eq!(Json::extract_int(r#"{"t":-9223372036854775809}"#, "t"), 0);
    assert_eq!(Json::extract_int(r#"{"t":-}"#, "t"), 0);
    assert_eq!(Json::extract_int(r#"{"t":""}"#, "t"), 0);
    assert_eq!(Json::extract_int(r#"{"t":1_000}"#, "t"), 0);
    assert_eq!(Json::extract_int(r#"{"t":[1]}"#, "t"), 0);
}

#[test]
fn u64_reads_unsigned_decimals() {
    assert_eq!(Json::extract_u64(r#"{"d":0}"#, "d"), 0);
    assert_eq!(Json::extract_u64(r#"{"d":+17}"#, "d"), 17);
    assert_eq!(Json::extract_u64(r#"{"d":18446744073709551615}"#, "d"), u64::MAX);
    assert_eq!(Json::extract_u64(r#"{"d":"31"}"#, "d"), 31);
}

#[test]
fn u64_defaults_to_zero() {
    assert_eq!(Json::extract_u64(r#"{"d":-1}"#, "d"), 0);
    assert_eq!(Json::extract_u64(r#"{"d":18446744073709551616}"#, "d"), 0);
    assert_eq!(Json::extract_u64(r#"{"d":1e3}"#, "d"), 0);
    assert_eq!(Json::extract_u64(r#"{"d":1}"#, "missing"), 0);
}

#[test]
fn bool_ignores_case() {
    assert!(Json::extract_bool(r#"{"ok":true}"#, "ok"));
    assert!(Json::extract_bool(r#"{"ok":TRUE}"#, "ok"));
    assert!(Json::extract_bool(r#"{"ok":True}"#, "ok"));
    assert!(Json::extract_bool(r#"{"ok":"tRuE"}"#, "ok"));
}

#[test]
fn bool_is_false_for_anything_else() {
    assert!(!Json::extract_bool(r#"{"ok":false}"#, "ok"));
    assert!(!Json::extract_bool(r#"{"ok":1}"#, "ok"));
    assert!(!Json::extract_bool(r#"{"ok":"yes"}"#, "ok"));
    assert!(!Json::extract_bool(r#"{"ok":truee}"#, "ok"));
    assert!(!Json::extract_bool(r#"{"ok":tru}"#, "ok"));
    assert!(!Json::extract_bool(r#"{"ok":true}"#, "missing"));
}

#[test]
fn root_reexports_name_the_same_items() {
    assert_eq!(RootJson::extract(r#"{"a":1}"#, "a"), "1");
    let info = CrateInfo {
        latest: String::from("1.0.0"),
        downloads: crator::format_number(1500),
        total_downloads: 1500,
        versions: 2,
        license: String::from("MIT"),
        created_at: String::new(),
        updated_at: String::new(),
    };
    assert_eq!(info.downloads, "1.5k");
}

/// A small linear congruential generator, so that the runs are the same
/// every time.
struct Sequence(u64);

impl Sequence {
    fn next(&mut self) -> u64 {
        self.0 = self.0.wrapping_mul(6364136223846793005).wrapping_add(1442695040888963407);
        self.0 >> 33
    }

    fn below(&mut self, n: u64) -> u64 {
        self.next() % n
    }

    fn text(&mut self, pieces: &[&str], longest: u64) -> String {
        let mut text = String::new();
        for _ in 0..self.below(longest + 1) {
            text.push_str(pieces[self.below(pieces.len() as u64) as usize]);
        }
        text
    }
}

#[test]
fn any_text_gives_the_sentinel_or_a_piece_of_the_body() {
    let pieces = [
        "{", "}", "[", "]", ",", ":", "\"", "\\", " ", "\n", "\u{a0}", "a", "b", "1", "2", "é",
        "N/A", "\"a\"", "\"b\"", "true", "-", "+", "\"a\":", "\"b\":", "\"a\":[", "[",
    ];
    let segments = ["a", "b", "0", "1", "+1", "", "ab", "é", "N/A"];
    let mut sequence = Sequence(21);
    let mut found = 0;
    for _ in 0..60_000 {
        let body = sequence.text(&pieces, 18);
        let mut path = String::new();
        for i in 0..1 + sequence.below(3) {
            if i > 0 {
                path.push('.');
            }
            path.push_str(segments[sequence.below(9) as usize]);
        }
        let value = Json::extract(&body, &path);
        assert!(value == "N/A" || body.contains(&value), "{:?} {:?} {:?}", body, path, value);
        if value != "N/A" {
            found += 1;
        }
        assert_eq!(Json::extract_int(&body, &path), value.parse::<i64>().unwrap_or(0));
        assert_eq!(Json::extract_u64(&body, &path), value.parse::<u64>().unwrap_or(0));
        assert_eq!(Json::extract_bool(&body, &path), value.to_lowercase() == "true");
    }
    assert!(found > 1_000, "found {}", found);
}

#[test]
fn any_value_text_is_a_trimmed_piece_of_the_text() {
    let pieces = [
        "{", "}", "[", "]", ",", ":", "\"", "\\", " ", "\t", "\u{2003}", "a", "1", "é", "\"x\"",
    ];
    let mut sequence = Sequence(22);
    for _ in 0..60_000 {
        let text = sequence.text(&pieces, 14);
        let value = Json::slice_until_boundary(&text);
        assert!(text.trim_start().starts_with(&value), "{:?} {:?}", text, value);
        assert_eq!(value.trim(), value, "{:?}", text);
    }
}
