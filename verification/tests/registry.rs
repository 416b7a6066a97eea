use crator::registry::{crate_info, request_for, response_body};

#[test]
fn request_names_the_crate() {
    assert_eq!(
        request_for("cans"),
        "GET /api/v1/crates/cans HTTP/1.1\r\nHost: crates.io\r\nUser-Agent: crator_safe/1.0\r\nConnection: close\r\n\r\n"
    );
    assert_eq!(
        request_for(""),
        "GET /api/v1/crates/ HTTP/1.1\r\nHost: crates.io\r\nUser-Agent: crator_safe/1.0\r\nConnection: close\r\n\r\n"
    );
}

#[test]
fn body_follows_the_first_blank_line() {
    let response = "HTTP/1.1 200 OK\r\nContent-Type: application/json\r\n\r\n{\"x\":1}";
    assert_eq!(response_body(response), "{\"x\":1}");
}

#[test]
fn body_ends_at_the_next_blank_line() {
    assert_eq!(response_body("head\r\n\r\nbody\r\n\r\ntrailer"), "body");
    assert_eq!(response_body("head\r\n\r\n\r\n\r\nrest"), "");
}

#[test]
fn response_without_blank_line_has_no_body() {
    assert_eq!(response_body("HTTP/1.1 200 OK\r\nContent-Length: 0\r\n"), "");
    assert_eq!(response_body(""), "");
    assert_eq!(response_body("head\n\nbody"), "");
}

#[test]
fn response_that_ends_in_a_blank_line_has_an_empty_body() {
    assert_eq!(response_body("HTTP/1.1 204 No Content\r\n\r\n"), "");
}

#[test]
fn body_keeps_non_ascii_text() {
    assert_eq!(response_body("héad\r\n\r\n{\"n\":\"ü\"}"), "{\"n\":\"ü\"}");
}

#[test]
fn record_is_read_from_the_body() {
    let body = r#"{"crate":{"id":"cans","max_version":"1.5.0","downloads":56000,"license":"MIT OR Apache-2.0","created_at":"2024-01-01T00:00:00Z","updated_at":"2024-06-30T12:00:00Z","versions":12}}"#;
    let info = crate_info(body);
    assert_eq!(info.latest, "1.5.0");
    assert_eq!(info.total_downloads, 56000);
    assert_eq!(info.downloads, "56k");
    assert_eq!(info.versions, 12);
    assert_eq!(info.license, "MIT OR Apache-2.0");
    assert_eq!(info.created_at, "2024-01-01T00:00:00Z");
    assert_eq!(info.updated_at, "2024-06-30T12:00:00Z");
}

#[test]
fn record_of_an_empty_body_holds_defaults() {
    let info = crate_info("");
    assert_eq!(info.latest, "N/A");
    assert_eq!(info.total_downloads, 0);
    assert_eq!(info.downloads, "0");
    assert_eq!(info.versions, 0);
    assert_eq!(info.license, "N/A");
    assert_eq!(info.created_at, "N/A");
    assert_eq!(info.updated_at, "N/A");
}

#[test]
fn versions_given_as_a_list_count_as_zero() {
    let body = r#"{"crate":{"max_version":"0.2.0","downloads":1500},"versions":[{"num":"0.2.0"},{"num":"0.1.0"}]}"#;
    let info = crate_info(body);
    assert_eq!(info.latest, "0.2.0");
    assert_eq!(info.total_downloads, 1500);
    assert_eq!(info.downloads, "1.5k");
    assert_eq!(info.versions, 0);
}

#[test]
fn response_is_cut_and_read_in_two_steps() {
    let response = "HTTP/1.1 200 OK\r\nServer: x\r\n\r\n{\"max_version\":\"3.0.1\",\"downloads\":2500000}";
    let info = crate_info(&response_body(response));
    assert_eq!(info.latest, "3.0.1");
    assert_eq!(info.downloads, "3M");
}
