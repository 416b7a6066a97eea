//! What a crate registry says about one crate: the request that asks for
//! it, the body of the response, and the record read from that body.
//! Sending the request and receiving the response is the caller's business.

use crate::compact::{compact_text, format_number};
use crate::decimal::u64_value;
use crate::json::{extract_text, Json};
use crate::text::{find, find_in, substring, to_chars};
use vstd::prelude::*;

verus! {

/// The essential metadata of a crate.
pub struct CrateInfo {
    /// The latest version of the crate, such as `1.5.0`.
    pub latest: String,
    /// The download count in compact form, such as `56k`.
    pub downloads: String,
    /// The exact number of downloads.
    pub total_downloads: u64,
    /// The number of versions ever published.
    pub versions: u64,
    /// The license, such as `MIT OR Apache-2.0`.
    pub license: String,
    /// When the crate was created.
    pub created_at: String,
    /// When the crate was last updated.
    pub updated_at: String,
}

/// The blank line that ends the head of an HTTP message.
pub open spec fn blank_line() -> Seq<char> {
    seq!['\r', '\n', '\r', '\n']
}

/// The HTTP request that asks the registry for the crate `name`.
pub open spec fn request_text(name: Seq<char>) -> Seq<char> {
    "GET /api/v1/crates/"@ + name
        + " HTTP/1.1\r\nHost: crates.io\r\nUser-Agent: crator_safe/1.0\r\nConnection: close\r\n\r\n"@
}

/// The body of an HTTP response: what stands between the first blank line
/// and the next one, or the end of the response; empty if the response has
/// no blank line.
pub open spec fn body_text(response: Seq<char>) -> Seq<char> {
    match find(response, blank_line()) {
        None => Seq::empty(),
        Some(head_end) => {
            let rest = response.skip(head_end + blank_line().len());
            match find(rest, blank_line()) {
                None => rest,
                Some(body_end) => rest.take(body_end),
            }
        },
    }
}

/// The number that extraction finds at `path` in `body`; zero if there is
/// none.
pub open spec fn count_at(body: Seq<char>, path: Seq<char>) -> u64 {
    match u64_value(extract_text(body, path)) {
        Some(v) => v,
        None => 0,
    }
}

/// Builds the request for the crate `crate_name`.
pub fn request_for(crate_name: &str) -> (r: String)
    ensures
        r@ == request_text(crate_name@),
{
    let mut r = String::from_str("GET /api/v1/crates/");
    r.append(crate_name);
    r.append(
        " HTTP/1.1\r\nHost: crates.io\r\nUser-Agent: crator_safe/1.0\r\nConnection: close\r\n\r\n",
    );
    r
}

/// Cuts the body out of a response.
pub fn response_body(response: &str) -> (r: String)
    ensures
        r@ == body_text(response@),
{
    let chars = to_chars(response);
    let mut separator: Vec<char> = Vec::new();
    separator.push('\r');
    separator.push('\n');
    separator.push('\r');
    separator.push('\n');
    assert(separator@ == blank_line());
    match find_in(chars.as_slice(), separator.as_slice()) {
        None => String::new(),
        Some(head_end) => {
            let start: usize = head_end + 4;
            let rest = &chars.as_slice()[start..chars.len()];
            match find_in(rest, separator.as_slice()) {
                None => substring(response, start, chars.len()),
                Some(body_end) => {
                    assert(response@.subrange(start as int, start + body_end) == rest@.take(
                        body_end as int,
                    ));
                    substring(response, start, start + body_end)
                },
            }
        },
    }
}

/// Reads the record of a crate from the body of the registry's response.
/// A field that the body lacks holds the sentinel, a count that it lacks is
/// zero.
pub fn crate_info(body: &str) -> (info: CrateInfo)
    ensures
        info.latest@ == extract_text(body@, "max_version"@),
        info.total_downloads == count_at(body@, "downloads"@),
        info.downloads@ == compact_text(info.total_downloads as nat),
        info.versions == count_at(body@, "versions"@),
        info.license@ == extract_text(body@, "license"@),
        info.created_at@ == extract_text(body@, "created_at"@),
        info.updated_at@ == extract_text(body@, "updated_at"@),
{
    let latest = Json::extract(body, "max_version");
    let total_downloads = Json::extract_u64(body, "downloads");
    let versions = Json::extract_u64(body, "versions");
    let license = Json::extract(body, "license");
    let created_at = Json::extract(body, "created_at");
    let updated_at = Json::extract(body, "updated_at");
    CrateInfo {
        latest,
        downloads: format_number(total_downloads),
        total_downloads,
        versions,
        license,
        created_at,
        updated_at,
    }
}

} // verus!
