//! Dot-path extraction from JSON-shaped text.
//!
//! A value is addressed by a path such as `releases.1.v`: keys and array
//! indices separated by dots. No document tree is built: each segment of
//! the path narrows the current text to the span of the value it names, and
//! what is left at the end is the result.

use crate::decimal::{i64_value, parse_i64, parse_u64, parse_usize, u64_value, usize_value};
use crate::scan::{value_span, value_text};
use crate::text::{
    find, find_char, find_in, leading_run_len, lemma_find_from_is_first,
    lemma_leading_run_bounds, quote, substring, to_chars, trim_start, CharClass,
};
use vstd::prelude::*;

verus! {

/// The text that stands for "no value at this path".
pub open spec fn sentinel() -> Seq<char> {
    seq!['N', '/', 'A']
}

/// The value of the member `key` in `scope`: the value text that follows
/// the first colon after the first occurrence of the key between double
/// quotes. The search is textual and does not look at nesting, so an
/// occurrence inside a nested value or as a string value is found like any
/// other.
pub open spec fn key_value(scope: Seq<char>, key: Seq<char>) -> Option<Seq<char>> {
    match find(scope, quote(key)) {
        None => None,
        Some(k) => {
            let after_key = scope.skip(k + quote(key).len());
            match find(after_key, seq![':']) {
                None => None,
                Some(c) => Some(value_text(after_key.skip(c + 1))),
            }
        },
    }
}

/// Element number `index`, counted from zero, of the comma-separated
/// elements that `content` starts with. An element whose text is empty ends
/// the list.
pub open spec fn element_at(content: Seq<char>, index: nat) -> Option<Seq<char>>
    decreases index,
{
    let first = trim_start(content);
    let value = value_text(first);
    if value.len() == 0 {
        None
    } else if index == 0 {
        Some(value)
    } else {
        let rest = trim_start(first.skip(value.len() as int));
        if rest.len() > 0 && rest[0] == ',' {
            element_at(rest.skip(1), (index - 1) as nat)
        } else {
            None
        }
    }
}

/// Element number `index`, counted from zero, of the array that `scope`
/// holds. There is none unless `scope`, after leading white space, starts
/// with `[`.
pub open spec fn array_element(scope: Seq<char>, index: nat) -> Option<Seq<char>> {
    let array = trim_start(scope);
    if array.len() > 0 && array[0] == '[' {
        element_at(array.skip(1), index)
    } else {
        None
    }
}

/// The text that one path segment selects in `scope`. A segment that reads
/// as a decimal `usize` is an array index, any other non-empty segment is a
/// key, and the empty segment selects nothing.
pub open spec fn narrow(scope: Seq<char>, segment: Seq<char>) -> Option<Seq<char>> {
    if segment.len() == 0 {
        None
    } else {
        match usize_value(segment) {
            Some(index) => array_element(scope, index as nat),
            None => key_value(scope, segment),
        }
    }
}

/// The text that `path` selects in `scope`: the segments of `path`, which
/// dots separate, narrow `scope` one after the other. If one of them selects
/// nothing, so does the path.
pub open spec fn resolve(scope: Seq<char>, path: Seq<char>) -> Option<Seq<char>>
    decreases path.len(),
{
    match find(path, seq!['.']) {
        None => narrow(scope, path),
        Some(dot) => {
            proof {
                lemma_find_from_is_first(path, seq!['.'], 0);
            }
            match narrow(scope, path.take(dot)) {
                None => None,
                Some(next) => resolve(next, path.skip(dot + 1)),
            }
        },
    }
}

/// `text` without the pair of double quotes around it, if it stands between
/// two; `text` itself otherwise. A lone quote is no pair.
pub open spec fn unquote(text: Seq<char>) -> Seq<char> {
    if text.len() >= 2 && text[0] == '"' && text.last() == '"' {
        text.subrange(1, text.len() - 1)
    } else {
        text
    }
}

/// What extraction yields for `path` in `body`: the selected text without
/// surrounding quotes, or the sentinel if the path selects nothing.
pub open spec fn extract_text(body: Seq<char>, path: Seq<char>) -> Seq<char> {
    match resolve(body, path) {
        Some(text) => unquote(text),
        None => sentinel(),
    }
}

/// Whether `text` spells `true`, in any mix of upper and lower case.
pub open spec fn spells_true(text: Seq<char>) -> bool {
    &&& text.len() == 4
    &&& (text[0] == 't' || text[0] == 'T')
    &&& (text[1] == 'r' || text[1] == 'R')
    &&& (text[2] == 'u' || text[2] == 'U')
    &&& (text[3] == 'e' || text[3] == 'E')
}

/// What a span of `text` between two positions stands for, where there is
/// one, and the sentinel where there is none.
spec fn span_text(text: Seq<char>, span: Option<(usize, usize)>) -> Seq<char> {
    match span {
        Some((lo, hi)) => text.subrange(lo as int, hi as int),
        None => sentinel(),
    }
}

/// Whether `span`, where there is one, lies inside a text of `len`
/// characters.
spec fn within(span: Option<(usize, usize)>, len: nat) -> bool {
    match span {
        Some((lo, hi)) => lo <= hi <= len,
        None => true,
    }
}

/// Whether `span` marks `selected` inside `text`: both are absent, or the
/// span lies inside `text` and holds the selected text.
spec fn marks(
    text: Seq<char>,
    span: Option<(usize, usize)>,
    selected: Option<Seq<char>>,
) -> bool {
    match span {
        Some((lo, hi)) => lo <= hi <= text.len() && selected == Some(
            text.subrange(lo as int, hi as int),
        ),
        None => selected is None,
    }
}

/// The sentinel as an owned string.
pub fn sentinel_string() -> (r: String)
    ensures
        r@ == sentinel(),
{
    proof {
        reveal_strlit("N/A");
    }
    let r = String::from_str("N/A");
    assert(r@ =~= sentinel());
    r
}

/// Locates the value of the member `key` in `scope`.
fn key_span(scope: &[char], key: &[char]) -> (r: Option<(usize, usize)>)
    ensures
        marks(scope@, r, key_value(scope@, key@)),
{
    let mut pattern: Vec<char> = Vec::new();
    pattern.push('"');
    let mut i: usize = 0;
    while i < key.len()
        invariant
            i <= key.len(),
            pattern@ == seq!['"'] + key@.take(i as int),
        decreases key.len() - i,
    {
        pattern.push(key[i]);
        i += 1;
    }
    pattern.push('"');
    assert(pattern@ == quote(key@)) by {
        assert(key@.take(key.len() as int) =~= key@);
    }
    match find_in(scope, pattern.as_slice()) {
        None => None,
        Some(k) => {
            let value_at: usize = k + pattern.len();
            let after_key = &scope[value_at..scope.len()];
            match find_char(after_key, ':') {
                None => None,
                Some(c) => {
                    let base: usize = value_at + c + 1;
                    let rest = &scope[base..scope.len()];
                    assert(rest@ == after_key@.skip(c + 1));
                    let (lo, hi) = value_span(rest);
                    assert(scope@.subrange(base + lo, base + hi) == rest@.subrange(
                        lo as int,
                        hi as int,
                    ));
                    Some((base + lo, base + hi))
                },
            }
        },
    }
}

/// Locates element number `index` of the array that `scope` holds.
fn element_span(scope: &[char], index: usize) -> (r: Option<(usize, usize)>)
    ensures
        marks(scope@, r, array_element(scope@, index as nat)),
{
    let open_at = leading_run_len(scope, CharClass::Whitespace);
    proof {
        lemma_leading_run_bounds(scope@, CharClass::Whitespace);
    }
    if open_at >= scope.len() || scope[open_at] != '[' {
        return None;
    }
    let mut pos: usize = open_at + 1;
    let mut remaining: usize = index;
    assert(scope@.skip(pos as int) == trim_start(scope@).skip(1));
    loop
        invariant
            pos <= scope.len(),
            array_element(scope@, index as nat) == element_at(
                scope@.skip(pos as int),
                remaining as nat,
            ),
        decreases remaining,
    {
        let content = &scope[pos..scope.len()];
        let lead = leading_run_len(content, CharClass::Whitespace);
        proof {
            lemma_leading_run_bounds(content@, CharClass::Whitespace);
        }
        let first = &content[lead..content.len()];
        assert(first@ == trim_start(content@));
        let (lo, hi) = value_span(first);
        let length: usize = hi - lo;
        if length == 0 {
            return None;
        }
        if remaining == 0 {
            assert(scope@.subrange(pos + lead + lo, pos + lead + hi) == first@.subrange(
                lo as int,
                hi as int,
            ));
            return Some((pos + lead + lo, pos + lead + hi));
        }
        let after = &first[length..first.len()];
        let gap = leading_run_len(after, CharClass::Whitespace);
        proof {
            lemma_leading_run_bounds(after@, CharClass::Whitespace);
        }
        if gap < after.len() && after[gap] == ',' {
            let ghost rest = trim_start(after@);
            assert(rest == after@.skip(gap as int));
            assert(rest[0] == ',');
            assert(scope@.skip(pos + lead + length + gap + 1) == rest.skip(1));
            pos = pos + lead + length + gap + 1;
            remaining -= 1;
        } else {
            return None;
        }
    }
}

/// Locates the text that one path segment selects in `scope`.
fn narrow_span(scope: &[char], segment: &[char]) -> (r: Option<(usize, usize)>)
    ensures
        marks(scope@, r, narrow(scope@, segment@)),
{
    if segment.len() == 0 {
        return None;
    }
    match parse_usize(segment) {
        Some(index) => element_span(scope, index),
        None => key_span(scope, segment),
    }
}

/// Locates the text that `path` selects in `body`.
fn resolve_span(body: &[char], path: &[char]) -> (r: Option<(usize, usize)>)
    ensures
        marks(body@, r, resolve(body@, path@)),
{
    let mut lo: usize = 0;
    let mut hi: usize = body.len();
    let mut pos: usize = 0;
    assert(body@.subrange(0, body.len() as int) == body@);
    assert(path@.skip(0) == path@);
    loop
        invariant
            lo <= hi <= body.len(),
            pos <= path.len(),
            resolve(body@, path@) == resolve(
                body@.subrange(lo as int, hi as int),
                path@.skip(pos as int),
            ),
        decreases path.len() - pos,
    {
        let scope = &body[lo..hi];
        let rest = &path[pos..path.len()];
        match find_char(rest, '.') {
            None => {
                return match narrow_span(scope, rest) {
                    None => None,
                    Some((a, b)) => {
                        assert(body@.subrange(lo + a, lo + b) == scope@.subrange(
                            a as int,
                            b as int,
                        ));
                        Some((lo + a, lo + b))
                    },
                };
            },
            Some(dot) => {
                let segment = &rest[0..dot];
                assert(segment@ == rest@.take(dot as int));
                match narrow_span(scope, segment) {
                    None => {
                        return None;
                    },
                    Some((a, b)) => {
                        assert(body@.subrange(lo + a, lo + b) == scope@.subrange(
                            a as int,
                            b as int,
                        ));
                        assert(path@.skip(pos + dot + 1) == rest@.skip(dot + 1));
                        hi = lo + b;
                        lo = lo + a;
                        pos = pos + dot + 1;
                    },
                }
            },
        }
    }
}

/// Locates what extraction yields for `path` in `body`: the span of the
/// selected text, inside its quotes if it has them, or nothing where
/// extraction yields the sentinel because the path selects nothing.
fn extract_span(body: &[char], path: &[char]) -> (r: Option<(usize, usize)>)
    ensures
        r is Some <==> resolve(body@, path@) is Some,
        within(r, body@.len()),
        span_text(body@, r) == extract_text(body@, path@),
{
    match resolve_span(body, path) {
        None => None,
        Some((lo, hi)) => {
            if hi - lo >= 2 && body[lo] == '"' && body[hi - 1] == '"' {
                assert(body@.subrange(lo + 1, hi - 1) == body@.subrange(
                    lo as int,
                    hi as int,
                ).subrange(1, hi - lo - 1));
                Some((lo + 1, hi - 1))
            } else {
                Some((lo, hi))
            }
        },
    }
}

/// Turns a span of `source`, or its absence, into an owned string.
fn span_string(source: &str, span: Option<(usize, usize)>) -> (r: String)
    requires
        within(span, source@.len()),
    ensures
        r@ == span_text(source@, span),
{
    match span {
        Some((lo, hi)) => substring(source, lo, hi),
        None => sentinel_string(),
    }
}

/// The entry point of path extraction.
pub struct Json;

impl Json {
    /// Extracts the value that the dot-path `path` addresses in `body`.
    ///
    /// The result is the trimmed text of the value, without its quotes if it
    /// is a string, or the sentinel `N/A` if the path selects nothing. No
    /// input is an error.
    pub fn extract(body: &str, path: &str) -> (r: String)
        ensures
            r@ == extract_text(body@, path@),
    {
        let chars = to_chars(body);
        let segments = to_chars(path);
        let span = extract_span(chars.as_slice(), segments.as_slice());
        span_string(body, span)
    }

    /// The value of the member `key` of `body`, or the sentinel if `body`
    /// has no such member.
    pub fn get_key_value(body: &str, key: &str) -> (r: String)
        ensures
            r@ == match key_value(body@, key@) {
                Some(text) => text,
                None => sentinel(),
            },
    {
        let chars = to_chars(body);
        let name = to_chars(key);
        let span = key_span(chars.as_slice(), name.as_slice());
        span_string(body, span)
    }

    /// Element number `target`, counted from zero, of the array `body`, or
    /// the sentinel if `body` is no array or has no such element.
    pub fn get_array_index(body: &str, target: usize) -> (r: String)
        ensures
            r@ == match array_element(body@, target as nat) {
                Some(text) => text,
                None => sentinel(),
            },
    {
        let chars = to_chars(body);
        let span = element_span(chars.as_slice(), target);
        span_string(body, span)
    }

    /// The text of the value that `data` starts with, found by boundary
    /// scanning.
    pub fn slice_until_boundary(data: &str) -> (r: String)
        ensures
            r@ == value_text(data@),
    {
        let chars = to_chars(data);
        let (lo, hi) = value_span(chars.as_slice());
        substring(data, lo, hi)
    }

    /// The extracted value read as an `i64`; zero if it is none.
    pub fn extract_int(body: &str, path: &str) -> (r: i64)
        ensures
            r == match i64_value(extract_text(body@, path@)) {
                Some(v) => v,
                None => 0,
            },
    {
        let chars = to_chars(body);
        let segments = to_chars(path);
        match extract_span(chars.as_slice(), segments.as_slice()) {
            Some((lo, hi)) => match parse_i64(&chars.as_slice()[lo..hi]) {
                Some(v) => v,
                None => 0,
            },
            None => 0,
        }
    }

    /// The extracted value read as a `u64`; zero if it is none.
    pub fn extract_u64(body: &str, path: &str) -> (r: u64)
        ensures
            r == match u64_value(extract_text(body@, path@)) {
                Some(v) => v,
                None => 0,
            },
    {
        let chars = to_chars(body);
        let segments = to_chars(path);
        match extract_span(chars.as_slice(), segments.as_slice()) {
            Some((lo, hi)) => match parse_u64(&chars.as_slice()[lo..hi]) {
                Some(v) => v,
                None => 0,
            },
            None => 0,
        }
    }

    /// Whether the extracted value spells `true`, in any mix of upper and
    /// lower case.
    pub fn extract_bool(body: &str, path: &str) -> (r: bool)
        ensures
            r == spells_true(extract_text(body@, path@)),
    {
        let chars = to_chars(body);
        let segments = to_chars(path);
        match extract_span(chars.as_slice(), segments.as_slice()) {
            Some((lo, hi)) => {
                let text = &chars.as_slice()[lo..hi];
                text.len() == 4 && (text[0] == 't' || text[0] == 'T') && (text[1] == 'r' || text[1]
                    == 'R') && (text[2] == 'u' || text[2] == 'U') && (text[3] == 'e' || text[3]
                    == 'E')
            },
            None => false,
        }
    }
}

} // verus!
