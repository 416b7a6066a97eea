//! Boundary scanning: finding where a value's text ends inside a larger
//! text, in one pass, by tracking nesting depth and quotation.

use crate::text::{
    ascii_whitespace, is_ascii_whitespace, is_whitespace, leading_run_len,
    lemma_leading_run_bounds, lemma_trailing_run_bounds, strip_closers, trailing_run_len,
    trim_end, trim_start, CharClass,
};
use vstd::prelude::*;

verus! {

/// What a scan has to remember of the text it has consumed: how many objects
/// and arrays are open, and whether it stands inside a quoted string.
pub struct Nesting {
    pub objects: nat,
    pub arrays: nat,
    pub quoted: bool,
}

/// Whether the character at position `i` of `s` opens or closes a quoted
/// string: a quote that no backslash stands directly in front of.
pub open spec fn toggles_quote(s: Seq<char>, i: int) -> bool {
    s[i] == '"' && (i == 0 || s[i - 1] != '\\')
}

/// The nesting after the character at position `i` of `s` has been consumed
/// in nesting `n`. Inside a quoted string only the closing quote counts.
pub open spec fn consume(n: Nesting, s: Seq<char>, i: int) -> Nesting {
    if toggles_quote(s, i) {
        Nesting { quoted: !n.quoted, ..n }
    } else if n.quoted {
        n
    } else if s[i] == '{' {
        Nesting { objects: n.objects + 1, ..n }
    } else if s[i] == '}' {
        Nesting { objects: (n.objects - 1) as nat, ..n }
    } else if s[i] == '[' {
        Nesting { arrays: n.arrays + 1, ..n }
    } else if s[i] == ']' {
        Nesting { arrays: (n.arrays - 1) as nat, ..n }
    } else {
        n
    }
}

/// The nesting in front of position `i` of `s`, that is, after the first `i`
/// characters have been consumed from the top level.
pub open spec fn nesting_at(s: Seq<char>, i: int) -> Nesting
    decreases i,
{
    if i <= 0 {
        Nesting { objects: 0, arrays: 0, quoted: false }
    } else {
        consume(nesting_at(s, i - 1), s, i - 1)
    }
}

/// Whether the value that starts at position 0 of `s` ends in front of
/// position `i`, given that it has not ended before. Outside quoted strings,
/// a value ends at
/// - a `}` or `]` when no object, respectively no array, is open: the
///   container around the value closes;
/// - a `,` at the top level;
/// - ASCII white space at the top level, once a character has been consumed.
pub open spec fn is_boundary(s: Seq<char>, i: int) -> bool {
    let n = nesting_at(s, i);
    &&& 0 <= i < s.len()
    &&& !n.quoted
    &&& {
        ||| s[i] == '}' && n.objects == 0
        ||| s[i] == ']' && n.arrays == 0
        ||| n.objects == 0 && n.arrays == 0 && (s[i] == ',' || (is_ascii_whitespace(s[i]) && i
            > 0))
    }
}

/// The least boundary of `s` at or after position `from`.
pub open spec fn boundary_from(s: Seq<char>, from: int) -> Option<int>
    decreases s.len() - from,
{
    if from < 0 || from >= s.len() {
        None
    } else if is_boundary(s, from) {
        Some(from)
    } else {
        boundary_from(s, from + 1)
    }
}

/// The position in front of which the value at the start of `s` ends, if
/// the scan finds one.
pub open spec fn first_boundary(s: Seq<char>) -> Option<int> {
    boundary_from(s, 0)
}

/// The text of the value that `data` starts with: leading white space is
/// skipped, the value runs up to its first boundary, and trailing white
/// space is dropped. Where the scan finds no boundary, the value is all of
/// the text without its trailing `,`, `}` and `]` and without the white
/// space in front of them.
pub open spec fn value_text(data: Seq<char>) -> Seq<char> {
    let s = trim_start(data);
    match first_boundary(s) {
        Some(i) => trim_end(s.take(i)),
        None => trim_end(strip_closers(s)),
    }
}

/// What the scan from `from` finds is the first boundary at or after
/// `from`, and it finds nothing only if there is none.
pub proof fn lemma_boundary_from_is_first(s: Seq<char>, from: int)
    requires
        0 <= from,
    ensures
        match boundary_from(s, from) {
            Some(i) => from <= i < s.len() && is_boundary(s, i) && forall|j: int|
                from <= j < i ==> !is_boundary(s, j),
            None => forall|j: int| from <= j ==> !is_boundary(s, j),
        },
    decreases s.len() - from,
{
    if from < s.len() && !is_boundary(s, from) {
        lemma_boundary_from_is_first(s, from + 1);
    }
}

/// A boundary at `i` with none in `from..i` is what the scan from `from`
/// finds.
pub proof fn lemma_boundary_from_some(s: Seq<char>, from: int, i: int)
    requires
        0 <= from <= i,
        is_boundary(s, i),
        forall|j: int| from <= j < i ==> !is_boundary(s, j),
    ensures
        boundary_from(s, from) == Some(i),
    decreases i - from,
{
    if from < i {
        lemma_boundary_from_some(s, from + 1, i);
    }
}

/// Without a boundary at or after `from`, the scan from `from` finds
/// nothing.
pub proof fn lemma_boundary_from_none(s: Seq<char>, from: int)
    requires
        forall|j: int| from <= j ==> !is_boundary(s, j),
    ensures
        boundary_from(s, from) is None,
    decreases s.len() - from,
{
    if 0 <= from < s.len() {
        lemma_boundary_from_none(s, from + 1);
    }
}

/// In front of the first boundary no counter is decremented at zero: a `}`
/// or `]` outside a string that is no boundary closes an object or an array
/// that is open.
pub proof fn lemma_closers_are_matched(s: Seq<char>, i: int)
    requires
        0 <= i < s.len(),
        !is_boundary(s, i),
        !nesting_at(s, i).quoted,
    ensures
        s[i] == '}' ==> nesting_at(s, i).objects > 0,
        s[i] == ']' ==> nesting_at(s, i).arrays > 0,
{
}

/// The text of a value is trimmed: it neither starts nor ends with white
/// space.
pub proof fn lemma_value_text_is_trimmed(data: Seq<char>)
    ensures
        value_text(data).len() > 0 ==> !is_whitespace(value_text(data)[0]) && !is_whitespace(
            value_text(data).last(),
        ),
{
    let s = trim_start(data);
    lemma_leading_run_bounds(data, CharClass::Whitespace);
    lemma_boundary_from_is_first(s, 0);
    lemma_trailing_run_bounds(s, CharClass::Closer);
    let cut = match first_boundary(s) {
        Some(i) => s.take(i),
        None => strip_closers(s),
    };
    lemma_trailing_run_bounds(cut, CharClass::Whitespace);
}

/// Scans `s` from the top level for the first boundary.
pub fn find_boundary(s: &[char]) -> (r: Option<usize>)
    ensures
        match r {
            Some(i) => i < s.len() && first_boundary(s@) == Some(i as int),
            None => first_boundary(s@) is None,
        },
{
    let mut objects: usize = 0;
    let mut arrays: usize = 0;
    let mut quoted: bool = false;
    let mut i: usize = 0;
    while i < s.len()
        invariant
            i <= s.len(),
            objects <= i,
            arrays <= i,
            nesting_at(s@, i as int) == (Nesting {
                objects: objects as nat,
                arrays: arrays as nat,
                quoted,
            }),
            forall|j: int| 0 <= j < i ==> !is_boundary(s@, j),
        decreases s.len() - i,
    {
        let c = s[i];
        let ghost before = nesting_at(s@, i as int);
        assert(nesting_at(s@, i + 1) == consume(before, s@, i as int));
        if c == '"' && (i == 0 || s[i - 1] != '\\') {
            quoted = !quoted;
        } else if quoted {
        } else if c == '{' {
            objects += 1;
        } else if c == '}' {
            if objects == 0 {
                proof {
                    lemma_boundary_from_some(s@, 0, i as int);
                }
                return Some(i);
            }
            objects -= 1;
        } else if c == '[' {
            arrays += 1;
        } else if c == ']' {
            if arrays == 0 {
                proof {
                    lemma_boundary_from_some(s@, 0, i as int);
                }
                return Some(i);
            }
            arrays -= 1;
        } else if objects == 0 && arrays == 0 && (c == ',' || (ascii_whitespace(c) && i > 0)) {
            proof {
                lemma_boundary_from_some(s@, 0, i as int);
            }
            return Some(i);
        }
        i += 1;
    }
    proof {
        lemma_boundary_from_none(s@, 0);
    }
    None
}

/// Locates the value that `data` starts with: the result is the pair of
/// positions between which its text stands.
pub(crate) fn value_span(data: &[char]) -> (r: (usize, usize))
    ensures
        r.0 <= r.1 <= data.len(),
        data@.subrange(r.0 as int, r.1 as int) == value_text(data@),
{
    let start = leading_run_len(data, CharClass::Whitespace);
    proof {
        lemma_leading_run_bounds(data@, CharClass::Whitespace);
    }
    let s = &data[start..data.len()];
    assert(s@ == trim_start(data@));
    let stop = match find_boundary(s) {
        Some(i) => i,
        None => {
            proof {
                lemma_trailing_run_bounds(s@, CharClass::Closer);
            }
            s.len() - trailing_run_len(s, CharClass::Closer)
        },
    };
    let head = &s[0..stop];
    proof {
        lemma_trailing_run_bounds(head@, CharClass::Whitespace);
    }
    let end = stop - trailing_run_len(head, CharClass::Whitespace);
    assert(data@.subrange(start as int, start + end) == trim_end(head@));
    (start, start + end)
}

} // verus!
