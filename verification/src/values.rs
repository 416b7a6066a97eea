//! Texts that boundary scanning recognises as one whole value, and the
//! proof that it returns exactly them.

use crate::scan::{
    consume, first_boundary, is_boundary, lemma_boundary_from_is_first, nesting_at,
    toggles_quote, value_text, Nesting,
};
use crate::text::{
    is_ascii_whitespace, is_closer, is_whitespace, leading_run, lemma_leading_run,
    lemma_leading_run_bounds, lemma_trailing_run, quote, strip_closers, trim_end, trim_start,
    CharClass,
};
use vstd::prelude::*;

verus! {

/// The nesting at the top level, outside any string.
pub open spec fn top_level() -> Nesting {
    Nesting { objects: 0, arrays: 0, quoted: false }
}

/// Whether `s` consists of white space only.
pub open spec fn all_whitespace(s: Seq<char>) -> bool {
    forall|i: int| 0 <= i < s.len() ==> is_whitespace(#[trigger] s[i])
}

/// Whether `v` is the text of one complete value: it neither starts nor
/// ends with white space, a scan of it crosses no boundary, and the scan is
/// back at the top level when it reaches the end.
pub open spec fn is_complete(v: Seq<char>) -> bool {
    &&& v.len() > 0
    &&& !is_whitespace(v[0])
    &&& !is_whitespace(v.last())
    &&& forall|i: int| 0 <= i < v.len() ==> !is_boundary(v, i)
    &&& nesting_at(v, v.len() as int) == top_level()
}

/// Whether a value `v` that is followed by `rest` ends where `rest` begins:
/// - `rest` starts with ASCII white space, or
/// - the first character of `rest` that is no white space is `,`, `}` or
///   `]`, or
/// - `rest` is white space to its end, and if it is empty then `v` does not
///   end in `,`, `}` or `]` itself.
pub open spec fn ends_before(v: Seq<char>, rest: Seq<char>) -> bool {
    ||| rest.len() > 0 && is_ascii_whitespace(rest[0])
    ||| trim_start(rest).len() > 0 && is_closer(trim_start(rest)[0])
    ||| trim_start(rest).len() == 0 && (rest.len() > 0 || !is_closer(v.last()))
}

/// Whether `content` can stand between two double quotes as it is: each
/// double quote in it has a backslash directly in front of it, and it does
/// not end in a backslash.
pub open spec fn is_string_content(content: Seq<char>) -> bool {
    &&& forall|i: int|
        0 <= i < content.len() && #[trigger] content[i] == '"' ==> i > 0 && content[i - 1]
            == '\\'
    &&& content.len() > 0 ==> content.last() != '\\'
}

/// Whether `c` can be part of a bare literal such as a number, `true` or
/// `null`: no white space, no double quote, no brace, bracket or comma.
pub open spec fn is_plain(c: char) -> bool {
    &&& !is_whitespace(c)
    &&& c != '"'
    &&& c != '{'
    &&& c != '}'
    &&& c != '['
    &&& c != ']'
    &&& c != ','
}

/// Whether `v` is a bare literal: a non-empty run of plain characters.
pub open spec fn is_bare_literal(v: Seq<char>) -> bool {
    &&& v.len() > 0
    &&& forall|i: int| 0 <= i < v.len() ==> is_plain(#[trigger] v[i])
}

/// The nesting in front of a position depends only on the text in front of
/// that position.
pub proof fn lemma_nesting_prefix(a: Seq<char>, b: Seq<char>, i: int)
    requires
        0 <= i <= a.len(),
    ensures
        nesting_at(a + b, i) == nesting_at(a, i),
    decreases i,
{
    if i > 0 {
        lemma_nesting_prefix(a, b, i - 1);
        assert((a + b)[i - 1] == a[i - 1]);
        if i > 1 {
            assert((a + b)[i - 2] == a[i - 2]);
        }
    }
}

/// Whether a position inside `a` is a boundary does not depend on what
/// follows `a`.
pub proof fn lemma_boundary_prefix(a: Seq<char>, b: Seq<char>, i: int)
    requires
        0 <= i < a.len(),
    ensures
        is_boundary(a + b, i) == is_boundary(a, i),
{
    lemma_nesting_prefix(a, b, i);
    assert((a + b)[i] == a[i]);
}

/// White space at the top level leaves the nesting as it is.
pub proof fn lemma_nesting_through_whitespace(v: Seq<char>, rest: Seq<char>, k: int)
    requires
        nesting_at(v, v.len() as int) == top_level(),
        0 <= k <= rest.len(),
        forall|j: int| 0 <= j < k ==> is_whitespace(#[trigger] rest[j]),
    ensures
        nesting_at(v + rest, v.len() + k) == top_level(),
    decreases k,
{
    if k == 0 {
        lemma_nesting_prefix(v, rest, v.len() as int);
    } else {
        lemma_nesting_through_whitespace(v, rest, k - 1);
        assert((v + rest)[v.len() + k - 1] == rest[k - 1]);
    }
}

/// Boundary scanning returns a complete value as it stands: if `data` is
/// white space, then a complete value `v`, then a text `rest` in front of
/// which `v` ends, the value text of `data` is `v`.
pub proof fn lemma_value_text_of_complete(lead: Seq<char>, v: Seq<char>, rest: Seq<char>)
    requires
        all_whitespace(lead),
        is_complete(v),
        ends_before(v, rest),
    ensures
        value_text(lead + v + rest) == v,
{
    let data = lead + v + rest;
    let s = v + rest;
    assert(trim_start(data) == s) by {
        assert forall|j: int| 0 <= j < lead.len() implies CharClass::Whitespace.holds(
            #[trigger] data[j],
        ) by {
            assert(data[j] == lead[j]);
        }
        assert(data[lead.len() as int] == v[0]);
        lemma_leading_run(data, CharClass::Whitespace, lead.len() as int);
        assert(data.skip(lead.len() as int) =~= s);
    }
    assert forall|j: int| 0 <= j < v.len() implies !is_boundary(s, j) by {
        lemma_boundary_prefix(v, rest, j);
    }
    let k = leading_run(rest, CharClass::Whitespace) as int;
    lemma_leading_run_bounds(rest, CharClass::Whitespace);
    assert(trim_start(rest) =~= rest.skip(k));
    lemma_boundary_from_is_first(s, 0);
    let cut = match first_boundary(s) {
        Some(b) => s.take(b),
        None => strip_closers(s),
    };
    // The cut is `v` followed by white space only.
    let extra = cut.len() - v.len();
    assert(0 <= extra <= k && cut =~= v + rest.take(extra)) by {
        match first_boundary(s) {
            Some(b) => {
                assert(b >= v.len());
                if b > v.len() + k {
                    // The first character after the white space is a closer
                    // at the top level, hence a boundary before `b`.
                    lemma_nesting_through_whitespace(v, rest, k);
                    if rest.len() > 0 && is_ascii_whitespace(rest[0]) {
                        lemma_nesting_through_whitespace(v, rest, 0);
                        assert(s[v.len() as int] == rest[0]);
                        assert(is_boundary(s, v.len() as int));
                    } else {
                        assert(s[v.len() + k] == rest[k]);
                        assert(is_boundary(s, v.len() + k));
                    }
                }
            },
            None => {
                if k < rest.len() {
                    lemma_nesting_through_whitespace(v, rest, k);
                    if is_ascii_whitespace(rest[0]) {
                        lemma_nesting_through_whitespace(v, rest, 0);
                        assert(s[v.len() as int] == rest[0]);
                        assert(is_boundary(s, v.len() as int));
                    } else {
                        assert(s[v.len() + k] == rest[k]);
                        assert(is_boundary(s, v.len() + k));
                    }
                }
                assert(k == rest.len());
                if rest.len() > 0 {
                    assert(s.last() == rest.last());
                } else {
                    assert(s.last() == v.last());
                }
                lemma_trailing_run(s, CharClass::Closer, s.len() as int);
                assert(s.take(s.len() as int) =~= s);
            },
        }
    }
    assert(trim_end(cut) == v) by {
        assert forall|j: int| v.len() <= j < cut.len() implies CharClass::Whitespace.holds(
            #[trigger] cut[j],
        ) by {
            assert(cut[j] == rest[j - v.len()]);
        }
        assert(cut[v.len() - 1] == v.last());
        lemma_trailing_run(cut, CharClass::Whitespace, v.len() as int);
        assert(cut.take(v.len() as int) =~= v);
    }
}

/// A string literal is a complete value, whatever commas, braces, brackets,
/// white space and escaped quotes stand between its quotes.
pub proof fn lemma_string_is_complete(content: Seq<char>)
    requires
        is_string_content(content),
    ensures
        is_complete(quote(content)),
{
    let q = quote(content);
    let inside = Nesting { objects: 0, arrays: 0, quoted: true };
    assert(q[0] == '"');
    assert(q.last() == '"');
    assert forall|i: int| 1 <= i <= content.len() + 1 implies nesting_at(q, i) == inside by {
        lemma_string_nesting(content, i);
    }
    assert(nesting_at(q, q.len() as int) == top_level()) by {
        lemma_string_nesting(content, content.len() as int + 1);
        assert(q[content.len() as int + 1] == '"');
        if content.len() > 0 {
            assert(q[content.len() as int] == content.last());
        }
    }
}

/// Inside a string literal the scan is inside a quoted string.
proof fn lemma_string_nesting(content: Seq<char>, i: int)
    requires
        is_string_content(content),
        1 <= i <= content.len() + 1,
    ensures
        nesting_at(quote(content), i) == (Nesting { objects: 0, arrays: 0, quoted: true }),
    decreases i,
{
    let q = quote(content);
    if i == 1 {
        assert(q[0] == '"');
        assert(nesting_at(q, 0) == top_level());
    } else {
        lemma_string_nesting(content, i - 1);
        assert(q[i - 1] == content[i - 2]);
        if i > 2 {
            assert(q[i - 2] == content[i - 3]);
        } else {
            assert(q[i - 2] == '"');
        }
    }
}

/// A bare literal is a complete value.
pub proof fn lemma_bare_literal_is_complete(v: Seq<char>)
    requires
        is_bare_literal(v),
    ensures
        is_complete(v),
{
    assert forall|i: int| 0 <= i <= v.len() implies nesting_at(v, i) == top_level() by {
        lemma_bare_nesting(v, i);
    }
}

/// A scan of a bare literal stays at the top level.
proof fn lemma_bare_nesting(v: Seq<char>, i: int)
    requires
        is_bare_literal(v),
        0 <= i <= v.len(),
    ensures
        nesting_at(v, i) == top_level(),
    decreases i,
{
    if i > 0 {
        lemma_bare_nesting(v, i - 1);
        assert(is_plain(v[i - 1]));
    }
}

/// Whether the character at position `i` of `t` is a `}` or `]` outside a
/// string that closes nothing that `t` has opened.
pub open spec fn is_unmatched_closer(t: Seq<char>, i: int) -> bool {
    let n = nesting_at(t, i);
    &&& 0 <= i < t.len()
    &&& !n.quoted
    &&& (t[i] == '}' && n.objects == 0) || (t[i] == ']' && n.arrays == 0)
}

/// Whether `t` is balanced: it closes only what it has opened, and at its
/// end every string, object and array that it has opened is closed. Unlike a
/// complete value, a balanced text may hold commas and white space at its
/// own top level.
pub open spec fn is_balanced(t: Seq<char>) -> bool {
    &&& forall|i: int| 0 <= i < t.len() ==> !is_unmatched_closer(t, i)
    &&& nesting_at(t, t.len() as int) == top_level()
}

/// Whether `b` can follow `a` without a change to how its first character
/// is read: a quote at the start of `b` must not find a backslash at the end
/// of `a`.
pub open spec fn joins(a: Seq<char>, b: Seq<char>) -> bool {
    b.len() > 0 && b[0] == '"' ==> a.len() == 0 || a.last() != '\\'
}

/// Nesting `n`, reached inside a text that was entered at nesting `base`.
pub open spec fn deeper(base: Nesting, n: Nesting) -> Nesting {
    Nesting {
        objects: base.objects + n.objects,
        arrays: base.arrays + n.arrays,
        quoted: n.quoted,
    }
}

/// A text that closes only what it has opened is scanned inside a larger
/// text as it is scanned alone, only deeper: by the nesting at which the
/// scan enters it.
pub proof fn lemma_nesting_shift(pre: Seq<char>, t: Seq<char>, i: int)
    requires
        !nesting_at(pre, pre.len() as int).quoted,
        joins(pre, t),
        0 <= i <= t.len(),
        forall|j: int| 0 <= j < i ==> !is_unmatched_closer(t, j),
    ensures
        nesting_at(pre + t, pre.len() + i) == deeper(
            nesting_at(pre, pre.len() as int),
            nesting_at(t, i),
        ),
    decreases i,
{
    let s = pre + t;
    if i == 0 {
        lemma_nesting_prefix(pre, t, pre.len() as int);
    } else {
        lemma_nesting_shift(pre, t, i - 1);
        assert(!is_unmatched_closer(t, i - 1));
        assert(s[pre.len() + i - 1] == t[i - 1]);
        if i > 1 {
            assert(s[pre.len() + i - 2] == t[i - 2]);
        } else if pre.len() > 0 {
            assert(s[pre.len() + i - 2] == pre.last());
        }
        assert(toggles_quote(s, pre.len() + i - 1) == toggles_quote(t, i - 1));
    }
}

/// A complete value is balanced.
pub proof fn lemma_complete_is_balanced(v: Seq<char>)
    requires
        is_complete(v),
    ensures
        is_balanced(v),
{
    assert forall|i: int| 0 <= i < v.len() implies !is_unmatched_closer(v, i) by {
        assert(!is_boundary(v, i));
    }
}

/// Two balanced texts, one after the other, are a balanced text.
pub proof fn lemma_balanced_concat(a: Seq<char>, b: Seq<char>)
    requires
        is_balanced(a),
        is_balanced(b),
        joins(a, b),
    ensures
        is_balanced(a + b),
{
    let s = a + b;
    assert forall|i: int| 0 <= i < s.len() implies !is_unmatched_closer(s, i) by {
        if i < a.len() {
            lemma_nesting_prefix(a, b, i);
            assert(s[i] == a[i]);
            assert(!is_unmatched_closer(a, i));
        } else {
            lemma_nesting_shift(a, b, i - a.len());
            assert(s[i] == b[i - a.len()]);
            assert(!is_unmatched_closer(b, i - a.len()));
        }
    }
    lemma_nesting_shift(a, b, b.len() as int);
}

/// A comma is balanced, and so is any other single character that is no
/// quote, brace or bracket.
pub proof fn lemma_separator_is_balanced(c: char)
    requires
        c != '"' && c != '{' && c != '}' && c != '[' && c != ']',
    ensures
        is_balanced(seq![c]),
{
    let t = seq![c];
    assert(nesting_at(t, 0) == top_level());
    assert(nesting_at(t, 1) == consume(nesting_at(t, 0), t, 0));
}

/// Whether `open` and `close` are the two ends of one kind of container.
pub open spec fn is_pair(open: char, close: char) -> bool {
    (open == '{' && close == '}') || (open == '[' && close == ']')
}

/// A balanced text between braces, or between brackets, is a complete
/// value: an object or an array, whatever it holds.
pub proof fn lemma_container_is_complete(open: char, inner: Seq<char>, close: char)
    requires
        is_pair(open, close),
        is_balanced(inner),
    ensures
        is_complete(seq![open] + inner + seq![close]),
{
    let pre = seq![open];
    let body = pre + inner;
    let v = body + seq![close];
    let entered = nesting_at(pre, 1);
    assert(nesting_at(pre, 0) == top_level());
    assert(entered == consume(top_level(), pre, 0));
    assert(pre.last() == open);
    assert forall|i: int| 0 <= i <= inner.len() implies nesting_at(v, 1 + i) == deeper(
        entered,
        nesting_at(inner, i),
    ) by {
        lemma_nesting_shift(pre, inner, i);
        lemma_nesting_prefix(body, seq![close], 1 + i);
    }
    assert forall|i: int| 0 <= i < v.len() implies !is_boundary(v, i) by {
        if i == 0 {
            assert(v[0] == open);
        } else if i <= inner.len() {
            assert(v[i] == inner[i - 1]);
            assert(nesting_at(v, 1 + (i - 1)) == deeper(entered, nesting_at(inner, i - 1)));
            assert(!is_unmatched_closer(inner, i - 1));
        } else {
            assert(v[i] == close);
            assert(nesting_at(v, 1 + inner.len() as int) == deeper(
                entered,
                nesting_at(inner, inner.len() as int),
            ));
        }
    }
    assert(nesting_at(v, v.len() as int) == top_level()) by {
        assert(nesting_at(v, 1 + inner.len() as int) == deeper(
            entered,
            nesting_at(inner, inner.len() as int),
        ));
        assert(v[1 + inner.len() as int] == close);
    }
    assert(v[0] == open);
    assert(v.last() == close);
}

} // verus!
