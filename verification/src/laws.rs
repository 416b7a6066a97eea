//! What path extraction guarantees, stated over texts of a given shape and
//! proved from the definitions.

use crate::decimal::{has_sign, i64_value, is_digit, u64_value, usize_value};
use crate::json::{
    array_element, element_at, extract_text, key_value, narrow, resolve, sentinel, spells_true,
    unquote,
};
use crate::scan::{first_boundary, is_boundary, lemma_boundary_from_is_first, value_text};
use crate::text::{
    find, is_whitespace, leading_run, lemma_find_from_is_first, lemma_find_from_none,
    lemma_find_from_some, lemma_leading_run, lemma_leading_run_bounds, lemma_trailing_run_bounds,
    occurs_at, quote, strip_closers, trailing_run, trim, trim_start, CharClass,
};
use crate::values::{
    all_whitespace, ends_before, is_bare_literal, is_complete, is_string_content,
    lemma_balanced_concat, lemma_bare_literal_is_complete, lemma_complete_is_balanced,
    lemma_container_is_complete, lemma_separator_is_balanced, lemma_string_is_complete,
    lemma_value_text_of_complete,
};
use vstd::prelude::*;

verus! {

/// Whether `name` is a path of one segment that names a member: it is not
/// empty, holds no dot and does not read as an array index.
pub open spec fn is_member_name(name: Seq<char>) -> bool {
    &&& name.len() > 0
    &&& forall|i: int| 0 <= i < name.len() ==> #[trigger] name[i] != '.'
    &&& usize_value(name) is None
}

/// The texts `items` with a comma between each two.
pub open spec fn join_items(items: Seq<Seq<char>>) -> Seq<char>
    decreases items.len(),
{
    if items.len() == 0 {
        Seq::empty()
    } else if items.len() == 1 {
        items[0]
    } else {
        items[0] + seq![','] + join_items(items.drop_first())
    }
}

/// The array that holds `items`: the items between brackets, with a comma
/// between each two.
pub open spec fn array_text(items: Seq<Seq<char>>) -> Seq<char> {
    seq!['['] + join_items(items) + seq![']']
}

/// Whether `item` is one complete value with white space around it, or
/// none.
pub open spec fn is_item(item: Seq<char>) -> bool {
    is_complete(trim(item))
}

/// A text without the character `c` has no occurrence of the one-character
/// text `c`.
proof fn lemma_find_absent_char(s: Seq<char>, c: char)
    requires
        forall|i: int| 0 <= i < s.len() ==> #[trigger] s[i] != c,
    ensures
        find(s, seq![c]) is None,
{
    assert forall|j: int| 0 <= j implies !occurs_at(s, seq![c], j) by {
        if occurs_at(s, seq![c], j) {
            assert(s.subrange(j, j + 1)[0] == seq![c][0]);
        }
    }
    lemma_find_from_none(s, seq![c], 0);
}

/// In `a + c + b`, where `a` is free of the character `c`, the first `c`
/// stands right after `a`.
proof fn lemma_find_first_char(a: Seq<char>, c: char, b: Seq<char>)
    requires
        forall|i: int| 0 <= i < a.len() ==> #[trigger] a[i] != c,
    ensures
        find(a + seq![c] + b, seq![c]) == Some(a.len() as int),
{
    let s = a + seq![c] + b;
    assert(s.subrange(a.len() as int, a.len() as int + 1) =~= seq![c]);
    assert forall|j: int| 0 <= j < a.len() implies !occurs_at(s, seq![c], j) by {
        if occurs_at(s, seq![c], j) {
            assert(s.subrange(j, j + 1)[0] == seq![c][0]);
            assert(s[j] == a[j]);
        }
    }
    lemma_find_from_some(s, seq![c], 0, a.len() as int);
}

/// Trimming white space off the front of white space followed by `x`
/// leaves `x`, if `x` does not start with white space itself.
pub proof fn lemma_trim_start_of(space: Seq<char>, x: Seq<char>)
    requires
        all_whitespace(space),
        x.len() > 0 ==> !is_whitespace(x[0]),
    ensures
        trim_start(space + x) == x,
{
    let s = space + x;
    assert forall|j: int| 0 <= j < space.len() implies CharClass::Whitespace.holds(
        #[trigger] s[j],
    ) by {
        assert(s[j] == space[j]);
    }
    if x.len() > 0 {
        assert(s[space.len() as int] == x[0]);
    }
    lemma_leading_run(s, CharClass::Whitespace, space.len() as int);
    assert(s.skip(space.len() as int) =~= x);
}

/// A text is the white space at its front, then its trimmed form, then the
/// white space at its end.
pub proof fn lemma_trim_parts(item: Seq<char>) -> (parts: (Seq<char>, Seq<char>))
    ensures
        all_whitespace(parts.0),
        all_whitespace(parts.1),
        item == parts.0 + trim(item) + parts.1,
{
    let lead = leading_run(item, CharClass::Whitespace) as int;
    lemma_leading_run_bounds(item, CharClass::Whitespace);
    let body = trim_start(item);
    let trail = trailing_run(body, CharClass::Whitespace) as int;
    lemma_trailing_run_bounds(body, CharClass::Whitespace);
    let front = item.take(lead);
    let back = body.skip(body.len() - trail);
    assert(item =~= front + trim(item) + back);
    (front, back)
}

/// The lookup of a member finds the member's value, whatever kind of value
/// it is, as long as it is complete.
///
/// The body is taken apart as: the text in front of the quoted name, the
/// quoted name, a gap without a colon, the colon, white space, the value,
/// and the text after it, in front of which the value ends. The quoted name
/// must not occur in the body before this place, since the lookup takes its
/// first occurrence whatever it is part of.
pub proof fn lemma_member_value(
    before: Seq<char>,
    name: Seq<char>,
    gap: Seq<char>,
    space: Seq<char>,
    value: Seq<char>,
    after: Seq<char>,
)
    requires
        find(before + quote(name) + gap + seq![':'] + space + value + after, quote(name)) == Some(
            before.len() as int,
        ),
        forall|i: int| 0 <= i < gap.len() ==> #[trigger] gap[i] != ':',
        all_whitespace(space),
        is_complete(value),
        ends_before(value, after),
    ensures
        key_value(before + quote(name) + gap + seq![':'] + space + value + after, name) == Some(
            value,
        ),
{
    let body = before + quote(name) + gap + seq![':'] + space + value + after;
    let after_key = body.skip(before.len() as int + quote(name).len());
    let value_on = space + value + after;
    assert(after_key =~= gap + seq![':'] + value_on);
    lemma_find_first_char(gap, ':', value_on);
    assert(after_key.skip(gap.len() as int + 1) =~= value_on);
    lemma_value_text_of_complete(space, value, after);
}

/// For a well-formed object and a member of it whose value is a string,
/// extraction by the member's name yields the string without its quotes.
///
/// The body is taken apart as in `lemma_member_value`, with the string
/// between its quotes as the value, and the quoted name must not occur in
/// the body before the member.
pub proof fn lemma_extract_string_member(
    before: Seq<char>,
    name: Seq<char>,
    gap: Seq<char>,
    space: Seq<char>,
    content: Seq<char>,
    after: Seq<char>,
)
    requires
        is_member_name(name),
        find(
            before + quote(name) + gap + seq![':'] + space + quote(content) + after,
            quote(name),
        ) == Some(before.len() as int),
        forall|i: int| 0 <= i < gap.len() ==> #[trigger] gap[i] != ':',
        all_whitespace(space),
        is_string_content(content),
        ends_before(quote(content), after),
    ensures
        extract_text(
            before + quote(name) + gap + seq![':'] + space + quote(content) + after,
            name,
        ) == content,
{
    lemma_find_absent_char(name, '.');
    lemma_string_is_complete(content);
    lemma_member_value(before, name, gap, space, quote(content), after);
    assert(unquote(quote(content)) =~= content);
}

/// Extraction by a name whose quoted form occurs nowhere in the body yields
/// the sentinel.
pub proof fn lemma_extract_missing_member(body: Seq<char>, name: Seq<char>)
    requires
        is_member_name(name),
        find(body, quote(name)) is None,
    ensures
        extract_text(body, name) == sentinel(),
{
    lemma_find_absent_char(name, '.');
}

/// A path resolves segment by segment, to any depth: what `first`, a dot
/// and `rest` select in `scope` is what `rest` selects in the text that
/// `first` selects in `scope`, and nothing if `first` selects nothing.
pub proof fn lemma_resolve_joined(scope: Seq<char>, first: Seq<char>, rest: Seq<char>)
    ensures
        resolve(scope, first + seq!['.'] + rest) == match resolve(scope, first) {
            Some(text) => resolve(text, rest),
            None => None,
        },
    decreases first.len(),
{
    let dot = seq!['.'];
    let path = first + dot + rest;
    lemma_find_from_is_first(first, dot, 0);
    match find(first, dot) {
        None => {
            assert(path.subrange(first.len() as int, first.len() as int + 1) =~= dot);
            assert forall|j: int| 0 <= j < first.len() implies !occurs_at(path, dot, j) by {
                if occurs_at(path, dot, j) {
                    assert(path.subrange(j, j + 1) =~= first.subrange(j, j + 1));
                    assert(occurs_at(first, dot, j));
                }
            }
            lemma_find_from_some(path, dot, 0, first.len() as int);
            assert(path.take(first.len() as int) =~= first);
            assert(path.skip(first.len() as int + 1) =~= rest);
        },
        Some(d) => {
            assert(path.subrange(d, d + 1) =~= first.subrange(d, d + 1));
            assert forall|j: int| 0 <= j < d implies !occurs_at(path, dot, j) by {
                if occurs_at(path, dot, j) {
                    assert(path.subrange(j, j + 1) =~= first.subrange(j, j + 1));
                    assert(occurs_at(first, dot, j));
                }
            }
            lemma_find_from_some(path, dot, 0, d);
            assert(path.take(d) =~= first.take(d));
            assert(path.skip(d + 1) =~= first.skip(d + 1) + dot + rest);
            match narrow(scope, first.take(d)) {
                Some(next) => {
                    lemma_resolve_joined(next, first.skip(d + 1), rest);
                },
                None => {},
            }
        },
    }
}

/// The path that names `segments` one after the other: the segments with a
/// dot between each two.
pub open spec fn dotted(segments: Seq<Seq<char>>) -> Seq<char>
    decreases segments.len(),
{
    if segments.len() == 0 {
        Seq::empty()
    } else if segments.len() == 1 {
        segments[0]
    } else {
        segments[0] + seq!['.'] + dotted(segments.drop_first())
    }
}

/// Resolution is narrowing, step by step and to any depth: if each of
/// `segments` selects the next of `texts` in the one before it, the path of
/// all the segments selects the last text in the first, and extraction
/// yields it without its quotes.
pub proof fn lemma_resolve_chain(texts: Seq<Seq<char>>, segments: Seq<Seq<char>>)
    requires
        segments.len() > 0,
        texts.len() == segments.len() + 1,
        forall|i: int, j: int|
            0 <= i < segments.len() && 0 <= j < segments[i].len() ==> #[trigger] segments[i][j]
                != '.',
        forall|i: int|
            0 <= i < segments.len() ==> narrow(texts[i], #[trigger] segments[i]) == Some(
                texts[i + 1],
            ),
    ensures
        resolve(texts[0], dotted(segments)) == Some(texts.last()),
        extract_text(texts[0], dotted(segments)) == unquote(texts.last()),
    decreases segments.len(),
{
    let first = segments[0];
    assert(narrow(texts[0], first) == Some(texts[1]));
    assert forall|j: int| 0 <= j < first.len() implies #[trigger] first[j] != '.' by {
        assert(segments[0][j] != '.');
    }
    lemma_find_absent_char(first, '.');
    if segments.len() > 1 {
        let later = segments.drop_first();
        let below = texts.drop_first();
        assert forall|i: int, j: int| 0 <= i < later.len() && 0 <= j < later[i].len() implies
            #[trigger] later[i][j] != '.' by {
            assert(later[i] == segments[i + 1]);
            assert(segments[i + 1][j] != '.');
        }
        assert forall|i: int| 0 <= i < later.len() implies narrow(below[i], #[trigger] later[i])
            == Some(below[i + 1]) by {
            assert(later[i] == segments[i + 1]);
            assert(below[i] == texts[i + 1]);
            assert(below[i + 1] == texts[i + 2]);
        }
        lemma_resolve_chain(below, later);
        assert(below[0] == texts[1]);
        assert(below.last() == texts.last());
        lemma_resolve_joined(texts[0], first, dotted(later));
    }
}

/// A path with an empty segment selects nothing: a path that is empty or
/// starts with a dot selects nothing, and neither does a path in which
/// such a path follows a dot.
pub proof fn lemma_empty_segment(scope: Seq<char>, first: Seq<char>, rest: Seq<char>)
    requires
        rest.len() == 0 || rest[0] == '.',
    ensures
        resolve(scope, rest) is None,
        resolve(scope, first + seq!['.'] + rest) is None,
        extract_text(scope, rest) == sentinel(),
        extract_text(scope, first + seq!['.'] + rest) == sentinel(),
{
    let dot = seq!['.'];
    assert forall|text: Seq<char>| resolve(text, rest) is None by {
        if rest.len() == 0 {
            lemma_find_from_is_first(rest, dot, 0);
        } else {
            assert(rest.subrange(0, 1) =~= dot);
            lemma_find_from_some(rest, dot, 0, 0);
            assert(rest.take(0).len() == 0);
        }
    }
    lemma_resolve_joined(scope, first, rest);
}

/// Array indices count from zero, and an index past the last item selects
/// nothing: in an array of complete values, each with white space around it
/// or none, index `index` selects item number `index` without the white
/// space, if there is such an item, and nothing otherwise.
pub proof fn lemma_array_element(
    lead: Seq<char>,
    items: Seq<Seq<char>>,
    rest: Seq<char>,
    index: nat,
)
    requires
        all_whitespace(lead),
        forall|i: int| 0 <= i < items.len() ==> is_item(#[trigger] items[i]),
    ensures
        array_element(lead + array_text(items) + rest, index) == if index < items.len() {
            Some(trim(items[index as int]))
        } else {
            None
        },
{
    let array = array_text(items) + rest;
    assert(lead + array_text(items) + rest =~= lead + array);
    assert(array[0] == '[');
    lemma_trim_start_of(lead, array);
    assert(array.skip(1) =~= join_items(items) + seq![']'] + rest);
    lemma_element_at(items, rest, index);
}

/// An array without items has no element at any index, whatever white
/// space stands between its brackets.
pub proof fn lemma_empty_array(lead: Seq<char>, space: Seq<char>, rest: Seq<char>, index: nat)
    requires
        all_whitespace(lead),
        all_whitespace(space),
    ensures
        array_element(lead + seq!['['] + space + seq![']'] + rest, index) is None,
{
    let array = seq!['['] + space + seq![']'] + rest;
    assert(lead + seq!['['] + space + seq![']'] + rest =~= lead + array);
    assert(array[0] == '[');
    lemma_trim_start_of(lead, array);
    let closing = seq![']'] + rest;
    assert(array.skip(1) =~= space + closing);
    assert(closing[0] == ']');
    lemma_trim_start_of(space, closing);
    lemma_trim_start_of(Seq::empty(), closing);
    assert(Seq::<char>::empty() + closing =~= closing);
    assert(is_boundary(closing, 0));
    assert(first_boundary(closing) == Some(0int));
    assert(closing.take(0).len() == 0);
    assert(value_text(closing).len() == 0);
}

/// Extraction by an index: a path that reads as the number `index`
/// yields item number `index` of an array of complete values, trimmed and
/// without its quotes, and the sentinel if the array has no such item.
pub proof fn lemma_extract_array_item(
    lead: Seq<char>,
    items: Seq<Seq<char>>,
    rest: Seq<char>,
    path: Seq<char>,
)
    requires
        all_whitespace(lead),
        forall|i: int| 0 <= i < items.len() ==> is_item(#[trigger] items[i]),
        usize_value(path) is Some,
    ensures
        extract_text(lead + array_text(items) + rest, path) == if usize_value(path)->0
            < items.len() {
            unquote(trim(items[usize_value(path)->0 as int]))
        } else {
            sentinel()
        },
{
    assert forall|i: int| 0 <= i < path.len() implies #[trigger] path[i] != '.' by {
        if has_sign(path, false) {
            if i > 0 {
                assert(path[i] == path.skip(1)[i - 1]);
                assert(is_digit(path.skip(1)[i - 1]));
            }
        } else {
            assert(is_digit(path[i]));
        }
    }
    lemma_find_absent_char(path, '.');
    lemma_array_element(lead, items, rest, usize_value(path)->0 as nat);
}

/// The induction behind `lemma_array_element`, over the items that are
/// left.
proof fn lemma_element_at(items: Seq<Seq<char>>, rest: Seq<char>, index: nat)
    requires
        forall|i: int| 0 <= i < items.len() ==> is_item(#[trigger] items[i]),
    ensures
        element_at(join_items(items) + seq![']'] + rest, index) == if index < items.len() {
            Some(trim(items[index as int]))
        } else {
            None
        },
    decreases items.len(),
{
    let content = join_items(items) + seq![']'] + rest;
    if items.len() == 0 {
        assert(content =~= seq![']'] + rest);
        assert(content[0] == ']');
        lemma_trim_start_of(Seq::empty(), content);
        assert(Seq::<char>::empty() + content =~= content);
        assert(is_boundary(content, 0));
        assert(first_boundary(content) == Some(0int));
        assert(content.take(0).len() == 0);
        assert(value_text(content).len() == 0);
    } else {
        let item = items[0];
        assert(is_item(item));
        let value = trim(item);
        let (front, back) = lemma_trim_parts(item);
        let others = items.drop_first();
        assert forall|i: int| 0 <= i < others.len() implies is_item(#[trigger] others[i]) by {
            assert(others[i] == items[i + 1]);
        }
        let tail = if items.len() == 1 {
            seq![']'] + rest
        } else {
            seq![','] + (join_items(others) + seq![']'] + rest)
        };
        assert(content =~= front + (value + (back + tail)));
        let first = value + (back + tail);
        lemma_trim_start_of(front, first);
        assert(trim_start(content) == first);
        // The value ends in front of the white space and the comma or
        // bracket that follow it.
        lemma_trim_start_of(back, tail);
        assert(ends_before(value, back + tail));
        assert(Seq::<char>::empty() + value + (back + tail) =~= first);
        lemma_value_text_of_complete(Seq::empty(), value, back + tail);
        assert(value_text(first) == value);
        if index > 0 {
            assert(first.skip(value.len() as int) =~= back + tail);
            if items.len() > 1 {
                assert(tail.skip(1) =~= join_items(others) + seq![']'] + rest);
                lemma_element_at(others, rest, (index - 1) as nat);
                if index < items.len() {
                    assert(others[index - 1] == items[index as int]);
                }
            }
        }
    }
}

/// Quoted strings are not cut short: whatever commas, braces, brackets and
/// escaped quotes a string holds, boundary scanning returns it whole, with
/// its quotes.
pub proof fn lemma_quoted_value_text(lead: Seq<char>, content: Seq<char>, rest: Seq<char>)
    requires
        all_whitespace(lead),
        is_string_content(content),
        ends_before(quote(content), rest),
    ensures
        value_text(lead + quote(content) + rest) == quote(content),
        unquote(quote(content)) == content,
{
    lemma_string_is_complete(content);
    lemma_value_text_of_complete(lead, quote(content), rest);
    assert(unquote(quote(content)) =~= content);
}

/// A bare literal such as a number, `true` or `null` is returned whole and
/// not cut inside: also where no comma follows it, but the white space, the
/// `}` or `]` that ends the container around it, or the end of the text.
pub proof fn lemma_bare_literal_value_text(lead: Seq<char>, literal: Seq<char>, rest: Seq<char>)
    requires
        all_whitespace(lead),
        is_bare_literal(literal),
        ends_before(literal, rest),
    ensures
        value_text(lead + literal + rest) == literal,
{
    lemma_bare_literal_is_complete(literal);
    lemma_value_text_of_complete(lead, literal, rest);
}

/// Where a path selects nothing, extraction yields the sentinel and the
/// typed readers their defaults: zero and `false`.
pub proof fn lemma_unresolved_defaults(body: Seq<char>, path: Seq<char>)
    requires
        resolve(body, path) is None,
    ensures
        extract_text(body, path) == sentinel(),
        i64_value(extract_text(body, path)) is None,
        u64_value(extract_text(body, path)) is None,
        !spells_true(extract_text(body, path)),
{
    assert(sentinel()[0] == 'N');
}

/// The value `leaf` wrapped in one object for each of `names`, the first
/// name outermost: for the names `a`, `b` and the leaf `5`, the text
/// `{"a":{"b":5}}`.
pub open spec fn nested(names: Seq<Seq<char>>, leaf: Seq<char>) -> Seq<char>
    decreases names.len(),
{
    if names.len() == 0 {
        leaf
    } else {
        seq!['{'] + quote(names[0]) + seq![':'] + nested(names.drop_first(), leaf) + seq!['}']
    }
}

/// Whether each of `names` can be a segment of a path and the name of a
/// member.
pub open spec fn are_member_names(names: Seq<Seq<char>>) -> bool {
    forall|i: int|
        0 <= i < names.len() ==> is_member_name(#[trigger] names[i]) && is_string_content(
            names[i],
        )
}

/// Objects nested in objects are one complete value.
pub proof fn lemma_nested_is_complete(names: Seq<Seq<char>>, leaf: Seq<char>)
    requires
        are_member_names(names),
        is_complete(leaf),
    ensures
        is_complete(nested(names, leaf)),
    decreases names.len(),
{
    if names.len() > 0 {
        let others = names.drop_first();
        assert forall|i: int| 0 <= i < others.len() implies is_member_name(#[trigger] others[i])
            && is_string_content(others[i]) by {
            assert(others[i] == names[i + 1]);
        }
        let inner = nested(others, leaf);
        lemma_nested_is_complete(others, leaf);
        lemma_complete_is_balanced(inner);
        assert(is_string_content(names[0]));
        lemma_string_is_complete(names[0]);
        lemma_complete_is_balanced(quote(names[0]));
        lemma_separator_is_balanced(':');
        let named = quote(names[0]) + seq![':'];
        lemma_balanced_concat(quote(names[0]), seq![':']);
        assert(named.last() == ':');
        lemma_balanced_concat(named, inner);
        lemma_container_is_complete('{', named + inner, '}');
        assert(nested(names, leaf) =~= seq!['{'] + (named + inner) + seq!['}']);
    }
}

/// A path resolves through objects nested to any depth: in the text that
/// wraps a complete value in one object for each of a list of names, the
/// path of these names selects that value, and extraction yields it without
/// its quotes, if it has them.
pub proof fn lemma_extract_nested(names: Seq<Seq<char>>, leaf: Seq<char>)
    requires
        names.len() > 0,
        are_member_names(names),
        is_complete(leaf),
    ensures
        resolve(nested(names, leaf), dotted(names)) == Some(leaf),
        extract_text(nested(names, leaf), dotted(names)) == unquote(leaf),
    decreases names.len(),
{
    let name = names[0];
    let others = names.drop_first();
    assert forall|i: int| 0 <= i < others.len() implies is_member_name(#[trigger] others[i])
        && is_string_content(others[i]) by {
        assert(others[i] == names[i + 1]);
    }
    let inner = nested(others, leaf);
    let body = nested(names, leaf);
    lemma_nested_is_complete(others, leaf);
    // The member's name stands right behind the opening brace, so nothing
    // can occur before it.
    let open = seq!['{'];
    let shape = open + quote(name) + Seq::empty() + seq![':'] + Seq::empty() + inner + seq!['}'];
    assert(shape =~= body);
    assert(find(body, quote(name)) == Some(1int)) by {
        assert(body.subrange(1, 1 + quote(name).len() as int) =~= quote(name));
        if occurs_at(body, quote(name), 0) {
            assert(body.subrange(0, quote(name).len() as int)[0] == quote(name)[0]);
        }
        lemma_find_from_some(body, quote(name), 0, 1);
    }
    lemma_trim_start_of(Seq::empty(), seq!['}']);
    assert(Seq::<char>::empty() + seq!['}'] =~= seq!['}']);
    assert(ends_before(inner, seq!['}']));
    lemma_member_value(open, name, Seq::empty(), Seq::empty(), inner, seq!['}']);
    lemma_find_absent_char(name, '.');
    assert(resolve(body, name) == Some(inner));
    if names.len() > 1 {
        lemma_extract_nested(others, leaf);
        lemma_resolve_joined(body, name, dotted(others));
    }
}

/// Whether `t` is a piece of `s`: the text between two positions of `s`.
pub open spec fn is_piece(t: Seq<char>, s: Seq<char>) -> bool {
    exists|lo: int, hi: int| 0 <= lo <= hi <= s.len() && t == #[trigger] s.subrange(lo, hi)
}

/// A piece of a piece of a text is a piece of the text.
pub proof fn lemma_piece_of_piece(t: Seq<char>, u: Seq<char>, s: Seq<char>)
    requires
        is_piece(t, u),
        is_piece(u, s),
    ensures
        is_piece(t, s),
{
    let (a, b) = choose|a: int, b: int| 0 <= a <= b <= s.len() && u == #[trigger] s.subrange(a, b);
    let (c, d) = choose|c: int, d: int| 0 <= c <= d <= u.len() && t == #[trigger] u.subrange(c, d);
    assert(t =~= s.subrange(a + c, a + d));
}

/// The text of a value is a piece of the text that it was taken from.
pub proof fn lemma_value_text_is_piece(data: Seq<char>)
    ensures
        is_piece(value_text(data), data),
{
    let lead = leading_run(data, CharClass::Whitespace) as int;
    lemma_leading_run_bounds(data, CharClass::Whitespace);
    let s = trim_start(data);
    lemma_boundary_from_is_first(s, 0);
    lemma_trailing_run_bounds(s, CharClass::Closer);
    let cut = match first_boundary(s) {
        Some(i) => s.take(i),
        None => strip_closers(s),
    };
    lemma_trailing_run_bounds(cut, CharClass::Whitespace);
    let length = value_text(data).len() as int;
    assert(value_text(data) =~= data.subrange(lead, lead + length));
}

/// The value of a member is a piece of the text that was searched.
pub proof fn lemma_key_value_is_piece(scope: Seq<char>, key: Seq<char>)
    ensures
        key_value(scope, key) is Some ==> is_piece(key_value(scope, key)->0, scope),
{
    if key_value(scope, key) is Some {
        lemma_find_from_is_first(scope, quote(key), 0);
        let k = find(scope, quote(key))->0;
        let after_key = scope.skip(k + quote(key).len());
        lemma_find_from_is_first(after_key, seq![':'], 0);
        let c = find(after_key, seq![':'])->0;
        let rest = after_key.skip(c + 1);
        let start = k + quote(key).len() + c + 1;
        assert(rest =~= scope.subrange(start, scope.len() as int));
        lemma_value_text_is_piece(rest);
        lemma_piece_of_piece(value_text(rest), rest, scope);
    }
}

/// An element of a list is a piece of the text of the list.
pub proof fn lemma_element_at_is_piece(content: Seq<char>, index: nat)
    ensures
        element_at(content, index) is Some ==> is_piece(element_at(content, index)->0, content),
    decreases index,
{
    if element_at(content, index) is Some {
        let lead = leading_run(content, CharClass::Whitespace) as int;
        lemma_leading_run_bounds(content, CharClass::Whitespace);
        let first = trim_start(content);
        assert(first =~= content.subrange(lead, content.len() as int));
        let value = value_text(first);
        lemma_value_text_is_piece(first);
        if index == 0 {
            lemma_piece_of_piece(value, first, content);
        } else {
            let after = first.skip(value.len() as int);
            let gap = leading_run(after, CharClass::Whitespace) as int;
            lemma_leading_run_bounds(after, CharClass::Whitespace);
            let rest = trim_start(after);
            let later = rest.skip(1);
            let start = lead + value.len() + gap + 1;
            assert(later =~= content.subrange(start, content.len() as int));
            lemma_element_at_is_piece(later, (index - 1) as nat);
            lemma_piece_of_piece(element_at(content, index)->0, later, content);
        }
    }
}

/// What a segment selects is a piece of the text that it was applied to.
pub proof fn lemma_narrow_is_piece(scope: Seq<char>, segment: Seq<char>)
    ensures
        narrow(scope, segment) is Some ==> is_piece(narrow(scope, segment)->0, scope),
{
    if narrow(scope, segment) is Some {
        match usize_value(segment) {
            Some(index) => {
                let lead = leading_run(scope, CharClass::Whitespace) as int;
                lemma_leading_run_bounds(scope, CharClass::Whitespace);
                let content = trim_start(scope).skip(1);
                assert(content =~= scope.subrange(lead + 1, scope.len() as int));
                lemma_element_at_is_piece(content, index as nat);
                lemma_piece_of_piece(narrow(scope, segment)->0, content, scope);
            },
            None => {
                lemma_key_value_is_piece(scope, segment);
            },
        }
    }
}

/// Values are spans of the body: what a path selects is a piece of the
/// text that it was resolved in.
pub proof fn lemma_resolve_is_piece(scope: Seq<char>, path: Seq<char>)
    ensures
        resolve(scope, path) is Some ==> is_piece(resolve(scope, path)->0, scope),
    decreases path.len(),
{
    if resolve(scope, path) is Some {
        lemma_find_from_is_first(path, seq!['.'], 0);
        match find(path, seq!['.']) {
            None => {
                lemma_narrow_is_piece(scope, path);
            },
            Some(dot) => {
                let next = narrow(scope, path.take(dot))->0;
                lemma_narrow_is_piece(scope, path.take(dot));
                lemma_resolve_is_piece(next, path.skip(dot + 1));
                lemma_piece_of_piece(resolve(scope, path)->0, next, scope);
            },
        }
    }
}

/// Extraction yields the sentinel or a piece of the body, and nothing
/// else.
pub proof fn lemma_extract_is_sentinel_or_piece(body: Seq<char>, path: Seq<char>)
    ensures
        extract_text(body, path) == sentinel() || is_piece(extract_text(body, path), body),
{
    if resolve(body, path) is Some {
        let text = resolve(body, path)->0;
        lemma_resolve_is_piece(body, path);
        if unquote(text) != text {
            assert(is_piece(unquote(text), text)) by {
                assert(unquote(text) == text.subrange(1, text.len() - 1));
            }
            lemma_piece_of_piece(unquote(text), text, body);
        }
    }
}

} // verus!
