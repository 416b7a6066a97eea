//! Character classes, trimming and substring search over sequences of
//! characters.

use vstd::prelude::*;

verus! {

/// Whether `c` has Unicode's `White_Space` property. Trimming removes
/// exactly these characters.
pub open spec fn is_whitespace(c: char) -> bool {
    ||| '\u{9}' <= c <= '\u{D}'
    ||| c == ' '
    ||| c == '\u{85}'
    ||| c == '\u{A0}'
    ||| c == '\u{1680}'
    ||| '\u{2000}' <= c <= '\u{200A}'
    ||| c == '\u{2028}'
    ||| c == '\u{2029}'
    ||| c == '\u{202F}'
    ||| c == '\u{205F}'
    ||| c == '\u{3000}'
}

/// Whether `c` is one of the five ASCII white space characters: space, tab,
/// line feed, form feed, carriage return.
pub open spec fn is_ascii_whitespace(c: char) -> bool {
    c == ' ' || c == '\t' || c == '\n' || c == '\u{C}' || c == '\r'
}

/// Whether `c` closes a container or separates two values: `,`, `}` or `]`.
pub open spec fn is_closer(c: char) -> bool {
    c == ',' || c == '}' || c == ']'
}

/// The classes of characters that can be stripped from the ends of a text.
#[derive(Clone, Copy, Debug, PartialEq, Eq, Structural)]
pub enum CharClass {
    Whitespace,
    Closer,
}

impl CharClass {
    /// Whether `c` belongs to this class.
    pub open spec fn holds(self, c: char) -> bool {
        match self {
            CharClass::Whitespace => is_whitespace(c),
            CharClass::Closer => is_closer(c),
        }
    }

    /// Decides membership of `c` in this class.
    pub fn contains(self, c: char) -> (r: bool)
        ensures
            r == self.holds(c),
    {
        match self {
            CharClass::Whitespace => whitespace(c),
            CharClass::Closer => c == ',' || c == '}' || c == ']',
        }
    }
}

/// Decides whether `c` is Unicode white space.
pub fn whitespace(c: char) -> (r: bool)
    ensures
        r == is_whitespace(c),
{
    ('\u{9}' <= c && c <= '\u{D}') || c == ' ' || c == '\u{85}' || c == '\u{A0}' || c == '\u{1680}'
        || ('\u{2000}' <= c && c <= '\u{200A}') || c == '\u{2028}' || c == '\u{2029}' || c
        == '\u{202F}' || c == '\u{205F}' || c == '\u{3000}'
}

/// Decides whether `c` is ASCII white space.
pub fn ascii_whitespace(c: char) -> (r: bool)
    ensures
        r == is_ascii_whitespace(c),
{
    c == ' ' || c == '\t' || c == '\n' || c == '\u{C}' || c == '\r'
}

/// Length of the longest prefix of `s` whose characters all belong to
/// `class`.
pub open spec fn leading_run(s: Seq<char>, class: CharClass) -> nat
    decreases s.len(),
{
    if s.len() > 0 && class.holds(s[0]) {
        1 + leading_run(s.drop_first(), class)
    } else {
        0
    }
}

/// Length of the longest suffix of `s` whose characters all belong to
/// `class`.
pub open spec fn trailing_run(s: Seq<char>, class: CharClass) -> nat
    decreases s.len(),
{
    if s.len() > 0 && class.holds(s.last()) {
        1 + trailing_run(s.drop_last(), class)
    } else {
        0
    }
}

/// `s` without its leading white space.
pub open spec fn trim_start(s: Seq<char>) -> Seq<char> {
    s.skip(leading_run(s, CharClass::Whitespace) as int)
}

/// `s` without its trailing white space.
pub open spec fn trim_end(s: Seq<char>) -> Seq<char> {
    s.take(s.len() - trailing_run(s, CharClass::Whitespace))
}

/// `s` without the white space at its two ends.
pub open spec fn trim(s: Seq<char>) -> Seq<char> {
    trim_end(trim_start(s))
}

/// `s` without its trailing run of `,`, `}` and `]`.
pub open spec fn strip_closers(s: Seq<char>) -> Seq<char> {
    s.take(s.len() - trailing_run(s, CharClass::Closer))
}

/// A leading run is the prefix up to the first character outside the class:
/// if the first `k` characters of `s` are in `class` and the next one, if
/// any, is not, the run has length `k`.
pub proof fn lemma_leading_run(s: Seq<char>, class: CharClass, k: int)
    requires
        0 <= k <= s.len(),
        forall|j: int| 0 <= j < k ==> class.holds(#[trigger] s[j]),
        k < s.len() ==> !class.holds(s[k]),
    ensures
        leading_run(s, class) == k,
    decreases k,
{
    if k > 0 {
        let t = s.drop_first();
        assert forall|j: int| 0 <= j < k - 1 implies class.holds(#[trigger] t[j]) by {
            assert(t[j] == s[j + 1]);
        }
        lemma_leading_run(t, class, k - 1);
    }
}

/// The converse of `lemma_leading_run`: the run stays inside `s`, consists
/// of members of the class, and ends at a character outside it.
pub proof fn lemma_leading_run_bounds(s: Seq<char>, class: CharClass)
    ensures
        leading_run(s, class) <= s.len(),
        forall|j: int| 0 <= j < leading_run(s, class) ==> class.holds(#[trigger] s[j]),
        leading_run(s, class) < s.len() ==> !class.holds(s[leading_run(s, class) as int]),
    decreases s.len(),
{
    if s.len() > 0 && class.holds(s[0]) {
        let t = s.drop_first();
        lemma_leading_run_bounds(t, class);
        assert forall|j: int| 0 <= j < leading_run(s, class) implies class.holds(
            #[trigger] s[j],
        ) by {
            if j > 0 {
                assert(s[j] == t[j - 1]);
            }
        }
        if leading_run(s, class) < s.len() {
            assert(s[leading_run(s, class) as int] == t[leading_run(t, class) as int]);
        }
    }
}

/// A trailing run is the suffix after the last character outside the class:
/// if the characters of `s` from position `k` on are in `class` and the one
/// before, if any, is not, the run has length `s.len() - k`.
pub proof fn lemma_trailing_run(s: Seq<char>, class: CharClass, k: int)
    requires
        0 <= k <= s.len(),
        forall|j: int| k <= j < s.len() ==> class.holds(#[trigger] s[j]),
        k > 0 ==> !class.holds(s[k - 1]),
    ensures
        trailing_run(s, class) == s.len() - k,
    decreases s.len() - k,
{
    if k < s.len() {
        let t = s.drop_last();
        assert forall|j: int| k <= j < t.len() implies class.holds(#[trigger] t[j]) by {
            assert(t[j] == s[j]);
        }
        lemma_trailing_run(t, class, k);
    }
}

/// The converse of `lemma_trailing_run`.
pub proof fn lemma_trailing_run_bounds(s: Seq<char>, class: CharClass)
    ensures
        trailing_run(s, class) <= s.len(),
        forall|j: int|
            s.len() - trailing_run(s, class) <= j < s.len() ==> class.holds(#[trigger] s[j]),
        trailing_run(s, class) < s.len() ==> !class.holds(
            s[s.len() - trailing_run(s, class) - 1],
        ),
    decreases s.len(),
{
    if s.len() > 0 && class.holds(s.last()) {
        let t = s.drop_last();
        lemma_trailing_run_bounds(t, class);
        assert forall|j: int| s.len() - trailing_run(s, class) <= j < s.len() implies class.holds(
            #[trigger] s[j],
        ) by {
            if j < s.len() - 1 {
                assert(s[j] == t[j]);
            }
        }
        if trailing_run(s, class) < s.len() {
            assert(s[s.len() - trailing_run(s, class) - 1] == t[t.len() - trailing_run(t, class)
                - 1]);
        }
    }
}

/// Counts the leading characters of `s` that belong to `class`.
pub fn leading_run_len(s: &[char], class: CharClass) -> (r: usize)
    ensures
        r == leading_run(s@, class),
{
    let mut i: usize = 0;
    while i < s.len() && class.contains(s[i])
        invariant
            i <= s.len(),
            forall|j: int| 0 <= j < i ==> class.holds(#[trigger] s@[j]),
        decreases s.len() - i,
    {
        i += 1;
    }
    proof {
        lemma_leading_run(s@, class, i as int);
    }
    i
}

/// Counts the trailing characters of `s` that belong to `class`.
pub fn trailing_run_len(s: &[char], class: CharClass) -> (r: usize)
    ensures
        r == trailing_run(s@, class),
{
    let mut k: usize = s.len();
    while k > 0 && class.contains(s[k - 1])
        invariant
            k <= s.len(),
            forall|j: int| k <= j < s.len() ==> class.holds(#[trigger] s@[j]),
        decreases k,
    {
        k -= 1;
    }
    proof {
        lemma_trailing_run(s@, class, k as int);
    }
    s.len() - k
}

/// `content` between double quotes.
pub open spec fn quote(content: Seq<char>) -> Seq<char> {
    seq!['"'] + content + seq!['"']
}

/// Whether `needle` occurs in `hay` starting at position `i`.
pub open spec fn occurs_at(hay: Seq<char>, needle: Seq<char>, i: int) -> bool {
    &&& 0 <= i
    &&& i + needle.len() <= hay.len()
    &&& hay.subrange(i, i + needle.len()) == needle
}

/// The least position at or after `from` at which `needle` occurs in `hay`.
pub open spec fn find_from(hay: Seq<char>, needle: Seq<char>, from: int) -> Option<int>
    decreases hay.len() - from + 1,
{
    if from < 0 || from + needle.len() > hay.len() {
        None
    } else if occurs_at(hay, needle, from) {
        Some(from)
    } else {
        find_from(hay, needle, from + 1)
    }
}

/// The position of the first occurrence of `needle` in `hay`. The search
/// is purely textual.
pub open spec fn find(hay: Seq<char>, needle: Seq<char>) -> Option<int> {
    find_from(hay, needle, 0)
}

/// An occurrence at `i` with none in `from..i` is what the search from
/// `from` finds.
pub proof fn lemma_find_from_some(hay: Seq<char>, needle: Seq<char>, from: int, i: int)
    requires
        0 <= from <= i,
        occurs_at(hay, needle, i),
        forall|j: int| from <= j < i ==> !occurs_at(hay, needle, j),
    ensures
        find_from(hay, needle, from) == Some(i),
    decreases i - from,
{
    if from < i {
        lemma_find_from_some(hay, needle, from + 1, i);
    }
}

/// Without an occurrence at or after `from`, the search from `from` finds
/// nothing.
pub proof fn lemma_find_from_none(hay: Seq<char>, needle: Seq<char>, from: int)
    requires
        forall|j: int| from <= j ==> !occurs_at(hay, needle, j),
    ensures
        find_from(hay, needle, from) is None,
    decreases hay.len() - from + 1,
{
    if !(from < 0 || from + needle.len() > hay.len()) {
        lemma_find_from_none(hay, needle, from + 1);
    }
}

/// What the search from `from` finds is the first occurrence at or after
/// `from`, and it finds nothing only if there is none.
pub proof fn lemma_find_from_is_first(hay: Seq<char>, needle: Seq<char>, from: int)
    requires
        0 <= from,
    ensures
        match find_from(hay, needle, from) {
            Some(i) => from <= i && occurs_at(hay, needle, i) && forall|j: int|
                from <= j < i ==> !occurs_at(hay, needle, j),
            None => forall|j: int| from <= j ==> !occurs_at(hay, needle, j),
        },
    decreases hay.len() - from + 1,
{
    if !(from + needle.len() > hay.len()) && !occurs_at(hay, needle, from) {
        lemma_find_from_is_first(hay, needle, from + 1);
    }
}

/// Decides whether `needle` occurs in `hay` at position `i`.
pub fn occurs(hay: &[char], needle: &[char], i: usize) -> (r: bool)
    ensures
        r == occurs_at(hay@, needle@, i as int),
{
    if i > hay.len() || needle.len() > hay.len() - i {
        return false;
    }
    let mut k: usize = 0;
    while k < needle.len()
        invariant
            k <= needle.len(),
            i + needle.len() <= hay.len(),
            forall|j: int| 0 <= j < k ==> hay@[i + j] == needle@[j],
        decreases needle.len() - k,
    {
        if hay[i + k] != needle[k] {
            proof {
                let window = hay@.subrange(i as int, i + needle@.len());
                assert(window[k as int] == hay@[i + k]);
            }
            return false;
        }
        k += 1;
    }
    assert(hay@.subrange(i as int, i + needle@.len()) =~= needle@);
    true
}

/// Searches `hay` for the first occurrence of `needle`.
pub fn find_in(hay: &[char], needle: &[char]) -> (r: Option<usize>)
    ensures
        match r {
            Some(i) => i + needle.len() <= hay.len() && find(hay@, needle@) == Some(i as int),
            None => find(hay@, needle@) is None,
        },
{
    let mut i: usize = 0;
    while i <= hay.len() && hay.len() - i >= needle.len()
        invariant
            i <= hay.len() + 1,
            forall|j: int| 0 <= j < i ==> !occurs_at(hay@, needle@, j),
        decreases hay.len() + 1 - i,
    {
        if occurs(hay, needle, i) {
            proof {
                lemma_find_from_some(hay@, needle@, 0, i as int);
            }
            return Some(i);
        }
        proof {
            if needle.len() == 0 {
                assert(hay@.subrange(i as int, i as int) =~= needle@);
            }
        }
        i += 1;
    }
    proof {
        lemma_find_from_none(hay@, needle@, 0);
    }
    None
}

/// Searches `hay` for the first occurrence of the character `c`.
pub fn find_char(hay: &[char], c: char) -> (r: Option<usize>)
    ensures
        match r {
            Some(i) => i < hay.len() && find(hay@, seq![c]) == Some(i as int),
            None => find(hay@, seq![c]) is None,
        },
{
    let ghost needle = seq![c];
    let mut i: usize = 0;
    while i < hay.len()
        invariant
            i <= hay.len(),
            needle == seq![c],
            forall|j: int| 0 <= j < i ==> !occurs_at(hay@, needle, j),
        decreases hay.len() - i,
    {
        if hay[i] == c {
            proof {
                assert(hay@.subrange(i as int, i + 1) =~= needle);
                lemma_find_from_some(hay@, needle, 0, i as int);
            }
            return Some(i);
        }
        proof {
            if occurs_at(hay@, needle, i as int) {
                assert(hay@.subrange(i as int, i + 1)[0] == needle[0]);
            }
        }
        i += 1;
    }
    proof {
        lemma_find_from_none(hay@, needle, 0);
    }
    None
}

/// The characters of `s`, in order.
pub fn to_chars(s: &str) -> (v: Vec<char>)
    ensures
        v@ == s@,
{
    let mut v: Vec<char> = Vec::new();
    for c in it: s.chars()
        invariant
            v@ == it.seq().take(it.index() as int),
            it.seq() == s@,
    {
        v.push(c);
    }
    v
}

/// The characters of `s` from position `lo` up to, not including, position
/// `hi`, as an owned string.
pub(crate) fn substring(s: &str, lo: usize, hi: usize) -> (r: String)
    requires
        lo <= hi <= s@.len(),
    ensures
        r@ == s@.subrange(lo as int, hi as int),
{
    s.substring_char(lo, hi).to_owned()
}

} // verus!

