use crator::text::{
    ascii_whitespace, find_char, find_in, leading_run_len, occurs, to_chars, trailing_run_len,
    whitespace, CharClass,
};

struct Sequence(u64);

impl Sequence {
    fn next(&mut self) -> u64 {
        self.0 = self.0.wrapping_mul(6364136223846793005).wrapping_add(1442695040888963407);
        self.0 >> 33
    }

    fn below(&mut self, n: u64) -> u64 {
        self.next() % n
    }
}

#[test]
fn white_space_agrees_with_std_on_every_char() {
    for code in 0..=0x10FFFFu32 {
        if let Some(c) = char::from_u32(code) {
            assert_eq!(whitespace(c), c.is_whitespace(), "char {:x}", code);
            assert_eq!(ascii_whitespace(c), c.is_ascii_whitespace(), "char {:x}", code);
        }
    }
}

#[test]
fn only_ascii_letters_lowercase_to_the_letters_of_true() {
    // Comparing with `true` up to ASCII case is comparing the lowercased
    // text with `true`: no other character lowercases to one of its letters.
    for code in 0..=0x10FFFFu32 {
        if let Some(c) = char::from_u32(code) {
            let lower = c.to_lowercase().to_string();
            let hit = lower == "t" || lower == "r" || lower == "u" || lower == "e";
            assert_eq!(hit, "tTrRuUeE".contains(c), "char {:x}", code);
        }
    }
}

#[test]
fn classes_hold_what_they_name() {
    assert!(CharClass::Whitespace.contains(' '));
    assert!(CharClass::Whitespace.contains('\u{3000}'));
    assert!(!CharClass::Whitespace.contains(','));
    assert!(CharClass::Closer.contains(','));
    assert!(CharClass::Closer.contains('}'));
    assert!(CharClass::Closer.contains(']'));
    assert!(!CharClass::Closer.contains('{'));
    assert!(!CharClass::Closer.contains(' '));
}

#[test]
fn runs_are_counted_at_both_ends() {
    let text = to_chars(" \t\u{a0}ab c\n ");
    assert_eq!(leading_run_len(&text, CharClass::Whitespace), 3);
    assert_eq!(trailing_run_len(&text, CharClass::Whitespace), 2);
    assert_eq!(leading_run_len(&text, CharClass::Closer), 0);
    let closers = to_chars("x},]");
    assert_eq!(trailing_run_len(&closers, CharClass::Closer), 3);
    let blank = to_chars("   ");
    assert_eq!(leading_run_len(&blank, CharClass::Whitespace), 3);
    assert_eq!(trailing_run_len(&blank, CharClass::Whitespace), 3);
    assert_eq!(leading_run_len(&to_chars(""), CharClass::Whitespace), 0);
}

#[test]
fn runs_agree_with_std_trimming() {
    let pieces = [" ", "\t", "\n", "\u{a0}", "\u{2003}", "a", "é", ",", "}"];
    let mut sequence = Sequence(11);
    for _ in 0..50_000 {
        let count = sequence.below(8);
        let mut text = String::new();
        for _ in 0..count {
            text.push_str(pieces[sequence.below(9) as usize]);
        }
        let chars = to_chars(&text);
        let lead = leading_run_len(&chars, CharClass::Whitespace);
        let trail = trailing_run_len(&chars, CharClass::Whitespace);
        assert_eq!(chars.len() - lead, text.trim_start().chars().count(), "input {:?}", text);
        assert_eq!(chars.len() - trail, text.trim_end().chars().count(), "input {:?}", text);
    }
}

#[test]
fn chars_are_the_chars_of_the_text() {
    assert_eq!(to_chars("aé✓"), vec!['a', 'é', '✓']);
    assert_eq!(to_chars(""), Vec::<char>::new());
}

#[test]
fn search_finds_the_first_occurrence() {
    assert_eq!(find_in(&to_chars("abcabc"), &to_chars("bc")), Some(1));
    assert_eq!(find_in(&to_chars("abcabc"), &to_chars("abcabc")), Some(0));
    assert_eq!(find_in(&to_chars("abcabc"), &to_chars("cb")), None);
    assert_eq!(find_in(&to_chars("ab"), &to_chars("abc")), None);
    assert_eq!(find_in(&to_chars("aaab"), &to_chars("aab")), Some(1));
    assert_eq!(find_in(&to_chars("é\"k\""), &to_chars("\"k\"")), Some(1));
    assert_eq!(find_in(&to_chars("abc"), &to_chars("")), Some(0));
    assert_eq!(find_in(&to_chars(""), &to_chars("")), Some(0));
    assert_eq!(find_char(&to_chars("a:b:c"), ':'), Some(1));
    assert_eq!(find_char(&to_chars("abc"), ':'), None);
    assert_eq!(find_char(&to_chars(""), ':'), None);
}

#[test]
fn occurrence_is_decided_at_any_position() {
    let hay = to_chars("abcab");
    assert!(occurs(&hay, &to_chars("ab"), 0));
    assert!(occurs(&hay, &to_chars("ab"), 3));
    assert!(!occurs(&hay, &to_chars("ab"), 1));
    assert!(!occurs(&hay, &to_chars("ab"), 4));
    assert!(!occurs(&hay, &to_chars("ab"), 5));
    assert!(!occurs(&hay, &to_chars("ab"), usize::MAX));
    assert!(occurs(&hay, &to_chars(""), 5));
    assert!(!occurs(&hay, &to_chars(""), 6));
}

#[test]
fn search_agrees_with_std() {
    let pieces = ["a", "b", "ab", "\"", "é", ":", "\r\n", "ba"];
    let mut sequence = Sequence(12);
    for _ in 0..100_000 {
        let mut hay = String::new();
        for _ in 0..sequence.below(10) {
            hay.push_str(pieces[sequence.below(8) as usize]);
        }
        let mut needle = String::new();
        for _ in 0..sequence.below(3) {
            needle.push_str(pieces[sequence.below(8) as usize]);
        }
        let expected = hay.find(&needle).map(|at| hay[..at].chars().count());
        assert_eq!(find_in(&to_chars(&hay), &to_chars(&needle)), expected, "{:?} {:?}", hay, needle);
    }
}
