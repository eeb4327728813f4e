use mbtalerts::text::{
    all_chars, char_is_whitespace, contains, find, find_earliest, leading_whitespace, matches_at,
    same_text, to_chars, trimmed_len,
};

fn chars(s: &str) -> Vec<char> {
    s.chars().collect()
}

#[test]
fn test_to_chars() {
    assert_eq!(to_chars("a\u{e9}\u{1F687}z"), vec!['a', '\u{e9}', '\u{1F687}', 'z']);
    assert_eq!(to_chars(""), Vec::<char>::new());
}

#[test]
fn test_find_first_occurrence() {
    assert_eq!(find(&chars("abcabc"), &chars("bc")), Some(1));
    assert_eq!(find(&chars("abcabc"), &chars("abc")), Some(0));
    assert_eq!(find(&chars("abcabc"), &chars("cab")), Some(2));
    assert_eq!(find(&chars("abcabc"), &chars("abcabc")), Some(0));
    assert_eq!(find(&chars("aaab"), &chars("aab")), Some(1));
    assert_eq!(find(&chars("abc"), &chars("c")), Some(2));
}

#[test]
fn test_find_nothing() {
    assert_eq!(find(&chars("abcabc"), &chars("cb")), None);
    assert_eq!(find(&chars("abc"), &chars("abcd")), None);
    assert_eq!(find(&chars(""), &chars("a")), None);
}

#[test]
fn test_find_empty_pattern() {
    assert_eq!(find(&chars("abc"), &chars("")), Some(0));
    assert_eq!(find(&chars(""), &chars("")), Some(0));
}

#[test]
fn test_find_counts_characters() {
    assert_eq!(find(&chars("\u{e9}\u{e9}: x"), &chars(": ")), Some(2));
    assert_eq!("\u{e9}\u{e9}: x".find(": "), Some(4));
}

#[test]
fn test_matches_at() {
    let s = chars("hello");
    assert!(matches_at(&s, &chars("hel"), 0));
    assert!(matches_at(&s, &chars("llo"), 2));
    assert!(matches_at(&s, &chars(""), 5));
    assert!(!matches_at(&s, &chars(""), 6));
    assert!(!matches_at(&s, &chars("lo"), 4));
    assert!(!matches_at(&s, &chars("hello!"), 0));
    assert!(!matches_at(&s, &chars("el"), 0));
    assert!(!matches_at(&s, &chars("h"), usize::MAX));
}

#[test]
fn test_contains() {
    assert!(contains(&chars("Red Line"), &chars("Line")));
    assert!(!contains(&chars("Red line"), &chars("Line")));
    assert!(contains(&chars("x"), &chars("")));
}

#[test]
fn test_same_text() {
    assert!(same_text("abc", "abc"));
    assert!(same_text("", ""));
    assert!(!same_text("abc", "abd"));
    assert!(!same_text("abc", "ab"));
    assert!(!same_text("ab", "abc"));
    assert!(!same_text("", "a"));
}

#[test]
fn test_whitespace_is_the_unicode_property() {
    for code in 0..=0x10FFFFu32 {
        if let Some(c) = char::from_u32(code) {
            assert_eq!(char_is_whitespace(c), c.is_whitespace(), "U+{:04X}", code);
        }
    }
}

#[test]
fn test_leading_whitespace() {
    assert_eq!(leading_whitespace(&chars("  \t\n x ")), 5);
    assert_eq!(leading_whitespace(&chars("x  ")), 0);
    assert_eq!(leading_whitespace(&chars("   ")), 3);
    assert_eq!(leading_whitespace(&chars("")), 0);
    assert_eq!(leading_whitespace(&chars("\u{a0}\u{2003}\u{3000}x")), 3);
    for s in ["  \t\n x ", "x  ", "   ", "", "\u{a0}\u{2003}\u{3000}x", "\u{200b}x"] {
        let rest: String = chars(s)[leading_whitespace(&chars(s))..].iter().collect();
        assert_eq!(rest, s.trim_start());
    }
}

#[test]
fn test_trimmed_len() {
    assert_eq!(trimmed_len(&chars("abc. , .")), 3);
    assert_eq!(trimmed_len(&chars("a.b")), 3);
    assert_eq!(trimmed_len(&chars(" ,.")), 0);
    assert_eq!(trimmed_len(&chars("")), 0);
    assert_eq!(trimmed_len(&chars("abc\t")), 4);
    assert_eq!(trimmed_len(&chars("abc;")), 4);
    for s in ["abc. , .", "a.b", " ,.", "", "abc\t", ". a"] {
        let kept: String = chars(s)[..trimmed_len(&chars(s))].iter().collect();
        assert_eq!(kept, s.trim_end_matches(['.', ',', ' ']));
    }
}

#[test]
fn test_find_earliest() {
    let markers = vec![chars(", "), chars(" will "), chars(" this ")];
    assert_eq!(find_earliest(&chars("a this b will c, d"), &markers), 1);
    assert_eq!(find_earliest(&chars("a, b will c this d"), &markers), 1);
    assert_eq!(find_earliest(&chars("ab will c"), &markers), 2);
    assert_eq!(find_earliest(&chars("nothing here"), &markers), 12);
    assert_eq!(find_earliest(&chars("abc, d"), &Vec::new()), 6);
    assert_eq!(find_earliest(&chars(""), &markers), 0);
}

#[test]
fn test_all_chars() {
    assert_eq!(all_chars(&[", ", "", "ab"]), vec![chars(", "), chars(""), chars("ab")]);
    assert_eq!(all_chars(&[]), Vec::<Vec<char>>::new());
}
