use obsidian_graph::text::contains;
use obsidian_graph::text::copy_strings;
use obsidian_graph::text::find_text;
use obsidian_graph::text::is_whitespace;
use obsidian_graph::text::matches_at;
use obsidian_graph::text::starts_with;
use obsidian_graph::text::to_chars;
use obsidian_graph::text::trim_range;

fn chars(text: &str) -> Vec<char> {
    text.chars().collect()
}

fn trimmed(text: &str) -> String {
    let all = chars(text);
    let (lo, hi) = trim_range(&all, 0, all.len());
    all[lo..hi].iter().collect()
}

#[test]
fn whitespace_is_the_unicode_property() {
    for code in 0..=0x10ffffu32 {
        if let Some(c) = char::from_u32(code) {
            assert_eq!(is_whitespace(c), c.is_whitespace(), "U+{:04X}", code);
        }
    }
}

#[test]
fn to_chars_keeps_every_character() {
    assert_eq!(to_chars(""), Vec::<char>::new());
    assert_eq!(to_chars("aé日"), vec!['a', 'é', '日']);
}

#[test]
fn trim_range_agrees_with_str_trim() {
    for text in [
        "",
        " ",
        "\t\n ",
        "a",
        " a",
        "a ",
        "  a b  ",
        "\u{2003}x\u{3000}",
        "\u{85}é \u{a0}",
        "no space",
    ] {
        assert_eq!(trimmed(text), text.trim(), "{:?}", text);
    }
}

#[test]
fn trim_range_stays_within_its_part() {
    let all = chars("ab  cd  ef");
    assert_eq!(trim_range(&all, 2, 8), (4, 6));
    assert_eq!(trim_range(&all, 2, 4), (4, 4));
    assert_eq!(trim_range(&all, 0, 10), (0, 10));
    assert_eq!(trim_range(&all, 5, 5), (5, 5));
}

#[test]
fn matches_at_compares_in_place() {
    let hay = chars("abcabd");
    assert!(matches_at(&hay, &chars("abc"), 0));
    assert!(!matches_at(&hay, &chars("abc"), 3));
    assert!(matches_at(&hay, &chars("abd"), 3));
    assert!(matches_at(&hay, &chars(""), 6));
    assert!(!matches_at(&hay, &chars(""), 7));
    assert!(!matches_at(&hay, &chars("abd"), 4));
    assert!(!matches_at(&hay, &chars("abcabdx"), 0));
    assert!(!matches_at(&hay, &chars("a"), usize::MAX));
}

#[test]
fn starts_with_agrees_with_str() {
    for (text, prefix) in [
        ("title:x", "title:"),
        ("title", "title:"),
        ("tag:#x", "title:"),
        ("", ""),
        ("a", ""),
        ("", "a"),
        ("été", "é"),
    ] {
        assert_eq!(
            starts_with(&chars(text), &chars(prefix)),
            text.starts_with(prefix),
            "{:?} {:?}",
            text,
            prefix
        );
    }
}

#[test]
fn contains_agrees_with_str() {
    for (hay, needle) in [
        ("", ""),
        ("abc", ""),
        ("", "a"),
        ("abc", "abc"),
        ("abc", "abcd"),
        ("aab", "ab"),
        ("abab", "bab"),
        ("abab", "bb"),
        ("Rust", "rust"),
        ("naïve café", "ve ca"),
        ("日本語", "本"),
        ("日本語", "語日"),
    ] {
        assert_eq!(
            contains(&chars(hay), &chars(needle)),
            hay.contains(needle),
            "{:?} {:?}",
            hay,
            needle
        );
    }
}

#[test]
fn find_text_gives_the_first_index() {
    let list: Vec<String> = ["a", "b", "a", ""].iter().map(|s| s.to_string()).collect();
    assert_eq!(find_text(&list, &"a".to_string()), Some(0));
    assert_eq!(find_text(&list, &"b".to_string()), Some(1));
    assert_eq!(find_text(&list, &"".to_string()), Some(3));
    assert_eq!(find_text(&list, &"A".to_string()), None);
    assert_eq!(find_text(&Vec::new(), &"a".to_string()), None);
}

#[test]
fn copy_strings_copies() {
    let list: Vec<String> = ["a", "", "é"].iter().map(|s| s.to_string()).collect();
    assert_eq!(copy_strings(&list), list);
    assert!(copy_strings(&Vec::new()).is_empty());
}
