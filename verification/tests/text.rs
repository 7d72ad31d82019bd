use asset_catalog::text::{
    chars_of, equal_ignoring_case, extension_of, find_last_dot, fold_chars, folded_chars_of,
    has_part, has_part_ignoring_case, has_prefix, lex_before, matches_at, same_chars, space,
    split_words, stem_of, to_lower,
};

fn chars(s: &str) -> Vec<char> {
    s.chars().collect()
}

fn text(v: &Vec<char>) -> String {
    v.iter().collect()
}

#[test]
fn lower_case_touches_ascii_letters_only() {
    assert_eq!(to_lower('A'), 'a');
    assert_eq!(to_lower('M'), 'm');
    assert_eq!(to_lower('Z'), 'z');
    assert_eq!(to_lower('a'), 'a');
    assert_eq!(to_lower('@'), '@');
    assert_eq!(to_lower('['), '[');
    assert_eq!(to_lower('0'), '0');
    assert_eq!(to_lower('É'), 'É');
    assert_eq!(to_lower('\u{212a}'), '\u{212a}');
}

#[test]
fn chars_of_keeps_every_character() {
    assert_eq!(chars_of(""), Vec::<char>::new());
    assert_eq!(chars_of("aé漢 z"), vec!['a', 'é', '漢', ' ', 'z']);
    assert_eq!(text(&folded_chars_of("AbC-Z[É")), "abc-z[É");
    assert_eq!(text(&fold_chars(&chars("PNG"))), "png");
}

#[test]
fn equality_up_to_case() {
    assert!(same_chars(&chars("abc"), &chars("abc")));
    assert!(!same_chars(&chars("abc"), &chars("abd")));
    assert!(!same_chars(&chars("abc"), &chars("ab")));
    assert!(same_chars(&chars(""), &chars("")));
    assert!(equal_ignoring_case(&chars("Preview"), &chars("pREVIEW")));
    assert!(!equal_ignoring_case(&chars("Preview"), &chars("Preview1")));
    assert!(!equal_ignoring_case(&chars("é"), &chars("É")));
}

#[test]
fn substring_search() {
    assert!(matches_at(&chars("hello"), &chars("ell"), 1));
    assert!(!matches_at(&chars("hello"), &chars("ell"), 0));
    assert!(matches_at(&chars("hello"), &chars(""), 5));
    assert!(!matches_at(&chars("hello"), &chars(""), 6));
    assert!(!matches_at(&chars("hello"), &chars("lo!"), 3));
    assert!(!matches_at(&chars("hello"), &chars("h"), usize::MAX));
    assert!(has_part(&chars("hello"), &chars("lo")));
    assert!(has_part(&chars("hello"), &chars("hello")));
    assert!(has_part(&chars("hello"), &chars("")));
    assert!(has_part(&chars(""), &chars("")));
    assert!(!has_part(&chars("hello"), &chars("hello!")));
    assert!(!has_part(&chars("hello"), &chars("LO")));
    assert!(has_part_ignoring_case(&chars("Hello World"), &chars("LO W")));
    assert!(!has_part_ignoring_case(&chars("Hello World"), &chars("low")));
    assert!(has_prefix(&chars("tag:x"), &chars("tag:")));
    assert!(!has_prefix(&chars("tag"), &chars("tag:")));
    assert!(has_prefix(&chars("tag"), &chars("")));
}

#[test]
fn file_name_parts() {
    assert_eq!(find_last_dot(&chars("a.b.c")), Some(3));
    assert_eq!(find_last_dot(&chars("abc")), None);
    assert_eq!(find_last_dot(&chars(".abc")), Some(0));

    assert_eq!(extension_of(&chars("Preview.png")), Some(chars("png")));
    assert_eq!(extension_of(&chars("archive.tar.gz")), Some(chars("gz")));
    assert_eq!(extension_of(&chars("noext")), None);
    assert_eq!(extension_of(&chars(".hidden")), None);
    assert_eq!(extension_of(&chars(".hidden.png")), Some(chars("png")));
    assert_eq!(extension_of(&chars("trailing.")), Some(chars("")));
    assert_eq!(extension_of(&chars("")), None);

    assert_eq!(text(&stem_of(&chars("Preview.png"))), "Preview");
    assert_eq!(text(&stem_of(&chars("archive.tar.gz"))), "archive.tar");
    assert_eq!(text(&stem_of(&chars("noext"))), "noext");
    assert_eq!(text(&stem_of(&chars(".hidden"))), ".hidden");
    assert_eq!(text(&stem_of(&chars("trailing."))), "trailing");
}

#[test]
fn white_space_is_the_unicode_property() {
    for c in [' ', '\t', '\n', '\u{b}', '\u{c}', '\r', '\u{85}', '\u{a0}', '\u{1680}', '\u{2000}',
        '\u{200a}', '\u{2028}', '\u{2029}', '\u{202f}', '\u{205f}', '\u{3000}']
    {
        assert!(space(c));
        assert!(c.is_whitespace());
    }
    for c in ['a', '0', '\u{8}', '\u{e}', '\u{200b}', '\u{feff}', '_', '\u{1f}'] {
        assert!(!space(c));
        assert!(!c.is_whitespace());
    }
}

#[test]
fn words_are_the_runs_between_white_space() {
    let words = |s: &str| -> Vec<String> {
        split_words(&chars(s)).iter().map(text).collect()
    };
    assert_eq!(words(""), Vec::<String>::new());
    assert_eq!(words("   \t\n"), Vec::<String>::new());
    assert_eq!(words("wizard"), vec!["wizard"]);
    assert_eq!(words("  wizard  tag:fantasy\t\n x "), vec!["wizard", "tag:fantasy", "x"]);
    assert_eq!(words("\u{3000}a\u{a0}b"), vec!["a", "b"]);
    assert_eq!(words("a\u{200b}b"), vec!["a\u{200b}b"]);
}

#[test]
fn lexicographic_order_of_texts() {
    assert!(lex_before(&chars("abc"), &chars("abd")));
    assert!(lex_before(&chars("ab"), &chars("abc")));
    assert!(lex_before(&chars(""), &chars("a")));
    assert!(lex_before(&chars("Z"), &chars("a")));
    assert!(!lex_before(&chars("b"), &chars("a")));
    assert!(!lex_before(&chars("abc"), &chars("abc")));
    assert!(!lex_before(&chars("abc"), &chars("ab")));
    assert!(!lex_before(&chars(""), &chars("")));
}

#[test]
fn white_space_and_lower_case_agree_with_std_on_every_character() {
    for code in 0..=0x10ffffu32 {
        if let Some(c) = char::from_u32(code) {
            assert_eq!(space(c), c.is_whitespace(), "white space of U+{:04X}", code);
            assert_eq!(to_lower(c), c.to_ascii_lowercase(), "lower case of U+{:04X}", code);
        }
    }
}

#[test]
fn file_name_parts_agree_with_std_paths() {
    for name in [
        "Preview.png", "archive.tar.gz", "noext", ".hidden", ".hidden.png", "trailing.", "a.b.c.d",
        "x", "ünï.cödé", "with space.JPG", "..a", "a..b",
    ] {
        let path = std::path::Path::new(name);
        let ext = path.extension().map(|e| e.to_string_lossy().to_string());
        let stem = path.file_stem().map(|e| e.to_string_lossy().to_string());
        assert_eq!(extension_of(&chars(name)).map(|e| text(&e)), ext, "extension of {}", name);
        assert_eq!(Some(text(&stem_of(&chars(name)))), stem, "stem of {}", name);
    }
}

#[test]
fn words_agree_with_std_split() {
    for s in ["", " ", "a", " a b  c ", "tag:x\ty\u{2003}z", "\u{feff}a b", "安 全\u{3000}第一"] {
        let ours: Vec<String> = split_words(&chars(s)).iter().map(text).collect();
        let theirs: Vec<String> = s.split_whitespace().map(|w| w.to_string()).collect();
        assert_eq!(ours, theirs);
    }
}
