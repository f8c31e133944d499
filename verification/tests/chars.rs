use editor_core::chars::{text_contains, text_matches, to_chars};

#[test]
fn to_chars_lists_characters() {
    assert_eq!(to_chars(""), Vec::<char>::new());
    assert_eq!(to_chars("aé日"), vec!['a', 'é', '日']);
}

#[test]
fn text_matches_compares_characters() {
    assert!(text_matches("", &vec![]));
    assert!(text_matches("aé", &vec!['a', 'é']));
    assert!(!text_matches("aé", &vec!['a']));
    assert!(!text_matches("a", &vec!['a', 'é']));
    assert!(!text_matches("ab", &vec!['a', 'c']));
    assert!(!text_matches("", &vec!['a']));
}

#[test]
fn text_contains_finds_a_part() {
    assert!(text_contains("Default Dark", "Dark"));
    assert!(text_contains("Default Dark", "Default"));
    assert!(text_contains("Default Dark", "t D"));
    assert!(text_contains("Default Dark", ""));
    assert!(text_contains("", ""));
    assert!(text_contains("aé日b", "é日"));
    assert!(!text_contains("Default Dark", "Light"));
    assert!(!text_contains("Default Dark", "dark"));
    assert!(!text_contains("Dar", "Dark"));
    assert!(!text_contains("", "a"));
    assert!(!text_contains("aab", "abb"));
    assert!(text_contains("aaab", "aab"));
}

#[test]
fn text_contains_agrees_with_str_contains() {
    let texts = ["", "a", "ab", "aab", "abab", "Light", "Solarized Light", "é日é"];
    for text in texts {
        for part in texts {
            assert_eq!(text_contains(text, part), text.contains(part), "{:?} {:?}", text, part);
        }
    }
}
