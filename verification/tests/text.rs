use delete_node_modules::text::{chars_of, contains, contains_chars, same_text};

#[test]
fn chars_of_gives_the_characters_in_order() {
    assert_eq!(chars_of("a\u{e9}z"), vec!['a', '\u{e9}', 'z']);
    assert!(chars_of("").is_empty());
}

#[test]
fn contains_finds_substrings() {
    assert!(contains("/a/node_modules", "node"));
    assert!(contains("/a/node_modules", "/a/node_modules"));
    assert!(contains("/a/node_modules", "s"));
    assert!(contains("abc", ""));
    assert!(contains("", ""));
    assert!(contains("aab", "ab"));
    assert!(contains("caf\u{e9}s", "\u{e9}s"));
}

#[test]
fn contains_rejects_what_is_not_there() {
    assert!(!contains("/a/node_modules", "nodes"));
    assert!(!contains("", "a"));
    assert!(!contains("ab", "abc"));
    assert!(!contains("ab", "ba"));
    assert!(!contains("abab", "aa"));
}

#[test]
fn contains_agrees_with_the_standard_search() {
    let texts = ["", "a", "ab", "aba", "abab", "node_modules", "/x/node_modules/y"];
    for hay in texts {
        for needle in texts {
            assert_eq!(contains(hay, needle), hay.contains(needle));
        }
    }
}

#[test]
fn contains_chars_works_on_sequences() {
    assert!(contains_chars(&vec!['a', 'b', 'c'], &vec!['b', 'c']));
    assert!(!contains_chars(&vec!['a', 'b', 'c'], &vec!['c', 'b']));
}

#[test]
fn same_text_compares_whole_texts() {
    assert!(same_text("node_modules", "node_modules"));
    assert!(!same_text("node_modules", "node_module"));
    assert!(!same_text("node_modules", "node_modulez"));
    assert!(same_text("", ""));
    assert!(!same_text("", "a"));
}
