use chat_graph::labels::parse_labels;
use chat_graph::text::{
    chars_of, contains, join_all, is_space_char, same_text, split_at_char, split_once_at,
    starts_with, strip_prefix, substring, trim,
};

#[test]
fn trim_removes_white_space_at_both_ends() {
    assert_eq!(trim("  a b \t\n"), "a b");
    assert_eq!(trim("a"), "a");
    assert_eq!(trim(""), "");
    assert_eq!(trim(" \u{3000}\u{a0} "), "");
    assert_eq!(trim("\u{2003}x\u{2028}"), "x");
}

#[test]
fn trim_agrees_with_std_on_every_white_space_character() {
    for code in 0u32..0x3100 {
        if let Some(c) = char::from_u32(code) {
            assert_eq!(is_space_char(c), c.is_whitespace(), "U+{:04X}", code);
        }
    }
    assert!(!is_space_char('\u{200b}'));
    assert!(!is_space_char('\u{180e}'));
    assert!(!is_space_char('\u{feff}'));
}

#[test]
fn split_at_char_gives_one_more_piece_than_separators() {
    assert_eq!(split_at_char("a,b,,c", ','), vec!["a", "b", "", "c"]);
    assert_eq!(split_at_char("", ','), vec![""]);
    assert_eq!(split_at_char(",", ','), vec!["", ""]);
    assert_eq!(split_at_char("abc", ','), vec!["abc"]);
    assert_eq!(split_at_char("é,ü", ','), vec!["é", "ü"]);
}

#[test]
fn split_once_at_cuts_at_the_first_occurrence() {
    assert_eq!(
        split_once_at("1:00 PM: Alice: Hi", ": "),
        Some(("1:00 PM".to_string(), "Alice: Hi".to_string()))
    );
    assert_eq!(split_once_at("no delimiter:here", ": "), None);
    assert_eq!(split_once_at(": ", ": "), Some((String::new(), String::new())));
    assert_eq!(split_once_at("a: ", ": "), Some(("a".to_string(), String::new())));
    assert_eq!(split_once_at("", ": "), None);
}

#[test]
fn prefixes_and_occurrences() {
    assert!(starts_with("Labels: x", "Labels:"));
    assert!(!starts_with("Label", "Labels:"));
    assert!(starts_with("abc", ""));
    assert!(contains("Me - Text - 2021.html", "- Text -"));
    assert!(!contains("Me - Voicemail - 2021.html", "- Text -"));
    assert!(!contains("ab", "abc"));
    assert_eq!(strip_prefix("tel:+1555", "tel:"), Some("+1555".to_string()));
    assert_eq!(strip_prefix("mailto:x", "tel:"), None);
    assert_eq!(strip_prefix("tel:", "tel:"), Some(String::new()));
}

#[test]
fn characters_and_substrings() {
    assert_eq!(chars_of("aé"), vec!['a', 'é']);
    assert_eq!(substring("héllo", 1, 3), "él");
    assert_eq!(substring("héllo", 2, 2), "");
    assert!(same_text("abc", "abc"));
    assert!(!same_text("abc", "abd"));
    assert!(!same_text("abc", "ab"));
    assert_eq!(join_all(&vec!["Hi ".to_string(), "there".to_string()]), "Hi there");
    assert_eq!(join_all(&Vec::new()), "");
}

#[test]
fn labels_are_what_stands_between_the_first_two_colons() {
    assert_eq!(parse_labels("Labels: Inbox, Text"), vec!["Inbox", "Text"]);
    assert_eq!(parse_labels("Labels: a:b, c"), vec!["a"]);
    assert_eq!(parse_labels("Labels:"), Vec::<String>::new());
    assert_eq!(parse_labels("no colon here"), Vec::<String>::new());
    assert_eq!(parse_labels("Labels: , Inbox ,, "), vec!["Inbox"]);
    assert_eq!(parse_labels(""), Vec::<String>::new());
}

#[test]
fn no_label_is_kept_twice() {
    assert_eq!(parse_labels(":a,a"), vec!["a"]);
    assert_eq!(parse_labels("Labels: Inbox, Text, Inbox"), vec!["Inbox", "Text"]);
    assert_eq!(parse_labels("Labels: b, a ,b,a, c"), vec!["b", "a", "c"]);
    assert_eq!(parse_labels("Labels: a, A"), vec!["a", "A"]);
}
