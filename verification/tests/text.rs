use bnf_parser::chars::{to_chars, to_string};
use bnf_parser::pattern::{copy_range, count_char, find, pattern_at, split_at_pattern};
use bnf_parser::text::{
    append_chars, is_blank_chars, is_whitespace, join_words, normalize_chars, split_words,
};

fn chars(s: &str) -> Vec<char> {
    s.chars().collect()
}

fn strings(rows: Vec<Vec<char>>) -> Vec<String> {
    rows.into_iter().map(|r| r.into_iter().collect()).collect()
}

fn normalized(s: &str) -> String {
    normalize_chars(&chars(s)).into_iter().collect()
}

#[test]
fn conversion_keeps_every_character() {
    assert_eq!(to_chars("a<é>\n\"∀\""), chars("a<é>\n\"∀\""));
    assert_eq!(to_chars(""), Vec::<char>::new());
    assert_eq!(to_string(&chars("a<é>\n\"∀\"")), "a<é>\n\"∀\"");
    assert_eq!(to_string(&[]), "");
}

#[test]
fn whitespace_is_what_unicode_says() {
    for code in 0u32..0x11000 {
        if let Some(c) = char::from_u32(code) {
            assert_eq!(is_whitespace(c), c.is_whitespace(), "U+{:04X}", code);
        }
    }
    assert!(is_whitespace(' '));
    assert!(is_whitespace('\u{3000}'));
    assert!(!is_whitespace('\u{200B}'));
    assert!(!is_whitespace('a'));
}

#[test]
fn words_are_the_runs_without_whitespace() {
    assert_eq!(strings(split_words(&chars("  <a>\t<b>\n\n\"c\"  "))), vec!["<a>", "<b>", "\"c\""]);
    assert_eq!(strings(split_words(&chars("one"))), vec!["one"]);
    assert_eq!(strings(split_words(&chars(""))), Vec::<String>::new());
    assert_eq!(strings(split_words(&chars(" \n\t "))), Vec::<String>::new());
    assert_eq!(strings(split_words(&chars("a\u{a0}b"))), vec!["a", "b"]);
}

#[test]
fn join_puts_one_space_between_words() {
    assert_eq!(to_string(&join_words(&vec![chars("a"), chars("bc"), chars("d")])), "a bc d");
    assert_eq!(to_string(&join_words(&vec![chars("a")])), "a");
    assert_eq!(to_string(&join_words(&vec![])), "");
}

#[test]
fn normalize_trims_and_collapses() {
    assert_eq!(normalized("  <my \t\n rule>  "), "<my rule>");
    assert_eq!(normalized("a"), "a");
    assert_eq!(normalized(""), "");
    assert_eq!(normalized(" \n "), "");
    assert_eq!(normalized("a\nb"), "a b");
}

#[test]
fn normalize_twice_is_normalize_once() {
    for s in ["", " ", "a", "  a  b ", "\t<x>\n\n<y>\u{2003}z ", "a b c"] {
        let once = normalized(s);
        assert_eq!(normalized(&once), once);
    }
}

#[test]
fn pattern_is_compared_at_the_index() {
    let s = chars("a::=b");
    let op = chars("::=");
    assert!(pattern_at(&s, &op, 1));
    assert!(!pattern_at(&s, &op, 0));
    assert!(!pattern_at(&s, &op, 2));
    assert!(!pattern_at(&s, &op, 3));
    assert!(!pattern_at(&s, &op, 9));
    assert!(pattern_at(&s, &[], 5));
    assert!(!pattern_at(&s, &[], 6));
    assert!(!pattern_at(&chars(":"), &op, 0));
}

#[test]
fn find_gives_the_first_occurrence() {
    let s = chars("a|b||c");
    let bar = chars("|");
    assert_eq!(find(&s, &bar, 0), Some(1));
    assert_eq!(find(&s, &bar, 1), Some(1));
    assert_eq!(find(&s, &bar, 2), Some(3));
    assert_eq!(find(&s, &bar, 4), Some(4));
    assert_eq!(find(&s, &bar, 5), None);
    assert_eq!(find(&s, &bar, 6), None);
    assert_eq!(find(&s, &bar, 7), None);
    assert_eq!(find(&s, &chars("||"), 0), Some(3));
    assert_eq!(find(&s, &chars("a|b||c"), 0), Some(0));
    assert_eq!(find(&s, &chars("a|b||cd"), 0), None);
    assert_eq!(find(&chars(""), &bar, 0), None);
}

#[test]
fn split_cuts_at_every_occurrence() {
    assert_eq!(strings(split_at_pattern(&chars("a|b||c"), &chars("|"))), vec!["a", "b", "", "c"]);
    assert_eq!(strings(split_at_pattern(&chars("|a|"), &chars("|"))), vec!["", "a", ""]);
    assert_eq!(strings(split_at_pattern(&chars("abc"), &chars("|"))), vec!["abc"]);
    assert_eq!(strings(split_at_pattern(&chars(""), &chars("|"))), vec![""]);
    assert_eq!(strings(split_at_pattern(&chars("a ::= b"), &chars("::="))), vec!["a ", " b"]);
    assert_eq!(strings(split_at_pattern(&chars("a:::==b"), &chars("::="))), vec!["a:", "=b"]);
}

#[test]
fn split_matches_do_not_overlap() {
    assert_eq!(strings(split_at_pattern(&chars("a\n\n\nb"), &chars("\n\n"))), vec!["a", "\nb"]);
    assert_eq!(strings(split_at_pattern(&chars("a\n\n\n\nb"), &chars("\n\n"))), vec!["a", "", "b"]);
    assert_eq!(strings(split_at_pattern(&chars("aaa"), &chars("aa"))), vec!["", "a"]);
}

#[test]
fn split_agrees_with_the_standard_library() {
    for s in ["", "x", "a|b", "||", "a::=b::=c", "::=", ":::=::", "\n\n\n\n\n", "a\n\nb\n\n"] {
        for pat in ["|", "::=", "\n\n", ":"] {
            let expected: Vec<String> = s.split(pat).map(String::from).collect();
            assert_eq!(strings(split_at_pattern(&chars(s), &chars(pat))), expected);
        }
    }
}

#[test]
fn empty_pattern_cuts_nowhere() {
    assert_eq!(strings(split_at_pattern(&chars("abc"), &[])), vec!["abc"]);
}

#[test]
fn copy_range_takes_the_characters_between() {
    let s = chars("abcdef");
    assert_eq!(to_string(&copy_range(&s, 1, 4)), "bcd");
    assert_eq!(to_string(&copy_range(&s, 0, 6)), "abcdef");
    assert_eq!(to_string(&copy_range(&s, 3, 3)), "");
}

#[test]
fn append_adds_at_the_end() {
    let mut out = chars("ab");
    append_chars(&mut out, &chars("cd"));
    assert_eq!(to_string(&out), "abcd");
    append_chars(&mut out, &[]);
    assert_eq!(to_string(&out), "abcd");
}

#[test]
fn count_counts_occurrences() {
    assert_eq!(count_char(&chars("<a> <b>"), '>'), 2);
    assert_eq!(count_char(&chars("<a>"), '>'), 1);
    assert_eq!(count_char(&chars("<a"), '>'), 0);
    assert_eq!(count_char(&[], '>'), 0);
}

#[test]
fn blank_means_only_whitespace() {
    assert!(is_blank_chars(&[]));
    assert!(is_blank_chars(&chars(" \n\t\u{2028}")));
    assert!(!is_blank_chars(&chars(" \n. ")));
}
