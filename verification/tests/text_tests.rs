use dirbuf::text::{
    ends_with, get_end_x, get_start_x, is_blank, join_text, rfind_char,
    seek_special_character_backward, seek_special_character_forward, seek_whitespace_backward,
    seek_whitespace_forward, split_at_char, split_text, starts_with, str_eq, trim,
    trim_path, trim_start_matches, word_run_length,
};

fn strings(items: &[&str]) -> Vec<String> {
    items.iter().map(|s| s.to_string()).collect()
}

#[test]
fn trim_drops_whitespace_on_both_sides() {
    assert_eq!(trim("  a b \t\n"), "a b");
    assert_eq!(trim("a"), "a");
    assert_eq!(trim(" \t "), "");
    assert_eq!(trim(""), "");
    assert_eq!(trim("\u{a0}x\u{2003}"), "x");
}

#[test]
fn is_blank_tells_whitespace_only() {
    assert!(is_blank(""));
    assert!(is_blank(" \t"));
    assert!(!is_blank(" x "));
}

#[test]
fn split_text_keeps_empty_lines() {
    assert_eq!(split_text(""), strings(&[""]));
    assert_eq!(split_text("a"), strings(&["a"]));
    assert_eq!(split_text("a\nb"), strings(&["a", "b"]));
    assert_eq!(split_text("a\n"), strings(&["a", ""]));
    assert_eq!(split_text("\n\nb"), strings(&["", "", "b"]));
}

#[test]
fn split_at_char_cuts_at_every_separator() {
    assert_eq!(split_at_char("a/b//c", '/'), strings(&["a", "b", "", "c"]));
    assert_eq!(split_at_char("abc", '/'), strings(&["abc"]));
}

#[test]
fn join_text_puts_line_feeds_between() {
    assert_eq!(join_text(&strings(&["a", "b", ""])), "a\nb\n");
    assert_eq!(join_text(&strings(&["a"])), "a");
    assert_eq!(join_text(&Vec::new()), "");
}

#[test]
fn join_after_split_gives_the_text_back() {
    for text in ["", "a", "a\nb", "\n", "x\n\ny\n", "ü\nö"] {
        assert_eq!(join_text(&split_text(text)), text);
    }
}

#[test]
fn split_after_join_gives_the_lines_back() {
    let lines = strings(&["../", "a.txt", "", "b"]);
    assert_eq!(split_text(&join_text(&lines)), lines);
}

#[test]
fn str_eq_compares_characters() {
    assert!(str_eq("abc", "abc"));
    assert!(!str_eq("abc", "abd"));
    assert!(!str_eq("abc", "ab"));
    assert!(str_eq("", ""));
}

#[test]
fn starts_and_ends_with() {
    assert!(starts_with("../x", "../"));
    assert!(!starts_with("./x", "../"));
    assert!(starts_with("x", ""));
    assert!(!starts_with("", "x"));
    assert!(ends_with("a/..", ".."));
    assert!(!ends_with("a/.", ".."));
    assert!(!ends_with("", "/"));
}

#[test]
fn trim_start_matches_drops_every_leading_copy() {
    assert_eq!(trim_start_matches("././a/./b", "./"), "a/./b");
    assert_eq!(trim_start_matches("a", "./"), "a");
    assert_eq!(trim_start_matches("///", "/"), "");
    assert_eq!(trim_start_matches("abc", ""), "abc");
}

#[test]
fn rfind_char_finds_the_last() {
    assert_eq!(rfind_char("a/b/c", '/'), Some(3));
    assert_eq!(rfind_char("abc", '/'), None);
    assert_eq!(rfind_char("ä/b", '/'), Some(1));
}

#[test]
fn trim_path_gives_the_last_component() {
    assert_eq!(trim_path("./a/b.txt"), "b.txt");
    assert_eq!(trim_path("b.txt"), "b.txt");
    assert_eq!(trim_path("a/"), "");
}

#[test]
fn get_end_x_on_a_word() {
    // "foo bar": the word under column 1 ends before column 4
    assert_eq!(get_end_x("foo bar", 1, false), 4);
    assert_eq!(get_end_x("foo bar", 1, true), 5);
    assert_eq!(get_end_x("foo bar", 2, false), 4);
    assert_eq!(get_end_x("foo bar", 5, false), 8);
    assert_eq!(get_end_x("foo bar", 5, true), 9);
}

#[test]
fn get_end_x_off_a_word_is_the_next_column() {
    assert_eq!(get_end_x("foo bar", 4, false), 5);
    assert_eq!(get_end_x("foo bar", 4, true), 5);
    assert_eq!(get_end_x("foo bar", 0, true), 1);
    assert_eq!(get_end_x("foo bar", 20, false), 21);
    assert_eq!(get_end_x("", 1, true), 2);
}

#[test]
fn get_start_x_reaches_the_start_of_the_word_before() {
    assert_eq!(get_start_x("foo bar", 5), 1);
    assert_eq!(get_start_x("foo bar", 7), 5);
    assert_eq!(get_start_x("foo bar", 4), 1);
    assert_eq!(get_start_x("foo bar", 1), 1);
    assert_eq!(get_start_x("foo bar", 0), 1);
    assert_eq!(get_start_x("a   b", 5), 3);
    assert_eq!(get_start_x("foo bar", 30), 28);
}

#[test]
fn word_run_length_counts_word_characters() {
    assert_eq!(word_run_length("foo bar", 1), 3);
    assert_eq!(word_run_length("foo bar", 3), 1);
    assert_eq!(word_run_length("foo bar", 4), 0);
    assert_eq!(word_run_length("foo bar", 0), 0);
    assert_eq!(word_run_length("foo bar", 9), 0);
}

#[test]
fn seek_special_character_finds_the_ends_of_the_word() {
    assert_eq!(seek_special_character_backward("foo bar", 6), 5);
    assert_eq!(seek_special_character_forward("foo bar", 6), 8);
    assert_eq!(seek_special_character_backward("foo bar", 2), 1);
    assert_eq!(seek_special_character_forward("foo bar", 2), 4);
    // off a word the range is empty
    assert_eq!(seek_special_character_backward("foo bar", 4), 5);
    assert_eq!(seek_special_character_forward("foo bar", 4), 4);
}

#[test]
fn seek_whitespace_skips_blanks() {
    assert_eq!(seek_whitespace_forward("a   b", 2), 5);
    assert_eq!(seek_whitespace_forward("a   b", 1), 1);
    assert_eq!(seek_whitespace_forward("a  ", 2), 4);
    assert_eq!(seek_whitespace_backward("a   b", 4), 1);
    assert_eq!(seek_whitespace_backward("a   b", 5), 5);
    assert_eq!(seek_whitespace_backward("   ", 3), 0);
    // columns past the line count as whitespace
    assert_eq!(seek_whitespace_backward("ab", 9), 2);
}
