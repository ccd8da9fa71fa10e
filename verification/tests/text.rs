use moth::text::{
    char_is_ascii_digit, char_is_white_space, chars_string, count_run, find_from, line_is_blank,
    matches_at, push_chars, str_chars,
};

fn chars(text: &str) -> Vec<char> {
    text.chars().collect()
}

#[test]
fn white_space_is_that_of_unicode() {
    for code in 0..=0x10FFFFu32 {
        if let Some(c) = char::from_u32(code) {
            assert_eq!(char_is_white_space(c), c.is_whitespace());
        }
    }
}

#[test]
fn the_usual_white_space_is_known() {
    assert!(char_is_white_space(' '));
    assert!(char_is_white_space('\t'));
    assert!(char_is_white_space('\n'));
    assert!(char_is_white_space('\r'));
    assert!(char_is_white_space('\u{a0}'));
    assert!(char_is_white_space('\u{3000}'));
    assert!(!char_is_white_space('a'));
    assert!(!char_is_white_space('\u{200b}'));
    assert!(!char_is_white_space('\0'));
}

#[test]
fn digits_are_the_ten_of_ascii() {
    for code in 0..=0x10FFFFu32 {
        if let Some(c) = char::from_u32(code) {
            assert_eq!(char_is_ascii_digit(c), c.is_digit(10));
        }
    }
}

#[test]
fn a_blank_line_holds_white_space_only() {
    assert!(line_is_blank(&chars("")));
    assert!(line_is_blank(&chars(" \t\r\u{2003}")));
    assert!(!line_is_blank(&chars("  a ")));
    assert!(!line_is_blank(&chars("a")));
}

#[test]
fn a_pattern_is_matched_in_place() {
    let text = chars("a<html>b");
    assert!(matches_at(&text, 1, "<html>"));
    assert!(!matches_at(&text, 0, "<html>"));
    assert!(!matches_at(&text, 2, "<html>"));
    assert!(matches_at(&text, 7, "b"));
    assert!(!matches_at(&text, 7, "bc"));
    assert!(matches_at(&text, 8, ""));
    assert!(!matches_at(&text, 9, ""));
    assert!(matches_at(&text, 0, ""));
    assert!(matches_at(&chars("é```"), 1, "```"));
}

#[test]
fn the_first_occurrence_is_found() {
    let text = chars("a]b]c");
    assert_eq!(find_from(&text, 0, ']'), 1);
    assert_eq!(find_from(&text, 1, ']'), 1);
    assert_eq!(find_from(&text, 2, ']'), 3);
    assert_eq!(find_from(&text, 4, ']'), 5);
    assert_eq!(find_from(&text, 5, ']'), 5);
    assert_eq!(find_from(&text, 9, ']'), 5);
    assert_eq!(find_from(&text, 0, 'x'), 5);
    assert_eq!(find_from(&chars(""), 0, 'x'), 0);
}

#[test]
fn a_run_is_counted_up_to_the_limit() {
    let text = chars("a****b");
    assert_eq!(count_run(&text, 1, '*', 3), 3);
    assert_eq!(count_run(&text, 1, '*', 9), 4);
    assert_eq!(count_run(&text, 3, '*', 3), 2);
    assert_eq!(count_run(&text, 0, '*', 3), 0);
    assert_eq!(count_run(&text, 1, '*', 0), 0);
    assert_eq!(count_run(&text, 6, '*', 3), 0);
    assert_eq!(count_run(&text, 7, '*', 3), 0);
    assert_eq!(count_run(&chars("***"), 0, '*', 5), 3);
}

#[test]
fn text_goes_to_characters_and_back() {
    let text = "a é \u{1f600}\t";
    assert_eq!(str_chars(text), chars(text));
    assert_eq!(chars_string(&chars(text)), text);
    assert_eq!(str_chars(""), Vec::<char>::new());
    assert_eq!(chars_string(&[]), "");
}

#[test]
fn characters_are_appended() {
    let mut out = String::from("ab");
    push_chars(&mut out, &chars("cé"));
    push_chars(&mut out, &[]);
    assert_eq!(out, "abcé");
}
