use project_ledger::lines::{join, split};
use project_ledger::text::{
    chars_of, contains, find_char, has_prefix, has_prefix_chars, is_white_space,
    line_has_prefix, slice_of, trim_bounds,
};

fn chars(s: &str) -> Vec<char> {
    s.chars().collect()
}

fn lines(all: &[&str]) -> Vec<Vec<char>> {
    all.iter().map(|l| chars(l)).collect()
}

#[test]
fn chars_of_gives_the_characters() {
    assert_eq!(chars_of("aé\u{3000}z"), vec!['a', 'é', '\u{3000}', 'z']);
    assert!(chars_of("").is_empty());
}

#[test]
fn white_space_is_what_the_standard_library_says() {
    let mut n: u32 = 0;
    while n <= 0x3100 {
        if let Some(c) = char::from_u32(n) {
            assert_eq!(is_white_space(c), c.is_whitespace());
        }
        n += 1;
    }
    assert!(is_white_space(' '));
    assert!(is_white_space('\r'));
    assert!(is_white_space('\u{a0}'));
    assert!(!is_white_space('-'));
    assert!(!is_white_space('\u{200b}'));
}

#[test]
fn trim_bounds_enclose_the_trimmed_text() {
    assert_eq!(trim_bounds(&chars("  ab c \t")), (2, 6));
    assert_eq!(trim_bounds(&chars("abc")), (0, 3));
    assert_eq!(trim_bounds(&chars("")), (0, 0));
    assert_eq!(trim_bounds(&chars("   ")), (0, 0));
    assert_eq!(trim_bounds(&chars(" x")), (1, 2));
}

#[test]
fn trimming_agrees_with_the_standard_library() {
    for s in ["", " ", "a", " a", "a ", "\t a b \r\n", "\u{2003}x\u{3000}", "\u{200b} x"] {
        let v = chars(s);
        let (lo, hi) = trim_bounds(&v);
        let got: String = v[lo..hi].iter().collect();
        assert_eq!(got, s.trim());
    }
}

#[test]
fn prefix_is_looked_for_in_the_given_part() {
    let line = chars("  - [x] a");
    assert!(has_prefix(&line, 2, 9, "- ["));
    assert!(has_prefix(&line, 2, 9, "- [x] a"));
    assert!(!has_prefix(&line, 2, 9, "- [x] ab"));
    assert!(!has_prefix(&line, 2, 4, "- ["));
    assert!(!has_prefix(&line, 0, 9, "- ["));
    assert!(has_prefix(&line, 3, 3, ""));
    assert!(has_prefix_chars(&line, 0, 9, &chars("  -")));
    assert!(!has_prefix_chars(&line, 0, 9, &chars("  +")));
    assert!(line_has_prefix(&line, "  - [x]"));
    assert!(!line_has_prefix(&line, "- [x]"));
}

#[test]
fn find_char_counts_from_the_start_of_the_part() {
    let line = chars("ab:cd:e");
    assert_eq!(find_char(&line, 0, 7, ':'), 2);
    assert_eq!(find_char(&line, 3, 7, ':'), 2);
    assert_eq!(find_char(&line, 0, 2, ':'), 2);
    assert_eq!(find_char(&line, 6, 7, ':'), 1);
    assert_eq!(find_char(&line, 7, 7, ':'), 0);
}

#[test]
fn contains_finds_a_run_anywhere() {
    assert!(contains(&chars("inactive"), "active"));
    assert!(contains(&chars("active"), "active"));
    assert!(contains(&chars("x"), ""));
    assert!(contains(&chars(""), ""));
    assert!(!contains(&chars("activ"), "active"));
    assert!(!contains(&chars("actiive"), "active"));
}

#[test]
fn slice_of_copies_the_part() {
    let line = chars("hello");
    assert_eq!(slice_of(&line, 1, 4), chars("ell"));
    assert_eq!(slice_of(&line, 0, 5), line);
    assert!(slice_of(&line, 5, 5).is_empty());
}

#[test]
fn split_gives_the_lines() {
    assert_eq!(split(&chars("a\nb\n")), lines(&["a", "b"]));
    assert_eq!(split(&chars("a\nb")), lines(&["a", "b"]));
    assert_eq!(split(&chars("a\r\nb\r\n")), lines(&["a", "b"]));
    assert_eq!(split(&chars("a\n\nb")), lines(&["a", "", "b"]));
    assert_eq!(split(&chars("\n")), lines(&[""]));
    assert_eq!(split(&chars("a\n\n")), lines(&["a", ""]));
    assert_eq!(split(&chars("a\r")), lines(&["a\r"]));
    assert_eq!(split(&chars("a\rb\r\r\nc")), lines(&["a\rb\r", "c"]));
    assert_eq!(split(&chars("\r\n")), lines(&[""]));
    assert!(split(&chars("")).is_empty());
}

#[test]
fn split_agrees_with_the_standard_library() {
    for s in ["", "\n", "a", "a\n", "a\r\n\r\nb", "\r", "\r\r\n", "x\ny\r", "\n\n\n", "é\r\nü"] {
        let want: Vec<Vec<char>> = s.lines().map(|l| l.chars().collect()).collect();
        assert_eq!(split(&chars(s)), want);
    }
}

#[test]
fn join_puts_one_newline_between_lines() {
    assert_eq!(join(&lines(&["a", "b", "c"])), chars("a\nb\nc"));
    assert_eq!(join(&lines(&["a"])), chars("a"));
    assert_eq!(join(&lines(&["a", ""])), chars("a\n"));
    assert_eq!(join(&lines(&["", ""])), chars("\n"));
    assert!(join(&lines(&[])).is_empty());
}
