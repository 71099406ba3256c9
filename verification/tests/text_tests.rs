use git_helper::text::{
    chars_of, equals_str, find_first, is_white_char, lines, parse_usize, remove_char,
    split_char, starts_with_str, trim,
};

fn strings(v: &[&str]) -> Vec<String> {
    v.iter().map(|s| s.to_string()).collect()
}

#[test]
fn trim_removes_ascii_whitespace_at_both_ends() {
    assert_eq!(trim("  a b \n"), "a b");
    assert_eq!(trim("\t\r\n"), "");
    assert_eq!(trim(""), "");
    assert_eq!(trim("x"), "x");
}

#[test]
fn trim_matches_std_on_unicode_whitespace() {
    let samples = [
        "\u{3000}x\u{A0}",
        "\u{2003}\u{2028}y z\u{205F}\u{85}",
        "\u{200B}q\u{200B}",
        " \u{1680}mid\u{202F} ",
    ];
    for s in samples {
        assert_eq!(trim(s), s.trim());
    }
}

#[test]
fn whitespace_test_matches_std() {
    for u in 0u32..0x3100 {
        if let Some(c) = char::from_u32(u) {
            assert_eq!(is_white_char(c), c.is_whitespace(), "{:?}", c);
        }
    }
}

#[test]
fn trim_is_idempotent() {
    let once = trim("  \u{A0} branch \t");
    assert_eq!(trim(&once), once);
}

#[test]
fn split_char_keeps_empty_pieces() {
    assert_eq!(split_char("a|b||c", '|'), strings(&["a", "b", "", "c"]));
    assert_eq!(split_char("", '|'), strings(&[""]));
    assert_eq!(split_char("|", '|'), strings(&["", ""]));
}

#[test]
fn lines_matches_std() {
    let samples = ["a\r\nb\n", "a\nb", "", "\n", "a\r", "x\r\r\n\ny", "\n\n"];
    for s in samples {
        let expected: Vec<String> = s.lines().map(|l| l.to_string()).collect();
        assert_eq!(lines(s), expected, "{:?}", s);
    }
}

#[test]
fn remove_char_drops_every_occurrence() {
    assert_eq!(remove_char("* main", '*'), " main");
    assert_eq!(remove_char("**a*b*", '*'), "ab");
    assert_eq!(remove_char("plain", '*'), "plain");
}

#[test]
fn find_first_gives_the_first_position() {
    let v = chars_of("ab[c[d");
    assert_eq!(find_first(&v, '['), Some(2));
    assert_eq!(find_first(&v, ']'), None);
}

#[test]
fn literal_comparisons() {
    let v = chars_of("-loc=x");
    assert!(starts_with_str(&v, "-loc"));
    assert!(!starts_with_str(&v, "-locx="));
    assert!(equals_str(&v, "-loc=x"));
    assert!(!equals_str(&v, "-loc"));
}

#[test]
fn parse_usize_follows_str_parse() {
    let samples = [
        "5", "+5", "007", "", "+", "-1", "12a", " 3", "18446744073709551615",
        "18446744073709551616", "99999999999999999999999",
    ];
    for s in samples {
        let v = chars_of(s);
        assert_eq!(parse_usize(&v, 0, v.len()), s.parse::<usize>().ok(), "{:?}", s);
    }
}

#[test]
fn parse_usize_reads_a_sub_range() {
    let v = chars_of("a[12..]");
    assert_eq!(parse_usize(&v, 2, 4), Some(12));
}
