use tipsy::text::{
    chars_of, is_whitespace, line_bounds, normalize_range, range_equals, string_of_range,
    trim_bounds,
};

fn chars(s: &str) -> Vec<char> {
    s.chars().collect()
}

#[test]
fn whitespace_is_what_the_standard_library_says() {
    for n in 0..=0x10ffff_u32 {
        if let Some(c) = char::from_u32(n) {
            assert_eq!(is_whitespace(c), c.is_whitespace(), "U+{:04X}", n);
        }
    }
}

#[test]
fn whitespace_on_chosen_characters() {
    for c in [' ', '\t', '\n', '\u{b}', '\u{c}', '\r', '\u{85}', '\u{a0}', '\u{3000}'] {
        assert!(is_whitespace(c));
    }
    for c in ['a', '0', '-', ':', '\u{8}', '\u{e}', '\u{200b}', '\u{feff}', '\u{180e}', '越'] {
        assert!(!is_whitespace(c));
    }
}

#[test]
fn chars_of_gives_every_character() {
    assert_eq!(chars_of(""), Vec::<char>::new());
    assert_eq!(chars_of("a-ß字\u{1f600}\n"), vec!['a', '-', 'ß', '字', '\u{1f600}', '\n']);
}

#[test]
fn string_of_range_gives_the_characters_between() {
    let text = chars("héllo wörld");
    assert_eq!(string_of_range(&text, 0, text.len()), "héllo wörld");
    assert_eq!(string_of_range(&text, 1, 5), "éllo");
    assert_eq!(string_of_range(&text, 6, 8), "wö");
    assert_eq!(string_of_range(&text, 3, 3), "");
    assert_eq!(string_of_range(&text, 11, 11), "");
}

#[test]
fn range_equals_compares_the_characters_between() {
    let text = chars("  OPTIONS: ");
    assert!(range_equals(&text, 2, 10, &chars("OPTIONS:")));
    assert!(!range_equals(&text, 2, 9, &chars("OPTIONS:")));
    assert!(!range_equals(&text, 1, 9, &chars("OPTIONS:")));
    assert!(!range_equals(&text, 2, 10, &chars("OPTIONS;")));
    assert!(!range_equals(&text, 2, 10, &chars("oPTIONS:")));
    assert!(range_equals(&text, 4, 4, &chars("")));
    assert!(!range_equals(&text, 4, 5, &chars("")));
}

#[test]
fn trim_bounds_leave_out_whitespace_at_both_ends() {
    let text = chars("  a b \t");
    assert_eq!(trim_bounds(&text, 0, text.len()), (2, 5));
    assert_eq!(trim_bounds(&text, 2, 5), (2, 5));
    assert_eq!(trim_bounds(&text, 3, 7), (4, 5));
    assert_eq!(trim_bounds(&text, 0, 2), (2, 2));
    assert_eq!(trim_bounds(&text, 5, 7), (7, 7));
    assert_eq!(trim_bounds(&text, 1, 1), (1, 1));
    assert_eq!(trim_bounds(&chars(""), 0, 0), (0, 0));
}

#[test]
fn trim_bounds_agree_with_trimming() {
    for s in ["", " ", "a", " a", "a ", "\u{a0}a\u{3000}b\u{2009}\r\n", "\t\t", "x  y"] {
        let text = chars(s);
        let (a, b) = trim_bounds(&text, 0, text.len());
        assert_eq!(string_of_range(&text, a, b), s.trim());
    }
}

#[test]
fn line_bounds_cut_at_every_newline() {
    assert_eq!(line_bounds(&chars("")), vec![(0, 0)]);
    assert_eq!(line_bounds(&chars("abc")), vec![(0, 3)]);
    assert_eq!(line_bounds(&chars("\n")), vec![(0, 0), (1, 1)]);
    assert_eq!(line_bounds(&chars("a\n\nbc\n")), vec![(0, 1), (2, 2), (3, 5), (6, 6)]);
    assert_eq!(line_bounds(&chars("a\r\nb")), vec![(0, 2), (3, 4)]);
}

#[test]
fn line_bounds_agree_with_splitting() {
    for s in ["", "\n", "a", "a\n", "\na", "a\nb\n\nc", "é\nü\n", "\n\n\n"] {
        let text = chars(s);
        let lines: Vec<String> =
            line_bounds(&text).iter().map(|&(a, b)| string_of_range(&text, a, b)).collect();
        let expected: Vec<String> = s.split("\n").map(|l| l.to_string()).collect();
        assert_eq!(lines, expected);
    }
}

#[test]
fn normalize_range_trims_and_collapses() {
    let text = chars("--  a \t b   c  --");
    assert_eq!(normalize_range(&text, 2, 15), "a b c");
    assert_eq!(normalize_range(&text, 0, text.len()), "-- a b c --");
    assert_eq!(normalize_range(&text, 4, 5), "a");
    assert_eq!(normalize_range(&text, 2, 4), "");
    assert_eq!(normalize_range(&text, 7, 7), "");
}

#[test]
fn normalize_range_writes_a_plain_space() {
    let text = chars("a\u{3000}b\tc\u{a0}\u{a0}d\ne");
    assert_eq!(normalize_range(&text, 0, text.len()), "a b c d e");
}
