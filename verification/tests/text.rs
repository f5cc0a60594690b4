use mgdocker::text::{chars_of, find, in_order, part, split_bounds, trim_bounds, CharClass};

fn text_chars(s: &str) -> Vec<char> {
    s.chars().collect()
}

#[test]
fn chars_of_gives_the_characters_in_order() {
    assert_eq!(chars_of("a\u{e9}\u{4e2d}"), vec!['a', '\u{e9}', '\u{4e2d}']);
    assert_eq!(chars_of(""), Vec::<char>::new());
}

#[test]
fn part_counts_characters_not_bytes() {
    assert_eq!(part("a\u{e9}\u{4e2d}z", 1, 3), "\u{e9}\u{4e2d}");
    assert_eq!(part("abc", 3, 3), "");
    assert_eq!(part("abc", 0, 3), "abc");
}

#[test]
fn split_bounds_marks_every_piece() {
    let chars = text_chars("a,,bc,");
    assert_eq!(split_bounds(&chars, 0, chars.len(), ','), vec![(0, 1), (2, 2), (3, 5), (6, 6)]);
}

#[test]
fn split_bounds_of_nothing_is_one_empty_piece() {
    let chars = text_chars("");
    assert_eq!(split_bounds(&chars, 0, 0, ','), vec![(0, 0)]);
}

#[test]
fn split_bounds_stays_within_its_range() {
    let chars = text_chars("x,a,b,y");
    assert_eq!(split_bounds(&chars, 2, 5, ','), vec![(2, 3), (4, 5)]);
}

#[test]
fn split_bounds_agrees_with_std_split() {
    for text in ["", "\n", "a", "a\nb", "\n\na\n", "one\ntwo\n\nthree"] {
        let chars = text_chars(text);
        let pieces: Vec<String> = split_bounds(&chars, 0, chars.len(), '\n')
            .into_iter()
            .map(|(a, b)| chars[a..b].iter().collect())
            .collect();
        let expected: Vec<String> = text.split('\n').map(|p| p.to_string()).collect();
        assert_eq!(pieces, expected);
    }
}

#[test]
fn trim_bounds_takes_the_class_off_both_ends() {
    let chars = text_chars("''a'b''");
    assert_eq!(trim_bounds(&chars, 0, chars.len(), CharClass::Quote), (2, 5));
    let chars = text_chars(" \t a b \n");
    assert_eq!(trim_bounds(&chars, 0, chars.len(), CharClass::Whitespace), (3, 6));
}

#[test]
fn trim_bounds_of_only_the_class_is_empty() {
    let chars = text_chars("''''");
    let (a, b) = trim_bounds(&chars, 0, chars.len(), CharClass::Quote);
    assert_eq!(a, b);
    let chars = text_chars("   ");
    let (a, b) = trim_bounds(&chars, 1, 3, CharClass::Whitespace);
    assert_eq!(a, b);
}

#[test]
fn trim_bounds_agrees_with_std_trim() {
    for text in ["", " ", "a", " a", "a ", " a b ", "\u{a0}x\u{3000}", "\r\n x \t", "'x'"] {
        let chars = text_chars(text);
        let (a, b) = trim_bounds(&chars, 0, chars.len(), CharClass::Whitespace);
        let got: String = chars[a..b].iter().collect();
        assert_eq!(got, text.trim());
        let (a, b) = trim_bounds(&chars, 0, chars.len(), CharClass::Quote);
        let got: String = chars[a..b].iter().collect();
        assert_eq!(got, text.trim_matches('\''));
    }
}

#[test]
fn whitespace_is_what_std_calls_whitespace() {
    let mut code: u32 = 0;
    while code <= 0x10FFFF {
        if let Some(c) = char::from_u32(code) {
            assert_eq!(CharClass::Whitespace.test(c), c.is_whitespace());
        }
        code += 1;
    }
}

#[test]
fn quote_class_holds_the_single_quote_only() {
    assert!(CharClass::Quote.test('\''));
    assert!(!CharClass::Quote.test('"'));
    assert!(!CharClass::Quote.test('`'));
    assert!(!CharClass::Quote.test(' '));
}

#[test]
fn find_agrees_with_std_contains() {
    let texts = ["", "a", "ab", "abc", "aab", "abab", "xxabxx", "b"];
    for text in texts {
        for pat in texts {
            assert_eq!(find(&text_chars(text), &text_chars(pat)), text.contains(pat));
        }
    }
}

#[test]
fn in_order_agrees_with_the_order_of_strings() {
    let texts = ["", "a", "A", "ab", "b", "aa", "\u{e9}", "z", "\u{10000}", "\u{ffff}", "a\u{0}"];
    for left in texts {
        for right in texts {
            assert_eq!(in_order(&text_chars(left), &text_chars(right)), left <= right);
        }
    }
}
