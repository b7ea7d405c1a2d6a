use secretary::tokens::{numeral, parse_decimal, split_whitespace};

fn chars(s: &str) -> Vec<char> {
    s.chars().collect()
}

#[test]
fn words_are_runs_without_whitespace() {
    assert_eq!(split_whitespace(&chars("ab cd")), vec![chars("ab"), chars("cd")]);
    assert_eq!(
        split_whitespace(&chars("  ab\t\tcd\nef ")),
        vec![chars("ab"), chars("cd"), chars("ef")]
    );
    assert!(split_whitespace(&chars("")).is_empty());
    assert!(split_whitespace(&chars(" \n\t ")).is_empty());
    assert_eq!(split_whitespace(&chars("one")), vec![chars("one")]);
}

#[test]
fn words_agree_with_the_standard_split_on_ascii() {
    for text in ["a b  c", " x", "y ", "p\x0cq\rr", "", "  ", "a\x0bb c"] {
        let expected: Vec<Vec<char>> =
            text.split_ascii_whitespace().map(|w| w.chars().collect()).collect();
        assert_eq!(split_whitespace(&chars(text)), expected);
    }
}

#[test]
fn numerals_parse_up_to_a_bound() {
    assert_eq!(parse_decimal(&chars("0"), 255), Some(0));
    assert_eq!(parse_decimal(&chars("255"), 255), Some(255));
    assert_eq!(parse_decimal(&chars("256"), 255), None);
    assert_eq!(parse_decimal(&chars("0255"), 255), Some(255));
    assert_eq!(parse_decimal(&chars(""), 255), None);
    assert_eq!(parse_decimal(&chars("12a"), 255), None);
    assert_eq!(parse_decimal(&chars("-1"), 255), None);
    assert_eq!(parse_decimal(&chars("+1"), 255), None);
    assert_eq!(parse_decimal(&chars("4294967295"), u32::MAX), Some(u32::MAX));
    assert_eq!(parse_decimal(&chars("4294967296"), u32::MAX), None);
    assert_eq!(parse_decimal(&chars("99999999999999999999999999"), u32::MAX), None);
}

#[test]
fn numerals_are_written_without_leading_zeros() {
    for n in [0u32, 7, 10, 25, 99, 100, 4096, u32::MAX] {
        let digits: String = numeral(n).into_iter().collect();
        assert_eq!(digits, n.to_string());
    }
}
