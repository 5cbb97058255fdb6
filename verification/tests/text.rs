use textfmt::scanner::{contains_mark, escape, restore, scan};
use textfmt::text::{
    check_ident, find_char, from_chars, is_space_char, parse_number, push_decimal, same_text,
    to_chars, trim,
};
use textfmt::Formatter;

fn chars(s: &str) -> Vec<char> {
    s.chars().collect()
}

#[test]
fn white_space_is_what_the_standard_library_says() {
    for code in 0u32..=0x10FFFF {
        if let Some(c) = char::from_u32(code) {
            assert_eq!(is_space_char(c), c.is_whitespace(), "U+{:04X}", code);
        }
    }
}

#[test]
fn trimming_agrees_with_the_standard_library() {
    for s in ["", " ", "a", " a", "a ", "  a b  ", "\t\na\u{a0}", "\u{2003}x\u{2003}y\u{3000}", " \u{1680} "] {
        let got: String = trim(&chars(s)).into_iter().collect();
        assert_eq!(got, s.trim(), "{:?}", s);
    }
}

#[test]
fn strings_and_code_points_convert_both_ways() {
    for s in ["", "abc", "é读💜", "a\u{301}\u{0}\n"] {
        let v = to_chars(s);
        assert_eq!(v, chars(s));
        assert_eq!(from_chars(&v), s);
    }
    assert!(same_text("读a", "读a"));
    assert!(!same_text("读a", "读b"));
    assert!(!same_text("a", "ab"));
    assert!(same_text("", ""));
}

#[test]
fn numbers_are_runs_of_digits_within_range() {
    assert_eq!(parse_number(&chars("0")), Some(0));
    assert_eq!(parse_number(&chars("007")), Some(7));
    assert_eq!(parse_number(&chars("1234567890")), Some(1234567890));
    assert_eq!(parse_number(&chars(&usize::MAX.to_string())), Some(usize::MAX));
    assert_eq!(parse_number(&chars(&format!("{}", usize::MAX as u128 + 1))), None);
    assert_eq!(parse_number(&chars(&format!("{}0", usize::MAX))), None);
    assert_eq!(parse_number(&chars("")), None);
    assert_eq!(parse_number(&chars("+1")), None);
    assert_eq!(parse_number(&chars("-1")), None);
    assert_eq!(parse_number(&chars("1 ")), None);
    assert_eq!(parse_number(&chars("1a")), None);
    assert_eq!(parse_number(&chars("\u{661}")), None);
}

#[test]
fn decimal_numerals() {
    for n in [0u128, 9, 10, 11, 99, 100, 1234567890, u64::MAX as u128, u128::MAX] {
        let mut out = vec!['#'];
        push_decimal(&mut out, n);
        let got: String = out.into_iter().collect();
        assert_eq!(got, format!("#{}", n));
    }
}

#[test]
fn identifiers_start_with_a_letter() {
    for s in ["a", "Z", "a1", "a_", "aB_9", "x_y_z"] {
        assert!(check_ident(&chars(s)), "{:?}", s);
    }
    for s in ["", "1", "_", "_a", "1a", "a-b", "a b", "é", "a\u{e9}", "a:"] {
        assert!(!check_ident(&chars(s)), "{:?}", s);
    }
}

#[test]
fn finding_a_code_point() {
    let v = chars("a=b=c");
    assert_eq!(find_char(&v, '=', 0), 1);
    assert_eq!(find_char(&v, '=', 1), 1);
    assert_eq!(find_char(&v, '=', 2), 3);
    assert_eq!(find_char(&v, '=', 4), 5);
    assert_eq!(find_char(&v, '=', 5), 5);
    assert_eq!(find_char(&v, 'x', 0), 5);
}

#[test]
fn doubled_braces_are_taken_from_the_left() {
    assert_eq!(escape(&chars("{{{")), chars("\u{1}{"));
    assert_eq!(escape(&chars("}}}")), chars("\u{2}}"));
    assert_eq!(escape(&chars("{{}}")), chars("\u{1}\u{2}"));
    assert_eq!(escape(&chars("{}{}")), chars("{}{}"));
    assert_eq!(restore(&chars("a\u{1}b\u{2}c{}")), chars("a{b}c{}"));
    assert!(contains_mark(&chars("a\u{2}")));
    assert!(!contains_mark(&chars("a{}")));
}

#[test]
fn scanning_gives_the_placeholders_and_what_is_left() {
    let (left, tokens) = scan(&chars("ab{0}cd{}{x:>3}e")).expect("every brace belongs to a placeholder");
    assert_eq!(left, chars("abcde"));
    assert_eq!(tokens.len(), 3);
    assert_eq!((tokens[0].pos, tokens[0].text.clone()), (2, chars("{0}")));
    assert_eq!((tokens[1].pos, tokens[1].text.clone()), (4, chars("{}")));
    assert_eq!((tokens[2].pos, tokens[2].text.clone()), (4, chars("{x:>3}")));
    assert!(scan(&chars("a{b")).is_none());
    assert!(scan(&chars("a}b")).is_none());
    assert!(scan(&chars("{a{b}}")).is_none());
    assert!(scan(&chars("{a\u{1}}")).is_none());
}

#[test]
fn a_copy_of_a_template_renders_the_same() {
    let f = Formatter::new("{b:^5}|{}|{1:>2}").unwrap();
    let g = f.clone();
    let args = ["x", "b = yz"];
    assert_eq!(f.generate(&args).unwrap(), " yz  |x|yz");
    assert_eq!(g.generate(&args).unwrap(), f.generate(&args).unwrap());
    assert_eq!(g.expected_args(), f.expected_args());
    assert_eq!(g.text(), "||");
}
