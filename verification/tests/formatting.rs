use textfmt::width::{char_width, display_width};
use textfmt::{Alignment, Error, Formatter};
use unicode_width::UnicodeWidthStr;

fn print_and_len<S: AsRef<str>>(input: S) {
    let input = input.as_ref();
    println!("Length of '{}' is {}", input, input.len());
}

#[test]
fn generate() {
    const INPUT: &str = "Lets try {0}, {1}, {2}, and {}.";
    let f = Formatter::new(INPUT).unwrap();
    let output = f.generate(&["one", "two", "three", "four"]).unwrap();
    assert_eq!(output, "Lets try one, two, three, and one.");
}

#[test]
fn format() {
    const INPUT: &str = "Lets try {0}, {1}, {2}, and {}.";
    let output = Formatter::format(INPUT, &["one", "two", "three", "four"]).unwrap();
    assert_eq!(output, "Lets try one, two, three, and one.");
}

#[test]
fn format_owned() {
    const INPUT: &str = "Let the {} beat {}.";
    let args = vec!["motherfucking", "drop"];
    let ref_args = args.iter().map(|s| s.to_string()).collect::<Vec<_>>();
    let output = Formatter::format(INPUT, &args).unwrap();
    assert_eq!(output, "Let the motherfucking beat drop.");
    let output = Formatter::format_owned(INPUT, &ref_args).unwrap();
    assert_eq!(output, "Let the motherfucking beat drop.");
}

#[test]
fn escaped() {
    const INPUT: &str = "Hi {}, these are brackets: {{}}";
    const INPUT2: &str = "These brackets {{}} are super cool right {}?";
    let args = vec!["Tony"];
    let output = Formatter::format(INPUT, &args).unwrap();
    assert_eq!(output, "Hi Tony, these are brackets: {}");
    let output = Formatter::format(INPUT2, &args).unwrap();
    assert_eq!(output, "These brackets {} are super cool right Tony?");
}

#[test]
#[should_panic]
fn bad_escape() {
    let _ = Formatter::new(format!("Here is my {} very bad string", "\u{1}").as_str()).unwrap();
}

#[test]
fn weirdo1() {
    const INPUT: &str = "Thats {} too many {4} bro.";
    let args = vec!["way", "drop", "drop", "drop", "args"];
    let ref_args = args.iter().map(|s| s.to_string()).collect::<Vec<_>>();
    let output = Formatter::format(INPUT, &args).unwrap();
    assert_eq!(output, "Thats way too many args bro.");
    let output = Formatter::format_owned(INPUT, &ref_args).unwrap();
    assert_eq!(output, "Thats way too many args bro.");
    let f = Formatter::new(INPUT).unwrap();
    let output = f.generate(&args).unwrap();
    assert_eq!(output, "Thats way too many args bro.");
}

#[test]
fn chars() {
    let bl = "{";
    let br = "}";
    let bbl = "{{";
    let bbr = "}}";
    let uni = "\u{F0000}";
    let uni2 = "\u{AE}";
    let uni3 = "\u{0}";
    let uni4 = "\u{1}";
    let uni5 = "\u{2}";
    print_and_len(bl);
    print_and_len(bbl);
    print_and_len(br);
    print_and_len(bbr);
    print_and_len(uni);
    print_and_len(uni2);
    print_and_len(uni3);
    print_and_len(uni4);
    print_and_len(uni5);
    print_and_len("â€°");
}

#[test]
fn prepare_string() {
    let string = "0123456789";
    let left20 = Formatter::prepare_string(string, Alignment::Left, 20);
    let mid20 = Formatter::prepare_string(string, Alignment::Center, 20);
    let right20 = Formatter::prepare_string(string, Alignment::Right, 20);
    assert_eq!(left20, "0123456789          ");
    assert_eq!(mid20, "     0123456789     ");
    assert_eq!(right20, "          0123456789");
    let left8 = Formatter::prepare_string(string, Alignment::Left, 8);
    let mid8 = Formatter::prepare_string(string, Alignment::Center, 8);
    let right8 = Formatter::prepare_string(string, Alignment::Right, 8);
    assert_eq!(left8, "01234567");
    assert_eq!(mid8, "12345678");
    assert_eq!(right8, "23456789");
    let left5 = Formatter::prepare_string(string, Alignment::Left, 5);
    let mid5 = Formatter::prepare_string(string, Alignment::Center, 5);
    let right5 = Formatter::prepare_string(string, Alignment::Right, 5);
    assert_eq!(left5, "01234");
    assert_eq!(mid5, "23456");
    assert_eq!(right5, "56789");

    // Four code points of two columns each: a field of four columns holds two.
    let chinese = "读文读文";
    assert_eq!(UnicodeWidthStr::width(chinese), 8);
    let left4 = Formatter::prepare_string(chinese, Alignment::Left, 4);
    let mid4 = Formatter::prepare_string(chinese, Alignment::Center, 4);
    let right4 = Formatter::prepare_string(chinese, Alignment::Right, 4);
    assert_eq!(left4, "读文");
    assert_eq!(mid4, "文读");
    assert_eq!(right4, "读文");

    let hearts = "💜💙💚💛💚💙💜";
    assert_eq!(UnicodeWidthStr::width("❤️"), 1);
    assert_eq!(UnicodeWidthStr::width("🧡"), 2);
    assert_eq!(UnicodeWidthStr::width("💛"), 2);
    assert_eq!(UnicodeWidthStr::width("💚"), 2);
    assert_eq!(UnicodeWidthStr::width("💙"), 2);
    assert_eq!(UnicodeWidthStr::width("💜"), 2);
    assert_eq!(UnicodeWidthStr::width(hearts), 14);
    // Seven code points of two columns each: eight columns hold four.
    let left8 = Formatter::prepare_string(hearts, Alignment::Left, 8);
    assert_eq!(left8, "💜💙💚💛");
}

#[test]
fn named_and_implicit_mix() {
    let output = Formatter::format("Number {n} and Number {}!", &["2", "n = 1"]).unwrap();
    assert_eq!(output, "Number 1 and Number 2!");
}

#[test]
fn aligned_fields() {
    let output = Formatter::format(
        "Number |{1:<5}| and |{two:^5}| and |{0:>5}|!",
        &["3", "1", "two = 2"],
    )
    .unwrap();
    assert_eq!(output, "Number |1    | and |  2  | and |    3|!");
}

#[test]
fn zero_width_is_refused_when_compiling() {
    assert!(matches!(Formatter::new("Bad {:0}"), Err(Error::ZeroWidth(_))));
    match Formatter::new("Bad {:0}") {
        Err(Error::ZeroWidth(t)) => assert_eq!(t, "{:0}"),
        other => panic!("{:?}", other),
    }
    assert!(matches!(Formatter::format("Bad {:0}", &[]), Err(Error::ZeroWidth(_))));
    assert!(matches!(Formatter::format("Bad {:0}", &["a"]), Err(Error::ZeroWidth(_))));
    assert!(matches!(Formatter::new("{5:0}"), Err(Error::ZeroWidth(_))));
    assert!(matches!(Formatter::new("{nobody:^0}"), Err(Error::ZeroWidth(_))));
}

#[test]
fn escaped_braces_only() {
    let f = Formatter::new("{{}} a{{b}}c }}{{ {{{{").unwrap();
    assert_eq!(f.text(), "{} a{b}c }{ {{");
    assert!(f.specs().is_empty());
    assert_eq!(f.expected_args(), 0);
    assert_eq!(f.generate(&[]).unwrap(), "{} a{b}c }{ {{");
    assert_eq!(f.generate(&["unused", "k = v"]).unwrap(), "{} a{b}c }{ {{");
}

#[test]
fn implicit_placeholders_go_left_to_right() {
    let f = Formatter::new("{}-{}-{}-{}").unwrap();
    assert_eq!(f.generate(&["a", "b", "c", "d"]).unwrap(), "a-b-c-d");
    assert_eq!(f.expected_args(), 4);
    let f = Formatter::new("{}{}{}").unwrap();
    assert_eq!(f.generate(&["x", "yy", "zzz"]).unwrap(), "xyyzzz");
}

#[test]
fn names_do_not_move_the_counter() {
    let f = Formatter::new("{a}{}{b}{}{a}{}").unwrap();
    let out = f.generate(&["0", "1", "2", "a = A", "b = B"]).unwrap();
    assert_eq!(out, "A0B1A2");
}

#[test]
fn positions_do_not_move_the_counter() {
    let out = Formatter::format("{2}{}{1}{}", &["a", "b", "c"]).unwrap();
    assert_eq!(out, "cabb");
}

#[test]
fn a_compiled_template_renders_many_times() {
    let f = Formatter::new("<{}|{0:>3}>").unwrap();
    assert_eq!(f.generate(&["a"]).unwrap(), "<a|  a>");
    assert_eq!(f.generate(&["bcd"]).unwrap(), "<bcd|bcd>");
    assert_eq!(f.generate(&["efgh"]).unwrap(), "<efgh|fgh>");
    let specs = f.specs();
    assert_eq!(specs.len(), 2);
    assert_eq!(specs[0].fmt_pos, 1);
    assert_eq!(specs[0].spec_num, 0);
    assert_eq!(specs[1].fmt_pos, 2);
    assert_eq!(specs[1].spec_num, 1);
    assert_eq!(specs[1].width, Some(3));
    assert_eq!(f.text(), "<|>");
}

#[test]
fn positions_count_code_points() {
    let f = Formatter::new("é{}读{{ {} }}💜").unwrap();
    assert_eq!(f.text(), "é读{  }💜");
    assert_eq!(f.specs()[0].fmt_pos, 1);
    assert_eq!(f.specs()[1].fmt_pos, 4);
    assert_eq!(f.generate(&["1", "2"]).unwrap(), "é1读{ 2 }💜");
    assert!(matches!(Formatter::new("{{{}}}"), Err(Error::InvalidFormat)));
}

#[test]
fn unmatched_braces_are_invalid_format() {
    for t in [
        "{", "}", "a{", "a}", "{a", "a}b", "}{", "{{}", "{}}", "{{{", "}}}", "{a{b}", "{a}}",
        "{a{{b}", "{ {} }", "x{}}y{",
    ] {
        assert!(
            matches!(Formatter::new(t), Err(Error::InvalidFormat)),
            "{:?} gave {:?}",
            t,
            Formatter::new(t)
        );
    }
}

#[test]
fn reserved_characters_are_invalid_format() {
    assert!(matches!(Formatter::new("a\u{1}b"), Err(Error::InvalidFormat)));
    assert!(matches!(Formatter::new("\u{2}"), Err(Error::InvalidFormat)));
    assert!(matches!(Formatter::new("{:0}\u{2}"), Err(Error::InvalidFormat)));
    assert!(matches!(Formatter::format("{}\u{1}", &["a"]), Err(Error::InvalidFormat)));
}

#[test]
fn a_bad_placeholder_is_invalid_spec() {
    match Formatter::new("ok {} then {1a} then {:0}") {
        Err(Error::InvalidSpec(t)) => assert_eq!(t, "{1a}"),
        other => panic!("{:?}", other),
    }
    match Formatter::new("line {a\nb}") {
        Err(Error::InvalidSpec(t)) => assert_eq!(t, "{a\nb}"),
        other => panic!("{:?}", other),
    }
}

#[test]
fn braces_come_before_placeholders() {
    assert!(matches!(Formatter::new("{:0} }"), Err(Error::InvalidFormat)));
}

#[test]
fn missing_position_is_bad_arg_number() {
    match Formatter::format("{} {} {}", &["a", "b"]) {
        Err(Error::BadArgNumber(2, 2)) => {}
        other => panic!("{:?}", other),
    }
    match Formatter::format("{7}", &["a", "b", "c"]) {
        Err(Error::BadArgNumber(7, 3)) => {}
        other => panic!("{:?}", other),
    }
    match Formatter::format("{}", &[]) {
        Err(Error::BadArgNumber(0, 0)) => {}
        other => panic!("{:?}", other),
    }
}

#[test]
fn missing_name_is_bad_arg_name() {
    match Formatter::format("{a} {who}", &["a = 1"]) {
        Err(Error::BadArgName(n)) => assert_eq!(n, "who"),
        other => panic!("{:?}", other),
    }
}

#[test]
fn the_first_missing_argument_is_reported() {
    match Formatter::format("{who} {9}", &["x"]) {
        Err(Error::BadArgName(n)) => assert_eq!(n, "who"),
        other => panic!("{:?}", other),
    }
    match Formatter::format("{9} {who}", &["x"]) {
        Err(Error::BadArgNumber(9, 1)) => {}
        other => panic!("{:?}", other),
    }
}

#[test]
fn bad_arguments_come_before_missing_ones() {
    assert!(matches!(Formatter::format("{5}", &["a", ""]), Err(Error::InvalidArguments)));
    assert!(matches!(
        Formatter::format_owned("{5}", &["k=1".to_string(), "k=2".to_string()]),
        Err(Error::InvalidArguments)
    ));
}

#[test]
fn a_named_argument_also_has_a_position() {
    let out = Formatter::format("{1} {k} {}", &["a", "k = b"]).unwrap();
    assert_eq!(out, "b b a");
}

#[test]
fn expected_args_counts_bare_highest_and_names() {
    assert_eq!(Formatter::new("").unwrap().expected_args(), 0);
    assert_eq!(Formatter::new("{} {} {}").unwrap().expected_args(), 3);
    assert_eq!(Formatter::new("{0} {1} {2} {}").unwrap().expected_args(), 2);
    assert_eq!(Formatter::new("{} {7}").unwrap().expected_args(), 7);
    assert_eq!(Formatter::new("{a} {b} {a} {}").unwrap().expected_args(), 3);
    assert_eq!(Formatter::new("{:>5} {:3}").unwrap().expected_args(), 0);
    assert_eq!(Formatter::new("{256}").unwrap().expected_args(), 0);
    assert_eq!(Formatter::new("{300} {x}").unwrap().expected_args(), 45);
}

#[test]
fn padding_gives_exactly_the_width() {
    for (s, w) in [("", 1usize), ("a", 1), ("ab", 7), ("读", 2), ("读", 5), ("e\u{301}", 4), ("💜a", 10)] {
        for align in [Alignment::Left, Alignment::Center, Alignment::Right] {
            let out = Formatter::prepare_string(s, align, w);
            assert_eq!(display_width(&out), w as u128, "{:?} {:?} {}", s, align, w);
            assert_eq!(UnicodeWidthStr::width(out.as_str()), w);
        }
    }
    assert_eq!(Formatter::prepare_string("读", Alignment::Left, 4), "读  ");
    assert_eq!(Formatter::prepare_string("读", Alignment::Right, 4), "  读");
    assert_eq!(Formatter::prepare_string("读", Alignment::Center, 5), " 读  ");
    assert_eq!(Formatter::prepare_string("ab", Alignment::Center, 7), "  ab   ");
}

#[test]
fn truncation_snaps_to_code_points() {
    assert_eq!(Formatter::prepare_string("读", Alignment::Left, 1), "");
    assert_eq!(Formatter::prepare_string("读", Alignment::Right, 1), "");
    assert_eq!(Formatter::prepare_string("读", Alignment::Center, 1), "");
    assert_eq!(Formatter::prepare_string("a读b", Alignment::Left, 2), "a");
    assert_eq!(Formatter::prepare_string("a读b", Alignment::Right, 2), "b");
    assert_eq!(Formatter::prepare_string("a读b", Alignment::Left, 3), "a读");
    assert_eq!(Formatter::prepare_string("a读b", Alignment::Right, 3), "读b");
    assert_eq!(Formatter::prepare_string("a读b", Alignment::Center, 2), "读");
    assert_eq!(Formatter::prepare_string("读文读", Alignment::Center, 3), "读");
    assert_eq!(Formatter::prepare_string("读文读", Alignment::Center, 2), "文");
    assert_eq!(Formatter::prepare_string("abc", Alignment::Left, 0), "");
    assert_eq!(Formatter::prepare_string("abcdef", Alignment::Center, 3), "bcd");
    assert_eq!(Formatter::prepare_string("abcdef", Alignment::Center, 2), "cd");
}

#[test]
fn widths_in_a_template() {
    let out = Formatter::format("[{:^6}][{:>3}][{:2}]", &["读文", "abcdef", "读文读"]).unwrap();
    assert_eq!(out, "[ 读文 ][def][读]");
}

#[test]
fn widths_come_from_the_tables() {
    assert_eq!(char_width('a'), 1);
    assert_eq!(char_width(' '), 1);
    assert_eq!(char_width('读'), 2);
    assert_eq!(char_width('💜'), 2);
    assert_eq!(char_width('\u{301}'), 0);
    assert_eq!(char_width('\u{0}'), 0);
    assert_eq!(char_width('\n'), 0);
    assert_eq!(display_width("a读\u{301}💜\t"), 5);
    assert_eq!(display_width(""), 0);
}

#[test]
fn failures_describe_themselves() {
    assert_eq!(Error::InvalidFormat.message(), "Invalid format");
    assert_eq!(Error::bad_spec("{x y}").message(), "Invalid format specifier: {x y}");
    assert_eq!(Error::zero_width("{:0}").message(), "Format specifier is zero width: {:0}");
    assert_eq!(Error::InvalidArguments.message(), "Invalid arguments");
    assert_eq!(
        Error::bad_arg_num(4, 12).message(),
        "Invalid argument number: Arg number 5 was requested, but only 12 args were provided"
    );
    assert_eq!(
        Error::bad_arg_num(usize::MAX, 0).message(),
        format!(
            "Invalid argument number: Arg number {} was requested, but only 0 args were provided",
            usize::MAX as u128 + 1
        )
    );
    assert_eq!(Error::bad_arg_name("who").message(), "Invalid argument name: who");
    assert_eq!(Error::IncorrectNumberOfArgs.message(), "Incorrect number of arguments");
    assert!(matches!(Error::bad_arg_num(1, 2), Error::BadArgNumber(1, 2)));
}
