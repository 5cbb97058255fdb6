use textfmt::{Alignment, Error, FormatSpec};

#[test]
fn empty_brackets() {
    let spec = FormatSpec::new(0, 0, "{}").expect("Unable to create format spec from {}");
    assert_eq!(spec.arg_num, None);
    assert_eq!(spec.align, Alignment::Left);
    assert_eq!(spec.width, None);
    assert!(spec.is_empty());
}

#[test]
fn bad_specs() {
    let spec = FormatSpec::new(0, 0, "{{");
    assert!(spec.is_err());

    let spec = FormatSpec::new(0, 0, "}");
    assert!(spec.is_err());

    let spec = FormatSpec::new(0, 0, "}{");
    assert!(spec.is_err());

    let spec = FormatSpec::new(0, 0, "{}}");
    assert!(spec.is_err());

    let spec = FormatSpec::new(0, 0, "{{}");
    assert!(spec.is_err());

    let spec = FormatSpec::new(0, 0, "{1:0}");
    assert!(spec.is_err());
}

#[test]
fn basic_usages() {
    let spec = FormatSpec::new(0, 0, "{}").expect("error parsing {}");
    assert!(spec.is_empty());
    assert_eq!(spec.align, Alignment::Left);
    assert_eq!(spec.width, None);
    assert_eq!(spec.arg_num, None);
    assert_eq!(spec.arg_name, None);

    let spec = FormatSpec::new(0, 0, "{0}").expect("error parsing {0}");
    assert!(!spec.is_empty());
    assert_eq!(spec.align, Alignment::Left);
    assert_eq!(spec.width, None);
    assert_eq!(spec.arg_num, Some(0));
    assert_eq!(spec.arg_name, None);

    let spec = FormatSpec::new(0, 0, "{10}").expect("error parsing {10}");
    assert!(!spec.is_empty());
    assert_eq!(spec.align, Alignment::Left);
    assert_eq!(spec.width, None);
    assert_eq!(spec.arg_num, Some(10));
    assert_eq!(spec.arg_name, None);

    let spec = FormatSpec::new(0, 0, "{name}").expect("error parsing {name}");
    assert!(!spec.is_empty());
    assert_eq!(spec.align, Alignment::Left);
    assert_eq!(spec.width, None);
    assert_eq!(spec.arg_num, None);
    assert_eq!(spec.arg_name, Some("name".to_string()));

    let spec = FormatSpec::new(0, 0, "{:>}").expect("error parsing {:>}");
    assert!(!spec.is_empty());
    assert_eq!(spec.align, Alignment::Right);
    assert_eq!(spec.width, None);
    assert_eq!(spec.arg_num, None);
    assert_eq!(spec.arg_name, None);

    let spec = FormatSpec::new(0, 0, "{:1}").expect("error parsing {:1}");
    assert!(!spec.is_empty());
    assert_eq!(spec.align, Alignment::Left);
    assert_eq!(spec.width, Some(1));
    assert_eq!(spec.arg_num, None);
    assert_eq!(spec.arg_name, None);

    let spec = FormatSpec::new(0, 0, "{:10}").expect("error parsing {:10}");
    assert!(!spec.is_empty());
    assert_eq!(spec.align, Alignment::Left);
    assert_eq!(spec.width, Some(10));
    assert_eq!(spec.arg_num, None);
    assert_eq!(spec.arg_name, None);

    let spec = FormatSpec::new(0, 0, "{name:^}").expect("error parsing {name:^}");
    assert!(!spec.is_empty());
    assert_eq!(spec.align, Alignment::Center);
    assert_eq!(spec.width, None);
    assert_eq!(spec.arg_num, None);
    assert_eq!(spec.arg_name, Some("name".to_string()));

    let spec = FormatSpec::new(0, 0, "{2:>}").expect("error parsing {2:>}");
    assert!(!spec.is_empty());
    assert_eq!(spec.align, Alignment::Right);
    assert_eq!(spec.width, None);
    assert_eq!(spec.arg_num, Some(2));
    assert_eq!(spec.arg_name, None);

    let spec = FormatSpec::new(0, 0, "{10:<}").expect("error parsing {10:<}");
    assert!(!spec.is_empty());
    assert_eq!(spec.align, Alignment::Left);
    assert_eq!(spec.width, None);
    assert_eq!(spec.arg_num, Some(10));
    assert_eq!(spec.arg_name, None);

    let spec = FormatSpec::new(0, 0, "{name:^10}").expect("error parsing {name:^10}");
    assert!(!spec.is_empty());
    assert_eq!(spec.align, Alignment::Center);
    assert_eq!(spec.width, Some(10));
    assert_eq!(spec.arg_num, None);
    assert_eq!(spec.arg_name, Some("name".to_string()));

    let spec = FormatSpec::new(0, 0, "{2:>5}").expect("error parsing {2:>5}");
    assert!(!spec.is_empty());
    assert_eq!(spec.align, Alignment::Right);
    assert_eq!(spec.width, Some(5));
    assert_eq!(spec.arg_num, Some(2));
    assert_eq!(spec.arg_name, None);

    let spec = FormatSpec::new(0, 0, "{10:<1}").expect("error parsing {10:<1}");
    assert!(!spec.is_empty());
    assert_eq!(spec.align, Alignment::Left);
    assert_eq!(spec.width, Some(1));
    assert_eq!(spec.arg_num, Some(10));
    assert_eq!(spec.arg_name, None);

    let spec = FormatSpec::new(0, 0, "{name:>0}");
    assert!(spec.is_err());
}

#[test]
fn position_and_number_are_kept() {
    let spec = FormatSpec::new(17, 4, "{007:^12}").unwrap();
    assert_eq!(spec.fmt_pos, 17);
    assert_eq!(spec.spec_num, 4);
    assert_eq!(spec.arg_num, Some(7));
    assert_eq!(spec.align, Alignment::Center);
    assert_eq!(spec.width, Some(12));
}

#[test]
fn zero_width_has_its_own_failure() {
    for text in ["{:0}", "{1:0}", "{name:>0}", "{:^000}", "{:<0}"] {
        match FormatSpec::new(0, 0, text) {
            Err(Error::ZeroWidth(t)) => assert_eq!(t, text),
            other => panic!("{} gave {:?}", text, other),
        }
    }
}

#[test]
fn what_is_outside_the_grammar_is_invalid_spec() {
    for text in [
        "", "{", "}", "x", "{1", "1}", "{-1}", "{+1}", "{1a}", "{_a}", "{a b}", "{a-b}", "{ }",
        "{:x}", "{:5x}", "{:<>}", "{:<<5}", "{:5<}", "{a:b:c}", "{::}", "{:-5}", "{: 5}",
        "{99999999999999999999999999999999}", "{:99999999999999999999999999999999}", "{a{b}",
        "{\u{e9}}",
    ] {
        match FormatSpec::new(0, 0, text) {
            Err(Error::InvalidSpec(t)) => assert_eq!(t, text),
            other => panic!("{:?} gave {:?}", text, other),
        }
    }
}

#[test]
fn a_bad_reference_is_reported_before_a_zero_width() {
    assert!(matches!(FormatSpec::new(0, 0, "{1a:0}"), Err(Error::InvalidSpec(_))));
}

#[test]
fn names_are_letters_digits_and_underscores() {
    let spec = FormatSpec::new(0, 0, "{a_1B}").unwrap();
    assert_eq!(spec.arg_name, Some("a_1B".to_string()));
    assert_eq!(spec.arg_num, None);
    let spec = FormatSpec::new(0, 0, "{Z:>3}").unwrap();
    assert_eq!(spec.arg_name, Some("Z".to_string()));
    assert_eq!(spec.width, Some(3));
    assert_eq!(spec.align, Alignment::Right);
}

#[test]
fn alignment_orders_as_declared() {
    assert!(Alignment::Left < Alignment::Center);
    assert!(Alignment::Center < Alignment::Right);
    assert_eq!(Alignment::Left.clone(), Alignment::Left);
}
