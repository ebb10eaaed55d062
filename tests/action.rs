use palette_evolve::{
    line_to_action, line_to_target, parse_fixed, parse_integer, split_words, Action, Parameter, ParseError, Stat,
    Strength, Target, TargetDirection,
};

#[test]
fn test_set_count() {
    let line = "fg_color_count 6";
    assert_eq!(line_to_action(line).unwrap(), Action::SetFreeColorCount(6));
}

#[test]
fn free_color_count_action() {
    assert_eq!(line_to_action("freecolorcount 3\n"), Ok(Action::SetFreeColorCount(3)));
    assert_eq!(line_to_action("freecolorcount +4"), Ok(Action::SetFreeColorCount(4)));
    assert_eq!(line_to_action("freecolorcount 0"), Err(ParseError::CountTooSmall));
    assert_eq!(line_to_action("freecolorcount -1"), Err(ParseError::ExpectedInt));
    assert_eq!(line_to_action("freecolorcount six"), Err(ParseError::ExpectedInt));
    assert_eq!(line_to_action("freecolorcount"), Err(ParseError::ExpectedString));
    assert_eq!(line_to_action("freecolorcount 18446744073709551615"), Ok(Action::SetFreeColorCount(usize::MAX)));
    assert_eq!(line_to_action("freecolorcount 18446744073709551616"), Err(ParseError::ExpectedInt));
}

#[test]
fn unknown_action() {
    assert_eq!(line_to_action("fixedcolors 1 2"), Err(ParseError::ActionNotRecognized));
    assert_eq!(line_to_action(""), Err(ParseError::ActionNotRecognized));
    assert_eq!(ParseError::ActionNotRecognized.message(), "action not recognized");
}

#[test]
fn target_action() {
    let expected = Target::new(TargetDirection::Maximize, Stat::Min, Parameter::FreeDistance, Strength { factor: 1000, exponent: 1 });
    assert_eq!(line_to_action("target maximize min freedist"), Ok(Action::SetTarget(expected)));
    assert_eq!(line_to_action("target maximize"), Err(ParseError::ExpectedString));
}

#[test]
fn full_target_line() {
    let t = line_to_target("  approximate 6.5 stddev luminance 2.25 -3 \r\n").unwrap();
    assert_eq!(t.direction, TargetDirection::Approximate(6500));
    assert_eq!(t.stat, Stat::StdDev);
    assert_eq!(t.parameter, Parameter::Luminance);
    assert_eq!(t.strength, Strength { factor: 2250, exponent: -3 });
}

#[test]
fn target_defaults_and_malformed_strength() {
    let t = line_to_target("minimize max chroma").unwrap();
    assert_eq!(t.strength, Strength { factor: 1000, exponent: 1 });
    let t = line_to_target("minimize max fixeddist x y").unwrap();
    assert_eq!(t.direction, TargetDirection::Minimize);
    assert_eq!(t.parameter, Parameter::FixedDistance);
    assert_eq!(t.strength, Strength { factor: 1000, exponent: 1 });
    let t = line_to_target("maximize mean chroma .5 99999999999").unwrap();
    assert_eq!(t.strength, Strength { factor: 500, exponent: 1 });
}

#[test]
fn target_errors() {
    assert_eq!(line_to_target("grow mean chroma"), Err(ParseError::ExpectedDirection));
    assert_eq!(line_to_target("approximate"), Err(ParseError::ExpectedString));
    assert_eq!(line_to_target("approximate six mean chroma"), Err(ParseError::ExpectedFloat));
    assert_eq!(line_to_target("maximize median chroma"), Err(ParseError::ExpectedStat));
    assert_eq!(line_to_target("maximize mean"), Err(ParseError::ExpectedString));
    assert_eq!(line_to_target("maximize mean hue"), Err(ParseError::ExpectedParameter));
    assert_eq!(line_to_target("maximize  mean chroma"), Err(ParseError::ExpectedStat));
    assert_eq!(line_to_target(""), Err(ParseError::ExpectedDirection));
}

#[test]
fn decimal_numbers_in_thousandths() {
    assert_eq!(parse_fixed(b"6.0"), Some(6000));
    assert_eq!(parse_fixed(b"-0.0019"), Some(-1));
    assert_eq!(parse_fixed(b"+12"), Some(12000));
    assert_eq!(parse_fixed(b"3."), Some(3000));
    assert_eq!(parse_fixed(b".25"), Some(250));
    assert_eq!(parse_fixed(b"."), None);
    assert_eq!(parse_fixed(b"1.2.3"), None);
    assert_eq!(parse_fixed(b"1e3"), None);
    assert_eq!(parse_fixed(b""), None);
    assert_eq!(parse_fixed(b"-"), None);
    assert_eq!(parse_fixed(b"9223372036854775.807"), Some(i64::MAX));
    assert_eq!(parse_fixed(b"-9223372036854775.808"), Some(i64::MIN));
    assert_eq!(parse_fixed(b"9223372036854775.808"), None);
    assert_eq!(parse_fixed(b"123456789012345678901234567890"), None);
}

#[test]
fn integers() {
    assert_eq!(parse_integer(b"-17"), Some(-17));
    assert_eq!(parse_integer(b"+0"), Some(0));
    assert_eq!(parse_integer(b"9223372036854775807"), Some(i64::MAX));
    assert_eq!(parse_integer(b"-9223372036854775808"), Some(i64::MIN));
    assert_eq!(parse_integer(b"9223372036854775808"), None);
    assert_eq!(parse_integer(b"1.0"), None);
    assert_eq!(parse_integer(b"+"), None);
}

#[test]
fn words_split_at_single_spaces() {
    let w = split_words(b"\t a  b \n");
    assert_eq!(w, vec![b"a".to_vec(), Vec::new(), b"b".to_vec()]);
    assert_eq!(split_words(b"   "), vec![Vec::<u8>::new()]);
}

#[test]
fn error_messages() {
    assert_eq!(ParseError::ExpectedString.message(), "expected string");
    assert_eq!(ParseError::ExpectedFloat.message(), "expected float");
    assert_eq!(ParseError::ExpectedDirection.message(), "expected minimize, maximize or approximate");
    assert_eq!(ParseError::ExpectedStat.message(), "expected mean, stddev, min or max");
    assert_eq!(ParseError::ExpectedParameter.message(), "expected chroma, luminance, freedist or fixeddist");
    assert_eq!(ParseError::ExpectedInt.message(), "expected int");
    assert_eq!(ParseError::CountTooSmall.message(), "count must be at least 1");
}
