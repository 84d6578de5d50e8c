use groupby::command_line::options::{CaptureGroup, GroupByOptions, GroupingSpecifier, Separator};
use groupby::command_line::parse_args::{
    parse_capture_group, parse_from, parse_number, parse_numeric_value, parse_regex_value,
    Matches, ParseError,
};
use regex::Regex;
use std::fmt::Debug;

// The matches of a command line: a flag is a name alone, an option is a name
// and its value after `=`.
fn matches(args: &[&str]) -> Matches {
    Matches {
        args: args
            .iter()
            .map(|a| match a.split_once('=') {
                Some((name, value)) => (name.to_string(), Some(value.to_string())),
                None => (a.to_string(), None),
            })
            .collect(),
    }
}

fn parses<S, T>(args: &[&str], selector: S, expected: T)
where
    S: FnOnce(GroupByOptions) -> T,
    T: Eq + Debug,
{
    let options = parse_from(&matches(args)).unwrap();
    let parsed_value: T = selector(options);
    assert_eq!(expected, parsed_value);
}

#[test]
fn parses_input_split_on_whitespace() {
    // app -w -f1
    parses(
        &["input_split_on_whitespace", "groupers_by_first_chars=1"],
        |gbo: GroupByOptions| gbo.input.separator,
        Separator::Space,
    );
}

#[test]
fn parses_input_split_on_null() {
    // app -0 -f1
    parses(
        &["input_split_on_null", "groupers_by_first_chars=1"],
        |gbo: GroupByOptions| gbo.input.separator,
        Separator::Null,
    );
}

#[test]
fn parses_input_split_on_custom() {
    // app --split ZyX -f1
    parses(
        &["input_split_on_custom=ZyX", "groupers_by_first_chars=1"],
        |gbo: GroupByOptions| gbo.input.separator,
        Separator::Custom("ZyX".to_string()),
    );
}

#[test]
fn parses_input_split_default() {
    // app -f1
    parses(
        &["groupers_by_first_chars=1"],
        |gbo: GroupByOptions| gbo.input.separator,
        Separator::Line,
    );
}

#[test]
fn parses_groupers_by_first_chars() {
    // app -w -f8
    parses(
        &["input_split_on_whitespace", "groupers_by_first_chars=8"],
        |gbo: GroupByOptions| gbo.grouping,
        GroupingSpecifier::FirstChars(8),
    );
}

#[test]
fn parses_groupers_by_last_chars() {
    // app -w -l9
    parses(
        &["input_split_on_whitespace", "groupers_by_last_chars=9"],
        |gbo: GroupByOptions| gbo.grouping,
        GroupingSpecifier::LastChars(9),
    );
}

#[test]
fn parses_groupers_by_regex() {
    // app -w -r foo
    parses(
        &["input_split_on_whitespace", "groupers_by_regex=foo"],
        |gbo: GroupByOptions| gbo.grouping,
        GroupingSpecifier::Regex(Regex::new("foo").unwrap(), CaptureGroup::Number(0)),
    );

    // app -w --regex bar
    parses(
        &["input_split_on_whitespace", "groupers_by_regex=bar"],
        |gbo: GroupByOptions| gbo.grouping,
        GroupingSpecifier::Regex(Regex::new("bar").unwrap(), CaptureGroup::Number(0)),
    );

    // app -r "(a)(b)" --capture-group 2
    parses(
        &["groupers_by_regex=(a)(b)", "grouper_options_capture_group=2"],
        |gbo: GroupByOptions| gbo.grouping,
        GroupingSpecifier::Regex(Regex::new("(a)(b)").unwrap(), CaptureGroup::Number(2)),
    );
}

#[test]
fn parses_groupers_by_file_extension() {
    // app -w --extension
    parses(
        &["input_split_on_whitespace", "groupers_by_file_extension"],
        |gbo: GroupByOptions| gbo.grouping,
        GroupingSpecifier::FileExtension,
    );
}

#[test]
fn parses_groupers_by_counter() {
    // app -w --counter
    parses(
        &["input_split_on_whitespace", "groupers_by_counter"],
        |gbo: GroupByOptions| gbo.grouping,
        GroupingSpecifier::Counter,
    );
}

#[test]
fn parses_output_null_separators() {
    // app --print0 -f1
    parses(
        &["output_null_separators", "groupers_by_first_chars=1"],
        |gbo: GroupByOptions| gbo.output.separator,
        Separator::Null,
    );
}

#[test]
fn parses_output_space_separators() {
    // app --printspace -f1
    parses(
        &["output_space_separators", "groupers_by_first_chars=1"],
        |gbo: GroupByOptions| gbo.output.separator,
        Separator::Space,
    );
}

#[test]
fn parses_output_default_separators() {
    parses(
        &["groupers_by_first_chars=1"],
        |gbo: GroupByOptions| gbo.output.separator,
        Separator::Line,
    );
}

#[test]
fn parses_output_only_group_names() {
    // app --only-group-names -f1
    parses(
        &["output_only_group_names", "groupers_by_first_chars=1"],
        |gbo: GroupByOptions| gbo.output.only_group_names,
        true,
    );

    // When not specified
    parses(
        &["groupers_by_first_chars=1"],
        |gbo: GroupByOptions| gbo.output.only_group_names,
        false,
    );
}

#[test]
fn parses_output_run_command() {
    // app -c "tail | head" -f1
    parses(
        &["output_run_command=tail | head", "groupers_by_first_chars=1"],
        |gbo: GroupByOptions| gbo.output.run_command,
        Some("tail | head".to_string()),
    );

    // When not specified
    parses(
        &["groupers_by_first_chars=1"],
        |gbo: GroupByOptions| gbo.output.run_command,
        None,
    );
}

#[test]
fn parses_output_sequential() {
    // app --sequential -f1
    parses(
        &["output_sequential", "groupers_by_first_chars=1"],
        |gbo: GroupByOptions| gbo.output.parallel,
        false,
    );
    parses(
        &["groupers_by_first_chars=1"],
        |gbo: GroupByOptions| gbo.output.parallel,
        true,
    );
}

#[test]
fn parses_output_no_headers() {
    parses(
        &["groupers_by_first_chars=1"],
        |gbo: GroupByOptions| gbo.output.headers,
        true,
    );
    // app --no-headers -f1
    parses(
        &["output_no_headers", "groupers_by_first_chars=1"],
        |gbo: GroupByOptions| gbo.output.headers,
        false,
    );
}

#[test]
fn parses_output_stats() {
    parses(
        &["groupers_by_first_chars=1"],
        |gbo: GroupByOptions| gbo.output.stats,
        false,
    );
    // app --stats -f1
    parses(
        &["output_stats", "groupers_by_first_chars=1"],
        |gbo: GroupByOptions| gbo.output.stats,
        true,
    );
}

#[test]
fn returns_default_if_option_is_missing() {
    // appname --regex xeger--
    let result = parse_capture_group(&matches(&["groupers_by_regex=xeger--"]));
    assert_eq!(CaptureGroup::Number(0), result);
}

#[test]
fn returns_number_on_success() {
    // appname --regex xeger-- --capture-group 4
    let result = parse_capture_group(&matches(&[
        "groupers_by_regex=xeger--",
        "grouper_options_capture_group=4",
    ]));
    assert_eq!(CaptureGroup::Number(4), result);
}

#[test]
fn returns_string_on_failure() {
    // appname --regex xeger-- --capture-group four
    let result = parse_capture_group(&matches(&[
        "groupers_by_regex=xeger--",
        "grouper_options_capture_group=four",
    ]));
    assert_eq!(CaptureGroup::Name("four".to_string()), result);
}

#[test]
fn returns_string_on_number_embedded_in_text() {
    // appname --regex xeger-- --capture-group 20four
    let result = parse_capture_group(&matches(&[
        "groupers_by_regex=xeger--",
        "grouper_options_capture_group=20four",
    ]));
    assert_eq!(CaptureGroup::Name("20four".to_string()), result);
}

#[test]
fn returns_number() {
    // appname -f 4
    let matches = matches(&["groupers_by_first_chars=4"]);
    assert_eq!(Ok(4), parse_numeric_value(&matches, "groupers_by_first_chars"));
}

#[test]
#[should_panic]
fn panics_on_failed_parse() {
    // appname -f four
    let matches = matches(&["groupers_by_first_chars=four"]);
    parse_numeric_value(&matches, "groupers_by_first_chars").unwrap();
}

#[test]
fn returns_matching_regex() {
    // appname -r "(foo)?bar"
    let matches = matches(&["groupers_by_regex=(foo)?bar"]);
    let re = parse_regex_value(&matches, "groupers_by_regex").unwrap();
    assert!(re.is_match("bar"));
    assert!(re.is_match("foobar"));
    assert!(!re.is_match("soap"));
    assert_eq!(re.as_str(), "(foo)?bar");
}

#[test]
#[should_panic(expected = "unclosed group")]
fn panics_on_invalid_regex() {
    // appname -r "(foo"
    let matches = matches(&["groupers_by_regex=(foo"]);
    parse_regex_value(&matches, "groupers_by_regex").unwrap(); // Should panic.
}

#[test]
fn says_what_is_wrong_with_the_arguments() {
    assert_eq!(parse_from(&matches(&[])), Err(ParseError::NoGrouper));
    assert_eq!(
        parse_from(&matches(&["output_stats", "input_split_on_null"])),
        Err(ParseError::NoGrouper)
    );
    assert_eq!(
        parse_from(&matches(&["groupers_by_first_chars=four"])),
        Err(ParseError::NotANumber("four".to_string()))
    );
    assert_eq!(
        parse_from(&matches(&["groupers_by_last_chars=-1"])),
        Err(ParseError::NotANumber("-1".to_string()))
    );
    assert_eq!(
        parse_from(&matches(&["groupers_by_first_chars"])),
        Err(ParseError::MissingValue("groupers_by_first_chars".to_string()))
    );
    assert_eq!(
        parse_from(&matches(&["groupers_by_regex"])),
        Err(ParseError::MissingValue("groupers_by_regex".to_string()))
    );
    assert_eq!(
        parse_from(&matches(&["input_split_on_custom", "groupers_by_first_chars=four"])),
        Err(ParseError::MissingValue("input_split_on_custom".to_string()))
    );
    assert!(matches!(
        parse_from(&matches(&["groupers_by_regex=(foo"])),
        Err(ParseError::InvalidRegex(_))
    ));
}

#[test]
fn reads_the_first_argument_of_a_name() {
    let matches = matches(&[
        "groupers_by_first_chars=3",
        "groupers_by_first_chars=4",
        "other",
    ]);
    assert!(matches.is_present("groupers_by_first_chars"));
    assert!(matches.is_present("other"));
    assert!(!matches.is_present("groupers_by_first_char"));
    assert!(!matches.is_present(""));
    assert_eq!(matches.value_of("groupers_by_first_chars"), Some("3"));
    assert_eq!(matches.value_of("other"), None);
    assert_eq!(matches.value_of("none"), None);
}

#[test]
fn parses_whole_numbers_as_str_parse_does() {
    let max = usize::MAX.to_string();
    let over = format!("{}0", usize::MAX);
    let next = "18446744073709551616";
    let cases = [
        "0", "7", "42", "+42", "007", "", "+", "-", "-1", "+-1", "++1", " 1", "1 ", "1_000",
        "four", "20four", "4.0", "0x10", "١٢٣", &max, &over, next, "340282366920938463463374607431768211456",
    ];
    for case in cases {
        assert_eq!(parse_number(case), case.parse::<usize>().ok(), "{:?}", case);
    }
    assert_eq!(parse_number("42"), Some(42));
    assert_eq!(parse_number("+42"), Some(42));
    assert_eq!(parse_number("four"), None);
}
