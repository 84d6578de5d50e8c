use groupby::command_line::options::{
    CaptureGroup, GroupByOptions, GroupingSpecifier, InputOptions, OutputOptions, Separator,
};
use groupby::command_line::options::GroupingSpecifier::{
    Counter, FileExtension, FirstChars, LastChars,
};

fn by_regex(pattern: &str, group: usize) -> GroupingSpecifier {
    GroupingSpecifier::Regex(regex::Regex::new(pattern).unwrap(), CaptureGroup::Number(group))
}

#[test]
fn separators_have_their_strings() {
    assert_eq!(Separator::Line.sep(), "\n");
    assert_eq!(Separator::Space.sep(), " ");
    assert_eq!(Separator::Null.sep(), "\0");
    assert_eq!(Separator::Custom("<>".to_string()).sep(), "<>");
    assert_eq!(Separator::Custom(String::new()).sep(), "");
}

#[test]
fn grouping_specifiers_are_equal_where_their_parts_are() {
    // Same == same.
    assert_eq!(FirstChars(7), FirstChars(7));
    assert_eq!(LastChars(8), LastChars(8));
    assert_eq!(by_regex("foo", 4), by_regex("foo", 4));
    assert_eq!(FileExtension, FileExtension);
    assert_eq!(Counter, Counter);

    // Same variant with different contained values are !=.
    assert_ne!(FirstChars(7), FirstChars(8));
    assert_ne!(LastChars(8), LastChars(9));
    assert_ne!(by_regex("foo", 0), by_regex("bar", 0));
    assert_ne!(by_regex("foo", 0), by_regex("foo", 1));

    // Different variants are !=.
    assert_ne!(FirstChars(7), by_regex("bar", 0));
    assert_ne!(LastChars(8), FirstChars(8));
    assert_ne!(by_regex("foo", 3), LastChars(9));
    assert_ne!(FirstChars(7), FileExtension);
    assert_ne!(FileExtension, Counter);
}

#[test]
fn capture_groups_are_the_same_by_number_or_by_name() {
    assert!(CaptureGroup::Number(1).is_same(&CaptureGroup::Number(1)));
    assert!(!CaptureGroup::Number(1).is_same(&CaptureGroup::Number(2)));
    assert!(CaptureGroup::Name("a".to_string()).is_same(&CaptureGroup::Name("a".to_string())));
    assert!(!CaptureGroup::Name("a".to_string()).is_same(&CaptureGroup::Name("b".to_string())));
    assert!(!CaptureGroup::Name("1".to_string()).is_same(&CaptureGroup::Number(1)));
    assert_ne!(
        GroupingSpecifier::Regex(
            regex::Regex::new("f(?P<a>o)(?P<b>o)").unwrap(),
            CaptureGroup::Name("a".to_string())
        ),
        GroupingSpecifier::Regex(
            regex::Regex::new("f(?P<a>o)(?P<b>o)").unwrap(),
            CaptureGroup::Name("b".to_string())
        ),
    );
}

#[test]
fn options_are_equal_where_their_parts_are() {
    let options = |n: usize| GroupByOptions {
        input: InputOptions {
            separator: Separator::Null,
        },
        grouping: FirstChars(n),
        output: OutputOptions {
            separator: Separator::Line,
            only_group_names: false,
            run_command: Some("wc -l".to_string()),
            parallel: true,
            headers: true,
            stats: false,
        },
    };
    assert_eq!(options(6), options(6).clone());
    assert_ne!(options(6), options(7));
    let specifier = by_regex("f(o+)", 1);
    assert_eq!(specifier.clone(), specifier);
    if let GroupingSpecifier::Regex(re, _) = specifier.clone() {
        assert_eq!(re.as_str(), "f(o+)");
        assert!(re.is_match("foo"));
    }
}
