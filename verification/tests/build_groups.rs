use groupby::command_line::build_groups::{build_groups, group_tokens};
use groupby::command_line::options::{
    GroupByOptions, GroupingSpecifier, InputOptions, OutputOptions, Separator,
};
use groupby::command_line::process_input::{
    process_input, split_custom, split_lines, split_records, split_words, InputError,
};
use groupby::grouped_collections::hashed_map::HashedMap;
use groupby::grouped_collections::sorted_map::SortedMap;

fn strings(values: &[&str]) -> Vec<String> {
    values.iter().map(|s| s.to_string()).collect()
}

fn options(input_separator: Separator, grouping: GroupingSpecifier) -> GroupByOptions {
    // Only input and grouping are relevant; output is unused.
    GroupByOptions {
        input: InputOptions {
            separator: input_separator,
        },
        grouping,
        output: OutputOptions {
            separator: Separator::Line,
            only_group_names: false,
            run_command: None,
            parallel: true,
            headers: true,
            stats: false,
        },
    }
}

// Each token is its own key, so the groups say which tokens were read; the
// second run numbers the tokens, so the groups say in which order.
fn works_with(input_separator: Separator, input: &'static str, expected: Vec<&'static str>) {
    let mut map = SortedMap::new();
    let by_token = options(input_separator.clone(), GroupingSpecifier::FirstChars(2000));
    build_groups(input.as_bytes(), &mut map, &by_token).unwrap();
    let mut sorted = strings(&expected);
    sorted.sort();
    let calls: Vec<String> = map
        .iter()
        .into_iter()
        .map(|(k, v)| format!("{}:{}", k, v.join(",")))
        .collect();
    assert_eq!(
        calls,
        sorted.iter().map(|t| format!("{}:{}", t, t)).collect::<Vec<String>>()
    );

    let mut map = HashedMap::new();
    let by_counter = options(input_separator, GroupingSpecifier::Counter);
    build_groups(input.as_bytes(), &mut map, &by_counter).unwrap();
    for (i, token) in expected.iter().enumerate() {
        assert_eq!(map.get(&i.to_string()), Some(&vec![token.to_string()]));
    }
    assert_eq!(map.iter().len(), expected.len());
}

#[test]
fn build_groups_works_with_line_separators() {
    works_with(Separator::Line, "1\n2\n3\n4", vec!["1", "2", "3", "4"]);
}

#[test]
fn build_groups_works_with_space_separators() {
    works_with(
        Separator::Space,
        "1 2  3     4", // One space, two spaces, and a larger, odd number of spaces.
        vec!["1", "2", "3", "4"],
    );
}

#[test]
fn build_groups_works_with_null_separators() {
    works_with(Separator::Null, "1\02\03\04", vec!["1", "2", "3", "4"]);
}

#[test]
fn works_with_custom_separators() {
    works_with(Separator::Custom("Z".to_string()), "AZBZC", vec!["A", "B", "C"]);

    works_with(
        Separator::Custom(";\tE>".to_string()),
        "A;\tE>B;\tE>C",
        vec!["A", "B", "C"],
    );
}

#[test]
fn process_input_works_with_line_separators() {
    let options = InputOptions {
        separator: Separator::Line,
    };
    assert_eq!(
        process_input("1\n2\n3\n4".as_bytes(), &options),
        Ok(strings(&["1", "2", "3", "4"]))
    );
}

#[test]
fn process_input_works_with_space_separators() {
    let options = InputOptions {
        separator: Separator::Space,
    };
    assert_eq!(
        process_input("1 2  3     4".as_bytes(), &options),
        Ok(strings(&["1", "2", "3", "4"]))
    );
}

#[test]
fn process_input_works_with_null_separators() {
    let options = InputOptions {
        separator: Separator::Null,
    };
    assert_eq!(
        process_input("1\02\03\04".as_bytes(), &options),
        Ok(strings(&["1", "2", "3", "4"]))
    );
}

#[test]
fn groups_words_by_their_first_character() {
    let input = "I have some words for you";
    let mut map = HashedMap::new();
    let options = options(Separator::Space, GroupingSpecifier::FirstChars(1));
    build_groups(input.as_bytes(), &mut map, &options).unwrap();
    assert_eq!(map.get(&"w".to_string()), Some(&vec!["words".to_string()]));
    assert_eq!(map.get(&"h".to_string()), Some(&vec!["have".to_string()]));
    assert_eq!(map.get(&"x".to_string()), None);
}

#[test]
fn build_groups_adds_to_what_the_collection_holds() {
    let mut map = SortedMap::new();
    let options = options(Separator::Line, GroupingSpecifier::LastChars(1));
    build_groups(b"ab\ncb\n", &mut map, &options).unwrap();
    build_groups(b"db\nda", &mut map, &options).unwrap();
    assert_eq!(
        map.iter(),
        vec![
            (&"a".to_string(), &strings(&["da"])),
            (&"b".to_string(), &strings(&["ab", "cb", "db"])),
        ]
    );
}

#[test]
fn input_that_is_not_utf8_is_refused() {
    let options = options(Separator::Line, GroupingSpecifier::FirstChars(1));
    let mut map = SortedMap::new();
    build_groups(b"fine\n", &mut map, &options).unwrap();
    let invalid: &[u8] = &[b'a', b'\n', 0xff, 0xfe, b'\n', b'b'];
    assert_eq!(build_groups(invalid, &mut map, &options), Err(InputError::InvalidUtf8));
    assert_eq!(map.iter(), vec![(&"f".to_string(), &strings(&["fine"]))]);
    assert_eq!(process_input(invalid, &options.input), Err(InputError::InvalidUtf8));
    for separator in [Separator::Space, Separator::Null, Separator::Custom("x".to_string())] {
        let options = InputOptions { separator };
        assert_eq!(process_input(&[0xc3], &options), Err(InputError::InvalidUtf8));
    }
}

#[test]
fn groups_tokens_in_turn() {
    let mut map = SortedMap::new();
    group_tokens(strings(&["b1", "a1", "b2"]), &mut map, &GroupingSpecifier::FirstChars(1));
    group_tokens(vec![], &mut map, &GroupingSpecifier::FirstChars(1));
    assert_eq!(
        map.iter(),
        vec![
            (&"a".to_string(), &strings(&["a1"])),
            (&"b".to_string(), &strings(&["b1", "b2"])),
        ]
    );
}

fn chars(s: &str) -> Vec<char> {
    s.chars().collect()
}

#[test]
fn lines_end_at_line_feeds() {
    let cases: [(&str, &[&str]); 12] = [
        ("", &[]),
        ("\n", &[""]),
        ("a", &["a"]),
        ("a\n", &["a"]),
        ("a\nb", &["a", "b"]),
        ("a\n\nb\n", &["a", "", "b"]),
        ("a\r\nb\r\n", &["a", "b"]),
        ("a\rb\n", &["a\rb"]),
        ("a\r", &["a\r"]),
        ("\r\n", &[""]),
        ("a\r\r\n", &["a\r"]),
        ("Grüße\nJürgen", &["Grüße", "Jürgen"]),
    ];
    for (input, expected) in cases {
        assert_eq!(split_lines(&chars(input)), strings(expected), "{:?}", input);
        let by_std: Vec<String> =
            std::io::BufRead::lines(input.as_bytes()).map(|l| l.unwrap()).collect();
        assert_eq!(by_std, strings(expected), "{:?}", input);
    }
}

#[test]
fn records_end_at_null_characters() {
    let cases: [(&str, &[&str]); 8] = [
        ("", &[]),
        ("\0", &[""]),
        ("a", &["a"]),
        ("a\0", &["a"]),
        ("a\0b", &["a", "b"]),
        ("a\0\0b\0", &["a", "", "b"]),
        ("\0\0", &["", ""]),
        ("a\nb\0c d", &["a\nb", "c d"]),
    ];
    for (input, expected) in cases {
        assert_eq!(split_records(&chars(input), '\0'), strings(expected), "{:?}", input);
        let by_std: Vec<String> = std::io::BufRead::split(input.as_bytes(), 0)
            .map(|t| String::from_utf8(t.unwrap()).unwrap())
            .collect();
        assert_eq!(by_std, strings(expected), "{:?}", input);
    }
}

#[test]
fn words_are_what_white_space_leaves() {
    let cases: [(&str, &[&str]); 9] = [
        ("", &[]),
        (" ", &[]),
        (" \t\r\n ", &[]),
        ("a", &["a"]),
        (" a ", &["a"]),
        ("a b", &["a", "b"]),
        ("one\ttwo\nthree\r\nfour  five", &["one", "two", "three", "four", "five"]),
        ("a\u{a0}b\u{2003}c\u{3000}d", &["a", "b", "c", "d"]),
        ("  Grüße,   Jürgen!  ", &["Grüße,", "Jürgen!"]),
    ];
    for (input, expected) in cases {
        assert_eq!(split_words(&chars(input)), strings(expected), "{:?}", input);
        let by_std: Vec<String> = input.split_whitespace().map(|w| w.to_string()).collect();
        assert_eq!(by_std, strings(expected), "{:?}", input);
    }
}

#[test]
fn custom_separators_split_as_str_split_does() {
    let cases: [(&str, &str); 16] = [
        ("AZBZC", "Z"),
        ("A;\tE>B;\tE>C", ";\tE>"),
        ("", "Z"),
        ("Z", "Z"),
        ("ZZ", "Z"),
        ("aZ", "Z"),
        ("Za", "Z"),
        ("aaa", "aa"),
        ("aaaa", "aa"),
        ("abab", "ab"),
        ("ababa", "aba"),
        ("abc", "abcd"),
        ("abc", ""),
        ("", ""),
        ("Grüße", "ü"),
        ("a--b---c", "--"),
    ];
    for (input, sep) in cases {
        let expected: Vec<String> = input.split(sep).map(|t| t.to_string()).collect();
        assert_eq!(
            split_custom(&chars(input), &chars(sep)),
            expected,
            "{:?} by {:?}",
            input,
            sep
        );
    }
    assert_eq!(split_custom(&chars("AZBZC"), &chars("Z")), strings(&["A", "B", "C"]));
    assert_eq!(split_custom(&chars("abc"), &chars("")), strings(&["", "a", "b", "c", ""]));
}
