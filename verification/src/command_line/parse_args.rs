//! Turns the arguments of the command line into the options of a run.
//!
//! The arguments arrive as [`Matches`]: the options that the user gave, each
//! by its name and with its value where it has one. Which options exist, and
//! which of them exclude each other, is the business of the argument parser
//! that produces the matches.
use crate::command_line::options::{
    CaptureGroup,
    GroupByOptions,
    GroupingSpecifier,
    InputOptions,
    OutputOptions,
    Separator,
};
use crate::grouped_collections::key::{compare_text, lemma_text_asymmetric, KeyOrder};
use crate::matchers::pattern::{compile, describe, regex_accepts, regex_source};
use regex::Regex;
use vstd::prelude::*;
use vstd::string::*;

verus! {

broadcast use vstd::string::group_string_axioms;

/// The options that were given on the command line, in any order: the name of
/// each, and its value where it was given one.
#[derive(Clone, Debug, Eq, PartialEq)]
pub struct Matches {
    pub args: Vec<(String, Option<String>)>,
}

/// Why the arguments do not make the options of a run.
#[derive(Clone, Debug, Eq, PartialEq)]
pub enum ParseError {
    /// No grouper was chosen.
    NoGrouper,
    /// The option of this name needs a value and has none.
    MissingValue(String),
    /// This value should be a whole number and is none.
    NotANumber(String),
    /// The pattern was not accepted. This is what the engine says of it.
    InvalidRegex(String),
}

/// The value of the first of `args` that is called `name`, if there is one:
/// `None` where no argument has that name, and `Some(None)` where the first
/// that has it has no value.
pub open spec fn lookup(args: Seq<(String, Option<String>)>, name: Seq<char>) -> Option<
    Option<String>,
>
    decreases args.len(),
{
    if args.len() == 0 {
        None
    } else if args[0].0@ == name {
        Some(args[0].1)
    } else {
        lookup(args.skip(1), name)
    }
}

/// The view of an optional string.
pub open spec fn text_of(s: Option<String>) -> Option<Seq<char>> {
    match s {
        Some(t) => Some(t@),
        None => None,
    }
}

impl Matches {
    /// Whether the option called `name` was given.
    pub open spec fn present(&self, name: Seq<char>) -> bool {
        lookup(self.args@, name) is Some
    }

    /// The value of the option called `name`, where it was given with one.
    pub open spec fn value(&self, name: Seq<char>) -> Option<Seq<char>> {
        match lookup(self.args@, name) {
            Some(v) => text_of(v),
            None => None,
        }
    }

    /// Finds the first argument that is called `name`.
    fn find(&self, name: &str) -> (r: Option<&Option<String>>)
        ensures
            match r {
                Some(v) => lookup(self.args@, name@) == Some(*v),
                None => lookup(self.args@, name@) is None,
            },
    {
        let mut i: usize = 0;
        assert(self.args@.skip(0) =~= self.args@);
        while i < self.args.len()
            invariant
                i <= self.args.len(),
                lookup(self.args@, name@) == lookup(self.args@.skip(i as int), name@),
            decreases self.args.len() - i,
        {
            let ghost rest = self.args@.skip(i as int);
            assert(rest[0] == self.args@[i as int]);
            assert(rest.skip(1) =~= self.args@.skip(i + 1));
            match compare_text(self.args[i].0.as_str(), name) {
                KeyOrder::Equal => {
                    return Some(&self.args[i].1);
                },
                _ => {
                    proof {
                        lemma_text_asymmetric(name@, name@);
                    }
                },
            }
            i += 1;
        }
        None
    }

    /// Tells whether the option called `name` was given.
    pub fn is_present(&self, name: &str) -> (r: bool)
        ensures
            r == self.present(name@),
    {
        self.find(name).is_some()
    }

    /// Returns the value of the option called `name`, where it was given with
    /// one.
    pub fn value_of(&self, name: &str) -> (r: Option<&str>)
        ensures
            crate::matchers::pattern::option_view(r) == self.value(name@),
    {
        match self.find(name) {
            Some(Some(value)) => Some(value.as_str()),
            _ => None,
        }
    }
}

/// The digit that a character stands for, if it is a decimal digit.
pub open spec fn digit_of(c: char) -> Option<nat> {
    let u = c as u32;
    if 0x30 <= u <= 0x39 {
        Some((u - 0x30) as nat)
    } else {
        None
    }
}

/// The number that a sequence of decimal digits stands for. There is none
/// where the sequence is empty or holds anything but digits.
pub open spec fn digits_value(s: Seq<char>) -> Option<nat>
    decreases s.len(),
{
    if s.len() == 0 {
        None
    } else {
        match digit_of(s.last()) {
            None => None,
            Some(d) => if s.len() == 1 {
                Some(d)
            } else {
                match digits_value(s.drop_last()) {
                    Some(v) => Some(10 * v + d),
                    None => None,
                }
            },
        }
    }
}

/// The number that digits stand for, where it can be held.
pub open spec fn held(value: Option<nat>) -> Option<usize> {
    match value {
        Some(v) => if v <= usize::MAX {
            Some(v as usize)
        } else {
            None
        },
        None => None,
    }
}

/// The whole number that a text stands for: decimal digits, after a plus sign
/// or without one, whose number can be held.
pub open spec fn number_of(s: Seq<char>) -> Option<usize> {
    if s.len() > 0 && s[0] == '+' {
        held(digits_value(s.skip(1)))
    } else {
        held(digits_value(s))
    }
}

/// A longer sequence of digits stands for no smaller number.
pub proof fn lemma_digits_grow(s: Seq<char>, n: int)
    requires
        0 < n <= s.len(),
        digits_value(s) is Some,
    ensures
        digits_value(s.take(n)) is Some,
        digits_value(s.take(n))->0 <= digits_value(s)->0,
    decreases s.len(),
{
    if n == s.len() {
        assert(s.take(n) =~= s);
    } else {
        assert(s.drop_last().take(n) =~= s.take(n));
        lemma_digits_grow(s.drop_last(), n);
    }
}

/// Parses a whole number.
pub fn parse_number(s: &str) -> (r: Option<usize>)
    ensures
        r == number_of(s@),
{
    let chars = crate::text::chars_of(s);
    let start: usize = if chars.len() > 0 && chars[0] == '+' {
        1
    } else {
        0
    };
    let ghost digits = chars@.skip(start as int);
    assert(chars@.skip(0) =~= chars@);
    assert(number_of(s@) == held(digits_value(digits)));
    if start == chars.len() {
        assert(digits.len() == 0);
        return None;
    }
    let mut value: usize = 0;
    let mut i: usize = start;
    while i < chars.len()
        invariant
            start <= i <= chars.len(),
            start < chars.len(),
            number_of(s@) == held(digits_value(digits)),
            digits == chars@.skip(start as int),
            i > start ==> digits_value(digits.take(i - start)) == Some(value as nat),
            i == start ==> value == 0,
        decreases chars.len() - i,
    {
        let c = chars[i];
        let u = c as u32;
        let ghost now = digits.take(i - start + 1);
        proof {
            assert(now.last() == chars[i as int]);
            assert(now.drop_last() =~= digits.take(i - start));
        }
        if u < 0x30 || u > 0x39 {
            proof {
                assert(digits_value(now) is None);
                if digits_value(digits) is Some {
                    lemma_digits_grow(digits, i - start + 1);
                }
            }
            return None;
        }
        let d = (u - 0x30) as usize;
        assert(digits_value(now) == Some((10 * value + d) as nat));
        if value > (usize::MAX - d) / 10 {
            proof {
                assert(10 * value + d > usize::MAX);
                if digits_value(digits) is Some {
                    lemma_digits_grow(digits, i - start + 1);
                }
            }
            return None;
        }
        value = 10 * value + d;
        i += 1;
    }
    assert(digits.take(chars.len() - start) =~= digits);
    Some(value)
}

/// The capture group that the arguments ask for: the group of the given
/// number, or of the given name where that is no number, or group 0 where
/// nothing is given.
pub open spec fn capture_group_of(matches: Matches, group: CaptureGroup) -> bool {
    match matches.value("grouper_options_capture_group"@) {
        Some(s) => match number_of(s) {
            Some(n) => group == CaptureGroup::Number(n),
            None => group matches CaptureGroup::Name(name) && name@ == s,
        },
        None => group == CaptureGroup::Number(0),
    }
}

/// Reads the capture group.
pub fn parse_capture_group(matches: &Matches) -> (group: CaptureGroup)
    ensures
        capture_group_of(*matches, group),
{
    match matches.value_of("grouper_options_capture_group") {
        Some(s) => match parse_number(s) {
            Some(n) => CaptureGroup::Number(n),
            None => CaptureGroup::Name(s.to_string()),
        },
        None => CaptureGroup::Number(0),
    }
}

/// What reading the number of the option called `key` gives.
pub open spec fn numeric_value_of(matches: Matches, key: Seq<char>, r: Result<
    usize,
    ParseError,
>) -> bool {
    match matches.value(key) {
        None => r matches Err(ParseError::MissingValue(name)) && name@ == key,
        Some(s) => match number_of(s) {
            Some(n) => r == Ok::<usize, ParseError>(n),
            None => r matches Err(ParseError::NotANumber(text)) && text@ == s,
        },
    }
}

/// Reads the number that is the value of the option called `key`.
pub fn parse_numeric_value(matches: &Matches, key: &str) -> (r: Result<usize, ParseError>)
    ensures
        numeric_value_of(*matches, key@, r),
{
    match matches.value_of(key) {
        None => Err(ParseError::MissingValue(key.to_string())),
        Some(s) => match parse_number(s) {
            Some(n) => Ok(n),
            None => Err(ParseError::NotANumber(s.to_string())),
        },
    }
}

/// What reading the pattern of the option called `key` gives.
pub open spec fn regex_value_of(matches: Matches, key: Seq<char>, r: Result<
    Regex,
    ParseError,
>) -> bool {
    match matches.value(key) {
        None => r matches Err(ParseError::MissingValue(name)) && name@ == key,
        Some(pattern) => if regex_accepts(pattern) {
            r matches Ok(re) && regex_source(re) == pattern
        } else {
            r matches Err(ParseError::InvalidRegex(_))
        },
    }
}

/// Reads the pattern that is the value of the option called `key`, and
/// compiles it.
pub fn parse_regex_value(matches: &Matches, key: &str) -> (r: Result<Regex, ParseError>)
    ensures
        regex_value_of(*matches, key@, r),
{
    match matches.value_of(key) {
        None => Err(ParseError::MissingValue(key.to_string())),
        Some(pattern) => match compile(pattern) {
            Ok(re) => Ok(re),
            Err(e) => Err(ParseError::InvalidRegex(describe(&e))),
        },
    }
}

/// The separator of the input that the arguments ask for: white space, the
/// null character, or a separator of the user's choice, in this order of
/// precedence, and else the line feed.
pub open spec fn input_separator_of(matches: Matches, r: Result<Separator, ParseError>) -> bool {
    if matches.present("input_split_on_whitespace"@) {
        r matches Ok(Separator::Space)
    } else if matches.present("input_split_on_null"@) {
        r matches Ok(Separator::Null)
    } else if matches.present("input_split_on_custom"@) {
        match matches.value("input_split_on_custom"@) {
            Some(s) => r matches Ok(Separator::Custom(c)) && c@ == s,
            None => r matches Err(ParseError::MissingValue(name)) && name@
                == "input_split_on_custom"@,
        }
    } else {
        r matches Ok(Separator::Line)
    }
}

/// Reads the separator of the input.
pub fn parse_input_separator(matches: &Matches) -> (r: Result<Separator, ParseError>)
    ensures
        input_separator_of(*matches, r),
{
    if matches.is_present("input_split_on_whitespace") {
        Ok(Separator::Space)
    } else if matches.is_present("input_split_on_null") {
        Ok(Separator::Null)
    } else if matches.is_present("input_split_on_custom") {
        match matches.value_of("input_split_on_custom") {
            Some(s) => Ok(Separator::Custom(s.to_string())),
            None => Err(ParseError::MissingValue("input_split_on_custom".to_string())),
        }
    } else {
        Ok(Separator::Line)
    }
}

/// The grouper that the arguments ask for: by first characters, by last
/// characters, by regular expression, by file extension or by counter, in
/// this order of precedence.
pub open spec fn grouping_of(matches: Matches, r: Result<GroupingSpecifier, ParseError>) -> bool {
    if matches.present("groupers_by_first_chars"@) {
        exists|n: Result<usize, ParseError>| #[trigger]
            numeric_value_of(matches, "groupers_by_first_chars"@, n) && match n {
                Ok(n) => r matches Ok(GroupingSpecifier::FirstChars(m)) && m == n,
                Err(e) => r == Err::<GroupingSpecifier, ParseError>(e),
            }
    } else if matches.present("groupers_by_last_chars"@) {
        exists|n: Result<usize, ParseError>| #[trigger]
            numeric_value_of(matches, "groupers_by_last_chars"@, n) && match n {
                Ok(n) => r matches Ok(GroupingSpecifier::LastChars(m)) && m == n,
                Err(e) => r == Err::<GroupingSpecifier, ParseError>(e),
            }
    } else if matches.present("groupers_by_regex"@) {
        exists|re: Result<Regex, ParseError>| #[trigger]
            regex_value_of(matches, "groupers_by_regex"@, re) && match re {
                Ok(re) => r matches Ok(GroupingSpecifier::Regex(compiled, group)) && compiled == re
                    && capture_group_of(matches, group),
                Err(e) => r == Err::<GroupingSpecifier, ParseError>(e),
            }
    } else if matches.present("groupers_by_file_extension"@) {
        r matches Ok(GroupingSpecifier::FileExtension)
    } else if matches.present("groupers_by_counter"@) {
        r matches Ok(GroupingSpecifier::Counter)
    } else {
        r matches Err(ParseError::NoGrouper)
    }
}

/// Reads the grouper.
pub fn parse_grouping(matches: &Matches) -> (r: Result<GroupingSpecifier, ParseError>)
    ensures
        grouping_of(*matches, r),
{
    if matches.is_present("groupers_by_first_chars") {
        let n = parse_numeric_value(matches, "groupers_by_first_chars");
        let ghost read = n;
        let r = match n {
            Ok(n) => Ok(GroupingSpecifier::FirstChars(n)),
            Err(e) => Err(e),
        };
        assert(numeric_value_of(*matches, "groupers_by_first_chars"@, read));
        r
    } else if matches.is_present("groupers_by_last_chars") {
        let n = parse_numeric_value(matches, "groupers_by_last_chars");
        let ghost read = n;
        let r = match n {
            Ok(n) => Ok(GroupingSpecifier::LastChars(n)),
            Err(e) => Err(e),
        };
        assert(numeric_value_of(*matches, "groupers_by_last_chars"@, read));
        r
    } else if matches.is_present("groupers_by_regex") {
        let re = parse_regex_value(matches, "groupers_by_regex");
        let ghost read = re;
        let r = match re {
            Ok(re) => Ok(GroupingSpecifier::Regex(re, parse_capture_group(matches))),
            Err(e) => Err(e),
        };
        assert(regex_value_of(*matches, "groupers_by_regex"@, read));
        r
    } else if matches.is_present("groupers_by_file_extension") {
        Ok(GroupingSpecifier::FileExtension)
    } else if matches.is_present("groupers_by_counter") {
        Ok(GroupingSpecifier::Counter)
    } else {
        Err(ParseError::NoGrouper)
    }
}

/// The options of the output that the arguments ask for.
pub open spec fn output_of(matches: Matches, output: OutputOptions) -> bool {
    &&& if matches.present("output_space_separators"@) {
        output.separator is Space
    } else if matches.present("output_null_separators"@) {
        output.separator is Null
    } else {
        output.separator is Line
    }
    &&& output.only_group_names == matches.present("output_only_group_names"@)
    &&& text_of(output.run_command) == matches.value("output_run_command"@)
    &&& output.parallel == !matches.present("output_sequential"@)
    &&& output.headers == !matches.present("output_no_headers"@)
    &&& output.stats == matches.present("output_stats"@)
}

/// Reads the options of the output.
pub fn parse_output(matches: &Matches) -> (output: OutputOptions)
    ensures
        output_of(*matches, output),
{
    let separator = if matches.is_present("output_space_separators") {
        Separator::Space
    } else if matches.is_present("output_null_separators") {
        Separator::Null
    } else {
        Separator::Line
    };
    let run_command = match matches.value_of("output_run_command") {
        Some(cmd) => Some(cmd.to_string()),
        None => None,
    };
    OutputOptions {
        separator,
        only_group_names: matches.is_present("output_only_group_names"),
        run_command,
        parallel: !matches.is_present("output_sequential"),
        headers: !matches.is_present("output_no_headers"),
        stats: matches.is_present("output_stats"),
    }
}

/// What the arguments make: the options that they ask for, or the first thing
/// that is wrong with them, where the separator of the input is looked at
/// before the grouper.
pub open spec fn options_of(matches: Matches, r: Result<GroupByOptions, ParseError>) -> bool {
    exists|separator: Result<Separator, ParseError>, grouping: Result<GroupingSpecifier, ParseError>|
        #![trigger input_separator_of(matches, separator), grouping_of(matches, grouping)]
        input_separator_of(matches, separator) && grouping_of(matches, grouping) && match (
            separator,
            grouping,
        ) {
            (Ok(s), Ok(g)) => r matches Ok(options) && options.input.separator == s
                && options.grouping == g && output_of(matches, options.output),
            (Err(e), _) => r == Err::<GroupByOptions, ParseError>(e),
            (Ok(_), Err(e)) => r == Err::<GroupByOptions, ParseError>(e),
        }
}

/// Turns the arguments of the command line into the options of a run.
pub fn parse_from(matches: &Matches) -> (r: Result<GroupByOptions, ParseError>)
    ensures
        options_of(*matches, r),
{
    let separator = parse_input_separator(matches);
    let grouping = parse_grouping(matches);
    let ghost read_separator = separator;
    let ghost read_grouping = grouping;
    let r = match separator {
        Err(e) => Err(e),
        Ok(separator) => match grouping {
            Err(e) => Err(e),
            Ok(grouping) => Ok(
                GroupByOptions {
                    input: InputOptions { separator },
                    grouping,
                    output: parse_output(matches),
                },
            ),
        },
    };
    assert(input_separator_of(*matches, read_separator) && grouping_of(*matches, read_grouping));
    r
}

} // verus!
