//! The options of a run, as the rest of the library reads them.
//!
//! The root is [`GroupByOptions`]; the other types are its parts.
use crate::grouped_collections::key::{compare_text, lemma_text_asymmetric, KeyOrder};
use crate::matchers::pattern::{regex_source, source};
use regex::Regex;
use vstd::prelude::*;
use vstd::std_specs::cmp::PartialEqSpecImpl;

verus! {

broadcast use vstd::string::group_string_axioms;

/// The separator between records, on input and on output.
#[derive(Clone, Debug, Eq, PartialEq)]
pub enum Separator {
    /// A newline character.
    Line,
    /// A space.
    Space,
    /// A null character.
    Null,
    /// A string that the user chose.
    Custom(String),
}

/// How the input is read.
#[derive(Clone, Debug, Eq, PartialEq)]
pub struct InputOptions {
    /// The separator between the tokens of the input.
    pub separator: Separator,
}

/// A capture group of a regular expression, by number or by name.
///
/// Group 0 is the whole match. A value of this type says nothing of whether an
/// expression has such a group.
#[derive(Clone, Debug, Eq, PartialEq)]
pub enum CaptureGroup {
    /// A numbered group.
    Number(usize),
    /// A named group.
    Name(String),
}

/// The grouper that the user chose.
#[derive(Clone, Debug)]
pub enum GroupingSpecifier {
    /// Group by the first characters of each token.
    FirstChars(usize),
    /// Group by the last characters of each token.
    LastChars(usize),
    /// Group by the first match of a regular expression, or by one capture
    /// group of that match.
    Regex(Regex, CaptureGroup),
    /// Group by file extension.
    FileExtension,
    /// Give each token a group of its own, numbered from 0.
    Counter,
}

/// How the groups are put out.
#[derive(Clone, Debug, Eq, PartialEq)]
pub struct OutputOptions {
    /// The separator written after each record.
    pub separator: Separator,
    /// Write the names of the groups and not their contents.
    pub only_group_names: bool,
    /// The command to run once for each group, which gets the group on its
    /// standard input. Where a command is run, the other options say what the
    /// command is given, and its output is reported with default options.
    pub run_command: Option<String>,
    /// Run the commands in parallel and in no particular order, rather than
    /// one at a time in the order of the groups.
    pub parallel: bool,
    /// Write a header before each group.
    pub headers: bool,
    /// Write the size of each group and figures on the whole collection.
    pub stats: bool,
}

/// All the options of a run.
#[derive(Clone, Debug, Eq, PartialEq)]
pub struct GroupByOptions {
    pub input: InputOptions,
    pub grouping: GroupingSpecifier,
    pub output: OutputOptions,
}

impl Separator {
    /// The separator as a sequence of characters.
    pub open spec fn spec_sep(&self) -> Seq<char> {
        match self {
            Separator::Line => seq!['\n'],
            Separator::Space => seq![' '],
            Separator::Null => seq!['\0'],
            Separator::Custom(s) => s@,
        }
    }

    /// Returns the separator as a string.
    pub fn sep(&self) -> (s: String)
        ensures
            s@ == self.spec_sep(),
    {
        match self {
            Separator::Line => {
                proof {
                    reveal_strlit("\n");
                }
                assert("\n"@ =~= seq!['\n']);
                "\n".to_string()
            },
            Separator::Space => {
                proof {
                    reveal_strlit(" ");
                }
                assert(" "@ =~= seq![' ']);
                " ".to_string()
            },
            Separator::Null => {
                proof {
                    reveal_strlit("\0");
                }
                assert("\0"@ =~= seq!['\0']);
                "\0".to_string()
            },
            Separator::Custom(s) => s.clone(),
        }
    }
}

impl CaptureGroup {
    /// Whether two capture groups are the same number or the same name.
    pub open spec fn same(&self, other: &CaptureGroup) -> bool {
        match (self, other) {
            (CaptureGroup::Number(m), CaptureGroup::Number(n)) => m == n,
            (CaptureGroup::Name(s), CaptureGroup::Name(t)) => s@ == t@,
            _ => false,
        }
    }

    /// Tells whether two capture groups are the same number or the same name.
    pub fn is_same(&self, other: &CaptureGroup) -> (r: bool)
        ensures
            r == self.same(other),
    {
        match self {
            CaptureGroup::Number(m) => match other {
                CaptureGroup::Number(n) => *m == *n,
                CaptureGroup::Name(_) => false,
            },
            CaptureGroup::Name(s) => match other {
                CaptureGroup::Number(_) => false,
                CaptureGroup::Name(t) => *s == *t,
            },
        }
    }
}

impl GroupingSpecifier {
    /// Two specifiers are equal where they are the same variant with equal
    /// parameters; two regular expressions are equal where their patterns are.
    pub open spec fn same(&self, other: &GroupingSpecifier) -> bool {
        match (self, other) {
            (GroupingSpecifier::FirstChars(m), GroupingSpecifier::FirstChars(n)) => m == n,
            (GroupingSpecifier::LastChars(m), GroupingSpecifier::LastChars(n)) => m == n,
            (GroupingSpecifier::Regex(re1, cg1), GroupingSpecifier::Regex(re2, cg2)) => {
                regex_source(*re1) == regex_source(*re2) && cg1.same(cg2)
            },
            (GroupingSpecifier::FileExtension, GroupingSpecifier::FileExtension) => true,
            (GroupingSpecifier::Counter, GroupingSpecifier::Counter) => true,
            _ => false,
        }
    }
}

impl PartialEq for GroupingSpecifier {
    fn eq(&self, other: &Self) -> (r: bool) {
        match self {
            GroupingSpecifier::FirstChars(m) => match other {
                GroupingSpecifier::FirstChars(n) => *m == *n,
                _ => false,
            },
            GroupingSpecifier::LastChars(m) => match other {
                GroupingSpecifier::LastChars(n) => *m == *n,
                _ => false,
            },
            GroupingSpecifier::Regex(re1, cg1) => match other {
                GroupingSpecifier::Regex(re2, cg2) => {
                    let same_pattern = match compare_text(source(re1), source(re2)) {
                        KeyOrder::Equal => true,
                        _ => false,
                    };
                    proof {
                        lemma_text_asymmetric(regex_source(*re1), regex_source(*re1));
                    }
                    same_pattern && cg1.is_same(cg2)
                },
                _ => false,
            },
            GroupingSpecifier::FileExtension => match other {
                GroupingSpecifier::FileExtension => true,
                _ => false,
            },
            GroupingSpecifier::Counter => match other {
                GroupingSpecifier::Counter => true,
                _ => false,
            },
        }
    }
}

impl PartialEqSpecImpl for GroupingSpecifier {
    open spec fn obeys_eq_spec() -> bool {
        true
    }

    open spec fn eq_spec(&self, other: &Self) -> bool {
        self.same(other)
    }
}

impl Eq for GroupingSpecifier {

}

} // verus!
