//! Groupers for string values.
use crate::command_line::options::{CaptureGroup, GroupingSpecifier};
use crate::grouped_collections::grouped_collection::{add_to_group, GroupedCollection};
use crate::matchers::pattern::option_view;
use crate::matchers::string::{
    file_extension,
    first_n_chars,
    last_n_chars,
    match_counter,
    match_file_extension,
    match_first_n_chars,
    match_last_n_chars,
    match_regex,
    regex_match,
    Counter,
};
use crate::text::{decimal, decimal_text};
use regex::Regex;
use vstd::prelude::*;

verus! {

broadcast use vstd::string::group_string_axioms;

/// The key that a matcher found, or the empty key where it found none.
pub open spec fn key_or_empty(key: Option<Seq<char>>) -> Seq<char> {
    match key {
        Some(k) => k,
        None => Seq::empty(),
    }
}

/// The key of `token` under `spec`, where `count` is the number that the
/// counter gives next.
pub open spec fn key_for(spec: GroupingSpecifier, count: nat, token: Seq<char>) -> Seq<char> {
    match spec {
        GroupingSpecifier::FirstChars(n) => first_n_chars(token, n as nat),
        GroupingSpecifier::LastChars(n) => last_n_chars(token, n as nat),
        GroupingSpecifier::Regex(re, cg) => key_or_empty(regex_match(re, token, cg)),
        GroupingSpecifier::FileExtension => key_or_empty(file_extension(token)),
        GroupingSpecifier::Counter => decimal(count),
    }
}

/// The number that the counter gives next after a token was grouped under
/// `spec`.
pub open spec fn count_after(spec: GroupingSpecifier, count: nat) -> nat {
    match spec {
        GroupingSpecifier::Counter => Counter::successor(count),
        _ => count,
    }
}

/// Returns a key as a string of its own, and the empty string for no key.
fn owned_key(key: Option<&str>) -> (owned: String)
    ensures
        owned@ == key_or_empty(option_view(key)),
{
    match key {
        Some(k) => k.to_string(),
        None => String::new(),
    }
}

/// Methods that group a string into a collection, one for each matcher.
pub trait Groupers: GroupedCollection<String, String> {
    /// Groups a string by its first `n` characters.
    fn group_by_first_chars(&mut self, line: String, n: usize)
        ensures
            final(self).groups() == add_to_group(
                old(self).groups(),
                first_n_chars(line@, n as nat),
                line,
            ),
    ;

    /// Groups a string by its last `n` characters.
    fn group_by_last_chars(&mut self, line: String, n: usize)
        ensures
            final(self).groups() == add_to_group(
                old(self).groups(),
                last_n_chars(line@, n as nat),
                line,
            ),
    ;

    /// Groups a string by what a regular expression selects of it. A string
    /// that the expression does not match goes to the group of the empty key.
    fn group_by_regex(&mut self, line: String, regex: &Regex, capture_group: &CaptureGroup)
        ensures
            final(self).groups() == add_to_group(
                old(self).groups(),
                key_or_empty(regex_match(*regex, line@, *capture_group)),
                line,
            ),
    ;

    /// Groups a file name by its extension. A name without an extension goes
    /// to the group of the empty key.
    fn group_by_file_extension(&mut self, filename: String)
        ensures
            final(self).groups() == add_to_group(
                old(self).groups(),
                key_or_empty(file_extension(filename@)),
                filename,
            ),
    ;

    /// Groups a string under the next number of `counter`, written in decimal.
    fn group_by_counter(&mut self, line: String, counter: &mut Counter)
        ensures
            final(self).groups() == add_to_group(
                old(self).groups(),
                decimal(old(counter).value()),
                line,
            ),
            final(counter).value() == Counter::successor(old(counter).value()),
    ;
}

impl<GC: GroupedCollection<String, String>> Groupers for GC {
    fn group_by_first_chars(&mut self, line: String, n: usize) {
        let key = match_first_n_chars(line.as_str(), n).to_string();
        self.add(key, line);
    }

    fn group_by_last_chars(&mut self, line: String, n: usize) {
        let key = match_last_n_chars(line.as_str(), n).to_string();
        self.add(key, line);
    }

    fn group_by_regex(&mut self, line: String, regex: &Regex, capture_group: &CaptureGroup) {
        let key = owned_key(match_regex(line.as_str(), regex, capture_group));
        self.add(key, line);
    }

    fn group_by_file_extension(&mut self, filename: String) {
        let key = owned_key(match_file_extension(filename.as_str()));
        self.add(key, filename);
    }

    fn group_by_counter(&mut self, line: String, counter: &mut Counter) {
        let key = decimal_text(match_counter(counter));
        self.add(key, line);
    }
}

/// One grouper, chosen once by a [`GroupingSpecifier`], bound to the
/// collection that it fills.
///
/// A runner numbers the tokens that it groups by counter from 0.
pub struct Runner<'a, M: GroupedCollection<String, String>> {
    /// The collection that the runner fills.
    pub map: &'a mut M,
    /// The grouper that the runner applies.
    pub spec: &'a GroupingSpecifier,
    /// The numbers that the runner gives to the tokens grouped by counter.
    pub counter: Counter,
}

impl<'a, M: GroupedCollection<String, String>> Runner<'a, M> {
    /// The number that the counter of the runner gives next.
    pub open spec fn count(&self) -> nat {
        self.counter.value()
    }

    /// Binds the grouper that `spec` names to `map`.
    pub fn new(map: &'a mut M, spec: &'a GroupingSpecifier) -> (runner: Self)
        ensures
            *runner.map == *old(map),
            *final(runner.map) == *final(map),
            runner.spec == spec,
            runner.count() == 0,
    {
        Runner { map, spec, counter: Counter::new() }
    }

    /// Groups `value` into the collection.
    pub fn run(&mut self, value: String)
        ensures
            final(self).map.groups() == add_to_group(
                old(self).map.groups(),
                key_for(*old(self).spec, old(self).count(), value@),
                value,
            ),
            *final(final(self).map) == *final(old(self).map),
            final(self).spec == old(self).spec,
            final(self).count() == count_after(*old(self).spec, old(self).count()),
    {
        match self.spec {
            GroupingSpecifier::FirstChars(n) => self.map.group_by_first_chars(value, *n),
            GroupingSpecifier::LastChars(n) => self.map.group_by_last_chars(value, *n),
            GroupingSpecifier::Regex(re, cg) => self.map.group_by_regex(value, re, cg),
            GroupingSpecifier::FileExtension => self.map.group_by_file_extension(value),
            GroupingSpecifier::Counter => self.map.group_by_counter(value, &mut self.counter),
        }
    }
}

} // verus!
