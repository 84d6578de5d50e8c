//! Matchers for string values.
use crate::command_line::options::CaptureGroup;
use crate::matchers::pattern::{
    capture_name,
    capture_number,
    option_view,
    regex_group,
    regex_named_group,
    Captured,
};
use crate::text::{decimal, lemma_decimal_injective};
use regex::Regex;
use vstd::prelude::*;
use vstd::string::*;

verus! {

/// The first `n` characters of `s`, or all of `s` where it has no more than `n`.
pub open spec fn first_n_chars(s: Seq<char>, n: nat) -> Seq<char> {
    if n >= s.len() {
        s
    } else {
        s.take(n as int)
    }
}

/// The last `n` characters of `s`, or all of `s` where it has no more than `n`.
pub open spec fn last_n_chars(s: Seq<char>, n: nat) -> Seq<char> {
    if n >= s.len() {
        s
    } else {
        s.skip(s.len() - n)
    }
}

/// The position of the last occurrence of `c` in `s`, if there is one.
pub open spec fn last_index_of(s: Seq<char>, c: char) -> Option<int>
    decreases s.len(),
{
    if s.len() == 0 {
        None
    } else if s.last() == c {
        Some(s.len() - 1)
    } else {
        last_index_of(s.drop_last(), c)
    }
}

/// What follows the last period of `name`, unless that period is the first or
/// the last character of `name`.
pub open spec fn file_extension(name: Seq<char>) -> Option<Seq<char>> {
    match last_index_of(name, '.') {
        Some(i) => if 0 < i && i + 1 < name.len() {
            Some(name.skip(i + 1))
        } else {
            None
        },
        None => None,
    }
}

/// `last_index_of` finds an occurrence of `c` that no later one follows, and
/// finds none only where `c` does not occur.
pub proof fn lemma_last_index_of(s: Seq<char>, c: char)
    ensures
        match last_index_of(s, c) {
            Some(i) => 0 <= i < s.len() && s[i] == c && forall|j: int|
                i < j < s.len() ==> s[j] != c,
            None => forall|j: int| 0 <= j < s.len() ==> s[j] != c,
        },
    decreases s.len(),
{
    if s.len() > 0 && s.last() != c {
        let front = s.drop_last();
        lemma_last_index_of(front, c);
        assert(forall|j: int| 0 <= j < front.len() ==> front[j] == s[j]);
    }
}

/// A name has an extension exactly where it is made of a front that is not
/// empty, a period, and an end that is not empty and holds no period; the
/// extension is that end.
pub proof fn lemma_file_extension(name: Seq<char>)
    ensures
        match file_extension(name) {
            Some(extension) => extension.len() > 0 && !extension.contains('.') && exists|
                front: Seq<char>,
            |
                front.len() > 0 && #[trigger] (front + seq!['.'] + extension) == name,
            None => forall|front: Seq<char>, end: Seq<char>|
                front.len() > 0 && end.len() > 0 && !end.contains('.') ==> #[trigger] (front
                    + seq!['.'] + end) != name,
        },
{
    lemma_last_index_of(name, '.');
    match file_extension(name) {
        Some(extension) => {
            let i = last_index_of(name, '.')->0;
            let front = name.take(i);
            assert(front + seq!['.'] + extension =~= name);
            if extension.contains('.') {
                let j = choose|j: int| 0 <= j < extension.len() && extension[j] == '.';
                assert(name[i + 1 + j] == '.');
            }
        },
        None => {
            assert forall|front: Seq<char>, end: Seq<char>|
                front.len() > 0 && end.len() > 0 && !end.contains('.') implies #[trigger] (front
                + seq!['.'] + end) != name by {
                let whole = front + seq!['.'] + end;
                if whole == name {
                    let i = front.len() as int;
                    assert(whole[i] == '.');
                    assert forall|j: int| i < j < whole.len() implies whole[j] != '.' by {
                        assert(whole[j] == end[j - i - 1]);
                        assert(end.contains(end[j - i - 1]));
                    }
                    match last_index_of(name, '.') {
                        Some(p) => {
                            assert(p == i);
                        },
                        None => {},
                    }
                }
            }
        },
    }
}

/// Returns the first `n` characters of a string, or the whole string where `n`
/// is its length or more.
pub fn match_first_n_chars(string: &str, n: usize) -> (key: &str)
    ensures
        key@ == first_n_chars(string@, n as nat),
        key@.is_prefix_of(string@),
        key@.len() <= n,
        key@.len() <= string@.len(),
        n == 0 ==> key@ == Seq::<char>::empty(),
        n >= string@.len() ==> key@ == string@,
{
    let len = string.unicode_len();
    if n >= len {
        string
    } else {
        let key = string.substring_char(0, n);
        assert(string@.take(n as int) =~= string@.subrange(0, n as int));
        assert(n == 0 ==> key@ =~= Seq::<char>::empty());
        key
    }
}

/// Returns the last `n` characters of a string, or the whole string where `n`
/// is its length or more.
pub fn match_last_n_chars(string: &str, n: usize) -> (key: &str)
    ensures
        key@ == last_n_chars(string@, n as nat),
        key@.is_suffix_of(string@),
        key@.len() <= n,
        key@.len() <= string@.len(),
        n == 0 ==> key@ == Seq::<char>::empty(),
        n >= string@.len() ==> key@ == string@,
{
    let len = string.unicode_len();
    if n >= len {
        string
    } else {
        let key = string.substring_char(len - n, len);
        assert(string@.skip(len - n) =~= string@.subrange(len - n, len as int));
        assert(n == 0 ==> key@ =~= Seq::<char>::empty());
        assert(string@.skip(string@.len() - key@.len()) =~= key@);
        key
    }
}

/// Returns the characters after the last period of a file name.
///
/// A name without a period has no extension; neither has a name whose last
/// period is its first character (a dotfile) or its last character.
pub fn match_file_extension(filename: &str) -> (extension: Option<&str>)
    ensures
        option_view(extension) == file_extension(filename@),
{
    let len = filename.unicode_len();
    let mut last: Option<usize> = None;
    let mut i: usize = 0;
    for c in it: filename.chars()
        invariant
            len == filename@.len(),
            it.seq() == filename@,
            i == it.index(),
            match last {
                Some(p) => last_index_of(filename@.take(i as int), '.') == Some(p as int),
                None => last_index_of(filename@.take(i as int), '.') is None,
            },
    {
        proof {
            let next = filename@.take(i + 1);
            assert(next.drop_last() =~= filename@.take(i as int));
            assert(next.last() == c);
        }
        if c == '.' {
            last = Some(i);
        }
        i += 1;
    }
    assert(filename@.take(i as int) =~= filename@);
    proof {
        lemma_last_index_of(filename@, '.');
    }
    match last {
        Some(p) => {
            if 0 < p && p < len - 1 {
                let extension = filename.substring_char(p + 1, len);
                assert(filename@.skip(p + 1) =~= filename@.subrange(p + 1, len as int));
                Some(extension)
            } else {
                None
            }
        },
        None => None,
    }
}

/// The key that a search yields: none where the expression did not match;
/// else the text of the group that was asked for, or the whole match where
/// that group took no part in it.
pub open spec fn select_capture(whole: Option<Seq<char>>, group: Option<Seq<char>>) -> Option<
    Seq<char>,
> {
    match whole {
        None => None,
        Some(w) => match group {
            Some(g) => Some(g),
            None => Some(w),
        },
    }
}

/// What the engine finds for `capture_group` in the first match of `regex`
/// in `text`.
pub open spec fn requested_group(regex: Regex, text: Seq<char>, capture_group: CaptureGroup) -> Option<
    Seq<char>,
> {
    match capture_group {
        CaptureGroup::Number(n) => regex_group(regex, text, n as nat),
        CaptureGroup::Name(name) => regex_named_group(regex, text, name@),
    }
}

/// The key of `text` under `regex` and `capture_group`.
pub open spec fn regex_match(regex: Regex, text: Seq<char>, capture_group: CaptureGroup) -> Option<
    Seq<char>,
> {
    select_capture(regex_group(regex, text, 0), requested_group(regex, text, capture_group))
}

/// What a search found, as the two texts that `select_capture` reads.
pub open spec fn found_whole(found: Option<Captured>) -> Option<Seq<char>> {
    match found {
        Some(c) => Some(c.whole@),
        None => None,
    }
}

/// The text of the group that was asked for, where a search found it.
pub open spec fn found_group(found: Option<Captured>) -> Option<Seq<char>> {
    match found {
        Some(c) => option_view(c.group),
        None => None,
    }
}

/// Chooses the key from what a search found: the group that was asked for
/// where it took part in the match, else the whole match.
pub fn select_key<'a>(found: Option<Captured<'a>>) -> (key: Option<&'a str>)
    ensures
        option_view(key) == select_capture(found_whole(found), found_group(found)),
{
    match found {
        None => None,
        Some(c) => match c.group {
            Some(g) => Some(g),
            None => Some(c.whole),
        },
    }
}

/// Returns the part of a string that the first match of a regular expression
/// selects: the text of the capture group that is asked for, or the whole
/// match where that group took no part in it. Returns `None` where the
/// expression does not match.
pub fn match_regex<'a>(string: &'a str, regex: &Regex, capture_group: &CaptureGroup) -> (key:
    Option<&'a str>)
    ensures
        option_view(key) == regex_match(*regex, string@, *capture_group),
{
    let found = match capture_group {
        CaptureGroup::Number(n) => capture_number(regex, string, *n),
        CaptureGroup::Name(name) => capture_name(regex, string, name.as_str()),
    };
    select_key(found)
}

/// A sequence of numbers that starts at 0 and goes up by one with each number
/// taken. After the largest number it starts again at 0.
pub struct Counter {
    next: usize,
}

impl Counter {
    /// The number that is taken next.
    pub closed spec fn value(&self) -> nat {
        self.next as nat
    }

    /// The number that follows `n` in the sequence.
    pub open spec fn successor(n: nat) -> nat {
        if n == usize::MAX {
            0
        } else {
            n + 1
        }
    }

    /// Makes a sequence that starts at 0.
    pub fn new() -> (counter: Self)
        ensures
            counter.value() == 0,
    {
        Counter { next: 0 }
    }
}

/// The number that a sequence gives after `taken` numbers have been taken
/// from it, where it gave `start` first.
pub open spec fn nth_after(start: nat, taken: nat) -> nat
    decreases taken,
{
    if taken == 0 {
        start
    } else {
        Counter::successor(nth_after(start, (taken - 1) as nat))
    }
}

/// A new sequence gives each number the number of those taken before it, as
/// long as that number can be held.
pub proof fn lemma_counter_counts(taken: nat)
    requires
        taken <= usize::MAX,
    ensures
        nth_after(0, taken) == taken,
    decreases taken,
{
    if taken > 0 {
        lemma_counter_counts((taken - 1) as nat);
    }
}

/// A new sequence gives no number twice, and the keys written from its
/// numbers differ, as long as the number of those taken can be held.
pub proof fn lemma_counter_distinct(i: nat, j: nat)
    requires
        i < j <= usize::MAX,
    ensures
        nth_after(0, i) < nth_after(0, j),
        decimal(nth_after(0, i)) != decimal(nth_after(0, j)),
{
    lemma_counter_counts(i);
    lemma_counter_counts(j);
    if decimal(i) == decimal(j) {
        lemma_decimal_injective(i, j);
    }
}

/// Takes the next number of a sequence: the number of times that a number
/// was taken from it before.
pub fn match_counter(counter: &mut Counter) -> (n: usize)
    ensures
        n == old(counter).value(),
        final(counter).value() == Counter::successor(old(counter).value()),
{
    let n = counter.next;
    counter.next = if n == usize::MAX {
        0
    } else {
        n + 1
    };
    n
}

} // verus!
