//! Takes the input apart into tokens.
//!
//! The input is a stream of bytes that holds text in UTF-8. The tokens are
//! its lines, its words, the records that null characters end, or the pieces
//! between the occurrences of a separator that the user chose.
use crate::command_line::options::{InputOptions, Separator};
use crate::text::{chars_of, decode, is_space, is_whitespace, text_of};
use vstd::prelude::*;
use vstd::string::*;
use vstd::utf8::{decode_utf8, valid_utf8};

verus! {

/// Why input could not be read.
#[derive(Clone, Copy, Debug, PartialEq, Eq)]
pub enum InputError {
    /// The input is not text in UTF-8.
    InvalidUtf8,
}

/// The texts of a sequence of strings.
pub open spec fn views(tokens: Seq<String>) -> Seq<Seq<char>> {
    tokens.map_values(|t: String| t@)
}

/// The place of the first `c` in `text`, or the length of `text` where it
/// holds none.
pub open spec fn first_index_of(text: Seq<char>, c: char) -> int
    decreases text.len(),
{
    if text.len() == 0 || text[0] == c {
        0
    } else {
        1 + first_index_of(text.skip(1), c)
    }
}

/// The records of `text` that `end` ends: the pieces before each `end`, and
/// what follows the last `end` where anything does.
pub open spec fn records(text: Seq<char>, end: char) -> Seq<Seq<char>>
    decreases text.len(),
{
    let i = first_index_of(text, end);
    if text.len() == 0 {
        Seq::empty()
    } else if 0 <= i < text.len() {
        seq![text.take(i)] + records(text.skip(i + 1), end)
    } else {
        seq![text]
    }
}

/// A line without the carriage return that stood before its line feed.
pub open spec fn strip_cr(line: Seq<char>) -> Seq<char> {
    if line.len() > 0 && line.last() == '\r' {
        line.drop_last()
    } else {
        line
    }
}

/// The lines of `text`: the pieces before each line feed, each without a
/// carriage return at its end, and what follows the last line feed where
/// anything does.
pub open spec fn lines(text: Seq<char>) -> Seq<Seq<char>>
    decreases text.len(),
{
    let i = first_index_of(text, '\n');
    if text.len() == 0 {
        Seq::empty()
    } else if 0 <= i < text.len() {
        seq![strip_cr(text.take(i))] + lines(text.skip(i + 1))
    } else {
        seq![text]
    }
}

/// `first_index_of` is the place before which `c` does not occur and at which
/// it does, or the text ends.
pub proof fn lemma_first_index_of(text: Seq<char>, c: char, i: int)
    requires
        0 <= i <= text.len(),
        forall|j: int| 0 <= j < i ==> text[j] != c,
        i < text.len() ==> text[i] == c,
    ensures
        first_index_of(text, c) == i,
    decreases i,
{
    if i > 0 {
        let rest = text.skip(1);
        assert forall|j: int| 0 <= j < i - 1 implies rest[j] != c by {
            assert(rest[j] == text[j + 1]);
        }
        lemma_first_index_of(rest, c, i - 1);
    }
}

/// Splits text into the records that `end` ends.
pub fn split_records(chars: &Vec<char>, end: char) -> (tokens: Vec<String>)
    ensures
        views(tokens@) == records(chars@, end),
{
    let mut tokens: Vec<String> = Vec::new();
    let mut start: usize = 0;
    let mut i: usize = 0;
    assert(chars@.skip(0) =~= chars@);
    assert(views(tokens@) =~= Seq::<Seq<char>>::empty());
    assert(views(tokens@) + records(chars@, end) =~= records(chars@, end));
    while i < chars.len()
        invariant
            start <= i <= chars.len(),
            records(chars@, end) == views(tokens@) + records(chars@.skip(start as int), end),
            forall|j: int| start <= j < i ==> chars[j] != end,
        decreases chars.len() - i,
    {
        if chars[i] == end {
            let token = text_of(chars, start, i);
            proof {
                let rest = chars@.skip(start as int);
                lemma_first_index_of(rest, end, i - start);
                assert(rest.take(i - start) =~= token@);
                assert(rest.skip(i - start + 1) =~= chars@.skip(i + 1));
                assert(views(tokens@.push(token)) =~= views(tokens@).push(token@));
                assert(views(tokens@) + (seq![token@] + records(chars@.skip(i + 1), end))
                    =~= views(tokens@).push(token@) + records(chars@.skip(i + 1), end));
            }
            tokens.push(token);
            start = i + 1;
        }
        i += 1;
    }
    if start < chars.len() {
        let token = text_of(chars, start, chars.len());
        proof {
            let rest = chars@.skip(start as int);
            lemma_first_index_of(rest, end, rest.len() as int);
            assert(rest =~= token@);
            assert(views(tokens@.push(token)) =~= views(tokens@).push(token@));
        }
        tokens.push(token);
    } else {
        assert(views(tokens@) + Seq::<Seq<char>>::empty() =~= views(tokens@));
    }
    tokens
}

/// Splits text into its lines.
pub fn split_lines(chars: &Vec<char>) -> (tokens: Vec<String>)
    ensures
        views(tokens@) == lines(chars@),
{
    let mut tokens: Vec<String> = Vec::new();
    let mut start: usize = 0;
    let mut i: usize = 0;
    assert(chars@.skip(0) =~= chars@);
    assert(views(tokens@) =~= Seq::<Seq<char>>::empty());
    assert(views(tokens@) + lines(chars@) =~= lines(chars@));
    while i < chars.len()
        invariant
            start <= i <= chars.len(),
            lines(chars@) == views(tokens@) + lines(chars@.skip(start as int)),
            forall|j: int| start <= j < i ==> chars[j] != '\n',
        decreases chars.len() - i,
    {
        if chars[i] == '\n' {
            let stop = if start < i && chars[i - 1] == '\r' {
                i - 1
            } else {
                i
            };
            let token = text_of(chars, start, stop);
            proof {
                let rest = chars@.skip(start as int);
                lemma_first_index_of(rest, '\n', i - start);
                let line = rest.take(i - start);
                assert(line =~= chars@.subrange(start as int, i as int));
                assert(strip_cr(line) =~= token@);
                assert(rest.skip(i - start + 1) =~= chars@.skip(i + 1));
                assert(views(tokens@.push(token)) =~= views(tokens@).push(token@));
                assert(views(tokens@) + (seq![token@] + lines(chars@.skip(i + 1))) =~= views(
                    tokens@,
                ).push(token@) + lines(chars@.skip(i + 1)));
            }
            tokens.push(token);
            start = i + 1;
        }
        i += 1;
    }
    if start < chars.len() {
        let token = text_of(chars, start, chars.len());
        proof {
            let rest = chars@.skip(start as int);
            lemma_first_index_of(rest, '\n', rest.len() as int);
            assert(rest =~= token@);
            assert(views(tokens@.push(token)) =~= views(tokens@).push(token@));
        }
        tokens.push(token);
    } else {
        assert(views(tokens@) + Seq::<Seq<char>>::empty() =~= views(tokens@));
    }
    tokens
}

/// The number of characters at the start of `text` that are white space.
pub open spec fn leading_spaces(text: Seq<char>) -> int
    decreases text.len(),
{
    if text.len() == 0 || !is_space(text[0]) {
        0
    } else {
        1 + leading_spaces(text.skip(1))
    }
}

/// The number of characters at the start of `text` that are not white space.
pub open spec fn leading_word(text: Seq<char>) -> int
    decreases text.len(),
{
    if text.len() == 0 || is_space(text[0]) {
        0
    } else {
        1 + leading_word(text.skip(1))
    }
}

/// The words of `text`: its longest pieces without white space, from left to
/// right.
pub open spec fn words(text: Seq<char>) -> Seq<Seq<char>>
    decreases text.len(),
{
    let s = leading_spaces(text);
    let w = leading_word(text.skip(s));
    if 0 <= s <= text.len() && 0 < w <= text.len() - s {
        seq![text.subrange(s, s + w)] + words(text.skip(s + w))
    } else {
        Seq::empty()
    }
}

/// `leading_spaces` is the place before which all is white space and at
/// which something else stands, or the text ends.
pub proof fn lemma_leading_spaces(text: Seq<char>, n: int)
    requires
        0 <= n <= text.len(),
        forall|j: int| 0 <= j < n ==> is_space(text[j]),
        n < text.len() ==> !is_space(text[n]),
    ensures
        leading_spaces(text) == n,
    decreases n,
{
    if n > 0 {
        let rest = text.skip(1);
        assert forall|j: int| 0 <= j < n - 1 implies is_space(rest[j]) by {
            assert(rest[j] == text[j + 1]);
        }
        lemma_leading_spaces(rest, n - 1);
    }
}

/// `leading_word` is the place before which nothing is white space and at
/// which white space stands, or the text ends.
pub proof fn lemma_leading_word(text: Seq<char>, n: int)
    requires
        0 <= n <= text.len(),
        forall|j: int| 0 <= j < n ==> !is_space(text[j]),
        n < text.len() ==> is_space(text[n]),
    ensures
        leading_word(text) == n,
    decreases n,
{
    if n > 0 {
        let rest = text.skip(1);
        assert forall|j: int| 0 <= j < n - 1 implies !is_space(rest[j]) by {
            assert(rest[j] == text[j + 1]);
        }
        lemma_leading_word(rest, n - 1);
    }
}

/// White space at the start of a text adds no word.
pub proof fn lemma_words_after_space(text: Seq<char>)
    requires
        text.len() > 0,
        is_space(text[0]),
    ensures
        words(text) == words(text.skip(1)),
{
    let rest = text.skip(1);
    let s = leading_spaces(text);
    let t = leading_spaces(rest);
    lemma_leading_bounds(rest);
    assert(s == 1 + t);
    assert(text.skip(s) =~= rest.skip(t));
    let w = leading_word(text.skip(s));
    lemma_leading_bounds(rest.skip(t));
    if 0 < w {
        assert(text.subrange(s, s + w) =~= rest.subrange(t, t + w));
        assert(text.skip(s + w) =~= rest.skip(t + w));
    }
}

/// The counts of leading characters are within the text.
pub proof fn lemma_leading_bounds(text: Seq<char>)
    ensures
        0 <= leading_spaces(text) <= text.len(),
        0 <= leading_word(text) <= text.len(),
    decreases text.len(),
{
    if text.len() > 0 {
        lemma_leading_bounds(text.skip(1));
    }
}

/// Splits text into its words.
pub fn split_words(chars: &Vec<char>) -> (tokens: Vec<String>)
    ensures
        views(tokens@) == words(chars@),
{
    let mut tokens: Vec<String> = Vec::new();
    let mut start: usize = 0;
    let mut i: usize = 0;
    assert(chars@.skip(0) =~= chars@);
    assert(views(tokens@) =~= Seq::<Seq<char>>::empty());
    assert(views(tokens@) + words(chars@) =~= words(chars@));
    while i < chars.len()
        invariant
            start <= i <= chars.len(),
            words(chars@) == views(tokens@) + words(chars@.skip(start as int)),
            forall|j: int| start <= j < i ==> !is_space(chars[j]),
        decreases chars.len() - i,
    {
        if is_whitespace(chars[i]) {
            if start < i {
                let token = text_of(chars, start, i);
                proof {
                    let rest = chars@.skip(start as int);
                    lemma_leading_spaces(rest, 0);
                    assert(rest.skip(0) =~= rest);
                    lemma_leading_word(rest, i - start);
                    assert(rest.subrange(0, i - start) =~= token@);
                    assert(rest.skip(i - start) =~= chars@.skip(i as int));
                    assert(views(tokens@.push(token)) =~= views(tokens@).push(token@));
                    assert(views(tokens@) + (seq![token@] + words(chars@.skip(i as int)))
                        =~= views(tokens@).push(token@) + words(chars@.skip(i as int)));
                }
                tokens.push(token);
            }
            proof {
                let rest = chars@.skip(i as int);
                lemma_words_after_space(rest);
                assert(rest.skip(1) =~= chars@.skip(i + 1));
            }
            start = i + 1;
        }
        i += 1;
    }
    if start < chars.len() {
        let token = text_of(chars, start, chars.len());
        proof {
            let rest = chars@.skip(start as int);
            lemma_leading_spaces(rest, 0);
            assert(rest.skip(0) =~= rest);
            lemma_leading_word(rest, rest.len() as int);
            assert(rest.subrange(0, rest.len() as int) =~= token@);
            let end = rest.skip(rest.len() as int);
            assert(end.len() == 0);
            assert(words(end) =~= Seq::<Seq<char>>::empty());
            assert(views(tokens@.push(token)) =~= views(tokens@).push(token@));
            assert(views(tokens@) + (seq![token@] + Seq::<Seq<char>>::empty()) =~= views(
                tokens@,
            ).push(token@));
        }
        tokens.push(token);
    } else {
        assert(chars@.skip(start as int).len() == 0);
        assert(views(tokens@) + Seq::<Seq<char>>::empty() =~= views(tokens@));
    }
    tokens
}

/// The place of the first occurrence of `sep` in `text`, if it occurs.
pub open spec fn find(text: Seq<char>, sep: Seq<char>) -> Option<int>
    decreases text.len(),
{
    if sep.is_prefix_of(text) {
        Some(0)
    } else if text.len() == 0 {
        None
    } else {
        match find(text.skip(1), sep) {
            Some(i) => Some(i + 1),
            None => None,
        }
    }
}

/// The pieces of `text` between the occurrences of `sep`, which are found
/// from left to right and do not overlap. A text without an occurrence is one
/// piece.
pub open spec fn pieces(text: Seq<char>, sep: Seq<char>) -> Seq<Seq<char>>
    recommends
        sep.len() > 0,
    decreases text.len(),
{
    match find(text, sep) {
        Some(i) => if sep.len() > 0 && 0 <= i && i + sep.len() <= text.len() {
            seq![text.take(i)] + pieces(text.skip(i + sep.len()), sep)
        } else {
            seq![text]
        },
        None => seq![text],
    }
}

/// Each character of `text` as a text of its own.
pub open spec fn singles(text: Seq<char>) -> Seq<Seq<char>> {
    Seq::new(text.len(), |i: int| seq![text[i]])
}

/// The pieces into which `sep` splits `text`. The empty separator splits a
/// text into its characters, with an empty piece before and after them.
pub open spec fn split_on(text: Seq<char>, sep: Seq<char>) -> Seq<Seq<char>> {
    if sep.len() == 0 {
        seq![Seq::<char>::empty()] + singles(text) + seq![Seq::<char>::empty()]
    } else {
        pieces(text, sep)
    }
}

/// `find` is the first place at which `sep` occurs.
pub proof fn lemma_find_some(text: Seq<char>, sep: Seq<char>, i: int)
    requires
        0 <= i <= text.len(),
        forall|j: int| 0 <= j < i ==> !sep.is_prefix_of(#[trigger] text.skip(j)),
        sep.is_prefix_of(text.skip(i)),
    ensures
        find(text, sep) == Some(i),
    decreases i,
{
    assert(text.skip(0) =~= text);
    if i > 0 {
        let rest = text.skip(1);
        assert forall|j: int| 0 <= j < i - 1 implies !sep.is_prefix_of(#[trigger] rest.skip(j)) by {
            assert(rest.skip(j) =~= text.skip(j + 1));
        }
        assert(rest.skip(i - 1) =~= text.skip(i));
        lemma_find_some(rest, sep, i - 1);
    }
}

/// `find` finds nothing where `sep` occurs at no place.
pub proof fn lemma_find_none(text: Seq<char>, sep: Seq<char>)
    requires
        forall|j: int| 0 <= j <= text.len() ==> !sep.is_prefix_of(#[trigger] text.skip(j)),
    ensures
        find(text, sep) is None,
    decreases text.len(),
{
    assert(text.skip(0) =~= text);
    if text.len() > 0 {
        let rest = text.skip(1);
        assert forall|j: int| 0 <= j <= rest.len() implies !sep.is_prefix_of(
            #[trigger] rest.skip(j),
        ) by {
            assert(rest.skip(j) =~= text.skip(j + 1));
        }
        lemma_find_none(rest, sep);
    }
}

/// Tells whether `sep` occurs in `chars` at the place `at`.
fn occurs_at(chars: &Vec<char>, at: usize, sep: &Vec<char>) -> (r: bool)
    requires
        at <= chars.len(),
    ensures
        r == sep@.is_prefix_of(chars@.skip(at as int)),
{
    if sep.len() > chars.len() - at {
        return false;
    }
    let mut k: usize = 0;
    while k < sep.len()
        invariant
            k <= sep.len() <= chars.len() - at,
            forall|j: int| 0 <= j < k ==> sep[j] == chars[at + j],
        decreases sep.len() - k,
    {
        if sep[k] != chars[at + k] {
            assert(chars@.skip(at as int)[k as int] == chars[at + k]);
            return false;
        }
        k += 1;
    }
    assert(sep@ =~= chars@.skip(at as int).subrange(0, sep.len() as int));
    true
}

/// Splits text at the occurrences of a separator.
pub fn split_custom(chars: &Vec<char>, sep: &Vec<char>) -> (tokens: Vec<String>)
    ensures
        views(tokens@) == split_on(chars@, sep@),
{
    let mut tokens: Vec<String> = Vec::new();
    if sep.len() == 0 {
        tokens.push(String::new());
        let mut i: usize = 0;
        while i < chars.len()
            invariant
                i <= chars.len(),
                views(tokens@) == seq![Seq::<char>::empty()] + singles(chars@.take(i as int)),
            decreases chars.len() - i,
        {
            let token = text_of(chars, i, i + 1);
            proof {
                assert(token@ =~= seq![chars[i as int]]);
                assert(views(tokens@.push(token)) =~= views(tokens@).push(token@));
                assert(singles(chars@.take(i + 1)) =~= singles(chars@.take(i as int)).push(
                    token@,
                ));
            }
            tokens.push(token);
            i += 1;
        }
        let last = String::new();
        proof {
            assert(chars@.take(chars.len() as int) =~= chars@);
            assert(views(tokens@.push(last)) =~= views(tokens@).push(last@));
        }
        tokens.push(last);
        return tokens;
    }
    let mut start: usize = 0;
    let mut i: usize = 0;
    assert(chars@.skip(0) =~= chars@);
    assert(views(tokens@) =~= Seq::<Seq<char>>::empty());
    assert(views(tokens@) + pieces(chars@, sep@) =~= pieces(chars@, sep@));
    while i < chars.len()
        invariant
            start <= i <= chars.len(),
            sep.len() > 0,
            pieces(chars@, sep@) == views(tokens@) + pieces(chars@.skip(start as int), sep@),
            forall|j: int| start <= j < i ==> !sep@.is_prefix_of(#[trigger] chars@.skip(j)),
        decreases chars.len() - i,
    {
        if occurs_at(chars, i, sep) {
            let token = text_of(chars, start, i);
            proof {
                let rest = chars@.skip(start as int);
                assert forall|j: int| 0 <= j < i - start implies !sep@.is_prefix_of(
                    #[trigger] rest.skip(j),
                ) by {
                    assert(rest.skip(j) =~= chars@.skip(start + j));
                }
                assert(rest.skip(i - start) =~= chars@.skip(i as int));
                lemma_find_some(rest, sep@, i - start);
                assert(rest.take(i - start) =~= token@);
                assert(rest.skip(i - start + sep.len()) =~= chars@.skip(i + sep.len()));
                assert(views(tokens@.push(token)) =~= views(tokens@).push(token@));
                assert(views(tokens@) + (seq![token@] + pieces(chars@.skip(i + sep.len()), sep@))
                    =~= views(tokens@).push(token@) + pieces(chars@.skip(i + sep.len()), sep@));
            }
            tokens.push(token);
            i += sep.len();
            start = i;
        } else {
            i += 1;
        }
    }
    let token = text_of(chars, start, chars.len());
    proof {
        let rest = chars@.skip(start as int);
        assert forall|j: int| 0 <= j <= rest.len() implies !sep@.is_prefix_of(
            #[trigger] rest.skip(j),
        ) by {
            assert(rest.skip(j) =~= chars@.skip(start + j));
            if j == rest.len() {
                assert(rest.skip(j).len() == 0);
            }
        }
        lemma_find_none(rest, sep@);
        assert(rest =~= token@);
        assert(views(tokens@.push(token)) =~= views(tokens@).push(token@));
    }
    tokens.push(token);
    tokens
}

/// The tokens of `text` under a separator.
pub open spec fn tokens_of(text: Seq<char>, separator: Separator) -> Seq<Seq<char>> {
    match separator {
        Separator::Line => lines(text),
        Separator::Space => words(text),
        Separator::Null => records(text, '\0'),
        Separator::Custom(sep) => split_on(text, sep@),
    }
}

/// Takes the input apart into its tokens. Input that is not text in UTF-8 is
/// refused.
pub fn process_input(input: &[u8], options: &InputOptions) -> (r: Result<Vec<String>, InputError>)
    ensures
        match r {
            Ok(tokens) => valid_utf8(input@) && views(tokens@) == tokens_of(
                decode_utf8(input@),
                options.separator,
            ),
            Err(e) => !valid_utf8(input@) && e == InputError::InvalidUtf8,
        },
{
    match decode(input) {
        None => Err(InputError::InvalidUtf8),
        Some(text) => {
            proof {
                vstd::utf8::encode_utf8_decode_utf8(text@);
            }
            let chars = chars_of(text);
            let tokens = match &options.separator {
                Separator::Line => split_lines(&chars),
                Separator::Space => split_words(&chars),
                Separator::Null => split_records(&chars, '\0'),
                Separator::Custom(sep) => {
                    let sep_chars = chars_of(sep.as_str());
                    split_custom(&chars, &sep_chars)
                },
            };
            Ok(tokens)
        },
    }
}

} // verus!
