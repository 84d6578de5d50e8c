//! Reads the input into a grouped collection.
use crate::command_line::options::{GroupByOptions, GroupingSpecifier};
use crate::command_line::process_input::{process_input, tokens_of, views, InputError};
use crate::grouped_collections::grouped_collection::GroupedCollection;
use crate::grouped_collections::grouping::{add_all, lemma_same_group, places_of};
use crate::groupers::string::{count_after, key_for, Runner};
use crate::matchers::string::{lemma_counter_distinct, nth_after};
use vstd::prelude::*;
use vstd::utf8::{decode_utf8, valid_utf8};

verus! {

/// The keys of a sequence of tokens under `spec`, where the counter gives
/// `start` to the first of them.
pub open spec fn keys_for(spec: GroupingSpecifier, start: nat, tokens: Seq<String>) -> Seq<
    Seq<char>,
> {
    Seq::new(tokens.len(), |i: int| key_for(spec, counted(spec, start, i as nat), tokens[i]@))
}

/// The number that the counter gives next after `taken` tokens were grouped
/// under `spec`.
pub open spec fn counted(spec: GroupingSpecifier, start: nat, taken: nat) -> nat
    decreases taken,
{
    if taken == 0 {
        start
    } else {
        count_after(spec, counted(spec, start, (taken - 1) as nat))
    }
}

/// A counter that starts at 0 has given as many numbers as tokens were
/// grouped by it; any other grouper leaves the counter as it was.
pub proof fn lemma_counted(spec: GroupingSpecifier, start: nat, taken: nat)
    ensures
        spec is Counter ==> counted(spec, start, taken) == nth_after(start, taken),
        !(spec is Counter) ==> counted(spec, start, taken) == start,
    decreases taken,
{
    if taken > 0 {
        lemma_counted(spec, start, (taken - 1) as nat);
    }
}

/// Two tokens land in the same group exactly where their matcher gives them
/// equal keys: under a grouper other than the counter, the tokens at two
/// places are among those of one group if and only if the matcher gives the
/// same key for both.
pub proof fn lemma_same_key_same_group(
    spec: GroupingSpecifier,
    start: nat,
    tokens: Seq<String>,
    i: int,
    j: int,
)
    requires
        !(spec is Counter),
        0 <= i < tokens.len(),
        0 <= j < tokens.len(),
    ensures
        (exists|key: Seq<char>| #[trigger]
            places_of(keys_for(spec, start, tokens), key).contains(i) && places_of(
                keys_for(spec, start, tokens),
                key,
            ).contains(j)) <==> key_for(spec, 0, tokens[i]@) == key_for(spec, 0, tokens[j]@),
{
    lemma_counted(spec, start, i as nat);
    lemma_counted(spec, start, j as nat);
    lemma_same_group(keys_for(spec, start, tokens), i, j);
}

/// The counter puts each token in a group of its own: under the counter,
/// started at 0, no two of the tokens have the same key, as long as their
/// number can be held.
pub proof fn lemma_counter_keys_differ(tokens: Seq<String>, i: int, j: int)
    requires
        0 <= i < j < tokens.len(),
        tokens.len() <= usize::MAX + 1,
    ensures
        keys_for(GroupingSpecifier::Counter, 0, tokens)[i] != keys_for(
            GroupingSpecifier::Counter,
            0,
            tokens,
        )[j],
{
    lemma_counted(GroupingSpecifier::Counter, 0, i as nat);
    lemma_counted(GroupingSpecifier::Counter, 0, j as nat);
    lemma_counter_distinct(i as nat, j as nat);
}

/// Groups each of `tokens` into `map`, in turn, by the grouper that `spec`
/// names. Tokens grouped by counter are numbered from 0.
pub fn group_tokens<M: GroupedCollection<String, String>>(
    tokens: Vec<String>,
    map: &mut M,
    spec: &GroupingSpecifier,
)
    ensures
        final(map).groups() == add_all(old(map).groups(), keys_for(*spec, 0, tokens@), tokens@),
{
    let ghost all = tokens@;
    let ghost start = map.groups();
    let mut runner = Runner::new(map, spec);
    assert(keys_for(*spec, 0, all.take(0)) =~= Seq::<Seq<char>>::empty());
    for token in it: tokens
        invariant
            it.seq() == all,
            runner.spec == spec,
            runner.count() == counted(*spec, 0, it.index() as nat),
            *final(runner.map) == after_borrow(*map),
            runner.map.groups() == add_all(
                start,
                keys_for(*spec, 0, all.take(it.index() as int)),
                all.take(it.index() as int),
            ),
    {
        let ghost n = it.index() as int;
        runner.run(token);
        proof {
            let now = all.take(n + 1);
            let was = all.take(n);
            assert(now.drop_last() =~= was);
            assert(now.last() == token);
            assert(keys_for(*spec, 0, now).drop_last() =~= keys_for(*spec, 0, was));
        }
    }
    assert(all.take(all.len() as int) =~= all);
}

/// Reads `input` into `map`: takes it apart into tokens as `options.input`
/// says, and groups each token, in turn, by the grouper that
/// `options.grouping` names.
///
/// Input that is not text in UTF-8 is refused, and `map` is then left as it
/// was.
pub fn build_groups<M: GroupedCollection<String, String>>(
    input: &[u8],
    map: &mut M,
    options: &GroupByOptions,
) -> (r: Result<(), InputError>)
    ensures
        match r {
            Ok(_) => valid_utf8(input@) && exists|tokens: Seq<String>|
                views(tokens) == tokens_of(decode_utf8(input@), options.input.separator)
                    && final(map).groups() == #[trigger] add_all(
                    old(map).groups(),
                    keys_for(options.grouping, 0, tokens),
                    tokens,
                ),
            Err(e) => !valid_utf8(input@) && e == InputError::InvalidUtf8 && *final(map) == *old(
                map,
            ),
        },
{
    match process_input(input, &options.input) {
        Err(e) => Err(e),
        Ok(tokens) => {
            let ghost all = tokens@;
            group_tokens(tokens, map, &options.grouping);
            assert(map.groups() == add_all(
                old(map).groups(),
                keys_for(options.grouping, 0, all),
                all,
            ));
            Ok(())
        },
    }
}

} // verus!
