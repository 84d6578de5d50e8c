//! Runs a command over each group of a collection.
//!
//! The command is a shell command: a shell is started with the arguments that
//! make it interpret the command string. Each group is handed to its command
//! on standard input, and what the command writes to its standard output is
//! recorded under the key of the group.
use crate::command_line::command_runner::child::{Child, CommandError};
use crate::command_line::command_runner::command::Command;
use crate::command_line::command_runner::report::{Report, ReportInteriorMutable, SharedReport};
use crate::command_line::command_runner::run::{refused, run};
use crate::command_line::options::OutputOptions;
use crate::command_line::record_writer::{record_bytes, records_bytes, texts};
use crate::grouped_collections::grouped_collection::{listed, lists, GroupedCollection};
use crate::grouped_collections::key::GroupKey;
use crate::grouped_collections::sorted_map::SortedMap;
use rayon::iter::{IntoParallelRefIterator, ParallelIterator};
use vstd::prelude::*;
use vstd::string::*;
use vstd::utf8::encode_utf8;

verus! {

broadcast use vstd::string::group_string_axioms;

/// What it takes to run a shell command over a group.
#[derive(Clone, Debug, Eq, PartialEq)]
pub struct ShellCommandOptions {
    /// The path of the shell.
    pub shell: String,
    /// The arguments of the shell, which end with the command string.
    pub shell_args: Vec<String>,
    /// What is written to the command after each value.
    pub line_separator: String,
    /// Whether the command gets the key of its group rather than the values.
    pub only_group_names: bool,
}

/// The arguments with which a shell interprets `cmd`.
pub open spec fn shell_arguments(cmd: Seq<char>) -> Seq<Seq<char>> {
    seq![seq!['-', 'c'], cmd]
}

/// Returns the arguments with which a shell interprets `cmd`: `-c` and the
/// command string.
pub fn shell_args(cmd: &str) -> (args: Vec<String>)
    ensures
        texts(args@) == shell_arguments(cmd@),
{
    proof {
        reveal_strlit("-c");
    }
    assert("-c"@ =~= seq!['-', 'c']);
    let mut args: Vec<String> = Vec::new();
    args.push("-c".to_string());
    args.push(cmd.to_string());
    assert(texts(args@) =~= shell_arguments(cmd@));
    args
}

/// The shell command that `options` asks for, where it asks for one: the
/// command string for `shell`, and the separator and the choice between keys
/// and values as `options` has them.
pub open spec fn requested(options: OutputOptions, shell: Seq<char>, r: Option<
    ShellCommandOptions,
>) -> bool {
    match options.run_command {
        None => r is None,
        Some(cmd) => r matches Some(o) && o.shell@ == shell && texts(o.shell_args@)
            == shell_arguments(cmd@) && o.line_separator@ == options.separator.spec_sep()
            && o.only_group_names == options.only_group_names,
    }
}

/// Returns what it takes to run the command that `options` asks for in
/// `shell`, or `None` where `options` asks for no command.
pub fn shell_command_options(options: &OutputOptions, shell: String) -> (r: Option<
    ShellCommandOptions,
>)
    ensures
        requested(*options, shell@, r),
{
    match &options.run_command {
        None => None,
        Some(cmd) => Some(
            ShellCommandOptions {
                shell,
                shell_args: shell_args(cmd.as_str()),
                line_separator: options.separator.sep(),
                only_group_names: options.only_group_names,
            },
        ),
    }
}

/// What the command of a group reads from its standard input: the key of the
/// group, or each of its values, each followed by the separator.
pub open spec fn command_input(options: ShellCommandOptions, key: Seq<char>, values: Seq<
    Seq<char>,
>) -> Seq<u8> {
    if options.only_group_names {
        record_bytes(key, encode_utf8(options.line_separator@))
    } else {
        records_bytes(values, encode_utf8(options.line_separator@))
    }
}

/// Whether `output` is what the command of `options` may write where it runs
/// over the group of `key` and `values`.
pub open spec fn captured<C: Command>(
    options: ShellCommandOptions,
    key: Seq<char>,
    values: Seq<Seq<char>>,
    output: Seq<u8>,
) -> bool {
    exists|program: String, arguments: Vec<String>, input: Vec<u8>, written: Vec<u8>| #[trigger]
        C::Child::outcome(program, arguments, input, written) && program@ == options.shell@
            && texts(arguments@) == texts(options.shell_args@) && input@ == command_input(
            options,
            key,
            values,
        ) && written@ == output
}

/// Whether the command of `options` may fail with `error` where it runs over
/// the group of `key` and `values`.
pub open spec fn failed<C: Command>(
    options: ShellCommandOptions,
    key: Seq<char>,
    values: Seq<Seq<char>>,
    error: CommandError,
) -> bool {
    exists|program: String, arguments: Vec<String>, input: Vec<u8>| #[trigger]
        C::Child::failure(program, arguments, input, error) && program@ == options.shell@
            && texts(arguments@) == texts(options.shell_args@) && input@ == command_input(
            options,
            key,
            values,
        )
}

/// Whether the command of `options` ends a run with `error` where it runs
/// over the group of `key` and `values`: it cannot be started, or it fails.
pub open spec fn ended<C: Command>(
    options: ShellCommandOptions,
    key: Seq<char>,
    values: Seq<Seq<char>>,
    error: CommandError,
) -> bool {
    refused::<C>(options.shell@, texts(options.shell_args@), error) || failed::<C>(
        options,
        key,
        values,
        error,
    )
}

/// Runs the command of `options` over one group and returns what it wrote to
/// its standard output.
///
/// The command gets the key of the group where `options.only_group_names` is
/// set, else its values; each is followed by `options.line_separator`. Whether
/// the command succeeded is not looked at.
pub fn capture_command_output<C: Command>(
    options: &ShellCommandOptions,
    key: &str,
    values: &[String],
) -> (r: Result<Vec<u8>, CommandError>)
    ensures
        r matches Ok(output) ==> captured::<C>(*options, key@, texts(values@), output@),
        r matches Err(error) ==> ended::<C>(*options, key@, texts(values@), error),
{
    let mut handle = match run::<C>(
        options.shell.as_str(),
        options.shell_args.as_slice(),
        options.line_separator.as_str(),
    ) {
        Ok(handle) => handle,
        Err(e) => {
            return Err(e);
        },
    };
    if options.only_group_names {
        handle.stdin.write(key);
    } else {
        handle.stdin.write_all(values);
    }
    assert(handle.stdin.writer@ =~= command_input(*options, key@, texts(values@)));
    let ghost program = handle.child.program();
    let ghost arguments = handle.child.arguments();
    let ghost input = handle.stdin.writer;
    let r = handle.wait_with_output();
    proof {
        if r is Ok {
            assert(C::Child::outcome(program, arguments, input, r->Ok_0));
        } else {
            assert(C::Child::failure(program, arguments, input, r->Err_0));
        }
    }
    r
}

/// Whether `now` is `before` with the output of the command of each group of
/// `groups` recorded under the key of the group.
pub open spec fn all_captured<C: Command>(
    options: ShellCommandOptions,
    groups: Map<Seq<char>, Seq<String>>,
    before: Map<Seq<char>, Vec<u8>>,
    now: Map<Seq<char>, Vec<u8>>,
) -> bool {
    &&& forall|k: Seq<char>| #[trigger]
        now.contains_key(k) <==> before.contains_key(k) || groups.contains_key(k)
    &&& forall|k: Seq<char>| #[trigger]
        groups.contains_key(k) ==> captured::<C>(options, k, texts(groups[k]), now[k]@)
    &&& forall|k: Seq<char>|
        before.contains_key(k) && !groups.contains_key(k) ==> #[trigger] now[k] == before[k]
}

/// Records how the command of the group of `key` ended: what it wrote is
/// reported under `key`, and its failure is handed on, with the report left as
/// it was.
pub fn record_output<R: Report<String, Vec<u8>>>(
    results: &mut R,
    key: &String,
    outcome: Result<Vec<u8>, CommandError>,
) -> (r: Result<(), CommandError>)
    ensures
        match outcome {
            Ok(output) => r is Ok && final(results).reports() == old(results).reports().insert(
                key@,
                output,
            ),
            Err(e) => r == Err::<(), CommandError>(e) && final(results).reports() == old(
                results,
            ).reports(),
        },
{
    match outcome {
        Ok(output) => {
            results.report(key.clone(), output);
            Ok(())
        },
        Err(e) => Err(e),
    }
}

/// Whether what a child of `C` writes depends on nothing but its program, its
/// arguments and what it reads.
pub open spec fn deterministic<C: Command>() -> bool {
    forall|
        p1: String,
        a1: Vec<String>,
        i1: Vec<u8>,
        o1: Vec<u8>,
        p2: String,
        a2: Vec<String>,
        i2: Vec<u8>,
        o2: Vec<u8>,
    |
        #![trigger C::Child::outcome(p1, a1, i1, o1), C::Child::outcome(p2, a2, i2, o2)]
        C::Child::outcome(p1, a1, i1, o1) && C::Child::outcome(p2, a2, i2, o2) && p1@ == p2@
            && texts(a1@) == texts(a2@) && i1@ == i2@ ==> o1@ == o2@
}

/// Two runs over the same groups with the same options leave the same
/// outputs under the same keys, whichever of them ran one command at a time
/// and whichever ran several, where what a command writes depends on nothing
/// but the command and what it reads.
pub proof fn lemma_strategies_agree<C: Command>(
    options: ShellCommandOptions,
    groups: Map<Seq<char>, Seq<String>>,
    before: Map<Seq<char>, Vec<u8>>,
    one: Map<Seq<char>, Vec<u8>>,
    other: Map<Seq<char>, Vec<u8>>,
)
    requires
        deterministic::<C>(),
        all_captured::<C>(options, groups, before, one),
        all_captured::<C>(options, groups, before, other),
    ensures
        one.dom() =~= other.dom(),
        forall|k: Seq<char>| #[trigger] one.contains_key(k) ==> one[k]@ == other[k]@,
{
    assert forall|k: Seq<char>| one.contains_key(k) <==> other.contains_key(k) by {}
    assert forall|k: Seq<char>| #[trigger] one.contains_key(k) implies one[k]@ == other[k]@ by {
        if groups.contains_key(k) {
            assert(captured::<C>(options, k, texts(groups[k]), one[k]@));
            assert(captured::<C>(options, k, texts(groups[k]), other[k]@));
            let (p1, a1, i1, o1) = choose|
                p1: String,
                a1: Vec<String>,
                i1: Vec<u8>,
                o1: Vec<u8>,
            | #[trigger]
                C::Child::outcome(p1, a1, i1, o1) && p1@ == options.shell@ && texts(a1@) == texts(
                    options.shell_args@,
                ) && i1@ == command_input(options, k, texts(groups[k])) && o1@ == one[k]@;
            let (p2, a2, i2, o2) = choose|
                p2: String,
                a2: Vec<String>,
                i2: Vec<u8>,
                o2: Vec<u8>,
            | #[trigger]
                C::Child::outcome(p2, a2, i2, o2) && p2@ == options.shell@ && texts(a2@) == texts(
                    options.shell_args@,
                ) && i2@ == command_input(options, k, texts(groups[k])) && o2@ == other[k]@;
            assert(C::Child::outcome(p1, a1, i1, o1) && C::Child::outcome(p2, a2, i2, o2));
        } else {
            assert(before.contains_key(k));
            assert(one[k] == before[k]);
            assert(other[k] == before[k]);
        }
    }
}

/// Whether `error` is one with which the command of a group of `groups` may
/// end a run.
pub open spec fn some_ended<C: Command>(
    options: ShellCommandOptions,
    groups: Map<Seq<char>, Seq<String>>,
    error: CommandError,
) -> bool {
    exists|k: Seq<char>| #[trigger]
        groups.contains_key(k) && ended::<C>(options, k, texts(groups[k]), error)
}

/// Records the output of the command of each group of `map` in `results`, in
/// the order of `pairs`, which is that in which `map` yields its groups. The
/// output of a group is what `collected` holds for its key; where `collected`
/// holds nothing for the key, the command of the group is run now.
///
/// The first command that cannot be run ends the run with its error.
fn record_each<C: Command, M: GroupedCollection<String, String>, R: Report<String, Vec<u8>>>(
    map: &M,
    pairs: &Vec<(&String, &Vec<String>)>,
    options: &ShellCommandOptions,
    collected: &SortedMap<String, Vec<u8>>,
    results: R,
) -> (r: Result<R, CommandError>)
    requires
        listed(pairs@) == map.listing(),
        lists(map.listing(), map.groups()),
        forall|k: Seq<char>| #[trigger]
            collected.entries().contains_key(k) ==> map.groups().contains_key(k) && captured::<C>(
                *options,
                k,
                texts(map.groups()[k]),
                collected.entries()[k]@,
            ),
    ensures
        r matches Ok(report) ==> all_captured::<C>(
            *options,
            map.groups(),
            results.reports(),
            report.reports(),
        ),
        r matches Err(error) ==> some_ended::<C>(*options, map.groups(), error),
        map.listing().len() == 0 ==> r is Ok,
{
    let ghost before = results.reports();
    let ghost groups = map.groups();
    let ghost list = map.listing();
    let mut results = results;
    let mut i: usize = 0;
    while i < pairs.len()
        invariant
            i <= pairs.len(),
            list == listed(pairs@),
            list == map.listing(),
            groups == map.groups(),
            lists(list, groups),
            forall|k: Seq<char>| #[trigger]
                collected.entries().contains_key(k) ==> groups.contains_key(k) && captured::<C>(
                    *options,
                    k,
                    texts(groups[k]),
                    collected.entries()[k]@,
                ),
            forall|k: Seq<char>| #[trigger]
                results.reports().contains_key(k) <==> before.contains_key(k) || exists|j: int|
                    0 <= j < i && (#[trigger] list[j]).0 == k,
            forall|j: int|
                0 <= j < i ==> captured::<C>(
                    *options,
                    (#[trigger] list[j]).0,
                    texts(list[j].1),
                    results.reports()[list[j].0]@,
                ),
            forall|k: Seq<char>|
                before.contains_key(k) && (forall|j: int|
                    0 <= j < i ==> (#[trigger] list[j]).0 != k) ==> #[trigger] results.reports()[k]
                    == before[k],
        decreases pairs.len() - i,
    {
        let (key, values) = pairs[i];
        assert(list[i as int] == (key@, values@));
        assert(groups.contains_key(list[i as int].0));
        assert(groups[list[i as int].0] == list[i as int].1);
        let outcome = match collected.get(key) {
            Some(output) => {
                let output = output.clone();
                assert(output@ =~= collected.entries()[key@]@);
                Ok(output)
            },
            None => capture_command_output::<C>(options, key.as_str(), values.as_slice()),
        };
        let ghost was = results.reports();
        let ghost written = outcome;
        match record_output(&mut results, key, outcome) {
            Ok(_) => {},
            Err(e) => {
                assert(groups.contains_key(key@) && ended::<C>(
                    *options,
                    key@,
                    texts(groups[key@]),
                    e,
                ));
                return Err(e);
            },
        }
        proof {
            let output = written->Ok_0;
            assert(results.reports() == was.insert(key@, output));
            assert forall|k: Seq<char>| #[trigger]
                results.reports().contains_key(k) <==> before.contains_key(k) || exists|j: int|
                    0 <= j < i + 1 && (#[trigger] list[j]).0 == k by {
                if k == key@ {
                    assert(list[i as int].0 == k);
                }
                if was.contains_key(k) && !before.contains_key(k) {
                    let j = choose|j: int| 0 <= j < i && (#[trigger] list[j]).0 == k;
                    assert(list[j].0 == k);
                }
            }
            assert forall|j: int| 0 <= j < i + 1 implies captured::<C>(
                *options,
                (#[trigger] list[j]).0,
                texts(list[j].1),
                results.reports()[list[j].0]@,
            ) by {
                if j < i {
                    assert(list[j].0 != list[i as int].0);
                }
            }
        }
        i += 1;
    }
    proof {
        let now = results.reports();
        assert forall|k: Seq<char>| #[trigger]
            now.contains_key(k) <==> before.contains_key(k) || groups.contains_key(k) by {
            if groups.contains_key(k) {
                let j = choose|j: int| 0 <= j < list.len() && (#[trigger] list[j]).0 == k;
                assert(list[j].0 == k);
            }
            if now.contains_key(k) && !before.contains_key(k) {
                let j = choose|j: int| 0 <= j < i && (#[trigger] list[j]).0 == k;
                assert(groups.contains_key(list[j].0));
            }
        }
        assert forall|k: Seq<char>| #[trigger] groups.contains_key(k) implies captured::<C>(
            *options,
            k,
            texts(groups[k]),
            now[k]@,
        ) by {
            let j = choose|j: int| 0 <= j < list.len() && (#[trigger] list[j]).0 == k;
            assert(groups[list[j].0] == list[j].1);
        }
        assert forall|k: Seq<char>|
            before.contains_key(k) && !groups.contains_key(k) implies #[trigger] now[k]
            == before[k] by {
            assert forall|j: int| 0 <= j < i implies (#[trigger] list[j]).0 != k by {
                assert(groups.contains_key(list[j].0));
            }
        }
    }
    Ok(results)
}

/// Runs the command of `options` over each group of `map`, one group at a
/// time in the order in which `map` yields them, and records what each
/// command wrote under the key of its group.
///
/// The first command that cannot be run ends the run with its error.
pub fn run_commands_sequentially<C: Command, M: GroupedCollection<String, String>, R: Report<
    String,
    Vec<u8>,
>>(map: &M, options: ShellCommandOptions, results: R) -> (r: Result<R, CommandError>)
    ensures
        r matches Ok(report) ==> all_captured::<C>(
            options,
            map.groups(),
            results.reports(),
            report.reports(),
        ),
        r matches Err(error) ==> some_ended::<C>(options, map.groups(), error),
        map.listing().len() == 0 ==> r is Ok,
{
    let pairs = map.iter();
    let collected: SortedMap<String, Vec<u8>> = SortedMap::new();
    record_each::<C, M, R>(map, &pairs, &options, &collected, results)
}

/// The reports that the workers of a parallel run share.
pub type Collected = SharedReport<String, Vec<u8>, SortedMap<String, Vec<u8>>>;

/// Runs the command of `options` over one group and reports what it wrote to
/// `shared`, under the key of the group.
///
/// It succeeds where the command ran to its end: the command then wrote an
/// output that `shared` takes for the key, and that output was reported. It
/// fails with the error with which the command could not be started or
/// failed, and nothing is reported then. What `shared` holds afterwards is
/// not said here, since others may report to it at the same time.
pub fn run_one<C: Command>(
    options: &ShellCommandOptions,
    key: &String,
    values: &Vec<String>,
    shared: &Collected,
) -> (r: Result<(), CommandError>)
    requires
        forall|output: Vec<u8>|
            captured::<C>(*options, key@, texts(values@), output@) ==> #[trigger] shared.allows(
                key@,
                output,
            ),
    ensures
        r is Ok ==> exists|output: Vec<u8>| #[trigger]
            shared.allows(key@, output) && captured::<C>(
                *options,
                key@,
                texts(values@),
                output@,
            ),
        r matches Err(error) ==> ended::<C>(*options, key@, texts(values@), error),
{
    match capture_command_output::<C>(options, key.as_str(), values.as_slice()) {
        Ok(output) => {
            assert(shared.allows(key@, output) && captured::<C>(
                *options,
                key@,
                texts(values@),
                output@,
            ));
            shared.report(key.clone(), output);
            Ok(())
        },
        Err(e) => Err(e),
    }
}

/// `rayon`'s `par_iter` and `try_for_each`: calls [`run_one`] for the pairs
/// of `pairs`, on the threads of the pool and in no particular order, until
/// all calls have returned or one of them has failed. An error that it
/// returns is the error that one of these calls returned, which is one that
/// `run_one` says of its pair; which one, where several calls fail, is not
/// said. Nothing is claimed of a success.
#[verifier::external_body]
fn each_in_parallel<C: Command>(
    pairs: &Vec<(&String, &Vec<String>)>,
    options: &ShellCommandOptions,
    shared: &Collected,
) -> (r: Result<(), CommandError>)
    requires
        forall|i: int, output: Vec<u8>|
            0 <= i < pairs.len() && captured::<C>(
                *options,
                pairs[i].0@,
                texts(pairs[i].1@),
                output@,
            ) ==> #[trigger] shared.allows(pairs[i].0@, output),
    ensures
        r matches Err(error) ==> exists|i: int|
            0 <= i < pairs.len() && #[trigger] ended::<C>(
                *options,
                pairs[i].0@,
                texts(pairs[i].1@),
                error,
            ),
{
    pairs.par_iter().try_for_each(|pair| run_one::<C>(options, pair.0, pair.1, shared))
}

/// Runs the command of `options` over each group of `map`, several groups at
/// a time and in no particular order, and records what each command wrote
/// under the key of its group.
///
/// The workers report to a shared report of their own. When all of them have
/// ended, what they reported is recorded in `results`, in the order in which
/// `map` yields the groups; the command of a group that no worker reported on
/// is run then. A command that cannot be run ends the run with its error.
pub fn run_commands_in_parallel<C: Command, M: GroupedCollection<String, String>, R: Report<
    String,
    Vec<u8>,
>>(map: &M, options: ShellCommandOptions, results: R) -> (r: Result<R, CommandError>)
    ensures
        r matches Ok(report) ==> all_captured::<C>(
            options,
            map.groups(),
            results.reports(),
            report.reports(),
        ),
        r matches Err(error) ==> some_ended::<C>(options, map.groups(), error),
        map.listing().len() == 0 ==> r is Ok,
{
    let ghost groups = map.groups();
    let pairs = map.iter();
    let ghost list = listed(pairs@);
    let ghost allowed = |k: Seq<char>, v: Vec<u8>|
        groups.contains_key(k) && captured::<C>(options, k, texts(groups[k]), v@);
    let shared: Collected = SharedReport::restricted(SortedMap::new(), Ghost(allowed));
    assert forall|i: int, output: Vec<u8>|
        0 <= i < pairs.len() && captured::<C>(
            options,
            pairs[i].0@,
            texts(pairs[i].1@),
            output@,
        ) implies #[trigger] shared.allows(pairs[i].0@, output) by {
        assert(list[i] == (pairs[i].0@, pairs[i].1@));
        assert(groups.contains_key(list[i].0));
    }
    match each_in_parallel::<C>(&pairs, &options, &shared) {
        Ok(_) => {},
        Err(e) => {
            proof {
                let i = choose|i: int|
                    0 <= i < pairs.len() && #[trigger] ended::<C>(
                        options,
                        pairs[i].0@,
                        texts(pairs[i].1@),
                        e,
                    );
                assert(list[i] == (pairs[i].0@, pairs[i].1@));
                assert(groups.contains_key(list[i].0));
                assert(groups[list[i].0] == list[i].1);
                assert(groups.contains_key(pairs[i].0@) && ended::<C>(
                    options,
                    pairs[i].0@,
                    texts(groups[pairs[i].0@]),
                    e,
                ));
            }
            return Err(e);
        },
    }
    let collected = shared.into_inner();
    assert forall|k: Seq<char>| #[trigger] collected.entries().contains_key(k) implies groups.contains_key(
        k,
    ) && captured::<C>(options, k, texts(groups[k]), collected.entries()[k]@) by {
        assert(collected.reports().contains_key(k));
        assert(shared.allows(k, collected.reports()[k]));
        assert(allowed(k, collected.entries()[k]));
    }
    record_each::<C, M, R>(map, &pairs, &options, &collected, results)
}

/// Whether `r` is what running the command that `options` asks for in
/// `shell` over `groups` may give: nothing where `options` asks for no
/// command; else the outputs of the command of each group by the key of the
/// group, and nothing else, or an error with which the command of one of the
/// groups could not be started or failed.
pub open spec fn commands_run<C: Command>(
    groups: Map<Seq<char>, Seq<String>>,
    options: OutputOptions,
    shell: Seq<char>,
    r: Option<Result<SortedMap<String, Vec<u8>>, CommandError>>,
) -> bool {
    match options.run_command {
        None => r is None,
        Some(_) => r matches Some(results) && (results matches Ok(report) ==> exists|
            asked: ShellCommandOptions,
        |
            requested(options, shell, Some(asked)) && #[trigger] all_captured::<C>(
                asked,
                groups,
                Map::empty(),
                report.entries(),
            )) && (results matches Err(error) ==> exists|asked: ShellCommandOptions|
            requested(options, shell, Some(asked)) && #[trigger] some_ended::<C>(
                asked,
                groups,
                error,
            )),
    }
}

/// Runs the command that `options` asks for, if it asks for one, over each
/// group of `map`, and returns what each command wrote to its standard
/// output, by the key of its group. The commands are run in `shell`.
///
/// Where `options.parallel` is set, several commands run at a time and in no
/// particular order; else one command runs at a time, in the order in which
/// `map` yields the groups. The outputs are the same either way.
pub fn run_command<C: Command, M: GroupedCollection<String, String>>(
    map: &M,
    options: &OutputOptions,
    shell: String,
) -> (r: Option<Result<SortedMap<String, Vec<u8>>, CommandError>>)
    ensures
        commands_run::<C>(map.groups(), *options, shell@, r),
{
    let parallel = options.parallel;
    match shell_command_options(options, shell) {
        None => None,
        Some(asked) => {
            let ghost requested_options = asked;
            let results: SortedMap<String, Vec<u8>> = SortedMap::new();
            let results = if parallel {
                run_commands_in_parallel::<C, M, SortedMap<String, Vec<u8>>>(map, asked, results)
            } else {
                run_commands_sequentially::<C, M, SortedMap<String, Vec<u8>>>(map, asked, results)
            };
            proof {
                if results is Ok {
                    assert(all_captured::<C>(
                        requested_options,
                        map.groups(),
                        Map::empty(),
                        results->Ok_0.entries(),
                    ));
                } else {
                    assert(some_ended::<C>(requested_options, map.groups(), results->Err_0));
                }
            }
            Some(results)
        },
    }
}

} // verus!
