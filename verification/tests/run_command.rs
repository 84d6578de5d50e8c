use groupby::command_line::build_groups::build_groups;
use groupby::command_line::command_runner::child::{Child, CommandError};
use groupby::command_line::command_runner::command::{Command, Stdio};
use groupby::command_line::command_runner::report::{
    Report, ReportInteriorMutable, SharedReport,
};
use groupby::command_line::options::{
    GroupByOptions, GroupingSpecifier, InputOptions, OutputOptions, Separator,
};
use groupby::command_line::run_command::{
    capture_command_output, record_output, run_command, run_commands_in_parallel,
    run_commands_sequentially, run_one, shell_args, shell_command_options, ShellCommandOptions,
};
use groupby::command_line::write_results::write_results;
use groupby::grouped_collections::hashed_map::HashedMap;
use groupby::grouped_collections::sorted_map::SortedMap;

// A shell that starts no process. It knows the commands `cat`, which writes
// what it reads, `wc -l`, which counts the line feeds that it reads, and
// `false`, which cannot be waited for. Any other command cannot be started.
struct Shell {
    program: String,
    arguments: Vec<String>,
    input: Stdio,
    output: Stdio,
}

struct ShellChild {
    arguments: Vec<String>,
    program: String,
    stdin: Option<Vec<u8>>,
}

fn known(arguments: &[String]) -> bool {
    arguments.len() == 2
        && arguments[0] == "-c"
        && ["cat", "wc -l", "false"].contains(&arguments[1].as_str())
}

fn evaluate(arguments: &[String], input: &[u8]) -> Result<Vec<u8>, CommandError> {
    match arguments[1].as_str() {
        "cat" => Ok(input.to_vec()),
        "wc -l" => {
            let lines = input.iter().filter(|b| **b == b'\n').count();
            Ok(format!("{}\n", lines).into_bytes())
        }
        _ => Err(CommandError::Wait("the child was lost".to_string())),
    }
}

impl Child for ShellChild {
    fn program(&self) -> String {
        self.program.clone()
    }

    fn arguments(&self) -> Vec<String> {
        self.arguments.clone()
    }

    fn has_stdin(&self) -> bool {
        self.stdin.is_some()
    }

    fn outcome(_program: String, arguments: Vec<String>, input: Vec<u8>, output: Vec<u8>) -> bool {
        matches!(evaluate(&arguments, &input), Ok(o) if o == output)
    }

    fn failure(
        _program: String,
        arguments: Vec<String>,
        input: Vec<u8>,
        error: CommandError,
    ) -> bool {
        evaluate(&arguments, &input).is_err() && matches!(error, CommandError::Wait(_))
    }

    fn stdin(&mut self) -> Vec<u8> {
        self.stdin.take().unwrap()
    }

    fn wait_with_output(self, input: Vec<u8>) -> Result<Vec<u8>, CommandError> {
        evaluate(&self.arguments, &input)
    }
}

impl Command for Shell {
    type Child = ShellChild;

    fn program(&self) -> String {
        self.program.clone()
    }

    fn arguments(&self) -> Vec<String> {
        self.arguments.clone()
    }

    fn input(&self) -> Stdio {
        self.input
    }

    fn output(&self) -> Stdio {
        self.output
    }

    fn refusal(_program: String, arguments: Vec<String>, error: CommandError) -> bool {
        !known(&arguments) && matches!(error, CommandError::Spawn(_))
    }

    fn new(program: &str) -> Self {
        Shell {
            program: program.to_string(),
            arguments: vec![],
            input: Stdio::Inherit,
            output: Stdio::Inherit,
        }
    }

    fn args(&mut self, args: &[String]) {
        self.arguments.extend(args.iter().cloned());
    }

    fn spawn(&mut self) -> Result<ShellChild, CommandError> {
        if !known(&self.arguments) {
            return Err(CommandError::Spawn("command not found".to_string()));
        }
        Ok(ShellChild {
            arguments: self.arguments.clone(),
            program: self.program.clone(),
            stdin: match self.input {
                Stdio::Piped => Some(vec![]),
                _ => None,
            },
        })
    }

    fn stdin(&mut self, cfg: Stdio) {
        self.input = cfg;
    }

    fn stdout(&mut self, cfg: Stdio) {
        self.output = cfg;
    }
}

fn current_shell() -> String {
    "/bin/sh".to_string()
}

// Returns a ShellCommandOptions for use in run* tests.
fn options(only_group_names: bool) -> ShellCommandOptions {
    ShellCommandOptions {
        shell: current_shell(),
        shell_args: shell_args("cat"),
        line_separator: "   ".to_string(),
        only_group_names,
    }
}

fn map() -> SortedMap<String, Vec<String>> {
    let mut map = SortedMap::new();
    map.insert(
        "Dogs".to_string(),
        vec!["Lassy".to_string(), "Buddy".to_string()],
    );
    map.insert(
        "Cats".to_string(),
        vec!["Meowser".to_string(), "Mittens".to_string()],
    );
    map
}

fn results() -> SortedMap<String, Vec<u8>> {
    SortedMap::new()
}

fn expected_results(
    map: &SortedMap<String, Vec<String>>,
    separator: &str,
    only_group_names: bool,
) -> Vec<(String, Vec<u8>)> {
    let mut expected = vec![];
    for (key, vector) in map.iter() {
        if only_group_names {
            // Group name plus separator.
            let value = key.to_owned() + separator;
            expected.push((key.clone(), value.as_bytes().to_vec()));
        } else {
            expected.push((
                key.clone(),
                vector
                    .iter()
                    .map(|s| s.to_owned() + separator)
                    .collect::<String>()
                    .as_bytes()
                    .to_vec(),
            ));
        }
    }
    expected
}

fn pairs(report: &SortedMap<String, Vec<u8>>) -> Vec<(String, Vec<u8>)> {
    report
        .iter()
        .into_iter()
        .map(|(k, v)| (k.clone(), v.clone()))
        .collect()
}

fn options_for(run_command: Option<String>, only_group_names: bool) -> GroupByOptions {
    GroupByOptions {
        input: InputOptions {
            separator: Separator::Line,
        },
        grouping: GroupingSpecifier::FirstChars(1),
        output: OutputOptions {
            separator: Separator::Line,
            only_group_names,
            run_command,
            parallel: true,
            headers: true,
            stats: false,
        },
    }
}

// Runs the command that `options` asks for both ways and returns both reports.
fn run_both(
    map: &SortedMap<String, Vec<String>>,
    options: &OutputOptions,
) -> (Vec<(String, Vec<u8>)>, Vec<(String, Vec<u8>)>) {
    let mut options = options.clone();
    options.parallel = false;
    let sequential = run_command::<Shell, _>(map, &options, current_shell()).unwrap().unwrap();
    options.parallel = true;
    let parallel = run_command::<Shell, _>(map, &options, current_shell()).unwrap().unwrap();
    (pairs(&sequential), pairs(&parallel))
}

#[test]
fn run_command_outputs_only_group_names() {
    let map = map();
    let options = options_for(Some(String::from("cat")), true);

    let expected = expected_results(&map, &options.output.separator.sep(), true);
    let (sequential_results, parallel_results) = run_both(&map, &options.output);

    assert_eq!(expected, sequential_results);
    assert_eq!(expected, parallel_results);
}

#[test]
fn run_command_outputs_results_correctly() {
    let map = map();
    let options = options_for(Some(String::from("cat")), false);

    let expected = expected_results(&map, &options.output.separator.sep(), false);
    let (sequential_results, parallel_results) = run_both(&map, &options.output);

    assert_eq!(expected, sequential_results);
    assert_eq!(expected, parallel_results);
}

#[test]
fn run_command_uses_output_separator_correctly() {
    let map = map();
    let mut options = options_for(Some(String::from("cat")), false);
    options.output.separator = Separator::Space;

    let expected = expected_results(&map, &options.output.separator.sep(), false);
    let (sequential_results, parallel_results) = run_both(&map, &options.output);

    assert_eq!(expected, sequential_results);
    assert_eq!(expected, parallel_results);
}

#[test]
fn run_command_asks_for_nothing_without_a_command() {
    let options = options_for(None, false);
    assert_eq!(shell_command_options(&options.output, current_shell()), None);
    assert!(run_command::<Shell, _>(&map(), &options.output, current_shell()).is_none());
}

#[test]
fn run_command_hands_on_the_error_that_ended_the_run() {
    for parallel in [false, true] {
        let mut options = options_for(Some("no-such-command".to_string()), false);
        options.output.parallel = parallel;
        assert!(matches!(
            run_command::<Shell, _>(&map(), &options.output, current_shell()),
            Some(Err(CommandError::Spawn(_)))
        ));
    }
}

#[test]
fn records_the_output_or_hands_on_the_failure() {
    let mut report = results();
    let key = "dogs".to_string();
    assert!(record_output(&mut report, &key, Ok(b"wau".to_vec())).is_ok());
    assert_eq!(pairs(&report), vec![("dogs".to_string(), b"wau".to_vec())]);
    let failure = Err(CommandError::Wait("gone".to_string()));
    assert!(matches!(
        record_output(&mut report, &key, failure),
        Err(CommandError::Wait(message)) if message == "gone"
    ));
    assert_eq!(pairs(&report), vec![("dogs".to_string(), b"wau".to_vec())]);
}

#[test]
fn run_command_sets_up_the_shell_command() {
    let mut options = options_for(Some("sort | uniq".to_string()), true);
    options.output.separator = Separator::Custom("::".to_string());
    let expected = ShellCommandOptions {
        shell: "/bin/zsh".to_string(),
        shell_args: vec!["-c".to_string(), "sort | uniq".to_string()],
        line_separator: "::".to_string(),
        only_group_names: true,
    };
    assert_eq!(
        shell_command_options(&options.output, "/bin/zsh".to_string()),
        Some(expected)
    );
}

#[test]
fn run_command_returns_reasonable_shell_args() {
    // Some reasonably complex command that would require a shell to interpret it.
    let cmd = "head < /dev/random | uniq >> random_strings.txt";

    let expected = vec!["-c".to_string(), cmd.to_string()];
    assert_eq!(expected, shell_args(cmd));
}

#[test]
fn run_command_returns_correct_results() {
    let map = map();
    let expected = expected_results(&map, "   ", false);

    let results = run_commands_in_parallel::<Shell, _, _>(&map, options(false), results());
    assert_eq!(expected, pairs(&results.unwrap()));

    let results = run_commands_sequentially::<Shell, _, _>(&map, options(false), self::results());
    assert_eq!(expected, pairs(&results.unwrap()));
}

fn kv() -> (&'static str, Vec<String>) {
    (
        "dogs",
        vec!["Fido".to_string(), "Sam".to_string(), "Spot".to_string()],
    )
}

#[test]
fn run_command_with_only_group_names_works() {
    let options = options(true);
    let (key, values) = kv();

    let expected = "dogs   ".to_string();
    let actual = capture_command_output::<Shell>(&options, key, &values).unwrap();
    let actual = String::from_utf8_lossy(&actual);
    assert_eq!(expected, actual);
}

#[test]
fn run_command_with_group_contents_works() {
    let options = options(false);
    let (key, values) = kv();

    let expected = "Fido   Sam   Spot   ".to_string();
    let actual = capture_command_output::<Shell>(&options, key, &values).unwrap();
    let actual = String::from_utf8_lossy(&actual);
    assert_eq!(expected, actual);
}

#[test]
fn capture_command_output_feeds_nothing_for_an_empty_group() {
    let actual = capture_command_output::<Shell>(&options(false), "none", &[]).unwrap();
    assert_eq!(actual, b"");
}

#[test]
fn a_command_that_cannot_be_started_ends_the_run() {
    let mut options = options(false);
    options.shell_args = shell_args("no-such-command");
    let (key, values) = kv();
    assert!(matches!(
        capture_command_output::<Shell>(&options, key, &values),
        Err(CommandError::Spawn(_))
    ));
    assert!(matches!(
        run_commands_sequentially::<Shell, _, _>(&map(), options.clone(), results()),
        Err(CommandError::Spawn(_))
    ));
    assert!(matches!(
        run_commands_in_parallel::<Shell, _, _>(&map(), options, results()),
        Err(CommandError::Spawn(_))
    ));
}

#[test]
fn a_command_that_cannot_be_waited_for_ends_the_run() {
    let mut options = options(false);
    options.shell_args = shell_args("false");
    assert!(matches!(
        run_commands_sequentially::<Shell, _, _>(&map(), options.clone(), results()),
        Err(CommandError::Wait(_))
    ));
    assert!(matches!(
        run_commands_in_parallel::<Shell, _, _>(&map(), options, results()),
        Err(CommandError::Wait(_))
    ));
}

#[test]
fn runs_leave_other_reports_as_they_were() {
    let mut before = results();
    before.report("Birds".to_string(), b"tweet".to_vec());
    before.report("Cats".to_string(), b"stale".to_vec());
    let expected = vec![
        ("Birds".to_string(), b"tweet".to_vec()),
        ("Cats".to_string(), b"Meowser   Mittens   ".to_vec()),
        ("Dogs".to_string(), b"Lassy   Buddy   ".to_vec()),
    ];
    let sequential =
        run_commands_sequentially::<Shell, _, _>(&map(), options(false), before.clone()).unwrap();
    assert_eq!(pairs(&sequential), expected);
    let parallel = run_commands_in_parallel::<Shell, _, _>(&map(), options(false), before).unwrap();
    assert_eq!(pairs(&parallel), expected);
}

#[test]
fn parallel_and_sequential_runs_agree_on_many_groups() {
    let mut map: HashedMap<String, Vec<String>> = HashedMap::new();
    let input: String = (0..500).map(|i| format!("{:03} line\n", i % 173)).collect();
    let mut options = options_for(Some("wc -l".to_string()), false);
    options.grouping = GroupingSpecifier::FirstChars(3);
    build_groups(input.as_bytes(), &mut map, &options).unwrap();

    let shell_command = shell_command_options(&options.output, current_shell()).unwrap();
    let sequential =
        run_commands_sequentially::<Shell, _, _>(&map, shell_command.clone(), results()).unwrap();
    let parallel = run_commands_in_parallel::<Shell, _, _>(&map, shell_command, results()).unwrap();
    assert_eq!(pairs(&sequential), pairs(&parallel));
    assert_eq!(sequential.len(), 173);
    assert_eq!(Report::get(&sequential, &"000".to_string()), Some(&b"3\n".to_vec()));
    assert_eq!(Report::get(&sequential, &"172".to_string()), Some(&b"2\n".to_vec()));
}

#[test]
fn run_one_reports_to_the_shared_report() {
    let shared = SharedReport::new(results());
    let (key, values) = kv();
    run_one::<Shell>(&options(false), &key.to_string(), &values, &shared).unwrap();
    shared.report("cats".to_string(), b"meow".to_vec());
    let report = shared.into_inner();
    assert_eq!(
        pairs(&report),
        vec![
            ("cats".to_string(), b"meow".to_vec()),
            ("dogs".to_string(), b"Fido   Sam   Spot   ".to_vec()),
        ]
    );
}

#[test]
fn counts_the_lines_of_each_group() {
    let options = GroupByOptions {
        input: InputOptions {
            separator: Separator::Null,
        },
        grouping: GroupingSpecifier::FirstChars(6),
        output: OutputOptions {
            separator: Separator::Line,
            only_group_names: false,
            run_command: Some("wc -l".to_string()),
            parallel: true,
            headers: true,
            stats: false,
        },
    };
    let simulated_input = "\
        ecs440 class notes.tex\0\
        ecs450 class notes.tex\0\
        ecs450 study guide.pdf";

    let mut map = SortedMap::new();
    build_groups(simulated_input.as_bytes(), &mut map, &options).unwrap();

    let shell_command = shell_command_options(&options.output, current_shell()).unwrap();
    let results = run_commands_in_parallel::<Shell, _, _>(&map, shell_command, results()).unwrap();
    assert_eq!(
        pairs(&results),
        vec![
            ("ecs440".to_string(), b"1\n".to_vec()),
            ("ecs450".to_string(), b"2\n".to_vec()),
        ]
    );

    let mut output = Vec::new();
    write_results(&mut output, &map, &Some(results), &options.output);
    assert_eq!(
        String::from_utf8_lossy(&output),
        "ecs440:\n1\n\necs450:\n2\n\n"
    );
}
