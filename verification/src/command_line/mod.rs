//! What a command line application built on this library needs: the options
//! of a run, the reading of input into groups, the commands run over the
//! groups, and the final report.

pub mod build_groups;
pub mod command_runner;
pub mod options;
pub mod parse_args;
pub mod process_input;
pub mod record_writer;
pub mod run_command;
pub mod statistics;
pub mod write_results;
