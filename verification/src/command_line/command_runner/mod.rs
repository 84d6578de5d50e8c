//! What it takes to run a command over a group of values: the command and
//! its child process as the library sees them, the handle that feeds a child
//! and waits for it, and the report that collects what the children put out.

pub mod child;
pub mod command;
pub mod handle;
pub mod mock_child;
pub mod mock_command;
pub mod report;
pub mod run;
