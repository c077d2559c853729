//! trapdoor: the decision logic of an interactive step-debugger for Bash
//! scripts, verified with Verus.
//!
//! A controller launches a script with a small bash stub that stops before
//! every simple command and asks what to do. This library decides: it reads
//! the command line and the stub's messages, keeps breakpoints, watches and
//! the run mode, carries out the commands typed at the `(tdb)` prompt, and
//! builds every line the debugger prints.

pub mod cli;
pub mod command;
pub mod laws;
pub mod messages;
pub mod numbers;
pub mod palette;
pub mod paths;
pub mod protocol;
pub mod session;
pub mod text;
