//! `kd` — a per-project command runner: short subcommand names, mapped by a
//! project-local configuration file to shell command templates.
//!
//! The library holds the verified core of one invocation: discovery of the
//! nearest configuration file up the directory tree (`locate`), loading its
//! comment-annotated JSON into a command mapping (`loader`, `config`),
//! resolution of the requested name with its fallbacks (`dispatch`), and
//! expansion of the two magic template tokens against the invocation's
//! trailing arguments (`expand`, `runner`). The thin shell around it does the
//! I/O: it probes directories, reads the file, writes arguments files, and
//! spawns the child process, feeding every result back through the functions
//! here.

pub mod config;
pub mod dispatch;
pub mod expand;
pub mod loader;
pub mod locate;
pub mod runner;
