//! An interactive commit-message composer.
//!
//! The library holds the verified core of the tool: the declarative schema of
//! commit trailers, the resolution engine that turns a schema plus live
//! collaborators (a history reader and an interaction surface) into formatted
//! trailer lines, and the assembler that lays out the final commit message.
//! Process invocation, terminal rendering and config-file discovery are left
//! to the surrounding binary, which reaches the core through the `Git` and
//! `Prompt` traits.

pub mod candidates;
pub mod config;
pub mod error;
pub mod git;
pub mod prompt;
pub mod run;
pub mod structure;
