//! The logic of `agent-gh`, which runs the GitHub CLI with a GitHub App
//! installation token: the hook that finds direct invocations of `gh` in Bash
//! commands, the commit hook's co-author value and Git configuration, the
//! token cache, and the command line.
pub mod bash_model;
pub mod bash;
pub mod text;
pub mod co_author;
pub mod git;
pub mod hook;
pub mod time;
pub mod path;
pub mod config;
pub mod cache;
pub mod identity;
pub mod github;
pub mod proxy;
pub mod cli;
