use agent_gh::cli::{
    co_author_selection_error, error_line, hook_line, profile_line, profile_lines,
    repository_line, route, run_self, selection_error, setup_outside_worktree, status_field, Route,
    SelfCommand, Selection, USAGE,
};
use agent_gh::cache::{cache_file, describe, CachedToken};
use agent_gh::config::{Config, ConfigFile};
use agent_gh::time::Instant;
use agent_gh::git::{ProfileLookup, Worktree};

fn strings(args: &[&str]) -> Vec<String> {
    args.iter().map(|arg| (*arg).to_owned()).collect()
}

fn usage_error(args: &[&str]) -> String {
    match run_self(&strings(args)) {
        SelfCommand::UsageError(message) => message,
        _ => panic!("{args:?} should be a usage error"),
    }
}

#[test]
fn prints_usage_without_arguments() {
    assert!(matches!(route(&[]), Route::PrintUsage));
    assert!(USAGE.starts_with("Usage: agent-gh"));
}

#[test]
fn self_help_prints_usage() {
    assert!(matches!(run_self(&strings(&["--help"])), SelfCommand::PrintUsage));
    assert!(matches!(run_self(&strings(&["-h"])), SelfCommand::PrintUsage));
    assert!(matches!(run_self(&[]), SelfCommand::PrintUsage));
    assert!(matches!(
        route(&strings(&["self", "--help"])),
        Route::Wrapper(SelfCommand::PrintUsage)
    ));
}

#[test]
fn routes_wrapper_commands() {
    assert!(matches!(run_self(&strings(&["--version"])), SelfCommand::PrintVersion));
    assert!(matches!(run_self(&strings(&["status"])), SelfCommand::Status));
    assert!(matches!(run_self(&strings(&["refresh"])), SelfCommand::Refresh));
    assert!(matches!(run_self(&strings(&["remove-git-hooks"])), SelfCommand::RemoveGitHooks));
    assert!(matches!(run_self(&strings(&["co-author"])), SelfCommand::CoAuthor));
    assert!(matches!(run_self(&strings(&["hook-check"])), SelfCommand::HookCheck));
    match run_self(&strings(&["setup-git-hooks", "work"])) {
        SelfCommand::SetupGitHooks(profile) => assert_eq!(profile, "work"),
        _ => panic!("setup-git-hooks selects the profile"),
    }
    assert!(matches!(route(&strings(&["issue", "list"])), Route::Gh));
    assert!(matches!(route(&strings(&["selfish"])), Route::Gh));
}

#[test]
fn unknown_self_command_is_a_usage_error() {
    let message = usage_error(&["bogus"]);
    assert!(message.contains("unknown wrapper command `self bogus`"), "{message}");
    assert_eq!(
        usage_error(&["status", "--all", "x"]),
        "unknown wrapper command `self status --all x`; run `agent-gh self --help`"
    );
    assert_eq!(
        usage_error(&["setup-git-hooks"]),
        "usage: agent-gh self setup-git-hooks <profile>"
    );
    assert_eq!(
        usage_error(&["setup-git-hooks", "a", "b"]),
        "usage: agent-gh self setup-git-hooks <profile>"
    );
}

#[test]
fn formats_status_lines() {
    assert_eq!(
        repository_line(&Worktree::Root("/work".to_owned())),
        "repository: /work"
    );
    assert_eq!(
        repository_line(&Worktree::NoRepository(
            "fatal: not a git repository\r\nhint: run git init".to_owned()
        )),
        "repository: none (fatal: not a git repository)"
    );
    assert_eq!(
        repository_line(&Worktree::NoRepository(String::new())),
        "repository: none ()"
    );
    assert_eq!(
        profile_line(&ProfileLookup::Selected("test".to_owned()), true, "/c.toml"),
        "profile: test"
    );
    assert_eq!(
        profile_line(&ProfileLookup::Selected("work".to_owned()), false, "/c.toml"),
        "profile: work, which /c.toml does not define"
    );
    assert_eq!(
        profile_line(&ProfileLookup::Unselected, true, "/c.toml"),
        "profile: none; run `agent-gh self setup-git-hooks <profile>` in the repository"
    );
    assert_eq!(hook_line(true), "commit hook: installed");
    assert_eq!(hook_line(false), "commit hook: not installed");
    assert_eq!(
        profile_lines(1, 2, "/k.pem", &vec![], "/c/token.toml", "none cached", "/c/identity-1.toml", "not cached"),
        vec![
            "app_id: 1",
            "installation_id: 2",
            "private_key_path: /k.pem",
            "run_as_user: []",
            "cache: /c/token.toml",
            "token: none cached",
            "identity cache: /c/identity-1.toml",
            "co-author: not cached"
        ]
    );
}

#[test]
fn explains_a_missing_profile_selection() {
    assert_eq!(selection_error("run gh", &Selection::Profile, "Profiles: test"), None);
    assert_eq!(
        selection_error("run gh", &Selection::Unselected("/work".to_owned()), "Profiles: test"),
        Some("no profile is selected for the repository at /work, so agent-gh did not run gh.\nAsk the user to run `agent-gh self setup-git-hooks <profile>` in that repository. Profiles: test".to_owned())
    );
    let message = selection_error(
        "refresh the caches",
        &Selection::NoRepository("fatal: not a git repository".to_owned()),
        "Profiles: test",
    )
    .expect("no repository is an error");
    assert!(message.contains("Git reported:\nfatal: not a git repository\n"), "{message}");
    assert_eq!(
        co_author_selection_error(&Selection::Unselected("/work".to_owned())),
        Some("no profile is selected for the repository at /work".to_owned())
    );
    assert_eq!(
        co_author_selection_error(&Selection::NoRepository("fatal".to_owned())),
        Some("Git found no usable repository in the working directory: fatal".to_owned())
    );
    assert_eq!(
        setup_outside_worktree("fatal: not a git repository"),
        "setup-git-hooks must run in a Git working tree: fatal: not a git repository"
    );
    assert_eq!(error_line("gh was not found on PATH"), "agent-gh: gh was not found on PATH");
}

#[test]
fn status_reports_run_as_user_entries() {
    let file = ConfigFile {
        app_id: 1,
        installation_id: 2,
        private_key_path: "/k.pem".to_owned(),
        run_as_user: vec!["pr  create".to_owned(), "pr new".to_owned()],
    };
    let config = Config::parse(file, "/config").expect("configuration is valid");
    let lines = profile_lines(
        config.app_id,
        config.installation_id,
        &config.private_key_path,
        &config.run_as_user,
        "/c/token.toml",
        "none cached",
        "/c/identity-1.toml",
        "not cached",
    );
    assert_eq!(lines[3], "run_as_user: [\"pr create\", \"pr new\"]");
    let one = vec![vec!["api".to_owned()]];
    let lines = profile_lines(1, 2, "/k.pem", &one, "/c/t", "none cached", "/c/i", "not cached");
    assert_eq!(lines[3], "run_as_user: [\"api\"]");
}

#[test]
fn status_reports_configuration_and_cached_expiry() {
    let file = ConfigFile {
        app_id: 1,
        installation_id: 2,
        private_key_path: "/sandbox/missing.pem".to_owned(),
        run_as_user: Vec::new(),
    };
    let config = Config::parse(file, "/sandbox").expect("configuration is valid");
    let now = Instant { second: 1_790_251_200, nanosecond: 0 };
    let cached = CachedToken::issued(
        &config,
        "cached-installation-token".to_owned(),
        Instant { second: 1_790_254_800, nanosecond: 0 },
    );
    let mut lines = vec![status_field("config", "/sandbox/config.toml")];
    lines.extend(profile_lines(
        config.app_id,
        config.installation_id,
        &config.private_key_path,
        &config.run_as_user,
        &cache_file("/sandbox/cache"),
        &describe(Some(&cached), &config, now),
        "/sandbox/cache/identity-1.toml",
        "not cached",
    ));
    for line in [
        "config: /sandbox/config.toml",
        "cache: /sandbox/cache/token.toml",
        "app_id: 1",
        "installation_id: 2",
        "private_key_path: /sandbox/missing.pem",
        "run_as_user: []",
    ] {
        assert!(lines.iter().any(|actual| actual == line), "{line}\n{lines:?}");
    }
    assert!(lines.iter().any(|line| line.starts_with("token: valid until ")), "{lines:?}");
    assert!(!lines.iter().any(|line| line.contains("cached-installation-token")), "{lines:?}");
}
