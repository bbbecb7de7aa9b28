use agent_gh::git::{
    check_version, hook_installed, install_hooks, parse_version, profile_lookup,
    remove_hooks, require_config_hooks, worktree, GitStep, Output, ProfileLookup, Version,
    Worktree, HOOK_COMMAND, HOOK_COMMAND_KEY, HOOK_EVENT_KEY, PROFILE_KEY,
};

fn version_error(output: &str) -> String {
    match check_version(output) {
        Ok(()) => panic!("{output:?} should be rejected"),
        Err(error) => error,
    }
}

#[test]
fn accepts_git_with_config_hooks() {
    for output in [
        "git version 2.55.0.windows.3\n",
        "git version 2.54.0\n",
        "git version 3.0.0\n",
    ] {
        let result = check_version(output);
        assert!(result.is_ok(), "{output:?}: {result:?}");
    }
}

#[test]
fn rejects_git_without_config_hooks() {
    assert_eq!(
        version_error("git version 2.53.1\n"),
        r#"the commit hook requires Git 2.54 or later; found "git version 2.53.1""#
    );
    assert_eq!(
        version_error("git version 2.39.5 (Apple Git-154)\n"),
        r#"the commit hook requires Git 2.54 or later; found "git version 2.39.5 (Apple Git-154)""#
    );
}

#[test]
fn rejects_malformed_version_output() {
    for output in [
        "",
        "git version",
        "git version 2",
        "git version two.54",
        "2.54.0",
    ] {
        let message = version_error(output);
        assert!(
            message.starts_with("cannot read the Git version from"),
            "{output:?}: {message}"
        );
    }
}

#[test]
fn parses_major_and_minor_as_u32() {
    assert_eq!(
        parse_version("git version 2.54.0"),
        Some(Version { major: 2, minor: 54 })
    );
    assert_eq!(
        parse_version("git version +2.054"),
        Some(Version { major: 2, minor: 54 })
    );
    assert_eq!(
        parse_version("git version 4294967295.0"),
        Some(Version { major: 4294967295, minor: 0 })
    );
    assert_eq!(parse_version("git version 4294967296.0"), None);
    assert_eq!(parse_version("git version 2."), None);
    assert_eq!(parse_version("git version -2.54"), None);
    assert_eq!(parse_version("git version 2.54 "), None);
}

#[test]
fn quotes_the_output_in_messages() {
    assert_eq!(
        version_error("  git version 1.0\t"),
        r#"the commit hook requires Git 2.54 or later; found "git version 1.0""#
    );
    assert_eq!(
        version_error("git\tversion 2.54"),
        r#"cannot read the Git version from "git\tversion 2.54""#
    );
}

#[test]
fn displays_versions() {
    assert_eq!(Version { major: 2, minor: 54 }.text(), "2.54");
    assert_eq!(Version::config_hooks(), Version { major: 2, minor: 54 });
}

fn output(code: Option<i32>, stdout: &str, stderr: &str) -> Output {
    Output {
        code,
        stdout: stdout.to_owned(),
        stderr: stderr.to_owned(),
    }
}

#[test]
fn reads_the_profile_selection() {
    match profile_lookup(&output(Some(0), "work\n", "")) {
        ProfileLookup::Selected(name) => assert_eq!(name, "work"),
        _ => panic!("the profile is selected"),
    }
    assert!(matches!(
        profile_lookup(&output(Some(1), "", "")),
        ProfileLookup::Unselected
    ));
    match profile_lookup(&output(Some(128), "", "fatal: not in a git directory")) {
        ProfileLookup::NoRepository(stderr) => {
            assert_eq!(stderr, "fatal: not in a git directory")
        }
        _ => panic!("there is no repository"),
    }
    assert!(matches!(
        profile_lookup(&output(None, "", "killed")),
        ProfileLookup::NoRepository(_)
    ));
}

#[test]
fn reads_the_working_tree() {
    match worktree(&output(Some(0), "/home/agent/work\n", "")) {
        Worktree::Root(root) => assert_eq!(root, "/home/agent/work"),
        Worktree::NoRepository(_) => panic!("the working tree is found"),
    }
    match worktree(&output(Some(128), "", "fatal: not a git repository")) {
        Worktree::NoRepository(stderr) => assert_eq!(stderr, "fatal: not a git repository"),
        Worktree::Root(_) => panic!("there is no repository"),
    }
    assert!(hook_installed(&output(Some(0), "cmd", "")));
    assert!(!hook_installed(&output(Some(1), "", "")));
    assert!(output(Some(0), "", "").succeeded());
    assert!(!output(None, "", "").succeeded());
}

#[test]
fn requires_a_working_git_version() {
    assert_eq!(
        require_config_hooks(&output(Some(1), "", "boom")),
        Err("`git version` failed: boom".to_owned())
    );
    assert_eq!(
        require_config_hooks(&output(Some(0), "git version 2.54.1\n", "")),
        Ok(())
    );
}

fn run_args(step: GitStep) -> Vec<String> {
    match step {
        GitStep::Run(args) => args,
        GitStep::Done => panic!("expected a command, got the end"),
        GitStep::Failed(message) => panic!("expected a command, got {message}"),
    }
}

#[test]
fn installs_the_profile_and_the_hook_keys_in_order() {
    let ok = output(Some(0), "", "");
    assert_eq!(
        run_args(install_hooks("work", 0, None)),
        ["config", "--local", "--replace-all", PROFILE_KEY, "work"]
    );
    assert_eq!(
        run_args(install_hooks("work", 1, Some(&ok))),
        ["config", "--local", "--replace-all", HOOK_EVENT_KEY, "commit-msg"]
    );
    assert_eq!(
        run_args(install_hooks("work", 2, Some(&ok))),
        ["config", "--local", "--replace-all", HOOK_COMMAND_KEY, HOOK_COMMAND]
    );
    assert!(matches!(install_hooks("work", 3, Some(&ok)), GitStep::Done));
    match install_hooks("work", 2, Some(&output(Some(255), "", "locked"))) {
        GitStep::Failed(message) => assert_eq!(
            message,
            "`git config --local --replace-all hook.agent-gh.commit-msg.event` failed: locked"
        ),
        _ => panic!("the failure ends the installation"),
    }
}

#[test]
fn removes_the_keys_and_tolerates_absent_ones() {
    assert_eq!(
        run_args(remove_hooks(0, None)),
        ["config", "--local", "--unset-all", PROFILE_KEY]
    );
    let absent = output(Some(5), "", "");
    assert_eq!(
        run_args(remove_hooks(1, Some(&absent))),
        ["config", "--local", "--unset-all", HOOK_EVENT_KEY]
    );
    assert_eq!(
        run_args(remove_hooks(2, Some(&output(Some(0), "", "")))),
        ["config", "--local", "--unset-all", HOOK_COMMAND_KEY]
    );
    assert!(matches!(remove_hooks(3, Some(&absent)), GitStep::Done));
    match remove_hooks(1, Some(&output(Some(128), "", "fatal: no repo"))) {
        GitStep::Failed(message) => assert_eq!(
            message,
            "`git config --local --unset-all agent-gh.profile` failed: fatal: no repo"
        ),
        _ => panic!("the failure ends the removal"),
    }
}

/// Runs the commands of `install_hooks` for `profile` against a local
/// configuration, with the meaning Git gives `--replace-all`.
fn install_into(config: &mut std::collections::BTreeMap<String, Vec<String>>, profile: &str) {
    let ok = output(Some(0), "", "");
    let mut ran = 0;
    loop {
        let last = if ran == 0 { None } else { Some(&ok) };
        match install_hooks(profile, ran, last) {
            GitStep::Run(args) => {
                assert_eq!(args[..3], ["config", "--local", "--replace-all"]);
                config.insert(args[3].clone(), vec![args[4].clone()]);
                ran += 1;
            }
            GitStep::Done => return,
            GitStep::Failed(message) => panic!("{message}"),
        }
    }
}

#[test]
fn setup_is_idempotent() {
    let mut config = std::collections::BTreeMap::new();
    config.insert("user.name".to_owned(), vec!["Agent".to_owned()]);
    config.insert(PROFILE_KEY.to_owned(), vec!["old".to_owned(), "older".to_owned()]);
    install_into(&mut config, "test");
    let once = config.clone();
    install_into(&mut config, "test");
    assert_eq!(config, once);
    assert_eq!(config[PROFILE_KEY], ["test"]);
    assert_eq!(config[HOOK_EVENT_KEY], ["commit-msg"]);
    assert_eq!(config[HOOK_COMMAND_KEY], [HOOK_COMMAND]);
    assert_eq!(config["user.name"], ["Agent"]);

    install_into(&mut config, "other");
    let mut expected = once.clone();
    expected.insert(PROFILE_KEY.to_owned(), vec!["other".to_owned()]);
    assert_eq!(config, expected);
}
