use agent_gh::proxy::{exit_status, launch_error, removed_variables, runs_as_user, token_environment};

#[test]
fn sets_installation_token_and_removes_other_tokens() {
    assert_eq!(
        token_environment("installation-token"),
        vec![
            ("GH_TOKEN".to_owned(), "installation-token".to_owned()),
            ("GH_HOST".to_owned(), "github.com".to_owned())
        ]
    );
    assert_eq!(
        removed_variables(),
        vec!["GITHUB_TOKEN", "GH_ENTERPRISE_TOKEN", "GITHUB_ENTERPRISE_TOKEN"]
    );
}

#[test]
fn reports_missing_gh() {
    assert_eq!(launch_error(true, "No such file"), "gh was not found on PATH");
    assert_eq!(
        launch_error(false, "Permission denied (os error 13)"),
        "starting gh: Permission denied (os error 13)"
    );
}

#[test]
fn passes_exit_status_through() {
    assert_eq!(exit_status(Some(0)), 0);
    assert_eq!(exit_status(Some(3)), 3);
    assert_eq!(exit_status(Some(255)), 255);
    assert_eq!(exit_status(Some(256)), 1);
    assert_eq!(exit_status(Some(-1)), 1);
    assert_eq!(exit_status(None), 1);
}

fn words(text: &str) -> Vec<String> {
    text.split_whitespace().map(str::to_owned).collect()
}

#[test]
fn runs_listed_commands_as_the_user() {
    let prefixes = vec![words("pr create")];
    assert!(runs_as_user(&prefixes, &words("pr create --fill")));
    assert!(runs_as_user(&prefixes, &words("pr create")));
    assert!(!runs_as_user(&prefixes, &words("pr comment 1")));
    assert!(!runs_as_user(&prefixes, &words("pr")));
    assert!(!runs_as_user(&prefixes, &words("issue create")));
    assert!(!runs_as_user(&vec![], &words("pr create")));
    assert!(runs_as_user(&vec![words("api"), words("pr new")], &words("pr new x")));
    assert!(runs_as_user(&vec![vec![]], &words("anything")));
}
