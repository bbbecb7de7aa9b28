use agent_gh::bash::{find_direct_gh, ParseError, MAX_NESTING};

fn found(source: &str) -> Option<String> {
    match find_direct_gh(source) {
        Ok(found) => found,
        Err(error) => panic!("{source:?} should parse: {error:?}"),
    }
}

#[test]
fn finds_direct_invocations() {
    let cases = [
        ("gh issue list", "gh"),
        ("GH_PAGER=cat gh api user", "gh"),
        ("cd repo && gh pr view 1", "gh"),
        ("echo body | gh issue create --body-file -", "gh"),
        ("agent-gh issue list; gh pr list", "gh"),
        ("true || gh auth status", "gh"),
        ("sleep 1 & gh run list", "gh"),
        ("echo \"$(gh auth token)\"", "gh"),
        ("token=`gh auth token`", "gh"),
        ("diff <(gh api repos/a/b) expected.json", "gh"),
        ("/usr/bin/gh issue list", "/usr/bin/gh"),
        (
            "'/c/Program Files/GitHub CLI/gh.exe' pr list",
            "/c/Program Files/GitHub CLI/gh.exe",
        ),
        ("GH.EXE pr list", "GH.EXE"),
        ("\"gh\" issue list", "gh"),
        ("(gh issue list)", "gh"),
        ("{ gh issue list; }", "gh"),
        ("function f { gh pr list; }", "gh"),
        ("if true; then gh issue list; fi", "gh"),
        ("for n in 1 2; do gh issue view \"$n\"; done", "gh"),
        ("while ! gh pr checks; do sleep 5; done", "gh"),
        ("case $x in a) gh issue list;; esac", "gh"),
        ("time gh pr list", "gh"),
        ("2>/dev/null gh issue list", "gh"),
        ("echo x >out.txt 2>&1 && gh pr list", "gh"),
        ("echo x &>/dev/null && gh pr list", "gh"),
        ("echo x 2>&-|gh pr list", "gh"),
        ("cat <<EOF\nbody\nEOF\ngh issue list", "gh"),
        ("cat <<EOF\r\nbody\r\nEOF\r\ngh pr list", "gh"),
        ("cat <<$X\nbody\n$X\ngh issue list", "gh"),
        ("((x = 1 << 2))\ngh issue list", "gh"),
        ("echo one \\\n  && gh issue list", "gh"),
        ("grep \"foo$\" a.txt && gh issue create --title x", "gh"),
        ("gh pr list --state open | grep \"draft$\"", "gh"),
        ("echo \"a $'b\" && gh pr list", "gh"),
        ("echo ${x:-$(gh auth token)}", "gh"),
        ("echo ${x:-\"}\"}; gh pr list", "gh"),
        ("echo $(( $(gh api x) + 1 ))", "gh"),
        ("arr=(\n  one  # first; primary\n)\ngh pr list", "gh"),
    ];
    for (source, word) in cases {
        assert_eq!(found(source).as_deref(), Some(word), "{source:?}");
    }
}

#[test]
fn ignores_commands_without_direct_invocations() {
    let cases = [
        "agent-gh issue list",
        "agent-gh.exe pr create --head feature --body-file pr.md",
        "echo gh issue list",
        "echo 'gh issue list'",
        "git commit -m \"use gh issue list\"",
        "ls # gh issue list",
        "command -v gh",
        "which gh",
        "ghx issue list",
        "$GH issue list",
        "names=(gh git)",
        "(( n=(a>b) ))",
        "cat <<'EOF'\ngh issue list\nEOF",
        "cat <<-EOF\n\tgh issue list\n\tEOF",
        "agent-gh pr create --body \"$(cat <<'EOF'\nRun gh issue list; it's fine\nEOF\n)\"",
        "echo \"gh $(printf '%s' gh)\"",
    ];
    for source in cases {
        assert_eq!(found(source), None, "{source:?}");
    }
}

#[test]
fn rejects_unparsable_commands() {
    for source in [
        "gh issue list \"unclosed",
        "echo 'unclosed",
        "echo $(gh issue list",
        "echo `gh issue list",
        "echo ${HOME",
        "a=(x;y)",
        "a=(<(ls))",
    ] {
        let result = find_direct_gh(source);
        assert_eq!(result, Err(ParseError::Unparsable), "{source:?}");
    }
}

#[test]
fn rejects_nesting_beyond_the_limit() {
    let depth = 10_000;
    for (open, close) in [("$(", ")"), ("$((", "))"), ("${a:-", "}"), ("\"$(", ")\"")] {
        let source = format!("echo {}gh{}", open.repeat(depth), close.repeat(depth));
        let result = find_direct_gh(&source);
        assert_eq!(result, Err(ParseError::TooDeep), "{open}");
    }
}

#[test]
fn accepts_nesting_at_the_limit() {
    let depth = MAX_NESTING;
    let source = format!("echo {}gh{}", "$(".repeat(depth), ")".repeat(depth));
    assert_eq!(found(&source).as_deref(), Some("gh"));
}
