//! The command line: which command runs, and the text it prints.
use crate::config::prefix_views;
use crate::git::{ProfileLookup, Worktree};
use crate::text::{chars_of, push_chars, push_decimal, push_str, string_of, decimal};
use vstd::prelude::*;

verus! {

/// The usage text.
pub const USAGE: &'static str = "Usage: agent-gh <gh arguments>...
       agent-gh self <command>

Run the GitHub CLI with the installation token of a profile in the
configuration file. The Git config of the repository in the working directory
selects the profile. Commands that start with an entry of the profile's
run_as_user list run with the user's credentials instead.

Wrapper commands:
  self --help                     Print this usage
  self --version                  Print the agent-gh version
  self status                     Print the configuration, profile, and caches
  self refresh                    Replace the cached token and App identity
  self setup-git-hooks <profile>  Select a profile and install the commit hook
  self remove-git-hooks           Remove the profile selection and commit hook
  self co-author                  Print the commit hook's co-author value
  self hook-check                 Check a coding agent's PreToolUse payload
                                  on stdin

Environment:
  AGENT_GH_CONFIG      Configuration file (default: ~/.config/agent-gh/config.toml)
  AGENT_GH_CACHE_DIR   Cache directory (default: <cache dir>/agent-gh)
";

/// The exit status of a usage error.
pub const USAGE_ERROR: u8 = 2;

/// The exit status that makes the harness block a command.
pub const HOOK_BLOCK: u8 = 2;

/// The command that selects a profile and installs the commit hook.
pub const SETUP_COMMAND: &'static str = "agent-gh self setup-git-hooks <profile>";

/// A wrapper command, from the arguments after `self`.
pub enum SelfCommand {
    PrintUsage,
    PrintVersion,
    Status,
    Refresh,
    /// Select the profile and install the commit hook.
    SetupGitHooks(String),
    RemoveGitHooks,
    CoAuthor,
    HookCheck,
    /// A usage error, with its message.
    UsageError(String),
}

/// What the arguments ask for.
pub enum Route {
    /// No arguments: print the usage.
    PrintUsage,
    /// `self` and a wrapper command.
    Wrapper(SelfCommand),
    /// Anything else runs `gh` with the arguments.
    Gh,
}

/// The views of a list of strings.
pub open spec fn views(args: Seq<String>) -> Seq<Seq<char>> {
    args.map_values(|a: String| a@)
}

/// The strings joined with single spaces.
pub open spec fn spaced(args: Seq<Seq<char>>) -> Seq<char>
    decreases args.len(),
{
    if args.len() == 0 {
        Seq::empty()
    } else if args.len() == 1 {
        args[0]
    } else {
        spaced(args.drop_last()) + " "@ + args.last()
    }
}

/// The message for an unknown wrapper command.
pub open spec fn unknown_command_text(args: Seq<Seq<char>>) -> Seq<char> {
    "unknown wrapper command `self "@ + spaced(args) + "`; run `agent-gh self --help`"@
}

/// The usage error of `setup-git-hooks` without exactly one profile.
pub open spec fn setup_usage_text() -> Seq<char> {
    "usage: "@ + SETUP_COMMAND@
}

/// The wrapper command that the arguments after `self` name.
pub open spec fn self_command_for(args: Seq<Seq<char>>) -> SelfCommandModel {
    if args.len() == 0 || (args.len() == 1 && (args[0] == "--help"@ || args[0] == "-h"@)) {
        SelfCommandModel::PrintUsage
    } else if args.len() == 1 && args[0] == "--version"@ {
        SelfCommandModel::PrintVersion
    } else if args.len() == 1 && args[0] == "status"@ {
        SelfCommandModel::Status
    } else if args.len() == 1 && args[0] == "refresh"@ {
        SelfCommandModel::Refresh
    } else if args.len() == 2 && args[0] == "setup-git-hooks"@ {
        SelfCommandModel::SetupGitHooks(args[1])
    } else if args.len() >= 1 && args[0] == "setup-git-hooks"@ {
        SelfCommandModel::UsageError(setup_usage_text())
    } else if args.len() == 1 && args[0] == "remove-git-hooks"@ {
        SelfCommandModel::RemoveGitHooks
    } else if args.len() == 1 && args[0] == "co-author"@ {
        SelfCommandModel::CoAuthor
    } else if args.len() == 1 && args[0] == "hook-check"@ {
        SelfCommandModel::HookCheck
    } else {
        SelfCommandModel::UsageError(unknown_command_text(args))
    }
}

/// A wrapper command with its strings as character sequences.
pub enum SelfCommandModel {
    PrintUsage,
    PrintVersion,
    Status,
    Refresh,
    SetupGitHooks(Seq<char>),
    RemoveGitHooks,
    CoAuthor,
    HookCheck,
    UsageError(Seq<char>),
}

/// A wrapper command in the model.
pub open spec fn self_command_view(c: SelfCommand) -> SelfCommandModel {
    match c {
        SelfCommand::PrintUsage => SelfCommandModel::PrintUsage,
        SelfCommand::PrintVersion => SelfCommandModel::PrintVersion,
        SelfCommand::Status => SelfCommandModel::Status,
        SelfCommand::Refresh => SelfCommandModel::Refresh,
        SelfCommand::SetupGitHooks(p) => SelfCommandModel::SetupGitHooks(p@),
        SelfCommand::RemoveGitHooks => SelfCommandModel::RemoveGitHooks,
        SelfCommand::CoAuthor => SelfCommandModel::CoAuthor,
        SelfCommand::HookCheck => SelfCommandModel::HookCheck,
        SelfCommand::UsageError(m) => SelfCommandModel::UsageError(m@),
    }
}

/// `a` equals the text `b`.
fn is(a: &String, b: &str) -> (r: bool)
    ensures
        r == (a@ == b@),
{
    let x = chars_of(a.as_str());
    let y = chars_of(b);
    if x.len() != y.len() {
        return false;
    }
    let mut i: usize = 0;
    while i < x.len()
        invariant
            x.len() == y.len(),
            x@ == a@,
            y@ == b@,
            0 <= i <= x.len(),
            forall|j: int| 0 <= j < i ==> x@[j] == y@[j],
        decreases x.len() - i,
    {
        if x[i] != y[i] {
            assert(x@[i as int] != y@[i as int]);
            return false;
        }
        i += 1;
    }
    assert(x@ =~= y@);
    true
}

/// The strings joined with single spaces.
fn join_spaced(args: &[String]) -> (r: Vec<char>)
    ensures
        r@ == spaced(views(args@)),
{
    let mut out: Vec<char> = Vec::new();
    let mut i: usize = 0;
    while i < args.len()
        invariant
            0 <= i <= args.len(),
            out@ == spaced(views(args@.take(i as int))),
        decreases args.len() - i,
    {
        let ghost before = views(args@.take(i as int));
        let ghost after = views(args@.take(i + 1));
        assert(after.drop_last() =~= before);
        assert(after.last() == args@[i as int]@);
        if i > 0 {
            out.push(' ');
        }
        push_chars(&mut out, &chars_of(args[i].as_str()));
        proof {
            if i > 0 {
                assert(out@ =~= spaced(before) + " "@ + args@[i as int]@) by {
                    reveal_strlit(" ");
                }
            } else {
                assert(before.len() == 0);
                assert(out@ =~= args@[i as int]@);
            }
        }
        i += 1;
    }
    assert(args@.take(i as int) =~= args@);
    out
}

/// The wrapper command that the arguments after `self` name: help, the
/// version, status, refresh, setup of the commit hook for one profile, its
/// removal, the co-author value, or the hook check; anything else is a
/// usage error.
pub fn run_self(args: &[String]) -> (r: SelfCommand)
    ensures
        self_command_view(r) == self_command_for(views(args@)),
{
    let n = args.len();
    let ghost a = views(args@);
    if n == 0 {
        return SelfCommand::PrintUsage;
    }
    assert(a[0] == args@[0]@);
    let first = &args[0];
    if n == 1 && (is(first, "--help") || is(first, "-h")) {
        SelfCommand::PrintUsage
    } else if n == 1 && is(first, "--version") {
        SelfCommand::PrintVersion
    } else if n == 1 && is(first, "status") {
        SelfCommand::Status
    } else if n == 1 && is(first, "refresh") {
        SelfCommand::Refresh
    } else if n == 2 && is(first, "setup-git-hooks") {
        assert(a[1] == args@[1]@);
        SelfCommand::SetupGitHooks(args[1].clone())
    } else if is(first, "setup-git-hooks") {
        let mut out: Vec<char> = Vec::new();
        push_str(&mut out, "usage: ");
        push_str(&mut out, SETUP_COMMAND);
        SelfCommand::UsageError(string_of(&out))
    } else if n == 1 && is(first, "remove-git-hooks") {
        SelfCommand::RemoveGitHooks
    } else if n == 1 && is(first, "co-author") {
        SelfCommand::CoAuthor
    } else if n == 1 && is(first, "hook-check") {
        SelfCommand::HookCheck
    } else {
        let mut out: Vec<char> = Vec::new();
        push_str(&mut out, "unknown wrapper command `self ");
        let joined = join_spaced(args);
        push_chars(&mut out, &joined);
        push_str(&mut out, "`; run `agent-gh self --help`");
        SelfCommand::UsageError(string_of(&out))
    }
}

/// What the arguments ask for: the usage without arguments, a wrapper
/// command after `self`, and `gh` for anything else.
pub fn route(args: &[String]) -> (r: Route)
    ensures
        args@.len() == 0 ==> r is PrintUsage,
        args@.len() > 0 && args@[0]@ == "self"@ ==> (r matches Route::Wrapper(c) && self_command_view(
            c,
        ) == self_command_for(views(args@.drop_first()))),
        args@.len() > 0 && args@[0]@ != "self"@ ==> r is Gh,
{
    if args.len() == 0 {
        return Route::PrintUsage;
    }
    if is(&args[0], "self") {
        let mut rest: Vec<String> = Vec::new();
        let mut i: usize = 1;
        while i < args.len()
            invariant
                1 <= i <= args.len(),
                rest@.len() == i - 1,
                forall|k: int| 0 <= k < rest@.len() ==> #[trigger] rest@[k]@ == args@[k + 1]@,
            decreases args.len() - i,
        {
            let a = args[i].clone();
            rest.push(a);
            i += 1;
        }
        assert(views(rest@) =~= views(args@.drop_first()));
        Route::Wrapper(run_self(rest.as_slice()))
    } else {
        Route::Gh
    }
}

/// The first line of `s` as `str::lines` gives it: up to the first newline,
/// without a carriage return before it; empty when `s` is.
pub open spec fn first_line(s: Seq<char>) -> Seq<char> {
    let i = newline_index(s);
    if i < s.len() && i > 0 && s[i - 1] == '\r' {
        s.take(i - 1)
    } else {
        s.take(i)
    }
}

/// The index of the first newline in `s`, or its length.
pub open spec fn newline_index(s: Seq<char>) -> int
    decreases s.len(),
{
    if s.len() == 0 {
        0
    } else if s[0] == '\n' {
        0
    } else {
        1 + newline_index(s.drop_first())
    }
}

proof fn lemma_newline_index_at(s: Seq<char>, i: int)
    requires
        0 <= i <= s.len(),
        forall|k: int| 0 <= k < i ==> s[k] != '\n',
        i < s.len() ==> s[i] == '\n',
    ensures
        newline_index(s) == i,
    decreases s.len(),
{
    if s.len() > 0 && s[0] != '\n' {
        assert forall|k: int| 0 <= k < i - 1 implies s.drop_first()[k] != '\n' by {
            assert(s.drop_first()[k] == s[k + 1]);
        }
        lemma_newline_index_at(s.drop_first(), i - 1);
    }
}

/// The first line of `s`.
fn first_line_of(s: &str) -> (r: Vec<char>)
    ensures
        r@ == first_line(s@),
{
    let chars = chars_of(s);
    let mut i: usize = 0;
    while i < chars.len() && chars[i] != '\n'
        invariant
            0 <= i <= chars.len(),
            forall|k: int| 0 <= k < i ==> chars@[k] != '\n',
        decreases chars.len() - i,
    {
        i += 1;
    }
    proof {
        lemma_newline_index_at(chars@, i as int);
    }
    let end = if i < chars.len() && i > 0 && chars[i - 1] == '\r' {
        i - 1
    } else {
        i
    };
    let mut out: Vec<char> = Vec::new();
    let mut k: usize = 0;
    while k < end
        invariant
            0 <= k <= end <= chars.len(),
            out@ == chars@.take(k as int),
        decreases end - k,
    {
        out.push(chars[k]);
        k += 1;
        assert(out@ =~= chars@.take(k as int));
    }
    out
}

/// `prefix` followed by `s`.
fn prefixed(prefix: &str, s: &str) -> (r: String)
    ensures
        r@ == prefix@ + s@,
{
    let mut out: Vec<char> = Vec::new();
    push_str(&mut out, prefix);
    push_str(&mut out, s);
    string_of(&out)
}

/// The status line for the repository.
pub open spec fn repository_text(w: Worktree) -> Seq<char> {
    match w {
        Worktree::Root(root) => "repository: "@ + root@,
        Worktree::NoRepository(stderr) => "repository: none ("@ + first_line(stderr@) + ")"@,
    }
}

/// The status line for the repository: its root, or none with the first
/// line of what Git printed.
pub fn repository_line(w: &Worktree) -> (r: String)
    ensures
        r@ == repository_text(*w),
{
    match w {
        Worktree::Root(root) => prefixed("repository: ", root.as_str()),
        Worktree::NoRepository(stderr) => {
            let mut out: Vec<char> = Vec::new();
            push_str(&mut out, "repository: none (");
            push_chars(&mut out, &first_line_of(stderr.as_str()));
            push_str(&mut out, ")");
            string_of(&out)
        },
    }
}

/// The status line for the profile selection.
pub open spec fn profile_text(lookup: ProfileLookup, defined: bool, config_path: Seq<char>) -> Seq<
    char,
> {
    match lookup {
        ProfileLookup::Selected(name) => if defined {
            "profile: "@ + name@
        } else {
            "profile: "@ + name@ + ", which "@ + config_path + " does not define"@
        },
        _ => "profile: none; run `"@ + SETUP_COMMAND@ + "` in the repository"@,
    }
}

/// The status line for the profile selection: the selected profile, one the
/// configuration does not define, or none.
pub fn profile_line(lookup: &ProfileLookup, defined: bool, config_path: &str) -> (r: String)
    ensures
        r@ == profile_text(*lookup, defined, config_path@),
{
    match lookup {
        ProfileLookup::Selected(name) => {
            let mut out: Vec<char> = Vec::new();
            push_str(&mut out, "profile: ");
            push_chars(&mut out, &chars_of(name.as_str()));
            if !defined {
                push_str(&mut out, ", which ");
                push_str(&mut out, config_path);
                push_str(&mut out, " does not define");
            }
            string_of(&out)
        },
        _ => {
            let mut out: Vec<char> = Vec::new();
            push_str(&mut out, "profile: none; run `");
            push_str(&mut out, SETUP_COMMAND);
            push_str(&mut out, "` in the repository");
            string_of(&out)
        },
    }
}

/// The status line for the commit hook.
pub fn hook_line(installed: bool) -> (r: String)
    ensures
        installed ==> r@ == "commit hook: installed"@,
        !installed ==> r@ == "commit hook: not installed"@,
{
    if installed {
        "commit hook: installed".to_owned()
    } else {
        "commit hook: not installed".to_owned()
    }
}

/// `key: value`.
pub open spec fn field_text(key: Seq<char>, value: Seq<char>) -> Seq<char> {
    key + ": "@ + value
}

fn field(key: &str, value: &str) -> (r: String)
    ensures
        r@ == field_text(key@, value@),
{
    let mut out: Vec<char> = Vec::new();
    push_str(&mut out, key);
    push_str(&mut out, ": ");
    push_str(&mut out, value);
    proof {
        assert(out@ =~= field_text(key@, value@));
    }
    string_of(&out)
}

fn number_field(key: &str, value: u64) -> (r: String)
    ensures
        r@ == field_text(key@, decimal(value as nat)),
{
    let mut out: Vec<char> = Vec::new();
    push_str(&mut out, key);
    push_str(&mut out, ": ");
    push_decimal(&mut out, value);
    proof {
        assert(out@ =~= field_text(key@, decimal(value as nat)));
    }
    string_of(&out)
}

/// A command prefix in double quotes, its words joined with single spaces.
pub open spec fn quoted_prefix(p: Seq<Seq<char>>) -> Seq<char> {
    "\""@ + spaced(p) + "\""@
}

/// The quoted prefixes, joined with `, `.
pub open spec fn listed_prefixes(ps: Seq<Seq<Seq<char>>>) -> Seq<char>
    decreases ps.len(),
{
    if ps.len() == 0 {
        Seq::empty()
    } else if ps.len() == 1 {
        quoted_prefix(ps[0])
    } else {
        listed_prefixes(ps.drop_last()) + ", "@ + quoted_prefix(ps.last())
    }
}

/// The status line for `run_as_user`: the quoted prefixes in brackets.
pub open spec fn run_as_user_text(ps: Seq<Seq<Seq<char>>>) -> Seq<char> {
    "run_as_user: ["@ + listed_prefixes(ps) + "]"@
}

/// The status line for `run_as_user`.
fn run_as_user_line(prefixes: &Vec<Vec<String>>) -> (r: String)
    ensures
        r@ == run_as_user_text(prefix_views(prefixes@)),
{
    let ghost ps = prefix_views(prefixes@);
    let mut out: Vec<char> = Vec::new();
    push_str(&mut out, "run_as_user: [");
    let ghost head = out@;
    let mut k: usize = 0;
    while k < prefixes.len()
        invariant
            0 <= k <= prefixes.len(),
            ps == prefix_views(prefixes@),
            head == "run_as_user: ["@,
            out@ == head + listed_prefixes(ps.take(k as int)),
        decreases prefixes.len() - k,
    {
        let ghost before = out@;
        if k > 0 {
            push_str(&mut out, ", ");
        }
        push_str(&mut out, "\"");
        let words = join_spaced(prefixes[k].as_slice());
        push_chars(&mut out, &words);
        push_str(&mut out, "\"");
        proof {
            assert(views(prefixes@[k as int]@) =~= ps[k as int]);
            let t = ps.take(k + 1);
            assert(t.drop_last() =~= ps.take(k as int));
            assert(t.last() == ps[k as int]);
            if k > 0 {
                assert(out@ =~= before + ", "@ + quoted_prefix(ps[k as int]));
            } else {
                assert(out@ =~= before + quoted_prefix(ps[k as int]));
                assert(ps.take(0) =~= Seq::<Seq<Seq<char>>>::empty());
            }
        }
        k += 1;
    }
    assert(ps.take(k as int) =~= ps);
    push_str(&mut out, "]");
    string_of(&out)
}

/// The status lines for the selected profile: its App and installation, its
/// private key, the commands that run as the user, the token cache (the line
/// `cache: <path>`) and what it holds, and the identity cache and the
/// co-author value it holds.
pub fn profile_lines(
    app_id: u64,
    installation_id: u64,
    private_key_path: &str,
    run_as_user: &Vec<Vec<String>>,
    token_cache: &str,
    token_state: &str,
    identity_cache: &str,
    co_author: &str,
) -> (r: Vec<String>)
    ensures
        r@.len() == 8,
        r[0]@ == field_text("app_id"@, decimal(app_id as nat)),
        r[1]@ == field_text("installation_id"@, decimal(installation_id as nat)),
        r[2]@ == field_text("private_key_path"@, private_key_path@),
        r[3]@ == run_as_user_text(prefix_views(run_as_user@)),
        r[4]@ == field_text("cache"@, token_cache@),
        r[5]@ == field_text("token"@, token_state@),
        r[6]@ == field_text("identity cache"@, identity_cache@),
        r[7]@ == field_text("co-author"@, co_author@),
{
    vec![
        number_field("app_id", app_id),
        number_field("installation_id", installation_id),
        field("private_key_path", private_key_path),
        run_as_user_line(run_as_user),
        field("cache", token_cache),
        field("token", token_state),
        field("identity cache", identity_cache),
        field("co-author", co_author),
    ]
}

/// The line for a value that the status prints: `config`, `repository`,
/// `profile`, `co-author`, and the like.
pub fn status_field(key: &str, value: &str) -> (r: String)
    ensures
        r@ == field_text(key@, value@),
{
    field(key, value)
}

/// Where the profile comes from when a command needs one.
pub enum Selection {
    /// The repository selects a profile that the configuration defines.
    Profile,
    /// The repository at this root selects no profile.
    Unselected(String),
    /// Git found no repository; what it printed.
    NoRepository(String),
}

/// Why a command that needs a profile does not run.
pub open spec fn selection_error_text(action: Seq<char>, selection: Selection, profiles: Seq<char>) -> Option<
    Seq<char>,
> {
    match selection {
        Selection::Profile => None,
        Selection::Unselected(root) => Some(
            "no profile is selected for the repository at "@ + root@ + ", so agent-gh did not "@
                + action + ".\nAsk the user to run `"@ + SETUP_COMMAND@
                + "` in that repository. "@ + profiles,
        ),
        Selection::NoRepository(stderr) => Some(
            "the profile comes from the Git repository in the working directory, and Git found no usable repository there, so agent-gh did not "@
                + action + ". Git reported:\n"@ + stderr@
                + "\nRun the command in a repository where the user ran `"@ + SETUP_COMMAND@
                + "`. "@ + profiles,
        ),
    }
}

/// An optional string as characters.
pub open spec fn string_option_view(o: Option<String>) -> Option<Seq<char>> {
    match o {
        Some(s) => Some(s@),
        None => None,
    }
}

/// Why a command that needs a profile (running `gh`, refreshing the caches)
/// does not `action`: no profile is selected, or there is no repository.
/// `profiles` describes the profiles that the configuration defines.
pub fn selection_error(action: &str, selection: &Selection, profiles: &str) -> (r: Option<String>)
    ensures
        string_option_view(r) == selection_error_text(action@, *selection, profiles@),
{
    match selection {
        Selection::Profile => None,
        Selection::Unselected(root) => {
            let mut out: Vec<char> = Vec::new();
            push_str(&mut out, "no profile is selected for the repository at ");
            push_chars(&mut out, &chars_of(root.as_str()));
            push_str(&mut out, ", so agent-gh did not ");
            push_str(&mut out, action);
            push_str(&mut out, ".\nAsk the user to run `");
            push_str(&mut out, SETUP_COMMAND);
            push_str(&mut out, "` in that repository. ");
            push_str(&mut out, profiles);
            Some(string_of(&out))
        },
        Selection::NoRepository(stderr) => {
            let mut out: Vec<char> = Vec::new();
            push_str(
                &mut out,
                "the profile comes from the Git repository in the working directory, and Git found no usable repository there, so agent-gh did not ",
            );
            push_str(&mut out, action);
            push_str(&mut out, ". Git reported:\n");
            push_chars(&mut out, &chars_of(stderr.as_str()));
            push_str(&mut out, "\nRun the command in a repository where the user ran `");
            push_str(&mut out, SETUP_COMMAND);
            push_str(&mut out, "`. ");
            push_str(&mut out, profiles);
            Some(string_of(&out))
        },
    }
}

/// Why the co-author value cannot be computed without a selected profile.
pub fn co_author_selection_error(selection: &Selection) -> (r: Option<String>)
    ensures
        match *selection {
            Selection::Profile => r is None,
            Selection::Unselected(root) => r matches Some(m) && m@
                == "no profile is selected for the repository at "@ + root@,
            Selection::NoRepository(stderr) => r matches Some(m) && m@
                == "Git found no usable repository in the working directory: "@ + stderr@,
        },
{
    match selection {
        Selection::Profile => None,
        Selection::Unselected(root) => Some(
            prefixed("no profile is selected for the repository at ", root.as_str()),
        ),
        Selection::NoRepository(stderr) => Some(
            prefixed("Git found no usable repository in the working directory: ", stderr.as_str()),
        ),
    }
}

/// Why `setup-git-hooks` cannot run outside a working tree.
pub fn setup_outside_worktree(stderr: &str) -> (r: String)
    ensures
        r@ == "setup-git-hooks must run in a Git working tree: "@ + stderr@,
{
    prefixed("setup-git-hooks must run in a Git working tree: ", stderr)
}

/// The line that reports an error: `agent-gh: <message>`.
pub fn error_line(message: &str) -> (r: String)
    ensures
        r@ == "agent-gh: "@ + message@,
{
    prefixed("agent-gh: ", message)
}

} // verus!
