//! The Git side of the commit hook: reading `git` output and deciding which
//! `git config` commands install or remove the hook.
use crate::text::{
    chars_of, decimal, debug_text, push_chars, push_decimal, push_str, str_debug, string_of, trim,
    trimmed,
};
use vstd::prelude::*;

verus! {

/// The Git config key that selects the repository's profile.
pub const PROFILE_KEY: &'static str = "agent-gh.profile";

/// The Git config key that names the event of the commit hook.
pub const HOOK_EVENT_KEY: &'static str = "hook.agent-gh.commit-msg.event";

/// The Git config key that holds the command of the commit hook.
pub const HOOK_COMMAND_KEY: &'static str = "hook.agent-gh.commit-msg.command";

/// The event that runs the commit hook.
pub const HOOK_EVENT: &'static str = "commit-msg";

/// The command of the commit hook.
pub const HOOK_COMMAND: &'static str = "git interpret-trailers --in-place --trim-empty --if-exists addIfDifferent --trailer \"Co-authored-by: $(agent-gh self co-author)\"";

/// The exit status of `git config --get` for a key that is not set.
pub const GET_KEY_ABSENT: i32 = 1;

/// The exit status of `git config --unset-all` for a key that is not set.
pub const UNSET_KEY_ABSENT: i32 = 5;

/// A Git version, major and minor.
#[derive(Debug, Clone, Copy, PartialEq, Eq, Structural)]
pub struct Version {
    pub major: u32,
    pub minor: u32,
}

/// The first Git version with hooks in its config.
pub open spec fn config_hooks_version() -> Version {
    Version { major: 2, minor: 54 }
}

/// `a` comes before `b`.
pub open spec fn version_lt(a: Version, b: Version) -> bool {
    a.major < b.major || (a.major == b.major && a.minor < b.minor)
}

/// `major.minor`.
pub open spec fn version_text(v: Version) -> Seq<char> {
    decimal(v.major as nat) + seq!['.'] + decimal(v.minor as nat)
}

impl Version {
    /// The first Git version with hooks in its config.
    pub fn config_hooks() -> (r: Version)
        ensures
            r == config_hooks_version(),
    {
        Version { major: 2, minor: 54 }
    }

    /// `self` comes before `other`.
    pub fn lt(&self, other: &Version) -> (r: bool)
        ensures
            r == version_lt(*self, *other),
    {
        self.major < other.major || (self.major == other.major && self.minor < other.minor)
    }

    /// `major.minor`, as the version is displayed.
    pub fn text(&self) -> (r: String)
        ensures
            r@ == version_text(*self),
    {
        let mut out: Vec<char> = Vec::new();
        push_decimal(&mut out, self.major as u64);
        out.push('.');
        push_decimal(&mut out, self.minor as u64);
        proof {
            assert(out@ =~= version_text(*self));
        }
        string_of(&out)
    }
}

/// What a `git` command gave back.
pub struct Output {
    /// The exit status; `None` when a signal ended the process.
    pub code: Option<i32>,
    pub stdout: String,
    /// The standard error, trimmed.
    pub stderr: String,
}

impl Output {
    /// The command exited with status 0.
    pub fn succeeded(&self) -> (r: bool)
        ensures
            r == (self.code == Some(0i32)),
    {
        match self.code {
            Some(code) => code == 0,
            None => false,
        }
    }
}

/// The profile that the repository selects.
pub enum ProfileLookup {
    Selected(String),
    Unselected,
    /// Git found no repository; what it printed on stderr.
    NoRepository(String),
}

/// The working tree of the repository in the working directory.
pub enum Worktree {
    Root(String),
    /// Git found no repository; what it printed on stderr.
    NoRepository(String),
}

/// The profile selection from the output of
/// `git config --local --get agent-gh.profile`: the trimmed value, no
/// selection when the key is absent, and no repository on any other failure.
pub fn profile_lookup(output: &Output) -> (r: ProfileLookup)
    ensures
        output.code == Some(0i32) ==> (r matches ProfileLookup::Selected(name) && name@ == trimmed(
            output.stdout@,
        )),
        output.code == Some(GET_KEY_ABSENT) ==> r is Unselected,
        output.code != Some(0i32) && output.code != Some(GET_KEY_ABSENT) ==> (
        r matches ProfileLookup::NoRepository(e) && e@ == output.stderr@),
{
    match output.code {
        Some(0) => ProfileLookup::Selected(trim(output.stdout.as_str())),
        Some(GET_KEY_ABSENT) => ProfileLookup::Unselected,
        _ => ProfileLookup::NoRepository(output.stderr.clone()),
    }
}

/// The working tree from the output of `git rev-parse --show-toplevel`.
pub fn worktree(output: &Output) -> (r: Worktree)
    ensures
        output.code == Some(0i32) ==> (r matches Worktree::Root(root) && root@ == trimmed(
            output.stdout@,
        )),
        output.code != Some(0i32) ==> (r matches Worktree::NoRepository(e) && e@
            == output.stderr@),
{
    if output.succeeded() {
        Worktree::Root(trim(output.stdout.as_str()))
    } else {
        Worktree::NoRepository(output.stderr.clone())
    }
}

/// The commit hook is installed: `git config --local --get` found its
/// command.
pub fn hook_installed(output: &Output) -> (r: bool)
    ensures
        r == (output.code == Some(0i32)),
{
    output.succeeded()
}

/// The index of the first `.` in `s`, or its length.
pub open spec fn dot_index(s: Seq<char>) -> int
    decreases s.len(),
{
    if s.len() == 0 {
        0
    } else if s[0] == '.' {
        0
    } else {
        1 + dot_index(s.drop_first())
    }
}

/// An ASCII decimal digit.
pub open spec fn is_digit(c: char) -> bool {
    '0' <= c <= '9'
}

/// The value of a run of decimal digits.
pub open spec fn digits_value(s: Seq<char>) -> nat
    decreases s.len(),
{
    if s.len() == 0 {
        0
    } else {
        digits_value(s.drop_last()) * 10 + (s.last() as nat - '0' as nat) as nat
    }
}

/// `s` without one leading `+`.
pub open spec fn without_plus(s: Seq<char>) -> Seq<char> {
    if s.len() > 0 && s[0] == '+' {
        s.drop_first()
    } else {
        s
    }
}

/// `s` as `u32::from_str` reads it: an optional `+`, then one or more
/// decimal digits whose value fits in a `u32`.
pub open spec fn parse_u32(s: Seq<char>) -> Option<u32> {
    let d = without_plus(s);
    if d.len() > 0 && (forall|i: int| 0 <= i < d.len() ==> is_digit(#[trigger] d[i])) && digits_value(
        d,
    ) <= u32::MAX {
        Some(digits_value(d) as u32)
    } else {
        None
    }
}

/// The prefix of `git version` output.
pub open spec fn version_prefix() -> Seq<char> {
    "git version "@
}

/// The version in `git version` output: after the prefix, the numbers
/// before the first and the second `.` (or the end).
pub open spec fn version_of(output: Seq<char>) -> Option<Version> {
    let p = version_prefix();
    if output.len() >= p.len() && output.take(p.len() as int) == p {
        let rest = output.skip(p.len() as int);
        let i = dot_index(rest);
        if i < rest.len() {
            let after = rest.skip(i + 1);
            match (parse_u32(rest.take(i)), parse_u32(after.take(dot_index(after)))) {
                (Some(major), Some(minor)) => Some(Version { major, minor }),
                _ => None,
            }
        } else {
            None
        }
    } else {
        None
    }
}

proof fn lemma_dot_index(s: Seq<char>)
    ensures
        0 <= dot_index(s) <= s.len(),
        dot_index(s) < s.len() ==> s[dot_index(s)] == '.',
        forall|k: int| 0 <= k < dot_index(s) ==> s[k] != '.',
    decreases s.len(),
{
    if s.len() > 0 && s[0] != '.' {
        lemma_dot_index(s.drop_first());
        assert forall|k: int| 0 <= k < dot_index(s) implies s[k] != '.' by {
            if k > 0 {
                assert(s[k] == s.drop_first()[k - 1]);
            }
        }
    }
}

proof fn lemma_dot_index_at(s: Seq<char>, i: int)
    requires
        0 <= i <= s.len(),
        forall|k: int| 0 <= k < i ==> s[k] != '.',
        i < s.len() ==> s[i] == '.',
    ensures
        dot_index(s) == i,
    decreases s.len(),
{
    if s.len() > 0 && s[0] != '.' {
        assert forall|k: int| 0 <= k < i - 1 implies s.drop_first()[k] != '.' by {
            assert(s.drop_first()[k] == s[k + 1]);
        }
        lemma_dot_index_at(s.drop_first(), i - 1);
    }
}

/// The index of the first `.` in `s[from..]`, counted from the start of `s`,
/// or its length.
fn find_dot(s: &Vec<char>, from: usize) -> (r: usize)
    requires
        from <= s.len(),
    ensures
        r == from + dot_index(s@.skip(from as int)),
        from <= r <= s.len(),
{
    let mut i = from;
    while i < s.len() && s[i] != '.'
        invariant
            from <= i <= s.len(),
            forall|k: int| from <= k < i ==> s@[k] != '.',
        decreases s.len() - i,
    {
        i += 1;
    }
    proof {
        let t = s@.skip(from as int);
        assert forall|k: int| 0 <= k < i - from implies t[k] != '.' by {
            assert(t[k] == s@[from + k]);
        }
        lemma_dot_index_at(t, i - from);
        lemma_dot_index(t);
    }
    i
}

proof fn lemma_digits_value_monotone(s: Seq<char>, i: int)
    requires
        0 <= i <= s.len(),
        forall|k: int| 0 <= k < s.len() ==> is_digit(#[trigger] s[k]),
    ensures
        digits_value(s.take(i)) <= digits_value(s),
    decreases s.len() - i,
{
    if i < s.len() {
        lemma_digits_value_monotone(s, i + 1);
        assert(s.take(i + 1).drop_last() =~= s.take(i));
    } else {
        assert(s.take(i) =~= s);
    }
}

/// `s[from..to]` as `u32::from_str` reads it.
fn parse_u32_range(s: &Vec<char>, from: usize, to: usize) -> (r: Option<u32>)
    requires
        from <= to <= s.len(),
    ensures
        r == parse_u32(s@.subrange(from as int, to as int)),
{
    let ghost t = s@.subrange(from as int, to as int);
    let mut start = from;
    if start < to && s[start] == '+' {
        start += 1;
    }
    let ghost d = s@.subrange(start as int, to as int);
    assert(d == without_plus(t)) by {
        if t.len() > 0 && t[0] == '+' {
            assert(d =~= t.drop_first());
        } else {
            assert(d =~= t);
        }
    }
    if start == to {
        return None;
    }
    let mut value: u64 = 0;
    let mut i = start;
    while i < to
        invariant
            from <= start <= i <= to <= s.len(),
            d == s@.subrange(start as int, to as int),
            t == s@.subrange(from as int, to as int),
            d == without_plus(t),
            forall|k: int| 0 <= k < i - start ==> is_digit(#[trigger] d[k]),
            value == digits_value(d.take(i - start)),
            value <= u32::MAX,
        decreases to - i,
    {
        let c = s[i];
        if !('0' <= c && c <= '9') {
            assert(!is_digit(d[i - start]));
            return None;
        }
        assert(d.take(i - start + 1).drop_last() =~= d.take(i - start));
        assert(d.take(i - start + 1).last() == c);
        let next = value * 10 + ((c as u32) - ('0' as u32)) as u64;
        if next > 0xffff_ffff {
            proof {
                assert(d.take(i - start + 1) =~= s@.subrange(start as int, i + 1));
                assert forall|k: int| start <= k < i + 1 implies is_digit(#[trigger] s@[k]) by {
                    assert(s@[k] == d[k - start]);
                }
            }
            return parse_u32_overflow(s, start, to, i + 1, next);
        }
        value = next;
        i += 1;
    }
    assert(d.take(to - start) =~= d);
    Some(value as u32)
}

/// Reads on after the digits `s[start..upto]`, whose value exceeds `u32::MAX`:
/// the result is `None` whatever follows.
fn parse_u32_overflow(s: &Vec<char>, start: usize, to: usize, upto: usize, value: u64) -> (r: Option<u32>)
    requires
        start < upto <= to <= s.len(),
        forall|k: int| start <= k < upto ==> is_digit(#[trigger] s@[k]),
        value == digits_value(s@.subrange(start as int, upto as int)),
        value > u32::MAX,
    ensures
        r is None,
        ({
            let d = s@.subrange(start as int, to as int);
            !(d.len() > 0 && (forall|i: int| 0 <= i < d.len() ==> is_digit(#[trigger] d[i]))
                && digits_value(d) <= u32::MAX)
        }),
{
    let ghost d = s@.subrange(start as int, to as int);
    proof {
        if d.len() > 0 && (forall|i: int| 0 <= i < d.len() ==> is_digit(#[trigger] d[i])) {
            lemma_digits_value_monotone(d, upto - start);
            assert(d.take(upto - start) =~= s@.subrange(start as int, upto as int));
        }
    }
    None
}

/// The version in `git version` output.
pub fn parse_version(output: &str) -> (r: Option<Version>)
    ensures
        r == version_of(output@),
{
    let s = chars_of(output);
    let prefix = chars_of("git version ");
    proof {
        reveal_strlit("git version ");
    }
    let n = prefix.len();
    if s.len() < n {
        return None;
    }
    let mut k: usize = 0;
    while k < n
        invariant
            0 <= k <= n <= s.len(),
            n == prefix.len(),
            s@ == output@,
            prefix@ == version_prefix(),
            forall|j: int| 0 <= j < k ==> s@[j] == prefix@[j],
        decreases n - k,
    {
        if s[k] != prefix[k] {
            assert(s@.take(n as int)[k as int] != prefix@[k as int]);
            return None;
        }
        k += 1;
    }
    assert(s@.take(n as int) =~= prefix@);
    let ghost rest = s@.skip(n as int);
    let i = find_dot(&s, n);
    if i >= s.len() {
        return None;
    }
    let j = find_dot(&s, i + 1);
    proof {
        lemma_dot_index(rest);
        assert(rest.skip(i - n + 1) =~= s@.skip(i + 1));
        assert(rest.take(i - n) =~= s@.subrange(n as int, i as int));
        assert(rest.skip(i - n + 1).take(j - i - 1) =~= s@.subrange(i + 1, j as int));
    }
    let major = parse_u32_range(&s, n, i);
    let minor = parse_u32_range(&s, i + 1, j);
    match (major, minor) {
        (Some(major), Some(minor)) => Some(Version { major, minor }),
        _ => None,
    }
}

/// Why the Git version cannot run the commit hook, or `None` when it can:
/// the message for each outcome of `check_version`.
pub open spec fn version_problem(output: Seq<char>) -> Option<Seq<char>> {
    let t = trimmed(output);
    match version_of(t) {
        None => Some("cannot read the Git version from "@ + str_debug(t)),
        Some(v) => if version_lt(v, config_hooks_version()) {
            Some(
                "the commit hook requires Git "@ + version_text(config_hooks_version())
                    + " or later; found "@ + str_debug(t),
            )
        } else {
            None
        },
    }
}

/// Checks that the Git version in `git version` output can run hooks from
/// its config.
pub fn check_version(output: &str) -> (r: Result<(), String>)
    ensures
        match version_problem(output@) {
            None => r is Ok,
            Some(m) => r matches Err(e) && e@ == m,
        },
{
    let t = trim(output);
    let quoted = debug_text(t.as_str());
    match parse_version(t.as_str()) {
        None => {
            let mut out: Vec<char> = Vec::new();
            push_str(&mut out, "cannot read the Git version from ");
            push_chars(&mut out, &chars_of(quoted.as_str()));
            Err(string_of(&out))
        },
        Some(v) => {
            let required = Version::config_hooks();
            if v.lt(&required) {
                let mut out: Vec<char> = Vec::new();
                push_str(&mut out, "the commit hook requires Git ");
                push_chars(&mut out, &chars_of(required.text().as_str()));
                push_str(&mut out, " or later; found ");
                push_chars(&mut out, &chars_of(quoted.as_str()));
                Err(string_of(&out))
            } else {
                Ok(())
            }
        },
    }
}

/// Checks the output of `git version`: the command succeeded and the version
/// can run hooks from its config.
pub fn require_config_hooks(output: &Output) -> (r: Result<(), String>)
    ensures
        output.code != Some(0i32) ==> (r matches Err(e) && e@ == "`git version` failed: "@
            + output.stderr@),
        output.code == Some(0i32) ==> match version_problem(output.stdout@) {
            None => r is Ok,
            Some(m) => r matches Err(e) && e@ == m,
        },
{
    if !output.succeeded() {
        let mut out: Vec<char> = Vec::new();
        push_str(&mut out, "`git version` failed: ");
        push_chars(&mut out, &chars_of(output.stderr.as_str()));
        return Err(string_of(&out));
    }
    check_version(output.stdout.as_str())
}

/// The next thing to do in a sequence of `git config` commands.
pub enum GitStep {
    /// Run `git` with these arguments.
    Run(Vec<String>),
    /// All commands succeeded.
    Done,
    /// A command failed; the message says which and why.
    Failed(String),
}

/// The views of a list of strings.
pub open spec fn strings_view(v: Seq<String>) -> Seq<Seq<char>> {
    v.map_values(|s: String| s@)
}

/// The keys that installing the hook sets, in order.
pub open spec fn hook_keys() -> Seq<Seq<char>> {
    seq![PROFILE_KEY@, HOOK_EVENT_KEY@, HOOK_COMMAND_KEY@]
}

/// The values that installing the hook for `profile` sets, in order.
pub open spec fn hook_values(profile: Seq<char>) -> Seq<Seq<char>> {
    seq![profile, HOOK_EVENT@, HOOK_COMMAND@]
}

/// The arguments of the `i`-th command that installs the hook.
pub open spec fn install_args(profile: Seq<char>, i: int) -> Seq<Seq<char>> {
    seq!["config"@, "--local"@, "--replace-all"@, hook_keys()[i], hook_values(profile)[i]]
}

/// The arguments of the `i`-th command that removes the hook.
pub open spec fn remove_args(i: int) -> Seq<Seq<char>> {
    seq!["config"@, "--local"@, "--unset-all"@, hook_keys()[i]]
}

/// The message for a failed `git config --local <option> <key>`.
pub open spec fn config_failure(option: Seq<char>, key: Seq<char>, stderr: Seq<char>) -> Seq<char> {
    "`git config --local "@ + option + " "@ + key + "` failed: "@ + stderr
}

/// After at least one command, the last one failed.
pub open spec fn last_failed(ran: usize, last: Option<&Output>) -> bool {
    1 <= ran <= 3 && (last matches Some(o) && o.code != Some(0i32))
}

/// After at least one command, the last one failed for another reason than
/// an absent key.
pub open spec fn last_unset_failed(ran: usize, last: Option<&Output>) -> bool {
    1 <= ran <= 3 && (last matches Some(o) && o.code != Some(0i32) && o.code != Some(
        UNSET_KEY_ABSENT,
    ))
}

/// The key at index `i` of `hook_keys`.
fn hook_key(i: usize) -> (r: &'static str)
    requires
        i < 3,
    ensures
        r@ == hook_keys()[i as int],
{
    if i == 0 {
        PROFILE_KEY
    } else if i == 1 {
        HOOK_EVENT_KEY
    } else {
        HOOK_COMMAND_KEY
    }
}

/// The message for a failed `git config --local <option> <key>`.
fn config_failure_message(option: &str, key: &str, stderr: &str) -> (r: String)
    ensures
        r@ == config_failure(option@, key@, stderr@),
{
    let mut out: Vec<char> = Vec::new();
    push_str(&mut out, "`git config --local ");
    push_str(&mut out, option);
    push_str(&mut out, " ");
    push_str(&mut out, key);
    push_str(&mut out, "` failed: ");
    push_str(&mut out, stderr);
    proof {
        assert(out@ =~= config_failure(option@, key@, stderr@));
    }
    string_of(&out)
}

/// The step after `ran` of the commands that select `profile` and install
/// the commit hook, given the output of the last command run: each command
/// sets one key with `git config --local --replace-all`, and the first that
/// fails ends the sequence.
pub fn install_hooks(profile: &str, ran: usize, last: Option<&Output>) -> (r: GitStep)
    ensures
        last_failed(ran, last) ==> (r matches GitStep::Failed(m) && m@ == config_failure(
            "--replace-all"@,
            hook_keys()[ran - 1],
            last->0.stderr@,
        )),
        !last_failed(ran, last) ==> if ran >= 3 {
            r is Done
        } else {
            r matches GitStep::Run(args) && strings_view(args@) == install_args(profile@, ran as int)
        },
{
    if 1 <= ran && ran <= 3 {
        match last {
            Some(o) => {
                if !o.succeeded() {
                    return GitStep::Failed(
                        config_failure_message("--replace-all", hook_key(ran - 1), o.stderr.as_str()),
                    );
                }
            },
            None => {},
        }
    }
    if ran >= 3 {
        return GitStep::Done;
    }
    let value = if ran == 0 {
        profile
    } else if ran == 1 {
        HOOK_EVENT
    } else {
        HOOK_COMMAND
    };
    let args = vec![
        "config".to_owned(),
        "--local".to_owned(),
        "--replace-all".to_owned(),
        hook_key(ran).to_owned(),
        value.to_owned(),
    ];
    proof {
        assert(strings_view(args@) =~= install_args(profile@, ran as int));
    }
    GitStep::Run(args)
}

/// The step after `ran` of the commands that remove the profile selection
/// and the commit hook, given the output of the last command run: each
/// command unsets one key with `git config --local --unset-all`; a key that
/// is not set is no failure.
pub fn remove_hooks(ran: usize, last: Option<&Output>) -> (r: GitStep)
    ensures
        last_unset_failed(ran, last) ==> (r matches GitStep::Failed(m) && m@ == config_failure(
            "--unset-all"@,
            hook_keys()[ran - 1],
            last->0.stderr@,
        )),
        !last_unset_failed(ran, last) ==> if ran >= 3 {
            r is Done
        } else {
            r matches GitStep::Run(args) && strings_view(args@) == remove_args(ran as int)
        },
{
    if 1 <= ran && ran <= 3 {
        match last {
            Some(o) => {
                let absent = match o.code {
                    Some(code) => code == UNSET_KEY_ABSENT,
                    None => false,
                };
                if !o.succeeded() && !absent {
                    return GitStep::Failed(
                        config_failure_message("--unset-all", hook_key(ran - 1), o.stderr.as_str()),
                    );
                }
            },
            None => {},
        }
    }
    if ran >= 3 {
        return GitStep::Done;
    }
    let args = vec![
        "config".to_owned(),
        "--local".to_owned(),
        "--unset-all".to_owned(),
        hook_key(ran).to_owned(),
    ];
    proof {
        assert(strings_view(args@) =~= remove_args(ran as int));
    }
    GitStep::Run(args)
}

/// Removing the hook unsets exactly the keys that installing it sets, in the
/// same order, whatever the profile.
pub proof fn remove_unsets_what_install_sets(profile: Seq<char>, i: int)
    requires
        0 <= i < 3,
    ensures
        remove_args(i)[3] == install_args(profile, i)[3],
        remove_args(i).len() == 4,
        install_args(profile, i).len() == 5,
{
}

/// What `git config --local --replace-all <key> <value>` leaves in the local
/// configuration, seen as a map from each key to its values: as Git documents
/// the option, the key then holds that one value, and no other key changes.
pub open spec fn replaced_all(config: Map<Seq<char>, Seq<Seq<char>>>, key: Seq<char>, value: Seq<char>) -> Map<Seq<char>, Seq<Seq<char>>> {
    config.insert(key, seq![value])
}

/// What `git config --local --unset-all <key>` leaves in the local
/// configuration: the key holds no value, and no other key changes.
pub open spec fn unset_all(config: Map<Seq<char>, Seq<Seq<char>>>, key: Seq<char>) -> Map<
    Seq<char>,
    Seq<Seq<char>>,
> {
    config.remove(key)
}

/// The local configuration after the commands that `install_hooks` runs for
/// `profile` all succeeded.
pub open spec fn after_install(config: Map<Seq<char>, Seq<Seq<char>>>, profile: Seq<char>) -> Map<
    Seq<char>,
    Seq<Seq<char>>,
> {
    let a0 = install_args(profile, 0);
    let a1 = install_args(profile, 1);
    let a2 = install_args(profile, 2);
    replaced_all(replaced_all(replaced_all(config, a0[3], a0[4]), a1[3], a1[4]), a2[3], a2[4])
}

/// The local configuration after the commands that `remove_hooks` runs all
/// succeeded, or found their key absent.
pub open spec fn after_remove(config: Map<Seq<char>, Seq<Seq<char>>>) -> Map<
    Seq<char>,
    Seq<Seq<char>>,
> {
    unset_all(unset_all(unset_all(config, remove_args(0)[3]), remove_args(1)[3]), remove_args(2)[3])
}

/// The keys that the hook uses differ from one another.
proof fn lemma_hook_keys_differ()
    ensures
        hook_keys()[0] != hook_keys()[1],
        hook_keys()[0] != hook_keys()[2],
        hook_keys()[1] != hook_keys()[2],
{
    reveal_strlit("agent-gh.profile");
    reveal_strlit("hook.agent-gh.commit-msg.event");
    reveal_strlit("hook.agent-gh.commit-msg.command");
    assert(hook_keys()[0][0] != hook_keys()[1][0]);
    assert(hook_keys()[0][0] != hook_keys()[2][0]);
    assert(hook_keys()[1][25] != hook_keys()[2][25]);
}

/// Installing the hook for `profile` leaves each of its keys with exactly one
/// value, the profile and the hook's event and command, and every other key
/// as it was.
pub proof fn install_sets_each_key_once(config: Map<Seq<char>, Seq<Seq<char>>>, profile: Seq<char>)
    ensures
        forall|i: int|
            0 <= i < 3 ==> after_install(config, profile).dom().contains(#[trigger] hook_keys()[i])
                && after_install(config, profile)[hook_keys()[i]] == seq![hook_values(profile)[i]],
        forall|k: Seq<char>|
            !hook_keys().contains(k) ==> (#[trigger] after_install(config, profile).dom().contains(k)
                == config.dom().contains(k) && (config.dom().contains(k) ==> after_install(
                config,
                profile,
            )[k] == config[k])),
{
    lemma_hook_keys_differ();
    assert forall|k: Seq<char>| !hook_keys().contains(k) implies k != hook_keys()[0] && k
        != hook_keys()[1] && k != hook_keys()[2] by {
        if k == hook_keys()[0] {
            assert(hook_keys().contains(k));
        }
        if k == hook_keys()[1] {
            assert(hook_keys().contains(k));
        }
        if k == hook_keys()[2] {
            assert(hook_keys().contains(k));
        }
    }
}

/// Installing the hook a second time for the same profile leaves the local
/// configuration as the first time left it.
pub proof fn installing_twice_changes_nothing(config: Map<Seq<char>, Seq<Seq<char>>>, profile: Seq<char>)
    ensures
        after_install(after_install(config, profile), profile) == after_install(config, profile),
{
    lemma_hook_keys_differ();
    assert(after_install(after_install(config, profile), profile) =~= after_install(config, profile));
}

/// Installing the hook for another profile changes only the profile that the
/// repository selects.
pub proof fn installing_another_profile_changes_only_the_selection(
    config: Map<Seq<char>, Seq<Seq<char>>>,
    profile: Seq<char>,
    other: Seq<char>,
)
    ensures
        after_install(after_install(config, profile), other) == after_install(config, profile).insert(
            PROFILE_KEY@,
            seq![other],
        ),
{
    lemma_hook_keys_differ();
    assert(after_install(after_install(config, profile), other) =~= after_install(
        config,
        profile,
    ).insert(PROFILE_KEY@, seq![other]));
}

/// Removing the hook after installing it leaves the local configuration as
/// removing it from the configuration before would: every key of the hook
/// gone, every other key as it was.
pub proof fn removing_undoes_installing(config: Map<Seq<char>, Seq<Seq<char>>>, profile: Seq<char>)
    ensures
        after_remove(after_install(config, profile)) == after_remove(config),
{
    lemma_hook_keys_differ();
    assert(after_remove(after_install(config, profile)) =~= after_remove(config));
}

} // verus!
