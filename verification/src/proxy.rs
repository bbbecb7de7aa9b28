//! How `gh` is started: its environment, and the errors and exit status
//! that come back.
use crate::config::prefix_views;
use crate::text::{chars_of, push_str, string_of};
use vstd::prelude::*;

verus! {

/// The variables that would give `gh` other credentials; they are removed
/// from its environment.
pub fn removed_variables() -> (r: Vec<&'static str>)
    ensures
        r@.len() == 3,
        r[0]@ == "GITHUB_TOKEN"@,
        r[1]@ == "GH_ENTERPRISE_TOKEN"@,
        r[2]@ == "GITHUB_ENTERPRISE_TOKEN"@,
{
    vec!["GITHUB_TOKEN", "GH_ENTERPRISE_TOKEN", "GITHUB_ENTERPRISE_TOKEN"]
}

/// The variables set for `gh`: the installation token in `GH_TOKEN`, and
/// `GH_HOST=github.com`.
pub fn token_environment(token: &str) -> (r: Vec<(String, String)>)
    ensures
        r@.len() == 2,
        r[0].0@ == "GH_TOKEN"@,
        r[0].1@ == token@,
        r[1].0@ == "GH_HOST"@,
        r[1].1@ == "github.com"@,
{
    vec![("GH_TOKEN".to_owned(), token.to_owned()), ("GH_HOST".to_owned(), "github.com".to_owned())]
}

/// Why `gh` could not start: it is not on `PATH`, or the cause.
pub fn launch_error(not_found: bool, cause: &str) -> (r: String)
    ensures
        not_found ==> r@ == "gh was not found on PATH"@,
        !not_found ==> r@ == "starting gh: "@ + cause@,
{
    if not_found {
        "gh was not found on PATH".to_owned()
    } else {
        let mut out: Vec<char> = Vec::new();
        push_str(&mut out, "starting gh: ");
        push_str(&mut out, cause);
        string_of(&out)
    }
}

/// The exit status for `gh`'s: the same when it fits in `0..=255`, and 1
/// otherwise (a signal, or a status outside that range).
pub fn exit_status(code: Option<i32>) -> (r: u8)
    ensures
        code matches Some(c) && 0 <= c <= 255 ==> r == code->0,
        !(code matches Some(c) && 0 <= c <= 255) ==> r == 1,
{
    match code {
        Some(c) => {
            if 0 <= c && c <= 255 {
                c as u8
            } else {
                1
            }
        },
        None => 1,
    }
}

/// The arguments start with the words of `prefix`.
pub open spec fn starts_with_words(args: Seq<Seq<char>>, prefix: Seq<Seq<char>>) -> bool {
    prefix.len() <= args.len() && forall|i: int| 0 <= i < prefix.len() ==> #[trigger] prefix[i] == args[i]
}

/// The arguments name a command that runs with the user's credentials: they
/// start with the words of one of the prefixes.
pub open spec fn user_command(prefixes: Seq<Seq<Seq<char>>>, args: Seq<Seq<char>>) -> bool {
    exists|k: int| 0 <= k < prefixes.len() && starts_with_words(args, #[trigger] prefixes[k])
}

/// `a` equals `b`.
fn same_text(a: &String, b: &String) -> (r: bool)
    ensures
        r == (a@ == b@),
{
    let x = chars_of(a.as_str());
    let y = chars_of(b.as_str());
    if x.len() != y.len() {
        return false;
    }
    let mut i: usize = 0;
    while i < x.len()
        invariant
            x.len() == y.len(),
            x@ == a@,
            y@ == b@,
            0 <= i <= x.len(),
            forall|j: int| 0 <= j < i ==> x@[j] == y@[j],
        decreases x.len() - i,
    {
        if x[i] != y[i] {
            assert(x@[i as int] != y@[i as int]);
            return false;
        }
        i += 1;
    }
    assert(x@ =~= y@);
    true
}

/// The arguments start with the words of `prefix`.
fn starts_with(args: &Vec<String>, prefix: &Vec<String>) -> (r: bool)
    ensures
        r == starts_with_words(args@.map_values(|a: String| a@), prefix@.map_values(|w: String| w@)),
{
    let ghost a = args@.map_values(|x: String| x@);
    let ghost p = prefix@.map_values(|w: String| w@);
    if prefix.len() > args.len() {
        return false;
    }
    let mut i: usize = 0;
    while i < prefix.len()
        invariant
            prefix.len() <= args.len(),
            a == args@.map_values(|x: String| x@),
            p == prefix@.map_values(|w: String| w@),
            0 <= i <= prefix.len(),
            forall|j: int| 0 <= j < i ==> #[trigger] p[j] == a[j],
        decreases prefix.len() - i,
    {
        if !same_text(&prefix[i], &args[i]) {
            assert(p[i as int] != a[i as int]);
            return false;
        }
        i += 1;
    }
    true
}

/// The command runs with the user's credentials instead of the installation
/// token: its arguments start with the words of an entry of `run_as_user`.
pub fn runs_as_user(prefixes: &Vec<Vec<String>>, args: &Vec<String>) -> (r: bool)
    ensures
        r == user_command(prefix_views(prefixes@), args@.map_values(|a: String| a@)),
{
    let ghost ps = prefix_views(prefixes@);
    let ghost a = args@.map_values(|x: String| x@);
    let mut k: usize = 0;
    while k < prefixes.len()
        invariant
            0 <= k <= prefixes.len(),
            ps == prefix_views(prefixes@),
            a == args@.map_values(|x: String| x@),
            forall|j: int| 0 <= j < k ==> !starts_with_words(a, #[trigger] ps[j]),
        decreases prefixes.len() - k,
    {
        if starts_with(args, &prefixes[k]) {
            assert(ps[k as int] == prefixes@[k as int]@.map_values(|w: String| w@));
            assert(starts_with_words(a, ps[k as int]));
            return true;
        }
        assert(ps[k as int] == prefixes@[k as int]@.map_values(|w: String| w@));
        k += 1;
    }
    false
}

} // verus!
