//! The harness hook that blocks Bash commands which run the GitHub CLI
//! directly.
use crate::bash::{find_direct_gh, ParseError, MAX_NESTING};
use crate::bash_model::direct_gh;
use crate::text::{chars_of, decimal, push_chars, push_decimal, push_str, string_of};
use vstd::prelude::*;

verus! {

/// The largest hook payload, in bytes, that the hook reads.
pub const MAX_PAYLOAD_BYTES: u64 = 1024 * 1024;

/// Why a payload larger than `MAX_PAYLOAD_BYTES` is refused.
pub open spec fn too_large_message() -> Seq<char> {
    "the hook payload exceeds "@ + decimal(MAX_PAYLOAD_BYTES as nat) + " bytes"@
}

/// A payload of `len` bytes may be read; a longer one is refused.
pub fn check_payload_size(len: u64) -> (r: Result<(), String>)
    ensures
        len <= MAX_PAYLOAD_BYTES ==> r is Ok,
        len > MAX_PAYLOAD_BYTES ==> (r matches Err(m) && m@ == too_large_message()),
{
    if len <= MAX_PAYLOAD_BYTES {
        return Ok(());
    }
    let mut out: Vec<char> = Vec::new();
    push_str(&mut out, "the hook payload exceeds ");
    push_decimal(&mut out, MAX_PAYLOAD_BYTES);
    push_str(&mut out, " bytes");
    proof {
        assert(out@ =~= too_large_message());
    }
    Err(string_of(&out))
}

/// `what: cause`.
fn with_context(what: &str, cause: &str) -> (r: String)
    ensures
        r@ == what@ + ": "@ + cause@,
{
    let mut out: Vec<char> = Vec::new();
    push_str(&mut out, what);
    push_str(&mut out, ": ");
    push_str(&mut out, cause);
    proof {
        assert(out@ =~= what@ + ": "@ + cause@);
    }
    string_of(&out)
}

/// Why the payload could not be read, from the cause.
pub fn read_failure(cause: &str) -> (r: String)
    ensures
        r@ == "reading the hook payload: "@ + cause@,
{
    let r = with_context("reading the hook payload", cause);
    proof {
        reveal_strlit("reading the hook payload");
        reveal_strlit(": ");
        reveal_strlit("reading the hook payload: ");
        assert(r@ =~= "reading the hook payload: "@ + cause@);
    }
    r
}

/// Why the payload could not be decoded, from the cause.
pub fn parse_failure(cause: &str) -> (r: String)
    ensures
        r@ == "parsing the hook payload: "@ + cause@,
{
    let r = with_context("parsing the hook payload", cause);
    proof {
        reveal_strlit("parsing the hook payload");
        reveal_strlit(": ");
        reveal_strlit("parsing the hook payload: ");
        assert(r@ =~= "parsing the hook payload: "@ + cause@);
    }
    r
}

/// The message that blocks a command because it cannot be checked.
pub open spec fn cannot_check(cause: Seq<char>) -> Seq<char> {
    "agent-gh: cannot check this command: "@ + cause
}

/// The message that blocks a command which runs the GitHub CLI as `word`.
pub open spec fn direct_gh_message(word: Seq<char>) -> Seq<char> {
    "agent-gh: `"@ + word + "` runs the GitHub CLI with personal credentials. Replace `"@ + word
        + "` with `agent-gh` to run the command as the GitHub App bot, or as the user when the command matches the run_as_user configuration."@
}

/// The cause for a command whose substitutions nest too deep.
pub open spec fn too_deep_cause() -> Seq<char> {
    "it nests more than "@ + decimal(MAX_NESTING as nat) + " levels of substitutions"@
}

/// The hook's answer for a command, or for the reason it could not be read.
pub open spec fn block_message_for(command: Result<Seq<char>, Seq<char>>) -> Option<Seq<char>> {
    match command {
        Err(cause) => Some(cannot_check(cause)),
        Ok(c) => match direct_gh(c) {
            Ok(Some(word)) => Some(direct_gh_message(word)),
            Err(ParseError::TooDeep) => Some(cannot_check(too_deep_cause())),
            Ok(None) | Err(ParseError::Unparsable) => None,
        },
    }
}

/// The command, or why it could not be read, as characters.
pub open spec fn command_view(command: &Result<String, String>) -> Result<Seq<char>, Seq<char>> {
    match command {
        Ok(c) => Ok(c@),
        Err(e) => Err(e@),
    }
}

/// An optional message as characters.
pub open spec fn message_view(m: Option<String>) -> Option<Seq<char>> {
    match m {
        Some(s) => Some(s@),
        None => None,
    }
}

/// The message that blocks the command of a hook payload, or `None` when the
/// command may run. `command` is the payload's `tool_input.command`, or why it
/// could not be read. A command that runs the GitHub CLI directly is blocked
/// with a message that names the word that runs it; one that nests
/// substitutions too deep, or that could not be read, is blocked because it
/// cannot be checked. A command without a direct invocation, and one that the
/// scanner cannot parse, is left to the harness.
pub fn block_message(command: &Result<String, String>) -> (r: Option<String>)
    ensures
        message_view(r) == block_message_for(command_view(command)),
{
    match command {
        Err(cause) => {
            let mut out: Vec<char> = Vec::new();
            push_str(&mut out, "agent-gh: cannot check this command: ");
            push_chars(&mut out, &chars_of(cause.as_str()));
            Some(string_of(&out))
        },
        Ok(c) => {
            let found = find_direct_gh(c.as_str());
            match found {
                Ok(Some(word)) => {
                    let w = chars_of(word.as_str());
                    let mut out: Vec<char> = Vec::new();
                    push_str(&mut out, "agent-gh: `");
                    push_chars(&mut out, &w);
                    push_str(&mut out, "` runs the GitHub CLI with personal credentials. Replace `");
                    push_chars(&mut out, &w);
                    push_str(
                        &mut out,
                        "` with `agent-gh` to run the command as the GitHub App bot, or as the user when the command matches the run_as_user configuration.",
                    );
                    Some(string_of(&out))
                },
                Err(ParseError::TooDeep) => {
                    let mut out: Vec<char> = Vec::new();
                    push_str(&mut out, "agent-gh: cannot check this command: ");
                    push_str(&mut out, "it nests more than ");
                    push_decimal(&mut out, MAX_NESTING as u64);
                    push_str(&mut out, " levels of substitutions");
                    proof {
                        assert(out@ =~= cannot_check(too_deep_cause()));
                    }
                    Some(string_of(&out))
                },
                _ => None,
            }
        },
    }
}

} // verus!
