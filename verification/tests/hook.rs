use agent_gh::hook::{
    block_message, check_payload_size, parse_failure, read_failure, MAX_PAYLOAD_BYTES,
};

fn command(text: &str) -> Result<String, String> {
    Ok(text.to_owned())
}

#[test]
fn blocks_direct_gh_invocation() {
    let message = block_message(&command("gh issue list")).expect("command is blocked");
    assert!(
        message.contains("Replace `gh` with `agent-gh`"),
        "{message}"
    );
    assert_eq!(
        message,
        "agent-gh: `gh` runs the GitHub CLI with personal credentials. Replace `gh` with `agent-gh` to run the command as the GitHub App bot, or as the user when the command matches the run_as_user configuration."
    );
}

#[test]
fn leaves_agent_gh_to_the_harness() {
    assert_eq!(block_message(&command("agent-gh issue list")), None);
}

#[test]
fn leaves_unparsable_commands_to_the_harness() {
    assert_eq!(block_message(&command("gh issue list \"unclosed")), None);
}

#[test]
fn blocks_commands_nested_beyond_the_parser_limit() {
    let text = format!("echo {}gh{}", "$(".repeat(10_000), ")".repeat(10_000));
    let message = block_message(&command(&text)).expect("command is blocked");
    assert!(message.contains("nests more than 64 levels"), "{message}");
    assert_eq!(
        message,
        "agent-gh: cannot check this command: it nests more than 64 levels of substitutions"
    );
}

#[test]
fn blocks_payloads_that_cannot_be_read() {
    let message = block_message(&Err(parse_failure("key must be a string at line 1 column 2")))
        .expect("payload is blocked");
    assert_eq!(
        message,
        "agent-gh: cannot check this command: parsing the hook payload: key must be a string at line 1 column 2"
    );
    let message = block_message(&Err(read_failure("stream did not contain valid UTF-8")))
        .expect("payload is blocked");
    assert!(message.contains("reading the hook payload"), "{message}");
}

#[test]
fn blocks_oversized_payload() {
    let error = check_payload_size(MAX_PAYLOAD_BYTES + 1).expect_err("payload is refused");
    assert!(error.contains("exceeds 1048576 bytes"), "{error}");
    assert_eq!(error, "the hook payload exceeds 1048576 bytes");
    let message = block_message(&Err(error)).expect("payload is blocked");
    assert_eq!(
        message,
        "agent-gh: cannot check this command: the hook payload exceeds 1048576 bytes"
    );
}

#[test]
fn accepts_payload_at_the_size_limit() {
    assert_eq!(MAX_PAYLOAD_BYTES, 1_048_576);
    assert_eq!(check_payload_size(MAX_PAYLOAD_BYTES), Ok(()));
    assert_eq!(check_payload_size(0), Ok(()));
    assert_eq!(block_message(&command(&" ".repeat(1024))), None);
}

#[test]
fn blocks_invalid_json() {
    let error = serde_json::from_slice::<serde_json::Value>(b"{not json")
        .expect_err("the payload is not JSON");
    let message =
        block_message(&Err(parse_failure(&error.to_string()))).expect("payload is blocked");
    assert!(message.contains("parsing the hook payload"), "{message}");
}

#[test]
fn blocks_payload_without_command() {
    let error = <serde_json::Error as serde::de::Error>::missing_field("command");
    let message =
        block_message(&Err(parse_failure(&error.to_string()))).expect("payload is blocked");
    assert!(message.contains("missing field `command`"), "{message}");
}
