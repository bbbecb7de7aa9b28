use agent_gh::cache::{cache_file, describe, reusable, token_path, CachedToken};
use agent_gh::config::Config;
use agent_gh::time::{add_seconds, instant_text, Instant};

const NOW: i64 = 1_790_251_200; // 2026-09-24T12:00:00Z

fn at(second: i64) -> Instant {
    Instant { second, nanosecond: 0 }
}

fn token_profile(app_id: u64, installation_id: u64) -> Config {
    Config {
        app_id,
        installation_id,
        private_key_path: "/keys/app.pem".to_owned(),
        run_as_user: Vec::new(),
    }
}

fn token(installation_id: u64, expires_at: i64) -> CachedToken {
    CachedToken {
        app_id: 1,
        installation_id,
        token: "cached-token".to_owned(),
        expires_at: at(expires_at),
    }
}

#[test]
fn describes_cache_states() {
    let profile = token_profile(1, 2);
    let describe = |cached: Option<CachedToken>| describe(cached.as_ref(), &profile, at(NOW));

    assert_eq!(describe(None), "none cached");
    assert_eq!(
        describe(Some(token(3, 1_790_254_800))),
        "cached for a different App or installation"
    );
    assert_eq!(
        describe(Some(token(2, 1_790_247_600))),
        "expired at 2026-09-24T11:00:00Z"
    );
    assert_eq!(
        describe(Some(token(2, 1_790_251_380))),
        "expires at 2026-09-24T12:03:00Z; the next gh command refreshes it"
    );
    assert_eq!(
        describe(Some(token(2, 1_790_254_800))),
        "valid until 2026-09-24T13:00:00Z"
    );
    assert_eq!(
        describe(Some(token(2, NOW))),
        "expired at 2026-09-24T12:00:00Z"
    );
}

#[test]
fn reuses_only_a_matching_token_valid_past_the_margin() {
    let profile = token_profile(1, 2);
    let now = at(NOW);
    assert!(reusable(&Some(token(2, 1_790_253_000)), &profile, now));
    assert!(reusable(&Some(token(2, 1_790_251_501)), &profile, now));
    assert!(!reusable(&Some(token(2, 1_790_251_500)), &profile, now));
    assert!(!reusable(&Some(token(2, 1_790_251_499)), &profile, now));
    assert!(!reusable(&Some(token(3, 1_790_254_800)), &profile, now));
    assert!(!reusable(&None, &profile, now));
    let other_app = CachedToken {
        app_id: 7,
        ..token(2, 1_790_254_800)
    };
    assert!(!reusable(&Some(other_app), &profile, now));
    assert!(token(2, 1_790_251_501).fresh_at(now));
    assert!(!token(2, 1_790_251_500).fresh_at(now));
    assert!(token(2, 0).belongs_to(&profile));
    assert!(!token(3, 0).belongs_to(&profile));
}

#[test]
fn keeps_the_issued_token_for_the_profile() {
    let profile = token_profile(4, 9);
    let cached = CachedToken::issued(&profile, "new-token".to_owned(), at(NOW));
    assert_eq!(cached.app_id, 4);
    assert_eq!(cached.installation_id, 9);
    assert_eq!(cached.token, "new-token");
    assert_eq!(cached.expires_at, at(NOW));
}

#[test]
fn names_token_file_after_app_and_installation() {
    assert_eq!(
        token_path("/home/agent/.cache/agent-gh", &token_profile(1, 2)),
        "/home/agent/.cache/agent-gh/token-1-2.toml"
    );
}

#[test]
fn adds_seconds_within_the_timestamp_range() {
    assert_eq!(add_seconds(at(NOW), 300), Ok(at(NOW + 300)));
    assert_eq!(add_seconds(at(NOW), -60), Ok(at(NOW - 60)));
    assert!(add_seconds(at(253_402_207_200), 1).is_err());
    assert_eq!(instant_text(at(NOW)), "2026-09-24T12:00:00Z");
}

#[test]
fn the_status_names_the_token_cache_file() {
    assert_eq!(
        cache_file("/home/agent/.cache/agent-gh"),
        "/home/agent/.cache/agent-gh/token.toml"
    );
}
