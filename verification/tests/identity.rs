use agent_gh::config::Config;
use agent_gh::identity::{checked_slug, describe, matching, path, CachedIdentity};

fn identity_profile(app_id: u64) -> Config {
    Config {
        app_id,
        installation_id: 2,
        private_key_path: "/keys/app.pem".to_owned(),
        run_as_user: Vec::new(),
    }
}

fn identity(app_id: u64) -> CachedIdentity {
    CachedIdentity {
        app_id,
        slug: "cached-app".to_owned(),
        bot_user_id: 7,
    }
}

#[test]
fn formats_co_author_with_bot_user_id() {
    let identity = CachedIdentity {
        app_id: 5_043_706,
        slug: "kvnxiao-agent".to_owned(),
        bot_user_id: 332_833_177,
    };
    assert_eq!(
        identity.co_author(),
        "kvnxiao-agent[bot] <332833177+kvnxiao-agent[bot]@users.noreply.github.com>"
    );
}

#[test]
fn describes_cached_and_missing_identity() {
    assert_eq!(describe(None), "not cached");
    let cached = matching(Some(identity(1)), &identity_profile(1));
    assert_eq!(
        describe(cached.as_ref()),
        "cached-app[bot] <7+cached-app[bot]@users.noreply.github.com>"
    );
    let cached = matching(Some(identity(3)), &identity_profile(1));
    assert_eq!(describe(cached.as_ref()), "not cached");
}

#[test]
fn keeps_the_fetched_identity_for_the_profile() {
    let fetched = CachedIdentity::new(&identity_profile(1), "test-app".to_owned(), 332_833_177);
    assert_eq!(fetched.app_id, 1);
    assert_eq!(
        fetched.co_author(),
        "test-app[bot] <332833177+test-app[bot]@users.noreply.github.com>"
    );
    assert!(matching(None, &identity_profile(1)).is_none());
}

#[test]
fn names_identity_file_after_the_app() {
    assert_eq!(path("/cache", &identity_profile(1)), "/cache/identity-1.toml");
    assert_eq!(path("/cache", &identity_profile(5_043_706)), "/cache/identity-5043706.toml");
}

#[test]
fn ignores_a_cached_identity_with_an_invalid_slug() {
    let bad = CachedIdentity {
        slug: "bad\nslug".to_owned(),
        ..identity(1)
    };
    assert!(matching(Some(bad), &identity_profile(1)).is_none());
    let empty = CachedIdentity {
        slug: String::new(),
        ..identity(1)
    };
    assert!(matching(Some(empty), &identity_profile(1)).is_none());
    assert!(matching(Some(identity(1)), &identity_profile(1)).is_some());
}

#[test]
fn refuses_an_invalid_slug_from_github() {
    assert_eq!(checked_slug("test-app".to_owned()), Ok("test-app".to_owned()));
    assert_eq!(
        checked_slug("bad\nslug".to_owned()),
        Err("GitHub returned an invalid App slug \"bad\\nslug\"".to_owned())
    );
    assert_eq!(
        checked_slug(String::new()),
        Err("GitHub returned an invalid App slug \"\"".to_owned())
    );
}
