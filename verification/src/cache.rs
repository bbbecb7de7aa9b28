//! The installation token cache: which cached token is reused, and how the
//! cache is described.
use crate::config::Config;
use crate::path::{join_path, joined_path};
use crate::text::{chars_of, decimal, push_chars, push_decimal, push_str, string_of};
use crate::time::{
    add_seconds, instant_nanos, instant_text, in_range, lemma_instant_order, shifted,
    timestamp_display, valid_instant, Instant,
};
use vstd::prelude::*;

verus! {

/// How long before it expires a cached token is replaced, in seconds.
pub const REFRESH_MARGIN_SECONDS: i64 = 5 * 60;

/// An installation token as the cache holds it.
pub struct CachedToken {
    pub app_id: u64,
    pub installation_id: u64,
    pub token: String,
    pub expires_at: Instant,
}

impl CachedToken {
    /// Both IDs are nonzero and the expiry is an instant `jiff` represents.
    pub open spec fn wf(&self) -> bool {
        self.app_id != 0 && self.installation_id != 0 && valid_instant(self.expires_at)
    }

    /// The token was issued for the profile's App and installation.
    pub open spec fn belongs(&self, profile: &Config) -> bool {
        self.app_id == profile.app_id && self.installation_id == profile.installation_id
    }

    /// The token is still valid for the refresh margin after `now`.
    pub open spec fn fresh(&self, now: Instant) -> bool {
        in_range(shifted(now, REFRESH_MARGIN_SECONDS)) && shifted(now, REFRESH_MARGIN_SECONDS)
            < instant_nanos(self.expires_at)
    }

    /// The token issued for `profile` that expires at `expires_at`.
    pub fn issued(profile: &Config, token: String, expires_at: Instant) -> (r: CachedToken)
        ensures
            r.app_id == profile.app_id,
            r.installation_id == profile.installation_id,
            r.token@ == token@,
            r.expires_at == expires_at,
    {
        CachedToken {
            app_id: profile.app_id,
            installation_id: profile.installation_id,
            token,
            expires_at,
        }
    }

    /// The token was issued for the profile's App and installation.
    pub fn belongs_to(&self, profile: &Config) -> (r: bool)
        ensures
            r == self.belongs(profile),
    {
        self.app_id == profile.app_id && self.installation_id == profile.installation_id
    }

    /// The token is still valid five minutes after `now`.
    pub fn fresh_at(&self, now: Instant) -> (r: bool)
        requires
            self.wf(),
            valid_instant(now),
        ensures
            r == self.fresh(now),
    {
        match add_seconds(now, REFRESH_MARGIN_SECONDS) {
            Ok(limit) => {
                proof {
                    lemma_instant_order(limit, self.expires_at);
                }
                limit.lt(&self.expires_at)
            },
            Err(_) => false,
        }
    }
}

/// A cached token is reused: it belongs to the profile and stays valid for
/// the refresh margin.
pub open spec fn token_reusable(cached: Option<CachedToken>, profile: &Config, now: Instant) -> bool {
    cached matches Some(t) && t.belongs(profile) && t.fresh(now)
}

/// The cached token is reused rather than replaced: it was issued for the
/// profile's App and installation, and it is still valid five minutes after
/// `now`.
pub fn reusable(cached: &Option<CachedToken>, profile: &Config, now: Instant) -> (r: bool)
    requires
        cached matches Some(t) ==> t.wf(),
        valid_instant(now),
    ensures
        r == token_reusable(*cached, profile, now),
{
    match cached {
        Some(t) => t.belongs_to(profile) && t.fresh_at(now),
        None => false,
    }
}

/// The name of the cache file for an App and installation.
pub open spec fn token_file_name(app_id: u64, installation_id: u64) -> Seq<char> {
    "token-"@ + decimal(app_id as nat) + "-"@ + decimal(installation_id as nat) + ".toml"@
}

/// The token cache as the status names it: `token.toml` in `cache_dir`.
pub fn cache_file(cache_dir: &str) -> (r: String)
    ensures
        r@ == joined_path(cache_dir@, "token.toml"@),
{
    join_path(cache_dir, "token.toml")
}

/// The cache file for the profile's App and installation in `cache_dir`.
pub fn token_path(cache_dir: &str, profile: &Config) -> (r: String)
    ensures
        r@ == joined_path(cache_dir@, token_file_name(profile.app_id, profile.installation_id)),
{
    let mut name: Vec<char> = Vec::new();
    push_str(&mut name, "token-");
    push_decimal(&mut name, profile.app_id);
    push_str(&mut name, "-");
    push_decimal(&mut name, profile.installation_id);
    push_str(&mut name, ".toml");
    proof {
        assert(name@ =~= token_file_name(profile.app_id, profile.installation_id));
    }
    let name = string_of(&name);
    join_path(cache_dir, name.as_str())
}

/// What the status command says of the cached token.
pub open spec fn token_description(cached: Option<CachedToken>, profile: &Config, now: Instant) -> Seq<char> {
    match cached {
        None => "none cached"@,
        Some(t) => {
            let at = timestamp_display(t.expires_at.second, t.expires_at.nanosecond);
            if !t.belongs(profile) {
                "cached for a different App or installation"@
            } else if instant_nanos(t.expires_at) <= instant_nanos(now) {
                "expired at "@ + at
            } else if !t.fresh(now) {
                "expires at "@ + at + "; the next gh command refreshes it"@
            } else {
                "valid until "@ + at
            }
        },
    }
}

/// What the status command says of the cached token: none, one for another
/// App or installation, one that expired, one that the next command
/// replaces, or one that is valid.
pub fn describe(cached: Option<&CachedToken>, profile: &Config, now: Instant) -> (r: String)
    requires
        cached matches Some(t) ==> t.wf(),
        valid_instant(now),
    ensures
        r@ == token_description(
            match cached {
                Some(t) => Some(*t),
                None => None,
            },
            profile,
            now,
        ),
{
    match cached {
        None => "none cached".to_owned(),
        Some(t) => {
            if !t.belongs_to(profile) {
                return "cached for a different App or installation".to_owned();
            }
            let at = chars_of(instant_text(t.expires_at).as_str());
            proof {
                lemma_instant_order(t.expires_at, now);
            }
            let mut out: Vec<char> = Vec::new();
            if !now.lt(&t.expires_at) {
                push_str(&mut out, "expired at ");
                push_chars(&mut out, &at);
            } else if !t.fresh_at(now) {
                push_str(&mut out, "expires at ");
                push_chars(&mut out, &at);
                push_str(&mut out, "; the next gh command refreshes it");
            } else {
                push_str(&mut out, "valid until ");
                push_chars(&mut out, &at);
            }
            string_of(&out)
        },
    }
}

/// The status command calls the cached token valid exactly when the next
/// command reuses it.
pub proof fn described_valid_iff_reused(cached: Option<CachedToken>, profile: &Config, now: Instant)
    requires
        cached matches Some(t) ==> t.wf(),
        valid_instant(now),
    ensures
        token_reusable(cached, profile, now) <==> (cached matches Some(t) && token_description(
            cached,
            profile,
            now,
        ) == "valid until "@ + timestamp_display(t.expires_at.second, t.expires_at.nanosecond)),
{
    reveal_strlit("none cached");
    reveal_strlit("cached for a different App or installation");
    reveal_strlit("expired at ");
    reveal_strlit("expires at ");
    reveal_strlit("valid until ");
    match cached {
        None => {},
        Some(t) => {
            let at = timestamp_display(t.expires_at.second, t.expires_at.nanosecond);
            let d = token_description(cached, profile, now);
            let v = "valid until "@ + at;
            if !t.belongs(profile) {
                assert(d[0] != v[0]);
            } else if instant_nanos(t.expires_at) <= instant_nanos(now) {
                assert(d[1] != v[1]);
            } else if !t.fresh(now) {
                assert(d[1] != v[1]);
            }
        },
    }
}

} // verus!
