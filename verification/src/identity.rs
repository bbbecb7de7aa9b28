//! The App's bot identity, which the commit hook names as the co-author.
use crate::cache::token_file_name;
use crate::config::Config;
use crate::path::{join_path, joined_path};
use crate::text::{
    chars_of, debug_text, decimal, push_chars, push_decimal, push_str, str_debug, string_of,
};
use vstd::prelude::*;

verus! {

/// The App's bot identity as the cache holds it.
pub struct CachedIdentity {
    pub app_id: u64,
    /// The App's slug; its bot's login is the slug followed by `[bot]`.
    pub slug: String,
    pub bot_user_id: u64,
}

/// The login of the App's bot.
pub open spec fn bot_login(slug: Seq<char>) -> Seq<char> {
    slug + "[bot]"@
}

/// The co-author trailer value: the bot's login and its no-reply address.
pub open spec fn co_author_text(slug: Seq<char>, bot_user_id: u64) -> Seq<char> {
    bot_login(slug) + " <"@ + decimal(bot_user_id as nat) + "+"@ + bot_login(slug)
        + "@users.noreply.github.com>"@
}

impl CachedIdentity {
    /// Both IDs are nonzero.
    pub open spec fn wf(&self) -> bool {
        self.app_id != 0 && self.bot_user_id != 0
    }

    /// The identity of the profile's App, with its slug and bot user ID.
    pub fn new(profile: &Config, slug: String, bot_user_id: u64) -> (r: CachedIdentity)
        ensures
            r.app_id == profile.app_id,
            r.slug@ == slug@,
            r.bot_user_id == bot_user_id,
    {
        CachedIdentity { app_id: profile.app_id, slug, bot_user_id }
    }

    /// The co-author trailer value:
    /// `<slug>[bot] <<id>+<slug>[bot]@users.noreply.github.com>`.
    pub fn co_author(&self) -> (r: String)
        ensures
            r@ == co_author_text(self.slug@, self.bot_user_id),
    {
        let slug = chars_of(self.slug.as_str());
        let mut out: Vec<char> = Vec::new();
        push_chars(&mut out, &slug);
        push_str(&mut out, "[bot] <");
        push_decimal(&mut out, self.bot_user_id);
        push_str(&mut out, "+");
        push_chars(&mut out, &slug);
        push_str(&mut out, "[bot]@users.noreply.github.com>");
        proof {
            reveal_strlit("[bot] <");
            reveal_strlit("[bot]@users.noreply.github.com>");
            reveal_strlit("[bot]");
            reveal_strlit(" <");
            reveal_strlit("@users.noreply.github.com>");
            assert(out@ =~= co_author_text(self.slug@, self.bot_user_id));
        }
        string_of(&out)
    }
}

/// The name of the identity cache file for an App.
pub open spec fn identity_file_name(app_id: u64) -> Seq<char> {
    "identity-"@ + decimal(app_id as nat) + ".toml"@
}

/// The identity cache file for the profile's App in `cache_dir`.
pub fn path(cache_dir: &str, profile: &Config) -> (r: String)
    ensures
        r@ == joined_path(cache_dir@, identity_file_name(profile.app_id)),
{
    let mut name: Vec<char> = Vec::new();
    push_str(&mut name, "identity-");
    push_decimal(&mut name, profile.app_id);
    push_str(&mut name, ".toml");
    proof {
        assert(name@ =~= identity_file_name(profile.app_id));
    }
    let name = string_of(&name);
    join_path(cache_dir, name.as_str())
}

/// The identity cache and a token cache never share a file name, whatever the
/// App and installation.
pub proof fn identity_and_token_files_differ(app_id: u64, token_app_id: u64, installation_id: u64)
    ensures
        identity_file_name(app_id) != token_file_name(token_app_id, installation_id),
{
    reveal_strlit("identity-");
    reveal_strlit("token-");
    assert(identity_file_name(app_id)[0] == 'i');
    assert(token_file_name(token_app_id, installation_id)[0] == 't');
}

/// An App slug: not empty, and made of ASCII letters, digits, and hyphens.
pub open spec fn valid_slug(slug: Seq<char>) -> bool {
    slug.len() > 0 && forall|i: int|
        0 <= i < slug.len() ==> ('a' <= #[trigger] slug[i] <= 'z' || 'A' <= slug[i] <= 'Z' || '0'
            <= slug[i] <= '9' || slug[i] == '-')
}

/// The slug is a valid App slug.
pub fn is_valid_slug(slug: &str) -> (r: bool)
    ensures
        r == valid_slug(slug@),
{
    let chars = chars_of(slug);
    if chars.len() == 0 {
        return false;
    }
    let mut i: usize = 0;
    while i < chars.len()
        invariant
            0 <= i <= chars.len(),
            chars@ == slug@,
            forall|j: int|
                0 <= j < i ==> ('a' <= #[trigger] chars@[j] <= 'z' || 'A' <= chars@[j] <= 'Z' || '0'
                    <= chars@[j] <= '9' || chars@[j] == '-'),
        decreases chars.len() - i,
    {
        let c = chars[i];
        if !(('a' <= c && c <= 'z') || ('A' <= c && c <= 'Z') || ('0' <= c && c <= '9') || c == '-') {
            return false;
        }
        i += 1;
    }
    true
}

/// The slug that GitHub returned for the App when it is a valid App slug,
/// and otherwise the error, which quotes it.
pub fn checked_slug(slug: String) -> (r: Result<String, String>)
    ensures
        valid_slug(slug@) ==> (r matches Ok(s) && s@ == slug@),
        !valid_slug(slug@) ==> (r matches Err(e) && e@ == "GitHub returned an invalid App slug "@
            + str_debug(slug@)),
{
    if is_valid_slug(slug.as_str()) {
        Ok(slug)
    } else {
        let mut out: Vec<char> = Vec::new();
        push_str(&mut out, "GitHub returned an invalid App slug ");
        let quoted = debug_text(slug.as_str());
        push_chars(&mut out, &chars_of(quoted.as_str()));
        Err(string_of(&out))
    }
}

/// A cached identity counts only for the App it was fetched for, and only
/// with a valid slug.
pub fn matching(cached: Option<CachedIdentity>, profile: &Config) -> (r: Option<CachedIdentity>)
    ensures
        match cached {
            Some(c) => if c.app_id == profile.app_id && valid_slug(c.slug@) {
                r == Some(c)
            } else {
                r is None
            },
            None => r is None,
        },
{
    match cached {
        Some(c) => if c.app_id == profile.app_id && is_valid_slug(c.slug.as_str()) {
            Some(c)
        } else {
            None
        },
        None => None,
    }
}

/// What the status command says of the cached identity: its co-author value,
/// or that none is cached.
pub fn describe(cached: Option<&CachedIdentity>) -> (r: String)
    ensures
        match cached {
            Some(c) => r@ == co_author_text(c.slug@, c.bot_user_id),
            None => r@ == "not cached"@,
        },
{
    match cached {
        Some(c) => c.co_author(),
        None => "not cached".to_owned(),
    }
}

} // verus!
