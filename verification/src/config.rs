//! The configuration file: the GitHub App and installation, and the private
//! key that signs requests for tokens.
use crate::path::{join_path, joined_path, parent, parent_path, is_absolute, absolute_path};
use crate::text::{chars_of, push_str, split_words, string_of, words};
use vstd::prelude::*;

verus! {

/// The configuration file as decoded: its keys.
pub struct ConfigFile {
    pub app_id: u64,
    pub installation_id: u64,
    pub private_key_path: String,
    /// The commands that run with the user's credentials, each the words
    /// that a command's arguments start with (an empty list when the key is
    /// absent).
    pub run_as_user: Vec<String>,
}

/// The configuration: the App, its installation, the path of the App's
/// private key, and the command prefixes that run as the user.
pub struct Config {
    pub app_id: u64,
    pub installation_id: u64,
    pub private_key_path: String,
    /// Each entry of `run_as_user`, as its words.
    pub run_as_user: Vec<Vec<String>>,
}

/// The command prefixes as word lists.
pub open spec fn prefix_views(prefixes: Seq<Vec<String>>) -> Seq<Seq<Seq<char>>> {
    prefixes.map_values(|p: Vec<String>| p@.map_values(|w: String| w@))
}

/// The words of each entry of `run_as_user`.
pub open spec fn prefixes_of(entries: Seq<String>) -> Seq<Seq<Seq<char>>> {
    entries.map_values(|e: String| words(e@))
}

/// `c` is the configuration that the decoded `file` gives in `base_dir`.
pub open spec fn parsed_from(c: Config, file: ConfigFile, base_dir: Seq<char>) -> bool {
    &&& c.wf()
    &&& c.app_id == file.app_id
    &&& c.installation_id == file.installation_id
    &&& c.private_key_path@ == joined_path(base_dir, file.private_key_path@)
    &&& prefix_views(c.run_as_user@) == prefixes_of(file.run_as_user@)
}

/// Each entry as its words, as `str::split_whitespace` gives them.
fn split_entries(entries: &Vec<String>) -> (r: Vec<Vec<String>>)
    ensures
        prefix_views(r@) == prefixes_of(entries@),
{
    let mut out: Vec<Vec<String>> = Vec::new();
    let mut i: usize = 0;
    while i < entries.len()
        invariant
            0 <= i <= entries.len(),
            prefix_views(out@) == prefixes_of(entries@.take(i as int)),
        decreases entries.len() - i,
    {
        let w = split_words(entries[i].as_str());
        let ghost before = out@;
        out.push(w);
        proof {
            assert(prefix_views(out@) =~= prefixes_of(entries@.take(i + 1))) by {
                assert(prefix_views(out@) =~= prefix_views(before).push(
                    w@.map_values(|x: String| x@),
                ));
                assert(entries@.take(i + 1) =~= entries@.take(i as int).push(entries@[i as int]));
                assert(prefixes_of(entries@.take(i + 1)) =~= prefixes_of(entries@.take(i as int)).push(
                    words(entries@[i as int]@),
                ));
            }
        }
        i += 1;
    }
    assert(entries@.take(i as int) =~= entries@);
    out
}

impl ConfigFile {
    /// Both IDs are nonzero, as the file's decoder demands.
    pub open spec fn wf(&self) -> bool {
        self.app_id != 0 && self.installation_id != 0
    }
}

impl Config {
    /// Both IDs are nonzero.
    pub open spec fn wf(&self) -> bool {
        self.app_id != 0 && self.installation_id != 0
    }

    /// The configuration from a decoded file whose directory is `base_dir`:
    /// the private key path must not be empty, and a relative one resolves
    /// against `base_dir`.
    pub fn parse(file: ConfigFile, base_dir: &str) -> (r: Result<Config, String>)
        requires
            file.wf(),
        ensures
            file.private_key_path@.len() == 0 ==> (r matches Err(e) && e@
                == "private_key_path must not be empty"@),
            file.private_key_path@.len() > 0 ==> (r matches Ok(c) && parsed_from(c, file, base_dir@)),
    {
        if chars_of(file.private_key_path.as_str()).len() == 0 {
            return Err("private_key_path must not be empty".to_owned());
        }
        let private_key_path = join_path(base_dir, file.private_key_path.as_str());
        let run_as_user = split_entries(&file.run_as_user);
        Ok(
            Config {
                app_id: file.app_id,
                installation_id: file.installation_id,
                private_key_path,
                run_as_user,
            },
        )
    }

    /// The configuration at `path`, from the decoded file or from why it
    /// could not be decoded. A relative private key path resolves against
    /// the file's directory, and every error names the file.
    pub fn load(path: &str, decoded: Result<ConfigFile, String>) -> (r: Result<Config, String>)
        requires
            decoded matches Ok(file) ==> file.wf(),
        ensures
            match decoded {
                Err(e) => r matches Err(m) && m@ == parsing_context(path@, e@),
                Ok(file) => if file.private_key_path@.len() == 0 {
                    r matches Err(m) && m@ == parsing_context(
                        path@,
                        "private_key_path must not be empty"@,
                    )
                } else {
                    r matches Ok(c) && parsed_from(c, file, base_dir_of(path@))
                },
            },
    {
        match decoded {
            Err(e) => Err(parsing_message(path, e.as_str())),
            Ok(file) => {
                let base = match parent(path) {
                    Some(p) => p,
                    None => String::new(),
                };
                match Config::parse(file, base.as_str()) {
                    Ok(c) => Ok(c),
                    Err(e) => Err(parsing_message(path, e.as_str())),
                }
            },
        }
    }
}

/// The directory of the configuration file at `path`, or the empty path.
pub open spec fn base_dir_of(path: Seq<char>) -> Seq<char> {
    match parent_path(path) {
        Some(p) => p,
        None => Seq::empty(),
    }
}

/// `parsing <path>: <cause>`.
pub open spec fn parsing_context(path: Seq<char>, cause: Seq<char>) -> Seq<char> {
    "parsing "@ + path + ": "@ + cause
}

fn parsing_message(path: &str, cause: &str) -> (r: String)
    ensures
        r@ == parsing_context(path@, cause@),
{
    let mut out: Vec<char> = Vec::new();
    push_str(&mut out, "parsing ");
    push_str(&mut out, path);
    push_str(&mut out, ": ");
    push_str(&mut out, cause);
    proof {
        assert(out@ =~= parsing_context(path@, cause@));
    }
    string_of(&out)
}

/// The configuration home: `XDG_CONFIG_HOME` when it is set to an absolute
/// path, and otherwise `.config` in the home directory.
pub fn config_home(xdg_config_home: Option<&str>, home: Option<&str>) -> (r: Result<String, String>)
    ensures
        (xdg_config_home matches Some(x) && absolute_path(x@)) ==> (r matches Ok(d) && d@
            == xdg_config_home->0@),
        !(xdg_config_home matches Some(x) && absolute_path(x@)) ==> match home {
            Some(h) => r matches Ok(d) && d@ == joined_path(h@, ".config"@),
            None => r matches Err(e) && e@ == "the user has no home directory"@,
        },
{
    match xdg_config_home {
        Some(x) => {
            if is_absolute(x) {
                return Ok(x.to_owned());
            }
        },
        None => {},
    }
    match home {
        Some(h) => Ok(join_path(h, ".config")),
        None => Err("the user has no home directory".to_owned()),
    }
}

} // verus!
