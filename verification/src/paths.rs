//! Where the launcher keeps its files: paths built from the environment's
//! directories, joined as `std::path::PathBuf::join` joins on Unix.

use vstd::prelude::*;
use crate::digest::{hex_digest, hex_lower, sha256};
use crate::text::{chars_of, push_range};

verus! {

/// `base` joined with `rel`: a `rel` that starts with `/` replaces `base`;
/// otherwise a `/` separates the two unless `base` is empty or ends with one.
pub open spec fn path_join(base: Seq<char>, rel: Seq<char>) -> Seq<char> {
    if rel.len() > 0 && rel[0] == '/' {
        rel
    } else if base.len() == 0 || base.last() == '/' {
        base + rel
    } else {
        base + seq!['/'] + rel
    }
}

/// The message when the home directory is not set.
pub open spec fn home_unset_message() -> Seq<char> {
    "HOME is not set"@
}

/// `base` joined with `rel` (`Path::join`).
pub fn join_path(base: &str, rel: &str) -> (res: String)
    ensures
        res@ == path_join(base@, rel@),
{
    let r = chars_of(rel);
    if r.len() > 0 && r[0] == '/' {
        return String::from_str(rel);
    }
    let b = chars_of(base);
    let mut res = String::from_str(base);
    if b.len() > 0 && b[b.len() - 1] != '/' {
        crate::text::push_char(&mut res, '/');
    }
    res.append(rel);
    res
}

/// What `root` becomes: the given directory, or `rel` under the home
/// directory; the home directory must be set either way.
pub open spec fn root_dir(given: Option<Seq<char>>, home: Option<Seq<char>>, rel: Seq<char>) -> Result<
    Seq<char>,
    Seq<char>,
> {
    match home {
        None => Err(home_unset_message()),
        Some(h) => match given {
            Some(g) => Ok(g),
            None => Ok(path_join(h, rel)),
        },
    }
}

/// The given directory, or `rel` under the home directory. The home
/// directory is required even where the given directory is set.
fn root_or_home(given: &Option<String>, home: &Option<String>, rel: &str) -> (res: Result<String, String>)
    ensures
        match root_dir(given.deep_view(), home.deep_view(), rel@) {
            Ok(p) => res matches Ok(r) && r@ == p,
            Err(e) => res matches Err(m) && m@ == e,
        },
{
    match home {
        None => Err(String::from_str("HOME is not set")),
        Some(h) => match given {
            Some(g) => Ok(g.clone()),
            None => Ok(join_path(h.as_str(), rel)),
        },
    }
}

/// The path of the configuration file, from `XDG_CONFIG_HOME` and `HOME`.
pub fn config_path(xdg_config_home: &Option<String>, home: &Option<String>) -> (res: Result<String, String>)
    ensures
        match root_dir(xdg_config_home.deep_view(), home.deep_view(), ".config"@) {
            Ok(p) => res matches Ok(r) && r@ == path_join(p, "zen-tab-launcher/config.json"@),
            Err(e) => res matches Err(m) && m@ == e,
        },
{
    let root = root_or_home(xdg_config_home, home, ".config")?;
    Ok(join_path(root.as_str(), "zen-tab-launcher/config.json"))
}

/// The directory of desktop entries, from `ZEN_TAB_APPLICATIONS_DIR`,
/// `XDG_DATA_HOME` and `HOME`; the first, where set, is taken as it is.
pub fn applications_dir(
    applications_override: &Option<String>,
    xdg_data_home: &Option<String>,
    home: &Option<String>,
) -> (res: Result<String, String>)
    ensures
        applications_override is Some ==> (res matches Ok(r) && r@
            == applications_override->0@),
        applications_override is None ==> match root_dir(
            xdg_data_home.deep_view(),
            home.deep_view(),
            ".local/share"@,
        ) {
            Ok(p) => res matches Ok(r) && r@ == path_join(p, "applications"@),
            Err(e) => res matches Err(m) && m@ == e,
        },
{
    if let Some(path) = applications_override {
        return Ok(path.clone());
    }
    let root = root_or_home(xdg_data_home, home, ".local/share")?;
    Ok(join_path(root.as_str(), "applications"))
}

/// The favicon cache directory, from `XDG_CACHE_HOME` and `HOME`.
pub fn cache_dir(xdg_cache_home: &Option<String>, home: &Option<String>) -> (res: Result<String, String>)
    ensures
        match root_dir(xdg_cache_home.deep_view(), home.deep_view(), ".cache"@) {
            Ok(p) => res matches Ok(r) && r@ == path_join(p, "zen-tab-launcher/favicons"@),
            Err(e) => res matches Err(m) && m@ == e,
        },
{
    let root = root_or_home(xdg_cache_home, home, ".cache")?;
    Ok(join_path(root.as_str(), "zen-tab-launcher/favicons"))
}

/// The runtime directory used when `XDG_RUNTIME_DIR` is not set: a directory
/// under `/tmp` named by the first 12 digits of the digest of `home`.
pub open spec fn fallback_runtime_root(home: Seq<u8>) -> Seq<char> {
    "/tmp/zen-tab-launcher-"@ + hex_lower(sha256(home)).take(12)
}

/// The launcher's runtime directory, from `XDG_RUNTIME_DIR` and the bytes of
/// `HOME` (empty where unset).
pub fn runtime_dir(xdg_runtime_dir: &Option<String>, home: &[u8]) -> (res: String)
    ensures
        res@ == path_join(
            match xdg_runtime_dir {
                Some(d) => d@,
                None => fallback_runtime_root(home@),
            },
            "zen-tab-launcher"@,
        ),
{
    let root = match xdg_runtime_dir {
        Some(d) => d.clone(),
        None => {
            let digest = hex_digest(home);
            let digits = chars_of(digest.as_str());
            let mut root = String::from_str("/tmp/zen-tab-launcher-");
            push_range(&mut root, &digits, 0, 12);
            assert(digits@.subrange(0, 12) == digits@.take(12));
            root
        },
    };
    join_path(root.as_str(), "zen-tab-launcher")
}

/// The path of the socket through which launcher commands reach the browser.
pub fn bridge_socket(runtime_dir: &str) -> (res: String)
    ensures
        res@ == path_join(runtime_dir@, "bridge.sock"@),
{
    join_path(runtime_dir, "bridge.sock")
}

} // verus!
