//! Default locations, from what the environment says.
use vstd::prelude::*;

verus! {

/// A path with a relative file name pushed onto it: a separator is added
/// between them unless the path is empty or already ends in one.
pub open spec fn joined(dir: Seq<char>, name: Seq<char>) -> Seq<char> {
    if dir.len() == 0 {
        name
    } else if dir.last() == '/' {
        dir + name
    } else {
        dir + "/"@ + name
    }
}

/// A directory path with a relative file name joined onto it.
///
/// Calls `std::path::Path::join`. Trusted: as std documents for a relative
/// name on Unix, a separator is added unless the directory ends in one. Of
/// an empty directory nothing is claimed.
#[verifier::external_body]
pub(crate) fn join_path(dir: &str, name: &str) -> (r: String)
    requires
        name@.len() == 0 || name@[0] != '/',
    ensures
        dir@.len() > 0 ==> r@ == joined(dir@, name@),
{
    std::path::Path::new(dir).join(name).to_string_lossy().into_owned()
}

/// A Unix path is absolute where it starts at the root.
pub open spec fn is_absolute(path: Seq<char>) -> bool {
    path.len() > 0 && path[0] == '/'
}

/// Whether a path is absolute (it starts at the root).
pub fn path_is_absolute(path: &str) -> (r: bool)
    ensures
        r == is_absolute(path@),
{
    let v = crate::text::chars_of(path);
    v.len() > 0 && v[0] == '/'
}

/// What `std::path::Path::parent` gives for a path, as characters.
pub uninterp spec fn spec_path_parent(path: Seq<char>) -> Option<Seq<char>>;

/// The path without its final component; `None` for a root or empty path.
///
/// Calls `std::path::Path::parent`. Trusted: the result is the named
/// function `spec_path_parent` of the path's characters.
#[verifier::external_body]
pub(crate) fn path_parent(path: &str) -> (r: Option<String>)
    ensures
        match r {
            Some(p) => spec_path_parent(path@) == Some(p@),
            None => spec_path_parent(path@) is None,
        },
{
    std::path::Path::new(path).parent().map(|p| p.to_string_lossy().into_owned())
}

/// A directory path with a relative file name joined onto it; an empty
/// directory leaves the name as it is.
pub fn join_name(dir: &str, name: &str) -> (r: String)
    requires
        name@.len() == 0 || name@[0] != '/',
    ensures
        r@ == joined(dir@, name@),
{
    if dir.unicode_len() == 0 {
        name.to_string()
    } else {
        join_path(dir, name)
    }
}

/// The home directory: `HOME` where it is set, else `/tmp`.
pub open spec fn home_of(home: Option<Seq<char>>) -> Seq<char> {
    match home {
        Some(h) => h,
        None => "/tmp"@,
    }
}

fn home_dir(home: Option<&str>) -> (r: &str)
    ensures
        r@ == home_of(
            match home {
                Some(h) => Some(h@),
                None => None,
            },
        ),
{
    match home {
        Some(h) => h,
        None => "/tmp",
    }
}

/// The Ollama models directory: `OLLAMA_MODELS` where it is set, else
/// `.ollama/models` under the home directory.
pub fn ollama_models_dir_from(ollama_models: Option<&str>, home: Option<&str>) -> (r: String)
    ensures
        ollama_models matches Some(d) ==> r@ == d@,
        ollama_models is None ==> (match home {
            Some(h) => r@ == joined(h@, ".ollama/models"@),
            None => r@ == joined("/tmp"@, ".ollama/models"@),
        }),
{
    proof {
        reveal_strlit(".ollama/models");
        reveal_strlit("/tmp");
    }
    match ollama_models {
        Some(d) => d.to_string(),
        None => join_name(home_dir(home), ".ollama/models"),
    }
}

/// The configuration file where the platform gives no per-user
/// configuration directory: `.config/prefetch/config.toml` under the home
/// directory.
pub fn fallback_config_path(home: Option<&str>) -> (r: String)
    ensures
        match home {
            Some(h) => r@ == joined(h@, ".config/prefetch/config.toml"@),
            None => r@ == joined("/tmp"@, ".config/prefetch/config.toml"@),
        },
{
    proof {
        reveal_strlit(".config/prefetch/config.toml");
        reveal_strlit("/tmp");
    }
    join_name(home_dir(home), ".config/prefetch/config.toml")
}

/// The data directory where the platform gives no per-user data directory:
/// `.local/share/prefetch` under the home directory.
pub fn fallback_data_dir(home: Option<&str>) -> (r: String)
    ensures
        match home {
            Some(h) => r@ == joined(h@, ".local/share/prefetch"@),
            None => r@ == joined("/tmp"@, ".local/share/prefetch"@),
        },
{
    proof {
        reveal_strlit(".local/share/prefetch");
        reveal_strlit("/tmp");
    }
    join_name(home_dir(home), ".local/share/prefetch")
}

/// The configuration file in the platform's per-user configuration
/// directory.
pub fn config_path_in(config_dir: &str) -> (r: String)
    ensures
        r@ == joined(config_dir@, "config.toml"@),
{
    proof {
        reveal_strlit("config.toml");
    }
    join_name(config_dir, "config.toml")
}

} // verus!
