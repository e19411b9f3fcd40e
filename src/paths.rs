//! Where configuration is searched for.
//!
//! Four sources, from lowest to highest precedence: the system file
//! `<prefix>/etc/syngestures.toml`, the system directory
//! `<prefix>/etc/syngestures.d`, the user file
//! `<config-home>/syngestures.toml` and the user directory
//! `<config-home>/syngestures.d`. The config home is `XDG_CONFIG_HOME` when
//! that is set, else `<home>/.config`.

use vstd::prelude::*;
use vstd::string::*;

verus! {

/// What the environment holds for `XDG_CONFIG_HOME`.
pub enum ConfigHomeVar {
    Unset,
    NotUnicode,
    Value(String),
}

/// The four search paths; the user ones, or why they could not be formed.
pub struct SearchPaths {
    pub system_file: String,
    pub system_dir: String,
    pub user: Result<(String, String), String>,
}

/// `rel` appended to `base` as a path component.
pub open spec fn spec_join(base: Seq<char>, rel: Seq<char>) -> Seq<char> {
    if base.len() == 0 {
        rel
    } else if base.last() == '/' {
        base + rel
    } else {
        base + "/"@ + rel
    }
}

pub open spec fn spec_config_home(var: ConfigHomeVar, home: Option<String>) -> Result<Seq<char>, Seq<char>> {
    match var {
        ConfigHomeVar::Value(s) => Ok(s@),
        ConfigHomeVar::NotUnicode => Err("Invalid XDG_CONFIG_HOME"@),
        ConfigHomeVar::Unset => match home {
            Some(h) => if h@.len() > 0 {
                Ok(spec_join(h@, ".config"@))
            } else {
                Err("Could not determine user home directory!"@)
            },
            None => Err("Could not determine user home directory!"@),
        },
    }
}

/// The search paths for an installation `prefix`, the value of
/// `XDG_CONFIG_HOME` and the user's home directory.
pub open spec fn spec_search_paths(prefix: Seq<char>, var: ConfigHomeVar, home: Option<String>) -> (
    Seq<char>,
    Seq<char>,
    Result<(Seq<char>, Seq<char>), Seq<char>>,
) {
    (
        spec_join(prefix, "etc/syngestures.toml"@),
        spec_join(prefix, "etc/syngestures.d"@),
        match spec_config_home(var, home) {
            Ok(h) => Ok((spec_join(h, "syngestures.toml"@), spec_join(h, "syngestures.d"@))),
            Err(e) => Err(e),
        },
    )
}

impl SearchPaths {
    pub open spec fn spec_parts(&self) -> (
        Seq<char>,
        Seq<char>,
        Result<(Seq<char>, Seq<char>), Seq<char>>,
    ) {
        (
            self.system_file@,
            self.system_dir@,
            match self.user {
                Ok(p) => Ok((p.0@, p.1@)),
                Err(e) => Err(e@),
            },
        )
    }
}

/// Whether a path names a file with the extension `toml`: its last
/// component is longer than `.toml` and ends with it.
pub open spec fn spec_has_config_extension(p: Seq<char>) -> bool {
    p.len() > 5 && p.subrange(p.len() - 5, p.len() as int) == ".toml"@ && p[p.len() - 6] != '/'
}

pub fn join_path(base: &String, rel: &str) -> (r: String)
    ensures
        r@ == spec_join(base@, rel@),
{
    let n = base.as_str().unicode_len();
    if n == 0 {
        String::from_str(rel)
    } else if base.as_str().get_char(n - 1) == '/' {
        base.clone().concat(rel)
    } else {
        base.clone().concat("/").concat(rel)
    }
}

/// The directory that holds the user's configuration.
pub fn config_home(var: &ConfigHomeVar, home: &Option<String>) -> (r: Result<String, String>)
    ensures
        match r {
            Ok(h) => spec_config_home(*var, *home) == Ok::<Seq<char>, Seq<char>>(h@),
            Err(e) => spec_config_home(*var, *home) == Err::<Seq<char>, Seq<char>>(e@),
        },
{
    match var {
        ConfigHomeVar::Value(s) => Ok(s.clone()),
        ConfigHomeVar::NotUnicode => Err(String::from_str("Invalid XDG_CONFIG_HOME")),
        ConfigHomeVar::Unset => match home {
            Some(h) => if h.as_str().unicode_len() > 0 {
                Ok(join_path(h, ".config"))
            } else {
                Err(String::from_str("Could not determine user home directory!"))
            },
            None => Err(String::from_str("Could not determine user home directory!")),
        },
    }
}

/// The four search paths, lowest precedence first.
pub fn search_paths(prefix: &String, var: &ConfigHomeVar, home: &Option<String>) -> (r: SearchPaths)
    ensures
        r.spec_parts() == spec_search_paths(prefix@, *var, *home),
{
    let user = match config_home(var, home) {
        Ok(h) => Ok((join_path(&h, "syngestures.toml"), join_path(&h, "syngestures.d"))),
        Err(e) => Err(e),
    };
    SearchPaths {
        system_file: join_path(prefix, "etc/syngestures.toml"),
        system_dir: join_path(prefix, "etc/syngestures.d"),
        user,
    }
}

/// Whether a directory entry's path names a configuration file.
pub fn has_config_extension(p: &String) -> (r: bool)
    ensures
        r == spec_has_config_extension(p@),
{
    let s = p.as_str();
    let n = s.unicode_len();
    if n <= 5 {
        return false;
    }
    let tail = String::from_str(s.substring_char(n - 5, n));
    let ext = String::from_str(".toml");
    tail == ext && s.get_char(n - 6) != '/'
}

} // verus!
