//! Where the application keeps its configuration.
//!
//! The directory follows the XDG convention: `$XDG_CONFIG_HOME/{app}`, else
//! `$HOME/.config/{app}`, else a hidden directory in the working directory.
//! The caller reads the environment and hands its values in; paths are
//! joined the way a Unix `PathBuf` joins them.

use vstd::prelude::*;
use crate::text::{append_str, chars_of, string_from_chars};

verus! {

/// `base` joined with `part`: an absolute `part` replaces `base`, and a
/// separator is added only where `base` does not already end with one.
pub open spec fn spec_join_path(base: Seq<char>, part: Seq<char>) -> Seq<char> {
    if part.len() > 0 && part[0] == '/' {
        part
    } else if base.len() == 0 || base.last() == '/' {
        base + part
    } else {
        base + "/"@ + part
    }
}

pub fn join_path(base: &str, part: &str) -> (path: String)
    ensures
        path@ == spec_join_path(base@, part@),
{
    let base_chars = chars_of(base);
    let part_chars = chars_of(part);
    let mut t: Vec<char> = Vec::new();
    if part_chars.len() > 0 && part_chars[0] == '/' {
        append_str(&mut t, part);
    } else if base_chars.len() == 0 || base_chars[base_chars.len() - 1] == '/' {
        append_str(&mut t, base);
        append_str(&mut t, part);
    } else {
        append_str(&mut t, base);
        append_str(&mut t, "/");
        append_str(&mut t, part);
    }
    string_from_chars(t.as_slice())
}

/// The configuration directory of an application.
pub open spec fn spec_config_dir(app_name: Seq<char>, xdg_config_home: Option<Seq<char>>, home: Option<Seq<char>>) -> Seq<char> {
    match xdg_config_home {
        Some(xdg) => spec_join_path(xdg, app_name),
        None => match home {
            Some(home) => spec_join_path(spec_join_path(home, ".config"@), app_name),
            None => spec_join_path("."@, "."@ + app_name),
        },
    }
}

pub open spec fn opt_view(value: Option<&str>) -> Option<Seq<char>> {
    match value {
        Some(v) => Some(v@),
        None => None,
    }
}

/// The configuration directory, given `XDG_CONFIG_HOME` and `HOME` when
/// they are set.
pub fn config_dir(app_name: &str, xdg_config_home: Option<&str>, home: Option<&str>) -> (dir: String)
    ensures
        dir@ == spec_config_dir(app_name@, opt_view(xdg_config_home), opt_view(home)),
{
    match xdg_config_home {
        Some(xdg) => join_path(xdg, app_name),
        None => match home {
            Some(home) => {
                let config = join_path(home, ".config");
                join_path(config.as_str(), app_name)
            },
            None => {
                let mut t: Vec<char> = Vec::new();
                append_str(&mut t, ".");
                append_str(&mut t, app_name);
                let hidden = string_from_chars(t.as_slice());
                join_path(".", hidden.as_str())
            },
        },
    }
}

/// The configuration file: `config.toml` in the configuration directory.
pub fn config_path(app_name: &str, xdg_config_home: Option<&str>, home: Option<&str>) -> (path: String)
    ensures
        path@ == spec_join_path(
            spec_config_dir(app_name@, opt_view(xdg_config_home), opt_view(home)),
            "config.toml"@,
        ),
{
    let dir = config_dir(app_name, xdg_config_home, home);
    join_path(dir.as_str(), "config.toml")
}

} // verus!
