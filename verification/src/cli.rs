//! The settings of one run, and the root directory that they lead to.

use vstd::prelude::*;
use crate::model::Category;
use crate::text::{is_blank, to_chars, trim_range};

verus! {

/// The settings of one run.
#[derive(Debug)]
pub struct Cli {
    /// Root directory of the configuration, if given.
    pub root: Option<String>,
    /// Show the entries of this category only.
    pub category: Option<Category>,
    /// The editor to open the chosen file with, if given.
    pub editor: Option<String>,
    /// The colour scheme of the selector, if given.
    pub color_spec: Option<String>,
    /// Leave the segments of each line uncoloured.
    pub no_seg_colors: bool,
}

/// Why no root directory could be named.
#[derive(Debug, Clone, Copy, PartialEq, Eq, Structural)]
pub enum RootError {
    /// No root was given, and the home directory is not known.
    HomeNotSet,
}

impl RootError {
    pub fn message(&self) -> (r: String)
        ensures
            r@ == "HOME not set; cannot resolve default root"@,
    {
        "HOME not set; cannot resolve default root".to_owned()
    }
}

/// The path of `name` under the directory `base`: the two parted by a
/// slash, unless `base` is empty or brings its own.
pub open spec fn joined(base: Seq<char>, name: Seq<char>) -> Seq<char> {
    if base.len() == 0 || base.last() == '/' {
        base + name
    } else {
        base + "/"@ + name
    }
}

/// The root where none is given: `hypr` under the configuration home if
/// that is set to more than blanks, else `.config/hypr` under the home
/// directory, if that is known.
pub open spec fn default_root(config_home: Option<Seq<char>>, home: Option<Seq<char>>) -> Option<
    Seq<char>,
> {
    if config_home is Some && !is_blank(config_home->0) {
        Some(joined(config_home->0, "hypr"@))
    } else {
        match home {
            Some(h) => Some(joined(joined(h, ".config"@), "hypr"@)),
            None => None,
        }
    }
}

/// The root of a run: the one given, else the default one.
pub open spec fn resolved_root(
    root: Option<Seq<char>>,
    config_home: Option<Seq<char>>,
    home: Option<Seq<char>>,
) -> Option<Seq<char>> {
    match root {
        Some(r) => Some(r),
        None => default_root(config_home, home),
    }
}

/// The text of a string that may be missing.
pub open spec fn text_of(s: Option<&str>) -> Option<Seq<char>> {
    match s {
        Some(t) => Some(t@),
        None => None,
    }
}

/// The path of `name` under the directory `base`.
pub fn join(base: &str, name: &str) -> (r: String)
    ensures
        r@ == joined(base@, name@),
{
    let v = to_chars(base);
    let mut r = base.to_owned();
    if v.len() > 0 && v[v.len() - 1] != '/' {
        r.append("/");
    }
    r.append(name);
    r
}

/// The default root for the given configuration home and home directory.
pub fn default_root_from_xdg(config_home: Option<&str>, home: Option<&str>) -> (r: Result<
    String,
    RootError,
>)
    ensures
        match r {
            Ok(p) => default_root(text_of(config_home), text_of(home)) == Some(p@),
            Err(e) => default_root(text_of(config_home), text_of(home)) is None,
        },
{
    match config_home {
        Some(x) => {
            let v = to_chars(x);
            let (a, b) = trim_range(&v, 0, v.len());
            assert(v@.subrange(0, v.len() as int) == v@);
            if a < b {
                return Ok(join(x, "hypr"));
            }
        },
        None => {},
    }
    match home {
        Some(h) => {
            let config = join(h, ".config");
            Ok(join(config.as_str(), "hypr"))
        },
        None => Err(RootError::HomeNotSet),
    }
}

impl Cli {
    /// The root directory of this run: the one given on the command line,
    /// else the default one for the given configuration home and home
    /// directory. Fails only where none is given and none of the two
    /// directories helps.
    pub fn resolve_root(&self, config_home: Option<&str>, home: Option<&str>) -> (r: Result<
        String,
        RootError,
    >)
        ensures
            match r {
                Ok(p) => resolved_root(
                    match self.root {
                        Some(d) => Some(d@),
                        None => None,
                    },
                    text_of(config_home),
                    text_of(home),
                ) == Some(p@),
                Err(e) => self.root is None && default_root(text_of(config_home), text_of(home))
                    is None,
            },
    {
        match &self.root {
            Some(dir) => Ok(dir.clone()),
            None => default_root_from_xdg(config_home, home),
        }
    }

    /// Whether the segments of each line are to be coloured.
    pub fn seg_colors(&self) -> (r: bool)
        ensures
            r == !self.no_seg_colors,
    {
        !self.no_seg_colors
    }
}

} // verus!
