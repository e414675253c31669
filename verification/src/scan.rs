//! Turning what was found under a configuration root into the list of
//! entries: which files count, what each is called, and in what order they
//! are listed.
//!
//! Reading the directory tree is left to the caller, who hands over one
//! [`Candidate`] per file that it met at a well-known place.

use vstd::prelude::*;
use crate::alias::{
    alias_of, derive_alias, extension, has_conf_extension, strip_alias_prefix, without_alias_prefix,
};
use crate::comment::{
    comment_beyond_budget_is_not_found, first_comment, first_comment_line, line_texts,
    no_comment_within,
};
use crate::model::{views, Category, ConfigEntry, EntryView};
use crate::order::{
    is_stable_sort_of, keys_of, rearranged, sort_entries, sorted_by_key, sorts_stably,
    stable_sort_is_unique, stable_sort_keeps_the_entries,
};
use crate::text::same_text;

verus! {

/// The well-known places under a configuration root.
#[derive(Debug, Clone, Copy, PartialEq, Eq, Structural)]
pub enum Location {
    /// Directly under the root.
    Root,
    /// In the drop-in directory `conf.d`.
    ConfD,
    /// In the directory `themes`.
    Themes,
    /// In the directory `plugins`.
    Plugins,
    /// In the directory `scripts`.
    Scripts,
}

impl Location {
    pub open spec fn spec_dir_name(self) -> Option<Seq<char>> {
        match self {
            Location::Root => None,
            Location::ConfD => Some("conf.d"@),
            Location::Themes => Some("themes"@),
            Location::Plugins => Some("plugins"@),
            Location::Scripts => Some("scripts"@),
        }
    }

    /// Name of the directory under the root that makes up this place; none
    /// for the root itself.
    pub fn dir_name(self) -> (r: Option<&'static str>)
        ensures
            match r {
                Some(d) => self.spec_dir_name() == Some(d@),
                None => self.spec_dir_name() is None,
            },
    {
        match self {
            Location::Root => None,
            Location::ConfD => Some("conf.d"),
            Location::Themes => Some("themes"),
            Location::Plugins => Some("plugins"),
            Location::Scripts => Some("scripts"),
        }
    }
}

/// One file met at a well-known place.
#[derive(Debug)]
pub struct Candidate {
    /// Absolute location of the file.
    pub path: String,
    /// Base name, extension included.
    pub file_name: String,
    pub location: Location,
    /// Whether it is a regular file.
    pub is_file: bool,
    /// Its permission bits, where the platform has any.
    pub mode: Option<u32>,
    /// Its leading lines; `None` for a line that could not be read. A file
    /// that could not be opened has no lines.
    pub lines: Vec<Option<String>>,
}

/// What a candidate holds, as plain text.
pub struct CandidateView {
    pub path: Seq<char>,
    pub file_name: Seq<char>,
    pub location: Location,
    pub is_file: bool,
    pub mode: Option<u32>,
    pub lines: Seq<Option<Seq<char>>>,
}

impl View for Candidate {
    type V = CandidateView;

    open spec fn view(&self) -> CandidateView {
        CandidateView {
            path: self.path@,
            file_name: self.file_name@,
            location: self.location,
            is_file: self.is_file,
            mode: self.mode,
            lines: line_texts(self.lines@),
        }
    }
}

/// The views of a list of candidates, in order.
pub open spec fn candidate_views(candidates: Seq<Candidate>) -> Seq<CandidateView> {
    Seq::new(candidates.len(), |i: int| candidates[i]@)
}

/// Whether a file with these permission bits may be run by anyone. Where
/// the platform has no such bits, every file may.
pub open spec fn is_executable(mode: Option<u32>) -> bool {
    match mode {
        Some(m) => m & 0o111 != 0,
        None => true,
    }
}

/// The category of a file directly under the root, by its name.
pub open spec fn root_category(file_name: Seq<char>) -> Option<Category> {
    if file_name == "hyprland.conf"@ {
        Some(Category::Hyprland)
    } else if file_name == "hyprpaper.conf"@ || file_name == "hyprlock.conf"@ || file_name
        == "hypridle.conf"@ {
        Some(Category::Utility)
    } else {
        None
    }
}

/// The category under which a file is listed, if it is listed at all.
pub open spec fn category_at(
    location: Location,
    file_name: Seq<char>,
    is_file: bool,
    mode: Option<u32>,
) -> Option<Category> {
    match location {
        Location::Root => root_category(file_name),
        Location::ConfD => if extension(file_name) == Some("conf"@) {
            Some(Category::ConfD)
        } else {
            None
        },
        Location::Themes => if extension(file_name) == Some("conf"@) {
            Some(Category::Themes)
        } else {
            None
        },
        Location::Plugins => if extension(file_name) == Some("conf"@) {
            Some(Category::Plugins)
        } else {
            None
        },
        Location::Scripts => if is_file && is_executable(mode) {
            Some(Category::Scripts)
        } else {
            None
        },
    }
}

/// The description stored for a file: its first comment within the
/// category's budget of lines, without a leading repetition of the alias.
pub open spec fn description_of(
    category: Category,
    alias: Seq<char>,
    lines: Seq<Option<Seq<char>>>,
) -> Option<Seq<char>> {
    match first_comment(lines, category.spec_line_budget() as int) {
        Some(d) => Some(without_alias_prefix(alias, d)),
        None => None,
    }
}

/// The entry for a file of the given category.
pub open spec fn entry_of(
    path: Seq<char>,
    file_name: Seq<char>,
    category: Category,
    lines: Seq<Option<Seq<char>>>,
) -> EntryView {
    EntryView {
        path,
        file_name,
        alias: alias_of(category, file_name),
        description: description_of(category, alias_of(category, file_name), lines),
        category,
    }
}

/// The entry that a candidate gives, if it is listed.
pub open spec fn candidate_entry(c: CandidateView) -> Option<EntryView> {
    match category_at(c.location, c.file_name, c.is_file, c.mode) {
        Some(category) => Some(entry_of(c.path, c.file_name, category, c.lines)),
        None => None,
    }
}

/// Whether one of the entries has the given path.
pub open spec fn has_path(entries: Seq<EntryView>, path: Seq<char>) -> bool {
    exists|i: int| 0 <= i < entries.len() && #[trigger] entries[i].path == path
}

/// Whether no two of the entries share a path.
pub open spec fn distinct_paths(entries: Seq<EntryView>) -> bool {
    forall|i: int, j: int|
        0 <= i < j < entries.len() ==> #[trigger] entries[i].path != #[trigger] entries[j].path
}

/// The entries that the candidates give, in the order of the candidates. A
/// candidate whose path was met before gives none.
pub open spec fn discovered(candidates: Seq<CandidateView>) -> Seq<EntryView>
    decreases candidates.len(),
{
    if candidates.len() == 0 {
        Seq::empty()
    } else {
        let before = discovered(candidates.drop_last());
        match candidate_entry(candidates.last()) {
            Some(e) => if has_path(before, e.path) {
                before
            } else {
                before.push(e)
            },
            None => before,
        }
    }
}

/// The names of the files that are looked for directly under the root, in
/// the order in which they are looked for.
pub fn root_file_names() -> (names: Vec<&'static str>)
    ensures
        names@.len() == 4,
        names@[0]@ == "hyprland.conf"@,
        names@[1]@ == "hyprpaper.conf"@,
        names@[2]@ == "hyprlock.conf"@,
        names@[3]@ == "hypridle.conf"@,
{
    let mut names: Vec<&'static str> = Vec::new();
    names.push("hyprland.conf");
    names.push("hyprpaper.conf");
    names.push("hyprlock.conf");
    names.push("hypridle.conf");
    names
}

/// Whether permission bits allow anyone to run the file.
pub fn mode_is_executable(mode: Option<u32>) -> (r: bool)
    ensures
        r == is_executable(mode),
{
    match mode {
        Some(m) => m & 0o111 != 0,
        None => true,
    }
}

/// The category under which a file met at `location` is listed, or `None`
/// where it is passed over.
pub fn classify(location: Location, file_name: &str, is_file: bool, mode: Option<u32>) -> (r:
    Option<Category>)
    ensures
        r == category_at(location, file_name@, is_file, mode),
{
    match location {
        Location::Root => {
            if same_text(file_name, "hyprland.conf") {
                Some(Category::Hyprland)
            } else if same_text(file_name, "hyprpaper.conf") || same_text(file_name, "hyprlock.conf")
                || same_text(file_name, "hypridle.conf") {
                Some(Category::Utility)
            } else {
                None
            }
        },
        Location::ConfD => if has_conf_extension(file_name) {
            Some(Category::ConfD)
        } else {
            None
        },
        Location::Themes => if has_conf_extension(file_name) {
            Some(Category::Themes)
        } else {
            None
        },
        Location::Plugins => if has_conf_extension(file_name) {
            Some(Category::Plugins)
        } else {
            None
        },
        Location::Scripts => if is_file && mode_is_executable(mode) {
            Some(Category::Scripts)
        } else {
            None
        },
    }
}

/// The entry for the file at `path`, named `file_name`, of the given
/// category, whose leading lines are `lines`.
pub fn entry_for_path(
    path: String,
    file_name: String,
    category: Category,
    lines: &Vec<Option<String>>,
) -> (r: ConfigEntry)
    ensures
        r@ == entry_of(path@, file_name@, category, line_texts(lines@)),
{
    let alias = derive_alias(category, file_name.as_str());
    let description = match first_comment_line(lines, category.line_budget()) {
        Some(d) => Some(strip_alias_prefix(alias.as_str(), d.as_str())),
        None => None,
    };
    ConfigEntry { path, file_name, alias, description, category }
}

/// Whether one of the entries has the given path.
fn contains_path(entries: &Vec<ConfigEntry>, path: &String) -> (r: bool)
    ensures
        r == has_path(views(entries@), path@),
{
    let mut i: usize = 0;
    while i < entries.len()
        invariant
            i <= entries.len(),
            forall|j: int| 0 <= j < i ==> (#[trigger] views(entries@)[j]).path != path@,
        decreases entries.len() - i,
    {
        if entries[i].path == *path {
            assert(views(entries@)[i as int].path == path@);
            return true;
        }
        i += 1;
    }
    false
}

/// A file whose first comment stands behind its category's budget of lines
/// has no description, whatever stands there.
pub proof fn late_comment_gives_no_description(
    path: Seq<char>,
    file_name: Seq<char>,
    category: Category,
    lines: Seq<Option<Seq<char>>>,
)
    requires
        no_comment_within(lines, 0, category.spec_line_budget() as int),
    ensures
        entry_of(path, file_name, category, lines).description is None,
{
    comment_beyond_budget_is_not_found(lines, category.spec_line_budget() as int);
}

/// No two of the entries that candidates give share a path.
pub proof fn discovered_paths_are_distinct(candidates: Seq<CandidateView>)
    ensures
        distinct_paths(discovered(candidates)),
    decreases candidates.len(),
{
    if candidates.len() > 0 {
        discovered_paths_are_distinct(candidates.drop_last());
    }
}

/// What the candidates give is what the listed candidates give, each path
/// once: every entry comes from a candidate that is listed, and the path of
/// every listed candidate is among the entries.
pub proof fn discovered_holds_the_listed(candidates: Seq<CandidateView>)
    ensures
        forall|k: int|
            0 <= k < discovered(candidates).len() ==> exists|i: int|
                0 <= i < candidates.len() && candidate_entry(#[trigger] candidates[i]) == Some(
                    #[trigger] discovered(candidates)[k],
                ),
        forall|i: int|
            0 <= i < candidates.len() && candidate_entry(#[trigger] candidates[i]) is Some
                ==> has_path(discovered(candidates), candidates[i].path),
        discovered(candidates).len() <= candidates.len(),
    decreases candidates.len(),
{
    if candidates.len() > 0 {
        let init = candidates.drop_last();
        let last = candidates.last();
        let before = discovered(init);
        let now = discovered(candidates);
        discovered_holds_the_listed(init);
        assert forall|i: int|
            0 <= i < candidates.len() && candidate_entry(
                #[trigger] candidates[i],
            ) is Some implies has_path(now, candidates[i].path) by {
            if i < init.len() {
                let k = choose|k: int| 0 <= k < before.len() && before[k].path == init[i].path;
                assert(now[k].path == candidates[i].path);
            } else if !has_path(before, last.path) {
                assert(now[now.len() - 1].path == last.path);
            } else {
                let k = choose|k: int| 0 <= k < before.len() && before[k].path == last.path;
                assert(now[k].path == last.path);
            }
        }
    }
}

/// Sorting keeps paths distinct.
pub proof fn sorting_keeps_paths_distinct(out: Seq<EntryView>, inp: Seq<EntryView>)
    requires
        is_stable_sort_of(out, inp),
        distinct_paths(inp),
    ensures
        distinct_paths(out),
{
    // Two places of `out` hold two places of `inp`, whose paths differ.
    let p = choose|p: Seq<int>| sorts_stably(p, keys_of(inp)) && out == rearranged(inp, p);
    assert forall|i: int, j: int| 0 <= i < j < out.len() implies #[trigger] out[i].path
        != #[trigger] out[j].path by {
        assert(out[i] == inp[p[i]] && out[j] == inp[p[j]] && p[i] != p[j]);
    }
}

/// Two listings of the same candidates are one listing: scanning a tree
/// that has not changed gives the entries in the same order again.
pub proof fn rescan_gives_the_same_listing(
    candidates: Seq<CandidateView>,
    first: Seq<EntryView>,
    second: Seq<EntryView>,
)
    requires
        is_stable_sort_of(first, discovered(candidates)),
        is_stable_sort_of(second, discovered(candidates)),
    ensures
        first == second,
{
    stable_sort_is_unique(discovered(candidates), first, second);
}

/// The listing for what was found under a root: one entry for each
/// candidate that is listed, none for a path met before, sorted by category
/// rank and key text, entries of equal keys in the order of the candidates.
pub fn scan_configs(candidates: &Vec<Candidate>) -> (out: Vec<ConfigEntry>)
    ensures
        is_stable_sort_of(views(out@), discovered(candidate_views(candidates@))),
        sorted_by_key(views(out@)),
        distinct_paths(views(out@)),
{
    let ghost cands = candidate_views(candidates@);
    let mut found: Vec<ConfigEntry> = Vec::new();
    let mut i: usize = 0;
    while i < candidates.len()
        invariant
            i <= candidates.len(),
            cands == candidate_views(candidates@),
            views(found@) == discovered(cands.take(i as int)),
        decreases candidates.len() - i,
    {
        let c = &candidates[i];
        assert(cands.take(i + 1).drop_last() == cands.take(i as int));
        match classify(c.location, c.file_name.as_str(), c.is_file, c.mode) {
            Some(category) => {
                if !contains_path(&found, &c.path) {
                    let e = entry_for_path(c.path.clone(), c.file_name.clone(), category, &c.lines);
                    found.push(e);
                }
            },
            None => {},
        }
        i += 1;
    }
    assert(cands.take(candidates.len() as int) == cands);
    let out = sort_entries(found);
    proof {
        discovered_paths_are_distinct(cands);
        sorting_keeps_paths_distinct(views(out@), discovered(cands));
        stable_sort_keeps_the_entries(views(out@), discovered(cands));
    }
    out
}

} // verus!
