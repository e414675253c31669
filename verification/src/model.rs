//! The category taxonomy and the entry record.

use vstd::prelude::*;
use crate::text::lowercase_of;

verus! {

/// The closed set of file classes that a configuration root may hold, in
/// the order of their ranks.
#[derive(Debug, Clone, Copy, PartialEq, Eq, PartialOrd, Ord, Structural)]
pub enum Category {
    /// The single top-level configuration file.
    Hyprland,
    /// One of the named companion files next to it.
    Utility,
    Themes,
    Plugins,
    /// A numbered fragment of the drop-in directory.
    ConfD,
    Scripts,
}

impl Category {
    /// Position of the category in listings: smaller ranks come first.
    pub open spec fn spec_rank(self) -> u8 {
        match self {
            Category::Hyprland => 0,
            Category::Utility => 1,
            Category::Themes => 2,
            Category::Plugins => 3,
            Category::ConfD => 4,
            Category::Scripts => 5,
        }
    }

    /// The text under which the category is shown.
    pub open spec fn spec_label(self) -> Seq<char> {
        match self {
            Category::Hyprland => "hyprland"@,
            Category::Utility => "utility"@,
            Category::Themes => "themes"@,
            Category::Plugins => "plugins"@,
            Category::ConfD => "conf.d"@,
            Category::Scripts => "scripts"@,
        }
    }

    /// How many leading lines of a file are searched for its description.
    pub open spec fn spec_line_budget(self) -> usize {
        match self {
            Category::Hyprland => 10,
            Category::Utility => 20,
            Category::Themes => 10,
            Category::Plugins => 10,
            Category::ConfD => 10,
            Category::Scripts => 10,
        }
    }

    #[verifier::when_used_as_spec(spec_rank)]
    pub fn rank(self) -> (r: u8)
        ensures
            r == self.spec_rank(),
    {
        match self {
            Category::Hyprland => 0,
            Category::Utility => 1,
            Category::Themes => 2,
            Category::Plugins => 3,
            Category::ConfD => 4,
            Category::Scripts => 5,
        }
    }

    pub fn label(self) -> (r: &'static str)
        ensures
            r@ == self.spec_label(),
    {
        match self {
            Category::Hyprland => "hyprland",
            Category::Utility => "utility",
            Category::Themes => "themes",
            Category::Plugins => "plugins",
            Category::ConfD => "conf.d",
            Category::Scripts => "scripts",
        }
    }

    #[verifier::when_used_as_spec(spec_line_budget)]
    pub fn line_budget(self) -> (r: usize)
        ensures
            r == self.spec_line_budget(),
    {
        match self {
            Category::Hyprland => 10,
            Category::Utility => 20,
            Category::Themes => 10,
            Category::Plugins => 10,
            Category::ConfD => 10,
            Category::Scripts => 10,
        }
    }

    /// The label as an owned string.
    pub fn to_string(self) -> (r: String)
        ensures
            r@ == self.spec_label(),
    {
        self.label().to_owned()
    }
}

/// Ranks tell the categories apart.
pub proof fn rank_is_injective(a: Category, b: Category)
    ensures
        a.spec_rank() == b.spec_rank() <==> a == b,
{
}

/// Labels tell the categories apart.
pub proof fn label_is_injective(a: Category, b: Category)
    ensures
        a.spec_label() == b.spec_label() <==> a == b,
{
    reveal_strlit("hyprland");
    reveal_strlit("utility");
    reveal_strlit("themes");
    reveal_strlit("plugins");
    reveal_strlit("conf.d");
    reveal_strlit("scripts");
    if a != b && a.spec_label() == b.spec_label() {
        assert(a.spec_label()[0] == b.spec_label()[0]);
    }
}

/// One discovered file.
#[derive(Debug)]
pub struct ConfigEntry {
    /// Absolute location of the file.
    pub path: String,
    /// Base name, extension included.
    pub file_name: String,
    /// Short name shown to the user.
    pub alias: String,
    /// Leading comment of the file, if one was found.
    pub description: Option<String>,
    pub category: Category,
}

/// What an entry holds, as plain text.
pub struct EntryView {
    pub path: Seq<char>,
    pub file_name: Seq<char>,
    pub alias: Seq<char>,
    pub description: Option<Seq<char>>,
    pub category: Category,
}

/// The key by which entries are ordered: category rank, then a text.
pub struct SortKey {
    pub rank: u8,
    pub text: Seq<char>,
}

impl EntryView {
    /// The text that orders entries of one category: the file name for
    /// drop-in fragments, so that their numeric prefix counts, and the alias
    /// for all others; either in lowercase.
    pub open spec fn key_text(self) -> Seq<char> {
        match self.category {
            Category::Hyprland | Category::Utility => lowercase_of(self.alias),
            Category::ConfD => lowercase_of(self.file_name),
            Category::Themes | Category::Plugins | Category::Scripts => lowercase_of(self.alias),
        }
    }

    pub open spec fn sort_key(self) -> SortKey {
        SortKey { rank: self.category.spec_rank(), text: self.key_text() }
    }
}

impl View for ConfigEntry {
    type V = EntryView;

    open spec fn view(&self) -> EntryView {
        EntryView {
            path: self.path@,
            file_name: self.file_name@,
            alias: self.alias@,
            description: match self.description {
                Some(d) => Some(d@),
                None => None,
            },
            category: self.category,
        }
    }
}

impl Clone for ConfigEntry {
    fn clone(&self) -> (r: Self)
        ensures
            r@ == self@,
    {
        let description = match &self.description {
            Some(d) => Some(d.clone()),
            None => None,
        };
        ConfigEntry {
            path: self.path.clone(),
            file_name: self.file_name.clone(),
            alias: self.alias.clone(),
            description,
            category: self.category,
        }
    }
}

impl ConfigEntry {
    /// The ordering key of the entry: its category's rank and its key text.
    pub fn sort_key(&self) -> (r: (u8, String))
        ensures
            r.0 == self@.sort_key().rank,
            r.1@ == self@.sort_key().text,
    {
        let within = match self.category {
            Category::Hyprland | Category::Utility => self.alias.as_str().to_lowercase(),
            Category::ConfD => self.file_name.as_str().to_lowercase(),
            Category::Themes | Category::Plugins | Category::Scripts => {
                self.alias.as_str().to_lowercase()
            },
        };
        (self.category.rank(), within)
    }
}

/// The views of a list of entries, in order.
pub open spec fn views(entries: Seq<ConfigEntry>) -> Seq<EntryView> {
    Seq::new(entries.len(), |i: int| entries[i]@)
}

} // verus!
