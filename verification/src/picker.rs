//! The two ends of a selection: the items that are handed to the selector,
//! and the entry that its answer stands for.

use vstd::prelude::*;
use skim::AnsiString;
use crate::model::{views, Category, ConfigEntry, EntryView};
use crate::ansi::{ansi_fragments, ansi_text, fits_styled, Fragment};
use crate::ui::{build_colored_line, display_text, line_fits, segment_fragments};

verus! {

/// What is shown, and how.
#[derive(Debug)]
pub struct Picker {
    /// Show the entries of this category only.
    pub category: Option<Category>,
    /// The colour scheme asked for, as the selector spells it.
    pub color_spec: Option<String>,
    /// Colour the segments of each line.
    pub seg_colors: bool,
}

/// One line of the selector.
pub struct ColoredItem {
    /// The text that the query is matched against.
    pub text: String,
    /// The line as it is drawn.
    pub display: AnsiString<'static>,
    /// The path of the entry, by which the entry is found again.
    pub id_path: String,
    /// Position of the item among those handed over.
    pub index: usize,
}

/// How the selector ended.
#[derive(Debug)]
pub enum Selection {
    /// The user left without choosing.
    Aborted,
    /// The user confirmed the item with this identifier.
    Chosen(String),
    /// The selector ended with nothing selected.
    Empty,
}

/// Whether an entry passes the category filter.
pub open spec fn is_shown(filter: Option<Category>, e: EntryView) -> bool {
    match filter {
        Some(c) => e.category == c,
        None => true,
    }
}

/// The entries that pass the filter, in their order.
pub open spec fn shown(filter: Option<Category>, entries: Seq<EntryView>) -> Seq<EntryView>
    decreases entries.len(),
{
    if entries.len() == 0 {
        Seq::empty()
    } else if is_shown(filter, entries.last()) {
        shown(filter, entries.drop_last()).push(entries.last())
    } else {
        shown(filter, entries.drop_last())
    }
}

/// Number of entries that pass the filter.
pub open spec fn shown_count(filter: Option<Category>, entries: Seq<EntryView>) -> nat
    decreases entries.len(),
{
    if entries.len() == 0 {
        0
    } else if is_shown(filter, entries.last()) {
        shown_count(filter, entries.drop_last()) + 1
    } else {
        shown_count(filter, entries.drop_last())
    }
}

/// The first of the entries that has the given path.
pub open spec fn first_with_path(entries: Seq<EntryView>, path: Seq<char>) -> Option<EntryView>
    decreases entries.len(),
{
    if entries.len() == 0 {
        None
    } else {
        match first_with_path(entries.drop_last(), path) {
            Some(e) => Some(e),
            None => if entries.last().path == path {
                Some(entries.last())
            } else {
                None
            },
        }
    }
}

/// The entry that a selection stands for: the first shown entry with the
/// chosen path. An aborted or empty selection stands for none.
pub open spec fn picked(filter: Option<Category>, entries: Seq<EntryView>, selection: Selection) -> Option<
    EntryView,
> {
    match selection {
        Selection::Chosen(id) => first_with_path(shown(filter, entries), id@),
        Selection::Aborted | Selection::Empty => None,
    }
}

/// The ranges with which the line of an entry is drawn.
pub open spec fn line_fragments(e: EntryView, colored: bool) -> Seq<Fragment> {
    if colored {
        segment_fragments(e)
    } else {
        Seq::empty()
    }
}

/// Whether the line of each of the entries fits a styled string.
pub open spec fn lines_fit(entries: Seq<EntryView>) -> bool {
    forall|i: int| 0 <= i < entries.len() ==> fits_styled(display_text(#[trigger] entries[i]))
}

/// Whether `item` is the line of the entry `e` at position `index`.
pub open spec fn is_item_of(item: ColoredItem, e: EntryView, index: int, colored: bool) -> bool {
    &&& item.text@ == display_text(e)
    &&& ansi_text(item.display) == display_text(e)
    &&& ansi_fragments(item.display) == line_fragments(e, colored)
    &&& item.id_path@ == e.path
    &&& item.index == index
}

/// With a filter, every shown entry is of the category asked for; there are
/// as many shown entries as entries pass the filter; and an entry that
/// passes is shown.
pub proof fn shown_entries_pass_the_filter(filter: Option<Category>, entries: Seq<EntryView>)
    ensures
        shown(filter, entries).len() == shown_count(filter, entries),
        shown(filter, entries).len() <= entries.len(),
        forall|i: int|
            0 <= i < shown(filter, entries).len() ==> is_shown(
                filter,
                #[trigger] shown(filter, entries)[i],
            ),
        forall|i: int|
            0 <= i < shown(filter, entries).len() ==> entries.contains(
                #[trigger] shown(filter, entries)[i],
            ),
        forall|j: int|
            0 <= j < entries.len() && is_shown(filter, entries[j]) ==> shown(
                filter,
                entries,
            ).contains(#[trigger] entries[j]),
        filter is None ==> shown(filter, entries) == entries,
    decreases entries.len(),
{
    if entries.len() > 0 {
        let init = entries.drop_last();
        let s = shown(filter, entries);
        shown_entries_pass_the_filter(filter, init);
        assert forall|j: int| 0 <= j < entries.len() && is_shown(filter, entries[j]) implies s.contains(
            #[trigger] entries[j],
        ) by {
            if j < init.len() {
                let k = choose|k: int|
                    0 <= k < shown(filter, init).len() && shown(filter, init)[k] == init[j];
                assert(s[k] == entries[j]);
            } else {
                assert(s[s.len() - 1] == entries[j]);
            }
        }
    }
}

/// Where no two entries share a path, a chosen path stands for the one
/// shown entry that has it.
pub proof fn chosen_path_finds_its_entry(entries: Seq<EntryView>, i: int)
    requires
        0 <= i < entries.len(),
        forall|a: int, b: int|
            0 <= a < b < entries.len() ==> #[trigger] entries[a].path != #[trigger] entries[b].path,
    ensures
        first_with_path(entries, entries[i].path) == Some(entries[i]),
    decreases entries.len(),
{
    let init = entries.drop_last();
    if i < entries.len() - 1 {
        chosen_path_finds_its_entry(init, i);
    } else {
        no_entry_with_path(init, entries[i].path);
    }
}

proof fn no_entry_with_path(entries: Seq<EntryView>, path: Seq<char>)
    requires
        forall|k: int| 0 <= k < entries.len() ==> (#[trigger] entries[k]).path != path,
    ensures
        first_with_path(entries, path) is None,
    decreases entries.len(),
{
    if entries.len() > 0 {
        no_entry_with_path(entries.drop_last(), path);
    }
}

impl Picker {
    pub fn new(category: Option<Category>, color_spec: Option<String>, seg_colors: bool) -> (r:
        Self)
        ensures
            r.category == category,
            r.color_spec == color_spec,
            r.seg_colors == seg_colors,
    {
        Picker { category, color_spec, seg_colors }
    }

    /// Whether an entry passes the category filter.
    pub fn shows(&self, e: &ConfigEntry) -> (r: bool)
        ensures
            r == is_shown(self.category, e@),
    {
        match self.category {
            Some(c) => e.category == c,
            None => true,
        }
    }

    /// The colour scheme for the selector: the one asked for; else `dark`,
    /// unless colours are unwanted altogether.
    pub fn color_scheme(&self, no_color: bool) -> (r: Option<String>)
        ensures
            match r {
                Some(s) => match self.color_spec {
                    Some(spec) => s@ == spec@,
                    None => !no_color && s@ == "dark"@,
                },
                None => self.color_spec is None && no_color,
            },
    {
        match &self.color_spec {
            Some(spec) => Some(spec.clone()),
            None => if no_color {
                None
            } else {
                Some("dark".to_owned())
            },
        }
    }

    /// Whether the line of every entry that passes the category filter
    /// fits a styled string, so that the items can be made.
    pub fn lines_fit(&self, entries: &[ConfigEntry]) -> (r: bool)
        ensures
            r == lines_fit(shown(self.category, views(entries@))),
    {
        let ghost all = views(entries@);
        proof {
            shown_entries_pass_the_filter(self.category, all);
        }
        let mut i: usize = 0;
        while i < entries.len()
            invariant
                i <= entries.len(),
                all == views(entries@),
                forall|j: int|
                    0 <= j < i && is_shown(self.category, all[j]) ==> fits_styled(
                        display_text(#[trigger] all[j]),
                    ),
                forall|j: int|
                    0 <= j < all.len() && is_shown(self.category, all[j]) ==> shown(
                        self.category,
                        all,
                    ).contains(#[trigger] all[j]),
            decreases entries.len() - i,
        {
            let e = &entries[i];
            if self.shows(e) && !line_fits(e) {
                proof {
                    let s = shown(self.category, all);
                    assert(s.contains(all[i as int]));
                    let k = choose|k: int| 0 <= k < s.len() && s[k] == all[i as int];
                    assert(!fits_styled(display_text(s[k])));
                }
                return false;
            }
            i += 1;
        }
        proof {
            let s = shown(self.category, all);
            assert forall|k: int| 0 <= k < s.len() implies fits_styled(
                display_text(#[trigger] s[k]),
            ) by {
                assert(all.contains(s[k]));
                let j = choose|j: int| 0 <= j < all.len() && all[j] == s[k];
                assert(is_shown(self.category, all[j]));
            }
        }
        true
    }

    /// The items for the selector: one for each entry that passes the
    /// category filter, in the order of the entries, numbered from 0.
    /// Segments are coloured if this picker asks for it and colours are not
    /// unwanted altogether. The lines of the entries that pass must fit
    /// styled strings.
    pub fn items(&self, entries: &[ConfigEntry], no_color: bool) -> (r: Vec<ColoredItem>)
        requires
            lines_fit(shown(self.category, views(entries@))),
        ensures
            r@.len() == shown(self.category, views(entries@)).len(),
            forall|i: int|
                0 <= i < r@.len() ==> is_item_of(
                    #[trigger] r@[i],
                    shown(self.category, views(entries@))[i],
                    i,
                    self.seg_colors && !no_color,
                ),
    {
        let ghost all = views(entries@);
        let colored = self.seg_colors && !no_color;
        let mut r: Vec<ColoredItem> = Vec::new();
        let mut i: usize = 0;
        proof {
            shown_entries_pass_the_filter(self.category, all);
            assert forall|j: int|
                0 <= j < all.len() && is_shown(self.category, all[j]) implies fits_styled(
                display_text(#[trigger] all[j]),
            ) by {
                let s = shown(self.category, all);
                assert(s.contains(all[j]));
                let k = choose|k: int| 0 <= k < s.len() && s[k] == all[j];
                assert(fits_styled(display_text(s[k])));
            }
        }
        while i < entries.len()
            invariant
                i <= entries.len(),
                all == views(entries@),
                colored == (self.seg_colors && !no_color),
                forall|j: int|
                    0 <= j < all.len() && is_shown(self.category, all[j]) ==> fits_styled(
                        display_text(#[trigger] all[j]),
                    ),
                r@.len() == shown(self.category, all.take(i as int)).len(),
                forall|k: int|
                    0 <= k < r@.len() ==> is_item_of(
                        #[trigger] r@[k],
                        shown(self.category, all.take(i as int))[k],
                        k,
                        colored,
                    ),
            decreases entries.len() - i,
        {
            let e = &entries[i];
            assert(all.take(i + 1).drop_last() == all.take(i as int));
            if self.shows(e) {
                assert(all[i as int] == e@);
                let (text, display) = build_colored_line(e, colored);
                let item = ColoredItem { text, display, id_path: e.path.clone(), index: r.len() };
                r.push(item);
            }
            i += 1;
        }
        assert(all.take(entries.len() as int) == all);
        r
    }

    /// The entry that the selection stands for: a copy of the first entry
    /// that passes the category filter and has the chosen path. None where
    /// the user aborted, nothing was selected, or no shown entry has that
    /// path.
    pub fn pick(&self, entries: &[ConfigEntry], selection: &Selection) -> (r: Option<ConfigEntry>)
        ensures
            match r {
                Some(e) => picked(self.category, views(entries@), *selection) == Some(e@),
                None => picked(self.category, views(entries@), *selection) is None,
            },
            *selection is Aborted ==> r is None,
    {
        let ghost all = views(entries@);
        match selection {
            Selection::Chosen(id) => {
                let mut i: usize = 0;
                while i < entries.len()
                    invariant
                        i <= entries.len(),
                        all == views(entries@),
                        *selection == Selection::Chosen(*id),
                        first_with_path(shown(self.category, all.take(i as int)), id@) is None,
                    decreases entries.len() - i,
                {
                    let e = &entries[i];
                    assert(all.take(i + 1).drop_last() == all.take(i as int));
                    if self.shows(e) {
                        let ghost now = shown(self.category, all.take(i + 1));
                        assert(now.drop_last() == shown(self.category, all.take(i as int)));
                        if e.path == *id {
                            proof {
                                found_stays_found(self.category, all, i as int, id@);
                            }
                            return Some(e.clone());
                        }
                    }
                    i += 1;
                }
                assert(all.take(entries.len() as int) == all);
                None
            },
            Selection::Aborted | Selection::Empty => None,
        }
    }
}

/// The first shown entry with a path among the first `i + 1` entries is the
/// first among all of them.
proof fn found_stays_found(filter: Option<Category>, all: Seq<EntryView>, i: int, path: Seq<char>)
    requires
        0 <= i < all.len(),
        first_with_path(shown(filter, all.take(i + 1)), path) is Some,
    ensures
        first_with_path(shown(filter, all), path) == first_with_path(
            shown(filter, all.take(i + 1)),
            path,
        ),
    decreases all.len() - i,
{
    if i + 1 < all.len() {
        assert(all.take(i + 2).drop_last() == all.take(i + 1));
        if is_shown(filter, all[i + 1]) {
            assert(shown(filter, all.take(i + 2)).drop_last() == shown(filter, all.take(i + 1)));
        }
        found_stays_found(filter, all, i + 1, path);
    } else {
        assert(all.take(i + 1) == all);
    }
}

} // verus!
