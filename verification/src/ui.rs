//! Rendering an entry as one line of the picker, with the character ranges
//! of its segments.

use vstd::prelude::*;
use skim::AnsiString;
use skim_tuikit::attr::Attr;
use crate::ansi::{
    ansi_fragments, ansi_string, ansi_text, attr_of, characters_fit_in_bytes, fits_styled,
    fragments_of, Color, Fragment, Style, BOLD,
};
use crate::model::{ConfigEntry, EntryView};
use crate::text::{is_blank, to_chars, trim_range};

verus! {

/// The parts of a rendered line that are coloured.
#[derive(Debug, Clone, Copy, PartialEq, Eq, Structural)]
pub enum Segment {
    /// The category label, without the brackets around it.
    Category,
    Alias,
    Description,
    /// File name and path at the end of the line, from the pipe on.
    Trailing,
}

/// A segment of a rendered line: the characters `start..end` of the line,
/// counted in characters, not bytes.
#[derive(Debug, Clone, Copy, PartialEq, Eq, Structural)]
pub struct Span {
    pub segment: Segment,
    pub start: usize,
    pub end: usize,
}

/// A rendered line: its text and, where segments are coloured, their ranges
/// from left to right.
#[derive(Debug)]
pub struct RenderedLine {
    pub text: String,
    pub spans: Vec<Span>,
}

/// What stands between alias and description.
pub open spec fn separator() -> Seq<char> {
    seq![' ', '\u{2014}', ' ']
}

/// The description as it is shown: empty where the entry has none.
pub open spec fn shown_description(e: EntryView) -> Seq<char> {
    match e.description {
        Some(d) => d,
        None => Seq::empty(),
    }
}

/// Whether the line shows a description, parted from the alias.
pub open spec fn shows_description(e: EntryView) -> bool {
    !is_blank(shown_description(e))
}

/// The separator as it is shown: none without a description to part off.
pub open spec fn shown_separator(e: EntryView) -> Seq<char> {
    if shows_description(e) {
        separator()
    } else {
        Seq::empty()
    }
}

/// The end of the line: `| <file name> (<path>)`.
pub open spec fn trailing_text(e: EntryView) -> Seq<char> {
    "| "@ + e.file_name + " ("@ + e.path + ")"@
}

/// What stands before the trailing segment:
/// `[<label>] <alias><separator><description> `.
pub open spec fn leading_text(e: EntryView) -> Seq<char> {
    "["@ + e.category.spec_label() + "] "@ + e.alias + shown_separator(e) + shown_description(e)
        + " "@
}

/// The line of an entry:
/// `[<label>] <alias><separator><description> | <file name> (<path>)`.
pub open spec fn display_text(e: EntryView) -> Seq<char> {
    leading_text(e) + trailing_text(e)
}

/// Where the category label starts in the line: behind the bracket.
pub open spec fn label_start(e: EntryView) -> int {
    1
}

/// Where the alias starts: behind label, bracket and space.
pub open spec fn alias_start(e: EntryView) -> int {
    label_start(e) + e.category.spec_label().len() + 2
}

/// Where the description starts: behind alias and separator.
pub open spec fn description_start(e: EntryView) -> int {
    alias_start(e) + e.alias.len() + shown_separator(e).len()
}

/// Where the trailing segment starts: behind the description and a space.
pub open spec fn trailing_start(e: EntryView) -> int {
    description_start(e) + shown_description(e).len() + 1
}

/// The segments of the line of an entry, from left to right: label, alias,
/// description if one is shown, trailing.
pub open spec fn segment_spans(e: EntryView) -> Seq<(Segment, int, int)> {
    let label = (Segment::Category, label_start(e), label_start(e) + e.category.spec_label().len());
    let alias = (Segment::Alias, alias_start(e), alias_start(e) + e.alias.len());
    let description = (
        Segment::Description,
        description_start(e),
        description_start(e) + shown_description(e).len(),
    );
    let trailing = (Segment::Trailing, trailing_start(e), trailing_start(e) + trailing_text(e).len());
    if shows_description(e) {
        seq![label, alias, description, trailing]
    } else {
        seq![label, alias, trailing]
    }
}

/// The spans as plain triples.
pub open spec fn span_triples(spans: Seq<Span>) -> Seq<(Segment, int, int)> {
    Seq::new(spans.len(), |i: int| (spans[i].segment, spans[i].start as int, spans[i].end as int))
}

/// The text of a segment of an entry.
pub open spec fn segment_text(e: EntryView, segment: Segment) -> Seq<char> {
    match segment {
        Segment::Category => e.category.spec_label(),
        Segment::Alias => e.alias,
        Segment::Description => shown_description(e),
        Segment::Trailing => trailing_text(e),
    }
}

/// Cutting the line of an entry at the ranges of its segments gives back
/// the label, the alias, the description if it is shown, and the trailing
/// text, in this order. The ranges lie within the line, each ends before
/// the next begins, and the last ends where the line ends.
pub proof fn segments_cut_the_line(e: EntryView)
    ensures
        segment_spans(e).len() == if shows_description(e) {
            4int
        } else {
            3int
        },
        forall|i: int|
            0 <= i < segment_spans(e).len() ==> {
                let (segment, start, end) = #[trigger] segment_spans(e)[i];
                &&& 0 <= start <= end <= display_text(e).len()
                &&& display_text(e).subrange(start, end) == segment_text(e, segment)
            },
        forall|i: int, j: int|
            0 <= i < j < segment_spans(e).len() ==> (#[trigger] segment_spans(e)[i]).2 < (
            #[trigger] segment_spans(e)[j]).1,
        segment_spans(e)[0].0 == Segment::Category,
        segment_spans(e)[1].0 == Segment::Alias,
        shows_description(e) ==> segment_spans(e)[2].0 == Segment::Description,
        segment_spans(e).last().0 == Segment::Trailing,
        segment_spans(e).last().2 == display_text(e).len(),
{
    reveal_strlit("[");
    reveal_strlit("] ");
    reveal_strlit(" ");
}

/// Number of characters written so far.
fn cursor(text: &String) -> (n: usize)
    ensures
        n == text@.len(),
{
    text.as_str().unicode_len()
}

/// The line of an entry and, if `seg_colors` is set, the ranges of its
/// segments. Text and ranges come of one pass: each segment is written to
/// the line, and its range is where the writing began and ended.
pub fn render_line(e: &ConfigEntry, seg_colors: bool) -> (r: RenderedLine)
    ensures
        r.text@ == display_text(e@),
        seg_colors ==> span_triples(r.spans@) == segment_spans(e@),
        !seg_colors ==> r.spans@.len() == 0,
{
    let blank: String = String::new();
    let desc: &str = match &e.description {
        Some(d) => d.as_str(),
        None => blank.as_str(),
    };
    let v = to_chars(desc);
    let (a, b) = trim_range(&v, 0, v.len());
    assert(v@.subrange(0, v.len() as int) == v@);
    let shown = a < b;
    proof {
        reveal_strlit("[");
        reveal_strlit("] ");
        reveal_strlit(" ");
        reveal_strlit(" \u{2014} ");
    }

    let mut text = String::new();
    text.append("[");
    let label_start = cursor(&text);
    text.append(e.category.label());
    let label_end = cursor(&text);
    text.append("] ");
    let alias_start = cursor(&text);
    text.append(e.alias.as_str());
    let alias_end = cursor(&text);
    if shown {
        text.append(" \u{2014} ");
    }
    let desc_start = cursor(&text);
    text.append(desc);
    let desc_end = cursor(&text);
    text.append(" ");
    let trailing_start = cursor(&text);
    text.append("| ");
    text.append(e.file_name.as_str());
    text.append(" (");
    text.append(e.path.as_str());
    text.append(")");
    let trailing_end = cursor(&text);

    let mut spans: Vec<Span> = Vec::new();
    if seg_colors {
        spans.push(Span { segment: Segment::Category, start: label_start, end: label_end });
        spans.push(Span { segment: Segment::Alias, start: alias_start, end: alias_end });
        if shown {
            spans.push(Span { segment: Segment::Description, start: desc_start, end: desc_end });
        }
        spans.push(Span { segment: Segment::Trailing, start: trailing_start, end: trailing_end });
    }
    RenderedLine { text, spans }
}

impl Segment {
    /// The style of a segment: yellow label, bold orchid alias, orange
    /// description, bright white trailing text.
    pub open spec fn spec_style(self) -> Style {
        match self {
            Segment::Category => Style { fg: Color::AnsiValue(3), bg: Color::Default, effect: 0 },
            Segment::Alias => Style {
                fg: Color::Rgb(0xDA, 0x68, 0xEC),
                bg: Color::Default,
                effect: BOLD,
            },
            Segment::Description => Style {
                fg: Color::Rgb(0xFF, 0x6A, 0x3D),
                bg: Color::Default,
                effect: 0,
            },
            Segment::Trailing => Style { fg: Color::AnsiValue(15), bg: Color::Default, effect: 0 },
        }
    }

    #[verifier::when_used_as_spec(spec_style)]
    pub fn style(self) -> (r: Style)
        ensures
            r == self.spec_style(),
    {
        match self {
            Segment::Category => Style { fg: Color::AnsiValue(3), bg: Color::Default, effect: 0 },
            Segment::Alias => Style {
                fg: Color::Rgb(0xDA, 0x68, 0xEC),
                bg: Color::Default,
                effect: BOLD,
            },
            Segment::Description => Style {
                fg: Color::Rgb(0xFF, 0x6A, 0x3D),
                bg: Color::Default,
                effect: 0,
            },
            Segment::Trailing => Style { fg: Color::AnsiValue(15), bg: Color::Default, effect: 0 },
        }
    }
}

/// The styled ranges of the line of an entry: its segments, each in its
/// style.
pub open spec fn segment_fragments(e: EntryView) -> Seq<Fragment> {
    Seq::new(
        segment_spans(e).len(),
        |i: int|
            Fragment {
                style: segment_spans(e)[i].0.spec_style(),
                start: segment_spans(e)[i].1 as u32,
                end: segment_spans(e)[i].2 as u32,
            },
    )
}

/// Cutting the line of an entry that fits a styled string at its styled
/// ranges gives back the label, the alias, the description if it is shown,
/// and the trailing text, each in the style of its segment: the ranges are
/// those of the segments, counted in 32 bits without loss. The label begins
/// behind the bracket, the alias two characters behind the label, a shown
/// description behind alias and separator; each range ends before the next
/// begins, and the last ends where the line ends.
pub proof fn fragments_cut_the_line(e: EntryView)
    requires
        fits_styled(display_text(e)),
    ensures
        segment_fragments(e).len() == if shows_description(e) {
            4int
        } else {
            3int
        },
        forall|k: int|
            0 <= k < segment_fragments(e).len() ==> {
                let f = #[trigger] segment_fragments(e)[k];
                &&& f.style == segment_spans(e)[k].0.spec_style()
                &&& f.start == segment_spans(e)[k].1
                &&& f.end == segment_spans(e)[k].2
                &&& f.start <= f.end <= display_text(e).len()
                &&& display_text(e).subrange(f.start as int, f.end as int) == segment_text(
                    e,
                    segment_spans(e)[k].0,
                )
            },
        forall|i: int, j: int|
            0 <= i < j < segment_fragments(e).len() ==> (#[trigger] segment_fragments(e)[i]).end < (
            #[trigger] segment_fragments(e)[j]).start,
        segment_fragments(e)[0].start == 1,
        segment_fragments(e)[0].end == 1 + e.category.spec_label().len(),
        segment_fragments(e)[1].start == segment_fragments(e)[0].end + 2,
        segment_fragments(e)[1].end == segment_fragments(e)[1].start + e.alias.len(),
        shows_description(e) ==> segment_fragments(e)[2].start == segment_fragments(e)[1].end
            + separator().len(),
        segment_fragments(e).last().end == display_text(e).len(),
{
    segments_cut_the_line(e);
    characters_fit_in_bytes(display_text(e));
    assert forall|k: int| 0 <= k < segment_fragments(e).len() implies {
        let f = #[trigger] segment_fragments(e)[k];
        &&& f.start == segment_spans(e)[k].1
        &&& f.end == segment_spans(e)[k].2
    } by {
        let (segment, start, end) = segment_spans(e)[k];
        assert(0 <= start <= end <= display_text(e).len());
    }
}

/// Whether the line of an entry fits a styled string.
pub fn line_fits(e: &ConfigEntry) -> (r: bool)
    ensures
        r == fits_styled(display_text(e@)),
{
    let line = render_line(e, false);
    line.text.as_str().as_bytes().len() <= u32::MAX as usize
}

/// The line of an entry as plain text and as the styled string that the
/// selector shows. The styled string holds the same text, and with
/// `seg_colors` the segments in their styles. The line must fit a styled
/// string.
pub fn build_colored_line(e: &ConfigEntry, seg_colors: bool) -> (r: (String, AnsiString<'static>))
    requires
        fits_styled(display_text(e@)),
    ensures
        r.0@ == display_text(e@),
        ansi_text(r.1) == display_text(e@),
        ansi_fragments(r.1) == if seg_colors {
            segment_fragments(e@)
        } else {
            Seq::empty()
        },
{
    let line = render_line(e, seg_colors);
    let mut fragments: Vec<(Attr, (u32, u32))> = Vec::new();
    proof {
        segments_cut_the_line(e@);
        characters_fit_in_bytes(display_text(e@));
    }
    let mut i: usize = 0;
    while i < line.spans.len()
        invariant
            i <= line.spans.len(),
            fragments.len() == i,
            seg_colors ==> span_triples(line.spans@) == segment_spans(e@),
            !seg_colors ==> line.spans@.len() == 0,
            display_text(e@).len() <= u32::MAX,
            forall|k: int|
                0 <= k < segment_spans(e@).len() ==> 0 <= (#[trigger] segment_spans(e@)[k]).1
                    <= segment_spans(e@)[k].2 <= display_text(e@).len(),
            forall|k: int|
                0 <= k < i ==> (#[trigger] fragments_of(fragments@)[k]) == segment_fragments(e@)[k],
        decreases line.spans.len() - i,
    {
        let span = line.spans[i];
        let ghost before = fragments@;
        assert(span_triples(line.spans@)[i as int] == segment_spans(e@)[i as int]);
        let a = attr_of(span.segment.style());
        fragments.push((a, (span.start as u32, span.end as u32)));
        assert forall|k: int| 0 <= k < i + 1 implies (#[trigger] fragments_of(fragments@)[k])
            == segment_fragments(e@)[k] by {
            if k < i {
                assert(fragments_of(before)[k] == segment_fragments(e@)[k]);
            }
        }
        i += 1;
    }
    assert(fragments_of(fragments@) =~= if seg_colors {
        segment_fragments(e@)
    } else {
        Seq::empty()
    });
    let display = ansi_string(line.text.as_str(), fragments);
    (line.text, display)
}

} // verus!
