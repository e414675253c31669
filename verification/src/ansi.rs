//! Styled text as the selector draws it: the library's picture of skim's
//! `AnsiString` and of the attributes of skim's terminal layer, and the calls
//! that make and change such strings.

use vstd::prelude::*;
use vstd::utf8::encode_utf8;
use skim::AnsiString;
use skim_tuikit::attr;
use skim_tuikit::attr::{Attr, Effect};

verus! {

/// A colour of the terminal.
#[derive(Debug, Clone, Copy, PartialEq, Eq, Structural)]
pub enum Color {
    /// The colour that the terminal draws in by itself.
    Default,
    /// One of the 256 indexed colours.
    AnsiValue(u8),
    Rgb(u8, u8, u8),
}

/// How a stretch of text is drawn: colours, and effects as a set of bits.
#[derive(Debug, Clone, Copy, PartialEq, Eq, Structural)]
pub struct Style {
    pub fg: Color,
    pub bg: Color,
    pub effect: u8,
}

/// The effect bit for bold text.
pub const BOLD: u8 = 1;

/// The characters `start..end` of a line, drawn in one style.
#[derive(Debug, Clone, Copy, PartialEq, Eq, Structural)]
pub struct Fragment {
    pub style: Style,
    pub start: u32,
    pub end: u32,
}

/// The style that changes nothing.
pub open spec fn plain_style() -> Style {
    Style { fg: Color::Default, bg: Color::Default, effect: 0 }
}

/// `skim_tuikit::attr::Attr`: the colours and effects of a terminal cell.
/// Nothing is known of a value but what `attr_style` names.
#[verifier::external_type_specification]
#[verifier::external_body]
pub struct ExAttr(Attr);

/// `skim::AnsiString`: a text with styled ranges. Nothing is known of a
/// value but what `ansi_text` and `ansi_fragments` name.
#[verifier::external_type_specification]
#[verifier::external_body]
pub struct ExAnsiString<'a>(AnsiString<'a>);

/// The colours and effects that a terminal attribute holds.
pub uninterp spec fn attr_style(a: Attr) -> Style;

/// The text of a styled string, without its styles.
pub uninterp spec fn ansi_text(a: AnsiString<'static>) -> Seq<char>;

/// The styled ranges of a styled string. A string without any has none.
pub uninterp spec fn ansi_fragments(a: AnsiString<'static>) -> Seq<Fragment>;

/// The ranges that skim makes of the ranges `under` of a styled string and
/// the ranges `over` that are laid on them, neither being empty.
pub uninterp spec fn merged_fragments(under: Seq<Fragment>, over: Seq<Fragment>) -> Seq<Fragment>;

/// Ranges as the selector takes them, read as fragments.
pub open spec fn fragments_of(v: Seq<(Attr, (u32, u32))>) -> Seq<Fragment> {
    Seq::new(
        v.len(),
        |i: int| Fragment { style: attr_style(v[i].0), start: v[i].1.0, end: v[i].1.1 },
    )
}

/// The ranges that a styled string keeps of those it is made with: all of
/// them, but for a single range in the plain style, which it drops.
pub open spec fn kept_fragments(f: Seq<Fragment>) -> Seq<Fragment> {
    if f.len() == 1 && f[0].style == plain_style() {
        Seq::empty()
    } else {
        f
    }
}

/// Whether a text can be held in a styled string, which counts the bytes of
/// its text in 32 bits.
pub open spec fn fits_styled(text: Seq<char>) -> bool {
    encode_utf8(text).len() <= u32::MAX
}

/// A text has no more characters than bytes, so that every character of a
/// text that fits a styled string can be counted in 32 bits.
pub proof fn characters_fit_in_bytes(text: Seq<char>)
    ensures
        text.len() <= encode_utf8(text).len(),
    decreases text.len(),
{
    if text.len() > 0 {
        characters_fit_in_bytes(text.drop_first());
    }
}

/// Builds the terminal attribute `skim_tuikit::attr::Attr` with the colours
/// of `style`, and with its effect bits through `Effect::from_bits_truncate`,
/// which keeps the five bits that name an effect.
#[verifier::external_body]
pub(crate) fn attr_of(style: Style) -> (r: Attr)
    requires
        style.effect <= 0x1f,
    ensures
        attr_style(r) == style,
{
    let shade = |c: Color| match c {
        Color::Default => attr::Color::Default,
        Color::AnsiValue(v) => attr::Color::AnsiValue(v),
        Color::Rgb(r, g, b) => attr::Color::Rgb(r, g, b),
    };
    Attr {
        fg: shade(style.fg),
        bg: shade(style.bg),
        effect: Effect::from_bits_truncate(style.effect),
    }
}

/// `AnsiString::new_string` of skim, on a copy of the text made by
/// `str::to_owned`, whose capacity is its length. The new string holds the
/// text as it is, and the ranges as they are, unless there is just one and
/// its attribute is the default one: then it holds none. It keeps length and
/// capacity of the text in 32 bits each and panics on a capacity beyond
/// that, so the text must fit.
#[verifier::external_body]
pub(crate) fn ansi_string(text: &str, fragments: Vec<(Attr, (u32, u32))>) -> (r: AnsiString<'static>)
    requires
        fits_styled(text@),
    ensures
        ansi_text(r) == text@,
        ansi_fragments(r) == kept_fragments(fragments_of(fragments@)),
{
    AnsiString::new_string(text.to_owned(), fragments)
}

/// `Clone::clone` of skim's `AnsiString`: a copy with the same text and
/// ranges.
#[verifier::external_body]
pub(crate) fn ansi_clone(a: &AnsiString<'static>) -> (r: AnsiString<'static>)
    ensures
        ansi_text(r) == ansi_text(*a),
        ansi_fragments(r) == ansi_fragments(*a),
{
    a.clone()
}

/// `AnsiString::override_attrs` of skim: the text stays. Without new ranges
/// the old ones stay; a string that had none takes the new ones; otherwise
/// old and new are merged.
#[verifier::external_body]
pub(crate) fn ansi_override(a: &mut AnsiString<'static>, fragments: Vec<(Attr, (u32, u32))>)
    ensures
        ansi_text(*final(a)) == ansi_text(*old(a)),
        ansi_fragments(*final(a)) == if fragments@.len() == 0 {
            ansi_fragments(*old(a))
        } else if ansi_fragments(*old(a)).len() == 0 {
            fragments_of(fragments@)
        } else {
            merged_fragments(ansi_fragments(*old(a)), fragments_of(fragments@))
        },
{
    a.override_attrs(fragments)
}

/// The ranges of a styled string with the ranges `under` once `over` is laid
/// on it.
pub open spec fn overlaid(under: Seq<Fragment>, over: Seq<Fragment>) -> Seq<Fragment> {
    if over.len() == 0 {
        under
    } else if under.len() == 0 {
        over
    } else {
        merged_fragments(under, over)
    }
}

} // verus!
