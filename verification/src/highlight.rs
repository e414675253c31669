//! Highlighting the match of the query in a line of the selector.

use vstd::prelude::*;
use vstd::string::StringSliceAdditionalSpecFns;
use vstd::utf8::{decode_utf8, encode_utf8, encode_utf8_decode_utf8, is_char_boundary};
use skim::AnsiString;
use skim_tuikit::attr::Attr;
use crate::ansi::{
    ansi_clone, ansi_fragments, ansi_override, ansi_text, attr_style, fragments_of, overlaid,
    Fragment, Style,
};

verus! {

/// What the selector tells of the match of the query in the text of an
/// item.
#[derive(Debug)]
pub enum Matches {
    /// Nothing of the text matched.
    Unmatched,
    /// The positions of the matched characters, counted in characters.
    CharIndices(Vec<usize>),
    /// The matched characters `start..end`, counted in characters.
    CharRange(usize, usize),
    /// The matched bytes `start..end` of the text.
    ByteRange(usize, usize),
}

/// One range of a single character for each position; a position too large
/// to be followed by another in 32 bits gives none.
pub open spec fn index_ranges(indices: Seq<usize>) -> Seq<(u32, u32)>
    decreases indices.len(),
{
    if indices.len() == 0 {
        Seq::empty()
    } else if indices.last() < u32::MAX {
        index_ranges(indices.drop_last()).push(
            (indices.last() as u32, (indices.last() + 1) as u32),
        )
    } else {
        index_ranges(indices.drop_last())
    }
}

/// Number of characters that the first `n` bytes of the text encode.
pub open spec fn chars_within(text: Seq<char>, n: int) -> nat {
    decode_utf8(encode_utf8(text).subrange(0, n)).len()
}

/// Whether `start..end` is a range of bytes of the text that cuts no
/// character in two.
pub open spec fn is_byte_range(text: Seq<char>, start: int, end: int) -> bool {
    &&& 0 <= start <= end <= encode_utf8(text).len()
    &&& is_char_boundary(encode_utf8(text), start)
    &&& is_char_boundary(encode_utf8(text), end)
}

/// The character ranges to highlight for a match in `text`. A range that
/// cannot be counted in 32 bits, or a byte range that is none of the text,
/// highlights nothing.
pub open spec fn highlight_of(text: Seq<char>, matches: Matches) -> Seq<(u32, u32)> {
    match matches {
        Matches::Unmatched => Seq::empty(),
        Matches::CharIndices(indices) => index_ranges(indices@),
        Matches::CharRange(start, end) => if start <= u32::MAX && end <= u32::MAX {
            seq![(start as u32, end as u32)]
        } else {
            Seq::empty()
        },
        Matches::ByteRange(start, end) => if is_byte_range(text, start as int, end as int)
            && chars_within(text, start as int) <= u32::MAX && chars_within(text, end as int)
            <= u32::MAX {
            seq![(chars_within(text, start as int) as u32, chars_within(text, end as int) as u32)]
        } else {
            Seq::empty()
        },
    }
}

/// The ranges, each in the given style.
pub open spec fn styled_ranges(style: Style, ranges: Seq<(u32, u32)>) -> Seq<Fragment> {
    Seq::new(ranges.len(), |i: int| Fragment { style, start: ranges[i].0, end: ranges[i].1 })
}

/// Number of characters in the first `n` bytes of `text`.
fn count_chars_within(text: &str, n: usize) -> (r: usize)
    requires
        n <= text.spec_bytes().len(),
        is_char_boundary(text.spec_bytes(), n as int),
    ensures
        r == chars_within(text@, n as int),
{
    let (head, _) = text.split_at(n);
    proof {
        encode_utf8_decode_utf8(head@);
    }
    head.unicode_len()
}

/// The character ranges to highlight for a match in `text`.
pub fn highlight_ranges(text: &str, matches: &Matches) -> (r: Vec<(u32, u32)>)
    ensures
        r@ == highlight_of(text@, *matches),
{
    let mut r: Vec<(u32, u32)> = Vec::new();
    match matches {
        Matches::Unmatched => {},
        Matches::CharIndices(indices) => {
            let mut i: usize = 0;
            while i < indices.len()
                invariant
                    i <= indices.len(),
                    r@ == index_ranges(indices@.take(i as int)),
                decreases indices.len() - i,
            {
                let idx = indices[i];
                assert(indices@.take(i + 1).drop_last() == indices@.take(i as int));
                if idx < u32::MAX as usize {
                    r.push((idx as u32, (idx + 1) as u32));
                }
                i += 1;
            }
            assert(indices@.take(indices.len() as int) == indices@);
        },
        Matches::CharRange(start, end) => {
            if *start <= u32::MAX as usize && *end <= u32::MAX as usize {
                r.push((*start as u32, *end as u32));
            }
        },
        Matches::ByteRange(start, end) => {
            let byte_len = text.as_bytes().len();
            if *start <= *end && *end <= byte_len && text.is_char_boundary(*start)
                && text.is_char_boundary(*end) {
                let first = count_chars_within(text, *start);
                let last = count_chars_within(text, *end);
                if first <= u32::MAX as usize && last <= u32::MAX as usize {
                    r.push((first as u32, last as u32));
                }
            }
        },
    }
    r
}

/// The styled string `display` with the match highlighted: the same text,
/// and the ranges of the match, in the style `highlight`, laid over the
/// ranges that `display` has.
pub fn highlighted(
    display: &AnsiString<'static>,
    highlight: Attr,
    text: &str,
    matches: &Matches,
) -> (r: AnsiString<'static>)
    ensures
        ansi_text(r) == ansi_text(*display),
        ansi_fragments(r) == overlaid(
            ansi_fragments(*display),
            styled_ranges(attr_style(highlight), highlight_of(text@, *matches)),
        ),
{
    let ranges = highlight_ranges(text, matches);
    let mut over: Vec<(Attr, (u32, u32))> = Vec::new();
    let mut i: usize = 0;
    while i < ranges.len()
        invariant
            i <= ranges.len(),
            over.len() == i,
            forall|k: int| 0 <= k < i ==> #[trigger] over@[k] == (highlight, ranges@[k]),
        decreases ranges.len() - i,
    {
        over.push((highlight, ranges[i]));
        i += 1;
    }
    assert(fragments_of(over@) =~= styled_ranges(attr_style(highlight), ranges@));
    let mut ret = ansi_clone(display);
    ansi_override(&mut ret, over);
    ret
}

} // verus!
