//! Deriving an entry's alias from its file name, and keeping the alias from
//! being repeated at the head of its description.

use vstd::prelude::*;
use crate::model::Category;
use crate::text::{
    char_is_whitespace, is_whitespace, lowercase_of, same_text, slice_to_string, to_chars, trim,
    trim_cuts_whitespace, trimmed,
};

verus! {

/// Index of the last `.` in `name`, or -1 where it has none.
pub open spec fn last_dot(name: Seq<char>) -> int
    decreases name.len(),
{
    if name.len() == 0 {
        -1
    } else if name.last() == '.' {
        name.len() - 1
    } else {
        last_dot(name.drop_last())
    }
}

/// Whether a file name splits into a stem and an extension: it has a `.`
/// that is not its first character, and is not the parent directory `..`.
pub open spec fn has_extension(name: Seq<char>) -> bool {
    last_dot(name) > 0 && name != seq!['.', '.']
}

/// The file name without its extension: what stands before the last `.`,
/// or the whole name where it has no extension.
pub open spec fn file_stem(name: Seq<char>) -> Seq<char> {
    if has_extension(name) {
        name.take(last_dot(name))
    } else {
        name
    }
}

/// What stands behind the last `.` of a file name that has an extension.
pub open spec fn extension(name: Seq<char>) -> Option<Seq<char>> {
    if has_extension(name) {
        Some(name.skip(last_dot(name) + 1))
    } else {
        None
    }
}

/// Whether `c` is one of the decimal digits `0` to `9`.
pub open spec fn is_digit(c: char) -> bool {
    '0' <= c && c <= '9'
}

/// Number of decimal digits that `s` begins with.
pub open spec fn digit_run(s: Seq<char>) -> nat
    decreases s.len(),
{
    if s.len() > 0 && is_digit(s[0]) {
        1 + digit_run(s.drop_first())
    } else {
        0
    }
}

/// Whether a stem begins with a number and a hyphen, as `70-binds` does.
pub open spec fn has_order_prefix(stem: Seq<char>) -> bool {
    0 < digit_run(stem) < stem.len() && stem[digit_run(stem) as int] == '-'
}

/// The alias of a drop-in fragment: its stem without the number and hyphen
/// that order it, or the stem itself where it has no such prefix.
pub open spec fn conf_d_alias(stem: Seq<char>) -> Seq<char> {
    if has_order_prefix(stem) {
        stem.skip(digit_run(stem) as int + 1)
    } else {
        stem
    }
}

/// The alias of a file of the given category.
pub open spec fn alias_of(category: Category, file_name: Seq<char>) -> Seq<char> {
    match category {
        Category::Hyprland => "hyprland"@,
        Category::Utility => file_stem(file_name),
        Category::Themes => file_stem(file_name),
        Category::Plugins => file_stem(file_name),
        Category::ConfD => conf_d_alias(file_stem(file_name)),
        Category::Scripts => file_stem(file_name),
    }
}

/// The characters that may part an alias from the text behind it:
/// whitespace, hyphen, em dash, en dash, colon and pipe.
pub open spec fn is_separator(c: char) -> bool {
    is_whitespace(c) || c == '-' || c == '\u{2014}' || c == '\u{2013}' || c == ':' || c == '|'
}

/// `s` without its leading separators.
pub open spec fn skip_separators(s: Seq<char>) -> Seq<char>
    decreases s.len(),
{
    if s.len() > 0 && is_separator(s[0]) {
        skip_separators(s.drop_first())
    } else {
        s
    }
}

/// Whether the trimmed description `d` begins with the alias, case ignored:
/// its first characters, as many as the alias has, have the lowercase form
/// of the trimmed alias.
pub open spec fn repeats_alias(alias: Seq<char>, d: Seq<char>) -> bool {
    alias.len() <= d.len() && lowercase_of(d.take(alias.len() as int)) == lowercase_of(trim(alias))
}

/// The description to store for the trimmed comment `d` under an alias of
/// `n` characters, where `repeats` tells whether `d` begins with the alias.
/// Where it does, and the alias is followed by a separator or by nothing,
/// alias and separators are cut off. A comment that merely begins with the
/// letters of the alias (`Bindings` under the alias `bind`) is kept whole.
pub open spec fn cut_alias(d: Seq<char>, n: int, repeats: bool) -> Seq<char> {
    let rest = d.skip(n);
    if repeats && 0 <= n <= d.len() && (rest.len() == 0 || is_separator(rest[0])) {
        skip_separators(rest)
    } else {
        d
    }
}

/// The description to store for a raw comment: the comment, trimmed, and
/// without a leading repetition of the alias.
pub open spec fn without_alias_prefix(alias: Seq<char>, desc: Seq<char>) -> Seq<char> {
    cut_alias(trim(desc), alias.len() as int, repeats_alias(alias, trim(desc)))
}

/// The last `.` of a name lies within it, and no `.` follows it.
pub proof fn last_dot_is_last(name: Seq<char>)
    ensures
        -1 <= last_dot(name) < name.len(),
        last_dot(name) >= 0 ==> name[last_dot(name)] == '.',
        forall|i: int| last_dot(name) < i < name.len() ==> #[trigger] name[i] != '.',
    decreases name.len(),
{
    if name.len() > 0 && name.last() != '.' {
        let init = name.drop_last();
        last_dot_is_last(init);
        assert forall|i: int| last_dot(name) < i < name.len() implies #[trigger] name[i] != '.' by {
            if i < init.len() {
                assert(name[i] == init[i]);
            }
        }
    }
}

/// A file name that has an extension is its stem, a `.` and its extension;
/// the extension holds no `.`; and a name that is not empty has a stem that
/// is not empty, so that a file with a name has an alias.
pub proof fn stem_and_extension_make_the_name(name: Seq<char>)
    ensures
        match extension(name) {
            Some(ext) => {
                &&& name == file_stem(name) + seq!['.'] + ext
                &&& !ext.contains('.')
            },
            None => file_stem(name) == name,
        },
        name.len() > 0 ==> file_stem(name).len() > 0,
{
    last_dot_is_last(name);
    if has_extension(name) {
        let i = last_dot(name);
        let ext = name.skip(i + 1);
        assert(name =~= name.take(i) + seq!['.'] + ext);
        if ext.contains('.') {
            // A `.` in the extension would be a later `.` of the name.
            let k = choose|k: int| 0 <= k < ext.len() && ext[k] == '.';
            assert(name[i + 1 + k] == '.');
        }
    }
}

/// A stored description is trimmed: it neither begins nor ends with
/// whitespace.
pub proof fn stored_description_is_trimmed(alias: Seq<char>, desc: Seq<char>)
    ensures
        ({
            let d = without_alias_prefix(alias, desc);
            d.len() > 0 ==> !is_whitespace(d[0]) && !is_whitespace(d.last())
        }),
{
    let d = trim(desc);
    trim_cuts_whitespace(desc);
    let stored = without_alias_prefix(alias, desc);
    if stored != d {
        let rest = d.skip(alias.len() as int);
        skip_separators_cuts_separators(rest);
    }
}

/// Skipping separators cuts off a run of them, up to the first character
/// that is none.
pub proof fn skip_separators_cuts_separators(s: Seq<char>)
    ensures
        skip_separators(s).len() <= s.len(),
        skip_separators(s) == s.skip(s.len() - skip_separators(s).len()),
        forall|i: int|
            0 <= i < s.len() - skip_separators(s).len() ==> is_separator(#[trigger] s[i]),
        skip_separators(s).len() > 0 ==> !is_separator(skip_separators(s)[0]),
    decreases s.len(),
{
    if s.len() > 0 && is_separator(s[0]) {
        let t = s.drop_first();
        skip_separators_cuts_separators(t);
        let k = s.len() - skip_separators(s).len();
        assert forall|i: int| 0 <= i < k implies is_separator(#[trigger] s[i]) by {
            if i > 0 {
                assert(s[i] == t[i - 1]);
            }
        }
    }
}

/// Index of the last `.` in `v`, or `v.len()` where it has none.
fn find_last_dot(v: &Vec<char>) -> (r: usize)
    ensures
        last_dot(v@) >= 0 ==> r == last_dot(v@),
        last_dot(v@) < 0 ==> r == v.len(),
        last_dot(v@) < v.len(),
        r < v.len() ==> v@[r as int] == '.',
{
    let mut j: usize = v.len();
    assert(v@.take(j as int) == v@);
    while j > 0
        invariant
            j <= v.len(),
            last_dot(v@.take(j as int)) == last_dot(v@),
        decreases j,
    {
        if v[j - 1] == '.' {
            return j - 1;
        }
        assert(v@.take(j as int).drop_last() == v@.take(j - 1));
        j -= 1;
    }
    v.len()
}

/// Length of the stem of the file name `v`.
fn stem_len(v: &Vec<char>) -> (r: usize)
    ensures
        r <= v.len(),
        v@.take(r as int) == file_stem(v@),
        has_extension(v@) <==> r < v.len(),
        has_extension(v@) ==> r == last_dot(v@),
{
    let dot = find_last_dot(v);
    if dot == 0 || dot >= v.len() {
        return v.len();
    }
    if v.len() == 2 && v[0] == '.' {
        assert(v@ =~= seq!['.', '.']);
        return v.len();
    }
    dot
}

/// The stem of a file name: the name without its extension.
pub fn stem_of(file_name: &str) -> (r: String)
    ensures
        r@ == file_stem(file_name@),
{
    let v = to_chars(file_name);
    let n = stem_len(&v);
    slice_to_string(file_name, 0, n)
}

/// Whether the extension of a file name is `conf`.
pub fn has_conf_extension(file_name: &str) -> (r: bool)
    ensures
        r == (extension(file_name@) == Some("conf"@)),
{
    let v = to_chars(file_name);
    let n = stem_len(&v);
    proof {
        reveal_strlit("conf");
    }
    if n >= v.len() {
        return false;
    }
    let ghost ext = v@.skip(n + 1);
    if v.len() - n != 5 {
        assert(ext.len() != 4);
        return false;
    }
    let r = v[n + 1] == 'c' && v[n + 2] == 'o' && v[n + 3] == 'n' && v[n + 4] == 'f';
    proof {
        if r {
            assert(ext =~= "conf"@);
        } else {
            assert(ext[0] == v@[n + 1] && ext[1] == v@[n + 2] && ext[2] == v@[n + 3] && ext[3]
                == v@[n + 4]);
        }
    }
    r
}

/// Number of decimal digits at the head of `v`.
fn count_digits(v: &Vec<char>) -> (r: usize)
    ensures
        r == digit_run(v@),
        r <= v.len(),
{
    let mut i: usize = 0;
    assert(v@.skip(0) == v@);
    while i < v.len() && '0' <= v[i] && v[i] <= '9'
        invariant
            i <= v.len(),
            digit_run(v@) == i + digit_run(v@.skip(i as int)),
        decreases v.len() - i,
    {
        assert(v@.skip(i as int).drop_first() == v@.skip(i + 1));
        i += 1;
    }
    i
}

/// The alias of a drop-in fragment with the given stem: `70-binds` gives
/// `binds`, `standalone` stays as it is.
pub fn alias_from_conf_d(file_stem: &str) -> (r: String)
    ensures
        r@ == conf_d_alias(file_stem@),
{
    let v = to_chars(file_stem);
    let n = count_digits(&v);
    if 0 < n && n < v.len() && v[n] == '-' {
        slice_to_string(file_stem, n + 1, v.len())
    } else {
        file_stem.to_owned()
    }
}

/// The alias of the file `file_name` of the given category.
pub fn derive_alias(category: Category, file_name: &str) -> (r: String)
    ensures
        r@ == alias_of(category, file_name@),
{
    match category {
        Category::Hyprland => "hyprland".to_owned(),
        Category::Utility => stem_of(file_name),
        Category::Themes => stem_of(file_name),
        Category::Plugins => stem_of(file_name),
        Category::ConfD => {
            let stem = stem_of(file_name);
            alias_from_conf_d(stem.as_str())
        },
        Category::Scripts => stem_of(file_name),
    }
}

pub fn char_is_separator(c: char) -> (r: bool)
    ensures
        r == is_separator(c),
{
    char_is_whitespace(c) || c == '-' || c == '\u{2014}' || c == '\u{2013}' || c == ':' || c == '|'
}

/// First index at or after `lo` that holds no separator, or `hi`.
fn skip_separators_at(v: &Vec<char>, lo: usize, hi: usize) -> (r: usize)
    requires
        lo <= hi <= v.len(),
    ensures
        lo <= r <= hi,
        v@.subrange(r as int, hi as int) == skip_separators(v@.subrange(lo as int, hi as int)),
{
    let mut i: usize = lo;
    while i < hi && char_is_separator(v[i])
        invariant
            lo <= i <= hi <= v.len(),
            skip_separators(v@.subrange(i as int, hi as int)) == skip_separators(
                v@.subrange(lo as int, hi as int),
            ),
        decreases hi - i,
    {
        assert(v@.subrange(i as int, hi as int).drop_first() == v@.subrange(i + 1, hi as int));
        i += 1;
    }
    i
}

/// The description to store for the trimmed comment `d` under an alias of
/// `alias_len` characters, where the first `alias_len` characters of `d`
/// have the lowercase form `head` and the alias has the lowercase form
/// `wanted`.
pub fn strip_folded_prefix(d: &str, alias_len: usize, head: &str, wanted: &str) -> (r: String)
    ensures
        r@ == cut_alias(d@, alias_len as int, head@ == wanted@),
{
    let v = to_chars(d);
    if alias_len <= v.len() && same_text(head, wanted) {
        if alias_len == v.len() || char_is_separator(v[alias_len]) {
            let s = skip_separators_at(&v, alias_len, v.len());
            return slice_to_string(d, s, v.len());
        }
    }
    d.to_owned()
}

/// The description to store under `alias` for the raw comment `desc`: the
/// comment, trimmed, and without a leading repetition of the alias.
pub fn strip_alias_prefix(alias: &str, desc: &str) -> (r: String)
    ensures
        r@ == without_alias_prefix(alias@, desc@),
{
    let d = trimmed(desc);
    let n = alias.unicode_len();
    if d.as_str().unicode_len() < n {
        return d;
    }
    let head = slice_to_string(d.as_str(), 0, n).as_str().to_lowercase();
    let wanted = trimmed(alias).as_str().to_lowercase();
    strip_folded_prefix(d.as_str(), n, head.as_str(), wanted.as_str())
}

} // verus!
