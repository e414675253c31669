//! The order of entries in a listing, and the stable sort that puts a list
//! of entries into it.

use vstd::prelude::*;
use crate::model::{views, ConfigEntry, EntryView, SortKey};
use crate::text::to_chars;

verus! {

/// Whether the text `a` stands at or before `b` in dictionary order, the
/// characters compared by their code points.
pub open spec fn text_le(a: Seq<char>, b: Seq<char>) -> bool
    decreases a.len(),
{
    if a.len() == 0 {
        true
    } else if b.len() == 0 {
        false
    } else if a[0] != b[0] {
        a[0] < b[0]
    } else {
        text_le(a.drop_first(), b.drop_first())
    }
}

/// Whether the key `a` stands at or before `b`: by rank first, by text among
/// keys of one rank.
pub open spec fn key_le(a: SortKey, b: SortKey) -> bool {
    a.rank < b.rank || (a.rank == b.rank && text_le(a.text, b.text))
}

/// Whether no entry of `s` stands before one with a smaller key.
pub open spec fn sorted_by_key(s: Seq<EntryView>) -> bool {
    forall|i: int, j: int|
        0 <= i < j < s.len() ==> key_le(#[trigger] s[i].sort_key(), #[trigger] s[j].sort_key())
}

/// Whether `p` names every index below `n` exactly once.
pub open spec fn is_rearrangement(p: Seq<int>, n: nat) -> bool {
    &&& p.len() == n
    &&& forall|i: int| 0 <= i < n ==> 0 <= #[trigger] p[i] < n
    &&& forall|i: int, j: int| 0 <= i < j < n ==> #[trigger] p[i] != #[trigger] p[j]
    &&& forall|v: int| 0 <= v < n ==> #[trigger] p.contains(v)
}

/// Whether taking the items with the given keys in the order `p` sorts them
/// stably: `p` names each item once, no item comes before one with a smaller
/// key, and items of equal keys come in the order they had.
pub open spec fn sorts_stably(p: Seq<int>, keys: Seq<SortKey>) -> bool {
    &&& is_rearrangement(p, keys.len())
    &&& forall|i: int, j: int|
        0 <= i < j < p.len() ==> key_le(keys[#[trigger] p[i]], keys[#[trigger] p[j]])
    &&& forall|i: int, j: int|
        0 <= i < j < p.len() && keys[p[i]] == keys[p[j]] ==> #[trigger] p[i] < #[trigger] p[j]
}

/// The entries taken in the order `p`.
pub open spec fn rearranged(entries: Seq<EntryView>, p: Seq<int>) -> Seq<EntryView> {
    Seq::new(p.len(), |i: int| entries[p[i]])
}

/// The keys of the entries, in order.
pub open spec fn keys_of(entries: Seq<EntryView>) -> Seq<SortKey> {
    Seq::new(entries.len(), |i: int| entries[i].sort_key())
}

/// Whether `out` is `inp` sorted by key, entries of equal keys left in the
/// order they had.
pub open spec fn is_stable_sort_of(out: Seq<EntryView>, inp: Seq<EntryView>) -> bool {
    exists|p: Seq<int>| sorts_stably(p, keys_of(inp)) && out == rearranged(inp, p)
}

/// A key as it is computed for an entry, read as a key of the order.
pub open spec fn key_view(k: (u8, String)) -> SortKey {
    SortKey { rank: k.0, text: k.1@ }
}

/// The keys of a list of keyed entries, in order.
pub open spec fn keyed_keys(items: Seq<((u8, String), ConfigEntry)>) -> Seq<SortKey> {
    Seq::new(items.len(), |i: int| key_view(items[i].0))
}

/// The entries of a list of keyed entries, in order.
pub open spec fn keyed_entries(items: Seq<((u8, String), ConfigEntry)>) -> Seq<EntryView> {
    Seq::new(items.len(), |i: int| items[i].1@)
}

/// Every text stands at or before itself.
pub proof fn text_le_reflexive(a: Seq<char>)
    ensures
        text_le(a, a),
    decreases a.len(),
{
    if a.len() > 0 {
        text_le_reflexive(a.drop_first());
    }
}

/// Of two texts one stands at or before the other.
pub proof fn text_le_total(a: Seq<char>, b: Seq<char>)
    ensures
        text_le(a, b) || text_le(b, a),
    decreases a.len(),
{
    if a.len() > 0 && b.len() > 0 && a[0] == b[0] {
        text_le_total(a.drop_first(), b.drop_first());
    }
}

/// Two texts that stand at or before each other are one text.
pub proof fn text_le_antisymmetric(a: Seq<char>, b: Seq<char>)
    requires
        text_le(a, b),
        text_le(b, a),
    ensures
        a == b,
    decreases a.len(),
{
    if a.len() > 0 && b.len() > 0 {
        text_le_antisymmetric(a.drop_first(), b.drop_first());
        assert(b =~= seq![b[0]] + b.drop_first());
    }
}

/// A text that stands at or before a second, which stands at or before a
/// third, stands at or before the third.
pub proof fn text_le_transitive(a: Seq<char>, b: Seq<char>, c: Seq<char>)
    requires
        text_le(a, b),
        text_le(b, c),
    ensures
        text_le(a, c),
    decreases a.len(),
{
    if a.len() > 0 && b.len() > 0 && c.len() > 0 && a[0] == b[0] && b[0] == c[0] {
        text_le_transitive(a.drop_first(), b.drop_first(), c.drop_first());
    }
}

/// The order of keys is total: any two keys compare, a key compares with
/// itself, the order passes along a chain, and only equal keys stand at or
/// before each other.
pub proof fn key_order_is_total(a: SortKey, b: SortKey, c: SortKey)
    ensures
        key_le(a, a),
        key_le(a, b) || key_le(b, a),
        key_le(a, b) && key_le(b, c) ==> key_le(a, c),
        key_le(a, b) && key_le(b, a) ==> a == b,
{
    text_le_reflexive(a.text);
    text_le_total(a.text, b.text);
    if key_le(a, b) && key_le(b, c) && a.rank == b.rank && b.rank == c.rank {
        text_le_transitive(a.text, b.text, c.text);
    }
    if key_le(a, b) && key_le(b, a) {
        text_le_antisymmetric(a.text, b.text);
    }
}

/// Two orders that sort the same keys stably agree on their first `n`
/// places.
proof fn stable_orders_agree(keys: Seq<SortKey>, p: Seq<int>, q: Seq<int>, n: int)
    requires
        sorts_stably(p, keys),
        sorts_stably(q, keys),
        0 <= n <= keys.len(),
    ensures
        forall|k: int| 0 <= k < n ==> p[k] == q[k],
    decreases n,
{
    if n > 0 {
        stable_orders_agree(keys, p, q, n - 1);
        let i = n - 1;
        let x = p[i];
        let y = q[i];
        if x != y {
            assert(q.contains(x));
            let j = choose|j: int| 0 <= j < q.len() && q[j] == x;
            assert(p.contains(y));
            let k = choose|k: int| 0 <= k < p.len() && p[k] == y;
            if j < i {
                assert(p[j] == q[j]);
                assert(p[j] != p[i]);
            }
            if k < i {
                assert(q[k] == p[k]);
                assert(q[k] != q[i]);
            }
            // Behind place `i`, `x` comes after `y` in `q`, and `y` after `x` in `p`.
            assert(key_le(keys[p[i]], keys[p[k]]));
            assert(key_le(keys[q[i]], keys[q[j]]));
            key_order_is_total(keys[x], keys[y], keys[x]);
            assert(p[i] < p[k]);
            assert(q[i] < q[j]);
        }
    }
}

/// Keys have one stable order only.
pub proof fn stable_order_is_unique(keys: Seq<SortKey>, p: Seq<int>, q: Seq<int>)
    requires
        sorts_stably(p, keys),
        sorts_stably(q, keys),
    ensures
        p == q,
{
    stable_orders_agree(keys, p, q, keys.len() as int);
}

/// A list has one stable sorting only: sorting the same entries again gives
/// the same listing.
pub proof fn stable_sort_is_unique(inp: Seq<EntryView>, a: Seq<EntryView>, b: Seq<EntryView>)
    requires
        is_stable_sort_of(a, inp),
        is_stable_sort_of(b, inp),
    ensures
        a == b,
{
    let p = choose|p: Seq<int>| sorts_stably(p, keys_of(inp)) && a == rearranged(inp, p);
    let q = choose|q: Seq<int>| sorts_stably(q, keys_of(inp)) && b == rearranged(inp, q);
    stable_order_is_unique(keys_of(inp), p, q);
}

/// A stable sorting is sorted, as long as the list, and holds the entries of
/// the list and no others.
pub proof fn stable_sort_keeps_the_entries(out: Seq<EntryView>, inp: Seq<EntryView>)
    requires
        is_stable_sort_of(out, inp),
    ensures
        sorted_by_key(out),
        out.len() == inp.len(),
        forall|i: int| 0 <= i < out.len() ==> inp.contains(#[trigger] out[i]),
        forall|j: int| 0 <= j < inp.len() ==> out.contains(#[trigger] inp[j]),
{
    let p = choose|p: Seq<int>| sorts_stably(p, keys_of(inp)) && out == rearranged(inp, p);
    assert forall|j: int| 0 <= j < inp.len() implies out.contains(#[trigger] inp[j]) by {
        assert(p.contains(j));
        let i = choose|i: int| 0 <= i < p.len() && p[i] == j;
        assert(out[i] == inp[j]);
    }
}

/// A key held in a form that compares quickly.
struct KeyChars {
    rank: u8,
    text: Vec<char>,
}

impl View for KeyChars {
    type V = SortKey;

    closed spec fn view(&self) -> SortKey {
        SortKey { rank: self.rank, text: self.text@ }
    }
}

/// Whether the text `a` stands strictly before `b`.
fn text_before(a: &Vec<char>, b: &Vec<char>) -> (r: bool)
    ensures
        r == !text_le(b@, a@),
{
    let mut i: usize = 0;
    assert(a@.skip(0) == a@ && b@.skip(0) == b@);
    while i < a.len() && i < b.len() && a[i] == b[i]
        invariant
            i <= a.len(),
            i <= b.len(),
            text_le(b@, a@) == text_le(b@.skip(i as int), a@.skip(i as int)),
        decreases a.len() - i,
    {
        assert(a@.skip(i as int).drop_first() == a@.skip(i + 1));
        assert(b@.skip(i as int).drop_first() == b@.skip(i + 1));
        i += 1;
    }
    if i >= b.len() {
        false
    } else if i >= a.len() {
        true
    } else {
        a[i] < b[i]
    }
}

/// Whether the key `a` stands strictly before `b`.
fn key_chars_before(a: &KeyChars, b: &KeyChars) -> (r: bool)
    ensures
        r == !key_le(b@, a@),
{
    a.rank < b.rank || (a.rank == b.rank && text_before(&a.text, &b.text))
}

/// Whether the key `a` stands strictly before the key `b` in the order of
/// the listing.
pub fn key_before(a: &(u8, String), b: &(u8, String)) -> (r: bool)
    ensures
        r == !key_le(key_view(*b), key_view(*a)),
{
    let x = KeyChars { rank: a.0, text: to_chars(a.1.as_str()) };
    let y = KeyChars { rank: b.0, text: to_chars(b.1.as_str()) };
    key_chars_before(&x, &y)
}

/// The entries of `items`, sorted stably by the keys that they come with.
pub fn sort_keyed(items: Vec<((u8, String), ConfigEntry)>) -> (out: Vec<ConfigEntry>)
    ensures
        exists|p: Seq<int>|
            sorts_stably(p, keyed_keys(items@)) && views(out@) == rearranged(
                keyed_entries(items@),
                p,
            ),
{
    let ghost keys_in = keyed_keys(items@);
    let ghost inp = keyed_entries(items@);
    let ghost n = items.len() as int;
    let mut pending = items;
    let mut out: Vec<ConfigEntry> = Vec::new();
    let mut keys: Vec<KeyChars> = Vec::new();
    let ghost mut p: Seq<int> = Seq::empty();
    while pending.len() > 0
        invariant
            n == inp.len(),
            n == keys_in.len(),
            pending.len() <= n,
            out.len() == n - pending.len(),
            keys.len() == out.len(),
            p.len() == out.len(),
            forall|i: int|
                0 <= i < pending.len() ==> (#[trigger] pending@[i]).1@ == inp[i] && key_view(
                    pending@[i].0,
                ) == keys_in[i],
            forall|i: int| 0 <= i < out.len() ==> pending.len() <= #[trigger] p[i] < n,
            forall|i: int| 0 <= i < out.len() ==> (#[trigger] keys@[i])@ == keys_in[p[i]],
            forall|i: int| 0 <= i < out.len() ==> (#[trigger] out@[i])@ == inp[p[i]],
            forall|i: int, j: int| 0 <= i < j < out.len() ==> #[trigger] p[i] != #[trigger] p[j],
            forall|v: int| pending.len() <= v < n ==> #[trigger] p.contains(v),
            forall|i: int, j: int|
                0 <= i < j < out.len() ==> key_le(keys_in[#[trigger] p[i]], keys_in[#[trigger] p[j]]),
            forall|i: int, j: int|
                0 <= i < j < out.len() && keys_in[p[i]] == keys_in[p[j]] ==> #[trigger] p[i]
                    < #[trigger] p[j],
        decreases pending.len(),
    {
        let (key, e) = pending.pop().unwrap();
        let ghost idx = pending.len() as int;
        let k = KeyChars { rank: key.0, text: to_chars(key.1.as_str()) };
        let mut pos: usize = 0;
        while pos < keys.len() && key_chars_before(&keys[pos], &k)
            invariant
                pos <= keys.len(),
                keys.len() == p.len(),
                forall|i: int| 0 <= i < p.len() ==> (#[trigger] keys@[i])@ == keys_in[p[i]],
                forall|i: int| 0 <= i < pos ==> !key_le(k@, keys_in[#[trigger] p[i]]),
            decreases keys.len() - pos,
        {
            pos += 1;
        }
        let ghost old_p = p;
        proof {
            assert forall|j: int| pos <= j < old_p.len() implies key_le(
                k@,
                keys_in[#[trigger] old_p[j]],
            ) by {
                key_order_is_total(k@, keys_in[old_p[pos as int]], keys_in[old_p[j]]);
            }
            assert forall|i: int| 0 <= i < pos implies key_le(keys_in[#[trigger] old_p[i]], k@) by {
                key_order_is_total(k@, keys_in[old_p[i]], k@);
            }
        }
        out.insert(pos, e);
        keys.insert(pos, k);
        proof {
            p = old_p.insert(pos as int, idx);
            assert forall|v: int| idx <= v < n implies #[trigger] p.contains(v) by {
                if v == idx {
                    assert(p[pos as int] == v);
                } else {
                    assert(old_p.contains(v));
                    let i = choose|i: int| 0 <= i < old_p.len() && old_p[i] == v;
                    if i < pos {
                        assert(p[i] == v);
                    } else {
                        assert(p[i + 1] == v);
                    }
                }
            }
        }
    }
    proof {
        assert(views(out@) =~= rearranged(inp, p));
    }
    out
}

/// The entries in listing order: sorted by key, entries of equal keys in the
/// order in which they came.
pub fn sort_entries(entries: Vec<ConfigEntry>) -> (out: Vec<ConfigEntry>)
    ensures
        is_stable_sort_of(views(out@), views(entries@)),
{
    let ghost inp = views(entries@);
    let mut items: Vec<((u8, String), ConfigEntry)> = Vec::new();
    for e in it: entries
        invariant
            it.seq() == entries@,
            inp == views(entries@),
            items.len() == it.index(),
            forall|i: int|
                0 <= i < items.len() ==> (#[trigger] items@[i]).1@ == inp[i] && key_view(
                    items@[i].0,
                ) == inp[i].sort_key(),
    {
        let key = e.sort_key();
        items.push((key, e));
    }
    assert(keyed_entries(items@) =~= inp);
    sort_keyed(items)
}

} // verus!
