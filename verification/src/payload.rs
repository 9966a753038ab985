//! Keeping payloads small: long strings are clipped and long arrays are capped.

use vstd::prelude::*;
use vstd::string::StringExecFns;
use crate::json::{Json, JsonObject, JsonView};
use crate::{codec, json, text};

verus! {

/// The longest prefix of `s` with at most `max` UTF-16 code units.
pub open spec fn fitting(s: Seq<char>, max: nat) -> Seq<char>
    decreases s.len(),
{
    if s.len() == 0 || text::units(s) <= max {
        s
    } else {
        fitting(s.drop_last(), max)
    }
}

/// What follows a clipped string that had `total` UTF-16 code units.
pub open spec fn clip_marker(total: nat) -> Seq<char> {
    "…[truncated, "@ + text::decimal(total) + " chars total]"@
}

/// `s` where it has at most `max` UTF-16 code units, else its longest prefix that has, and the
/// marker.
pub open spec fn clipped(s: Seq<char>, max: nat) -> Seq<char> {
    if text::units(s) <= max {
        s
    } else {
        fitting(s, max) + clip_marker(text::units(s))
    }
}

/// A prefix that fits, while the next longer one does not, is the longest that fits.
proof fn lemma_fitting(s: Seq<char>, max: nat, i: int)
    requires
        0 <= i < s.len(),
        text::units(s.take(i)) <= max,
        text::units(s.take(i + 1)) > max,
    ensures
        fitting(s, max) == s.take(i),
    decreases s.len(),
{
    text::lemma_units_prefix(s, i + 1, s.len() as int);
    assert(s.take(s.len() as int) =~= s);
    let rest = s.drop_last();
    if i == s.len() - 1 {
        assert(s.take(i) =~= rest);
        assert(fitting(rest, max) == rest);
    } else {
        assert(rest.take(i) =~= s.take(i));
        assert(rest.take(i + 1) =~= s.take(i + 1));
        lemma_fitting(rest, max, i);
    }
}

/// What is kept of a string is a prefix of it that fits, and no longer prefix does.
pub proof fn fitting_is_the_longest_prefix(s: Seq<char>, max: nat)
    ensures
        fitting(s, max).is_prefix_of(s),
        text::units(fitting(s, max)) <= max,
        forall|j: int|
            fitting(s, max).len() < j <= s.len() ==> text::units(#[trigger] s.take(j)) > max,
    decreases s.len(),
{
    let n = fitting(s, max).len() as int;
    if s.len() > 0 && text::units(s) > max {
        let rest = s.drop_last();
        fitting_is_the_longest_prefix(rest, max);
        assert(fitting(s, max) =~= s.take(n));
        assert forall|j: int| n < j <= s.len() implies text::units(#[trigger] s.take(j)) > max by {
            if j < s.len() {
                assert(rest.take(j) =~= s.take(j));
            } else {
                assert(s.take(j) =~= s);
            }
        }
    } else {
        assert(s =~= s.take(s.len() as int));
    }
}

/// Clips `s` to `max` UTF-16 code units, on a character boundary, and says in a marker how
/// long it was.
pub fn clip(s: &str, max: usize) -> (r: String)
    ensures
        r@ == clipped(s@, max as nat),
        text::bytes(r@) <= 3 * max + 200,
{
    let total = text::len16(s);
    proof {
        text::units_within_bytes(s@);
    }
    if total <= max {
        return s.to_owned();
    }
    let chars = text::chars_of(s);
    let mut out = String::new();
    let mut used: usize = 0;
    let mut i: usize = 0;
    assert(s@.take(0) =~= Seq::<char>::empty());
    loop
        invariant_except_break
            i <= chars.len(),
            chars@ == s@,
            total == text::units(s@),
            total > max,
            used == text::units(s@.take(i as int)),
            used <= max,
            out@ == s@.take(i as int),
        ensures
            out@ == fitting(s@, max as nat),
        decreases s@.len() - i,
    {
        proof {
            if i == s@.len() {
                assert(s@.take(i as int) =~= s@);
            }
        }
        let w = text::char_width(chars[i]);
        proof {
            let next = s@.take(i + 1);
            assert(next.drop_last() =~= s@.take(i as int));
            assert(next.last() == s@[i as int]);
            text::lemma_units_prefix(s@, i + 1, s@.len() as int);
            assert(s@.take(s@.len() as int) =~= s@);
        }
        if used + w > max {
            proof {
                lemma_fitting(s@, max as nat, i as int);
            }
            break ;
        }
        out.push(chars[i]);
        used = used + w;
        assert(out@ =~= s@.take(i + 1));
        i += 1;
    }
    let ghost kept = out@;
    out.append("…[truncated, ");
    out.append(text::render(total as u64).as_str());
    out.append(" chars total]");
    proof {
        assert(out@ =~= kept + clip_marker(total as nat));
        fitting_is_the_longest_prefix(s@, max as nat);
        text::units_within_bytes(kept);
        lemma_marker_len(total as u64);
        text::lemma_bytes_by_chars(clip_marker(total as nat));
        text::lemma_bytes_concat(kept, clip_marker(total as nat));
    }
    out
}

proof fn lemma_marker_len(total: u64)
    ensures
        clip_marker(total as nat).len() <= 50,
{
    reveal_strlit("…[truncated, ");
    reveal_strlit(" chars total]");
    text::lemma_decimal_u64(total);
}

// ---- shrinking ----

/// What stands for the items that a long array lost.
pub open spec fn items_marker(dropped: nat) -> Seq<char> {
    "…["@ + text::decimal(dropped) + " more items truncated]"@
}

/// How many of `len` items are left under a limit; without one, all are.
pub open spec fn left(len: nat, max_items: Option<nat>) -> nat {
    match max_items {
        Some(max) => if len > max {
            max
        } else {
            len
        },
        None => len,
    }
}

/// A limit on the items of arrays, where there is one.
pub open spec fn limit_view(max_items: Option<usize>) -> Option<nat> {
    match max_items {
        Some(max) => Some(max as nat),
        None => None,
    }
}

/// `v` with every string clipped to `max_str` UTF-16 code units and, where there is a limit on
/// items, every array cut after that many, with a marker for the items that it lost. Keys stay
/// as they are.
pub open spec fn shrunk(v: JsonView, max_str: nat, max_items: Option<nat>) -> JsonView
    decreases v,
{
    match v {
        JsonView::Str(s) => JsonView::Str(clipped(s, max_str)),
        JsonView::Array(items) => {
            let all = Seq::new(
                items.len(),
                |i: int|
                    if 0 <= i < items.len() {
                        shrunk(items[i], max_str, max_items)
                    } else {
                        JsonView::Null
                    },
            );
            let n = left(items.len(), max_items);
            if items.len() > n {
                let marker = items_marker((items.len() - n) as nat);
                JsonView::Array(all.take(n as int).push(JsonView::Str(clipped(marker, max_str))))
            } else {
                JsonView::Array(all)
            }
        },
        JsonView::Object(entries) => JsonView::Object(
            Seq::new(
                entries.len(),
                |i: int|
                    if 0 <= i < entries.len() {
                        (entries[i].0, shrunk(entries[i].1, max_str, max_items))
                    } else {
                        (Seq::empty(), JsonView::Null)
                    },
            ),
        ),
        _ => v,
    }
}

/// A copy of `v` with long strings clipped and, where there is a limit on items, long arrays
/// capped.
pub fn shrink(v: &Json, max_str: usize, max_items: Option<usize>) -> (r: Json)
    ensures
        r@ == shrunk(v@, max_str as nat, limit_view(max_items)),
    decreases v@,
{
    match v {
        Json::Str(s) => Json::Str(clip(s.as_str(), max_str)),
        Json::Array(items) => {
            let n: usize = match max_items {
                Some(max) => if items.len() > max {
                    max
                } else {
                    items.len()
                },
                None => items.len(),
            };
            let mut out: Vec<Json> = Vec::new();
            let mut i: usize = 0;
            proof {
                json::lemma_array_view(*items);
            }
            while i < n
                invariant
                    i <= n <= items@.len(),
                    n == left(items@.len(), limit_view(max_items)),
                    v@ == JsonView::Array(json::items_view(items@)),
                    out@.len() == i,
                    forall|k: int|
                        0 <= k < i ==> (#[trigger] out@[k])@ == shrunk(
                            items@[k]@,
                            max_str as nat,
                            limit_view(max_items),
                        ),
                decreases n - i,
            {
                proof {
                    json::lemma_item_smaller(json::items_view(items@), i as int);
                }
                out.push(shrink(&items[i], max_str, max_items));
                i += 1;
            }
            if items.len() > n {
                let mut marker = String::new();
                marker.append("…[");
                marker.append(text::render((items.len() - n) as u64).as_str());
                marker.append(" more items truncated]");
                assert(marker@ =~= items_marker((items@.len() - n) as nat));
                out.push(Json::Str(clip(marker.as_str(), max_str)));
            }
            proof {
                json::lemma_array_view(out);
                assert(json::items_view(out@) =~= shrunk(v@, max_str as nat, limit_view(max_items))->Array_0);
            }
            Json::Array(out)
        },
        Json::Object(object) => {
            let n = object.len();
            let mut out: Vec<(String, Json)> = Vec::new();
            let mut i: usize = 0;
            while i < n
                invariant
                    i <= n == object@.len(),
                    v@ == JsonView::Object(object@),
                    out@.len() == i,
                    forall|k: int|
                        0 <= k < i ==> ((#[trigger] out@[k]).0@, out@[k].1@) == (
                            object@[k].0,
                            shrunk(object@[k].1, max_str as nat, limit_view(max_items)),
                        ),
                decreases n - i,
            {
                proof {
                    json::lemma_entry_smaller(object@, i as int);
                }
                out.push((object.key(i).clone(), shrink(object.value(i), max_str, max_items)));
                i += 1;
            }
            proof {
                let entries = json::entries_view(out@);
                assert(entries =~= shrunk(v@, max_str as nat, limit_view(max_items))->Object_0);
                assert forall|a: int, b: int| 0 <= a < b < entries.len() implies text::precedes(
                    (#[trigger] entries[a]).0,
                    (#[trigger] entries[b]).0,
                ) by {
                    assert(entries[a].0 == object@[a].0);
                    assert(entries[b].0 == object@[b].0);
                }
            }
            Json::Object(JsonObject::from_entries(out))
        },
        _ => v.duplicate(),
    }
}

/// Whether every string of `v` has at most `max_str` UTF-16 code units and every array at most
/// `max_items` items, where there is such a limit. Keys do not count.
pub open spec fn within(v: JsonView, max_str: nat, max_items: Option<nat>) -> bool
    decreases v,
{
    match v {
        JsonView::Str(s) => text::units(s) <= max_str,
        JsonView::Array(items) => {
            &&& left(items.len(), max_items) == items.len()
            &&& forall|i: int| 0 <= i < items.len() ==> within(#[trigger] items[i], max_str, max_items)
        },
        JsonView::Object(entries) => {
            forall|i: int|
                0 <= i < entries.len() ==> within((#[trigger] entries[i]).1, max_str, max_items)
        },
        _ => true,
    }
}

/// A payload within the limits is not touched.
pub proof fn shrinking_leaves_what_is_within(v: JsonView, max_str: nat, max_items: Option<nat>)
    requires
        within(v, max_str, max_items),
    ensures
        shrunk(v, max_str, max_items) == v,
    decreases v,
{
    match v {
        JsonView::Array(items) => {
            assert forall|i: int| 0 <= i < items.len() implies shrunk(
                #[trigger] items[i],
                max_str,
                max_items,
            ) == items[i] by {
                shrinking_leaves_what_is_within(items[i], max_str, max_items);
            }
            assert(shrunk(v, max_str, max_items)->Array_0 =~= items);
        },
        JsonView::Object(entries) => {
            assert forall|i: int| 0 <= i < entries.len() implies shrunk(
                (#[trigger] entries[i]).1,
                max_str,
                max_items,
            ) == entries[i].1 by {
                shrinking_leaves_what_is_within(entries[i].1, max_str, max_items);
            }
            assert(shrunk(v, max_str, max_items)->Object_0 =~= entries);
        },
        _ => {},
    }
}

/// One more than a limit, for the marker.
pub open spec fn one_more(max_items: Option<nat>) -> Option<nat> {
    match max_items {
        Some(max) => Some(max + 1),
        None => None,
    }
}

/// A shrunk payload is bounded: no string is longer than the limit and a marker of at most 50
/// characters, and no array has more than one item over the limit, its marker.
pub proof fn shrinking_bounds(v: JsonView, max_str: nat, max_items: Option<nat>)
    requires
        sizes_fit(v),
    ensures
        within(shrunk(v, max_str, max_items), max_str + 50, one_more(max_items)),
    decreases v,
{
    match v {
        JsonView::Str(s) => {
            lemma_clipped_units(s, max_str);
        },
        JsonView::Array(items) => {
            assert forall|i: int| 0 <= i < items.len() implies within(
                shrunk(#[trigger] items[i], max_str, max_items),
                max_str + 50,
                one_more(max_items),
            ) by {
                shrinking_bounds(items[i], max_str, max_items);
            }
            let n = left(items.len(), max_items);
            if items.len() > n {
                let dropped = (items.len() - n) as nat;
                lemma_items_marker_units(dropped as u64);
                lemma_clipped_units(items_marker(dropped), max_str);
            }
            let all = shrunk(v, max_str, max_items)->Array_0;
            assert forall|i: int| 0 <= i < all.len() implies within(
                #[trigger] all[i],
                max_str + 50,
                one_more(max_items),
            ) by {
                if i < n {
                    assert(all[i] == shrunk(items[i], max_str, max_items));
                }
            }
        },
        JsonView::Object(entries) => {
            assert forall|i: int| 0 <= i < entries.len() implies within(
                shrunk((#[trigger] entries[i]).1, max_str, max_items),
                max_str + 50,
                one_more(max_items),
            ) by {
                shrinking_bounds(entries[i].1, max_str, max_items);
            }
            let all = shrunk(v, max_str, max_items)->Object_0;
            assert forall|i: int| 0 <= i < all.len() implies within(
                (#[trigger] all[i]).1,
                max_str + 50,
                one_more(max_items),
            ) by {
                assert(all[i].1 == shrunk(entries[i].1, max_str, max_items));
            }
        },
        _ => {},
    }
}

/// Whether the lengths of the strings and arrays of `v` are numbers of 64 bits.
pub open spec fn sizes_fit(v: JsonView) -> bool
    decreases v,
{
    match v {
        JsonView::Str(s) => text::units(s) <= u64::MAX,
        JsonView::Array(items) => {
            &&& items.len() <= u64::MAX
            &&& forall|i: int| 0 <= i < items.len() ==> sizes_fit(#[trigger] items[i])
        },
        JsonView::Object(entries) => {
            forall|i: int| 0 <= i < entries.len() ==> sizes_fit((#[trigger] entries[i]).1)
        },
        _ => true,
    }
}

proof fn lemma_ascii_units(s: Seq<char>)
    requires
        forall|i: int| 0 <= i < s.len() ==> (#[trigger] s[i] as u32) < 0x10000,
    ensures
        text::units(s) == s.len(),
    decreases s.len(),
{
    if s.len() > 0 {
        lemma_ascii_units(s.drop_last());
    }
}

proof fn lemma_decimal_digits(n: nat)
    ensures
        forall|i: int|
            0 <= i < text::decimal(n).len() ==> (#[trigger] text::decimal(n)[i] as u32) < 0x10000,
    decreases n,
{
    let d = text::digit((n % 10) as int);
    assert((d as u32) == 48 + n % 10);
    if n >= 10 {
        lemma_decimal_digits(n / 10);
        let head = text::decimal(n / 10);
        let all = text::decimal(n);
        assert(all == head.push(d));
        assert forall|i: int| 0 <= i < all.len() implies (#[trigger] all[i] as u32) < 0x10000 by {
            if i < head.len() {
                assert(all[i] == head[i]);
            }
        }
    }
}

proof fn lemma_clipped_units(s: Seq<char>, max: nat)
    requires
        text::units(s) <= u64::MAX,
    ensures
        text::units(clipped(s, max)) <= max + 50,
{
    if text::units(s) > max {
        let total = text::units(s);
        reveal_strlit("…[truncated, ");
        reveal_strlit(" chars total]");
        lemma_marker_len(total as u64);
        lemma_decimal_digits(total);
        lemma_ascii_units(clip_marker(total));
        fitting_is_the_longest_prefix(s, max);
        text::lemma_units_concat(fitting(s, max), clip_marker(total));
    }
}

proof fn lemma_items_marker_units(dropped: u64)
    ensures
        text::units(items_marker(dropped as nat)) <= 50,
{
    reveal_strlit("…[");
    reveal_strlit(" more items truncated]");
    text::lemma_decimal_u64(dropped);
    lemma_decimal_digits(dropped as nat);
    lemma_ascii_units(items_marker(dropped as nat));
}

/// Shrinking keeps the keys of every object: under each key stands the shrunk value that the
/// key had, and no key comes or goes.
pub proof fn shrinking_keeps_keys(v: JsonView, max_str: nat, max_items: Option<nat>, key: Seq<char>)
    ensures
        shrunk(v, max_str, max_items).get(key) == match v.get(key) {
            Some(w) => Some(shrunk(w, max_str, max_items)),
            None => None,
        },
{
    if let JsonView::Object(entries) = v {
        lemma_lookup_shrunk(entries, max_str, max_items, key);
    }
}

proof fn lemma_lookup_shrunk(
    entries: Seq<(Seq<char>, JsonView)>,
    max_str: nat,
    max_items: Option<nat>,
    key: Seq<char>,
)
    ensures
        shrunk(JsonView::Object(entries), max_str, max_items).get(key) == match json::lookup(
            entries,
            key,
        ) {
            Some(w) => Some(shrunk(w, max_str, max_items)),
            None => None,
        },
    decreases entries.len(),
{
    if entries.len() > 0 {
        let rest = entries.drop_last();
        lemma_lookup_shrunk(rest, max_str, max_items, key);
        let all = shrunk(JsonView::Object(entries), max_str, max_items)->Object_0;
        assert(all.drop_last() =~= shrunk(JsonView::Object(rest), max_str, max_items)->Object_0);
        assert(all.last() == (entries.last().0, shrunk(entries.last().1, max_str, max_items)));
    }
}

/// A shrunk payload is as plain as the payload: it is nested no deeper and has no other numbers.
pub proof fn shrinking_keeps_plain(
    v: JsonView,
    max_str: nat,
    max_items: Option<nat>,
    depth: nat,
    exact: bool,
)
    requires
        codec::plain(v, depth, exact),
    ensures
        codec::plain(shrunk(v, max_str, max_items), depth, exact),
    decreases v,
{
    match v {
        JsonView::Array(items) => {
            assert forall|i: int| 0 <= i < items.len() implies codec::plain(
                shrunk(#[trigger] items[i], max_str, max_items),
                (depth - 1) as nat,
                exact,
            ) by {
                shrinking_keeps_plain(items[i], max_str, max_items, (depth - 1) as nat, exact);
            }
            let all = shrunk(v, max_str, max_items)->Array_0;
            assert forall|i: int| 0 <= i < all.len() implies codec::plain(
                #[trigger] all[i],
                (depth - 1) as nat,
                exact,
            ) by {
                if i < left(items.len(), max_items) {
                    assert(all[i] == shrunk(items[i], max_str, max_items));
                }
            }
        },
        JsonView::Object(entries) => {
            assert forall|i: int| 0 <= i < entries.len() implies codec::plain(
                shrunk((#[trigger] entries[i]).1, max_str, max_items),
                (depth - 1) as nat,
                exact,
            ) by {
                shrinking_keeps_plain(entries[i].1, max_str, max_items, (depth - 1) as nat, exact);
            }
            let all = shrunk(v, max_str, max_items)->Object_0;
            assert forall|i: int| 0 <= i < all.len() implies codec::plain(
                (#[trigger] all[i]).1,
                (depth - 1) as nat,
                exact,
            ) by {
                assert(all[i].1 == shrunk(entries[i].1, max_str, max_items));
            }
        },
        _ => {},
    }
}

// ---- what clipping and shrinking leave ----

/// A string within the limit stays as it is; of a longer one the characters stay that fit, as
/// many as do, and behind them stands how long it was.
pub proof fn clipping_leaves_the_beginning(s: Seq<char>, max: nat)
    ensures
        text::units(s) <= max ==> clipped(s, max) == s,
        text::units(s) > max ==> exists|n: int|
            0 <= n < s.len() && text::units(#[trigger] s.take(n)) <= max && text::units(
                s.take(n + 1),
            ) > max && clipped(s, max) == s.take(n) + "…[truncated, "@ + text::decimal(
                text::units(s),
            ) + " chars total]"@,
{
    if text::units(s) > max {
        let n = fitting(s, max).len() as int;
        fitting_is_the_longest_prefix(s, max);
        assert(fitting(s, max) =~= s.take(n));
        if n == s.len() {
            assert(s.take(n) =~= s);
        }
        assert(text::units(s.take(n + 1)) > max);
        assert(clipped(s, max) =~= s.take(n) + "…[truncated, "@ + text::decimal(text::units(s))
            + " chars total]"@);
    }
}

/// Strings are clipped; of an array every item is shrunk, as many as the limit allows, and what
/// was left out is counted behind them; an object keeps its keys, in order, over its shrunk
/// values; everything else stays as it is.
pub proof fn shrinking_goes_item_by_item(v: JsonView, max_str: nat, max_items: Option<nat>)
    ensures
        match v {
            JsonView::Str(s) => shrunk(v, max_str, max_items) == JsonView::Str(clipped(s, max_str)),
            JsonView::Array(items) => match shrunk(v, max_str, max_items) {
                JsonView::Array(out) => if max_items is Some && items.len() > max_items->0 {
                    &&& out.len() == max_items->0 + 1
                    &&& forall|i: int|
                        0 <= i < max_items->0 ==> #[trigger] out[i] == shrunk(
                            items[i],
                            max_str,
                            max_items,
                        )
                    &&& out.last() == JsonView::Str(
                        clipped(
                            "…["@ + text::decimal((items.len() - max_items->0) as nat)
                                + " more items truncated]"@,
                            max_str,
                        ),
                    )
                } else {
                    &&& out.len() == items.len()
                    &&& forall|i: int|
                        0 <= i < items.len() ==> #[trigger] out[i] == shrunk(
                            items[i],
                            max_str,
                            max_items,
                        )
                },
                _ => false,
            },
            JsonView::Object(entries) => match shrunk(v, max_str, max_items) {
                JsonView::Object(out) => {
                    &&& out.len() == entries.len()
                    &&& forall|i: int|
                        0 <= i < entries.len() ==> #[trigger] out[i] == (
                            entries[i].0,
                            shrunk(entries[i].1, max_str, max_items),
                        )
                },
                _ => false,
            },
            _ => shrunk(v, max_str, max_items) == v,
        },
{
}

/// A limit is seen as it is.
pub proof fn limits_are_seen_as_they_are(max: usize)
    ensures
        limit_view(Some(max)) == Some(max as nat),
        limit_view(None) is None,
{
}

} // verus!
