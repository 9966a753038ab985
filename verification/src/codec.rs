//! JSON text: reading and writing it with serde_json.

use vstd::prelude::*;
use crate::json::{Json, JsonObject, JsonView};
use crate::{json, number, text};

verus! {

/// `serde_json::Value`, a JSON value as serde_json holds it.
#[verifier::external_type_specification]
#[verifier::external_body]
pub struct ExValue(serde_json::Value);

/// What a `serde_json::Value` holds: the tree of its items and entries. Its map keeps the
/// entries in the order of their keys.
pub uninterp spec fn value_tree(v: serde_json::Value) -> JsonView;

/// The text that `serde_json::to_string` writes of a value.
pub uninterp spec fn json_text(v: JsonView) -> Seq<char>;

/// What `serde_json::from_str` reads in a text: the value, or the message of its error.
pub uninterp spec fn json_parsed(text: Seq<char>) -> Result<JsonView, Seq<char>>;

/// One level of a `serde_json::Value`.
enum Shape {
    Null,
    Bool(bool),
    Number(serde_json::Number),
    Str(String),
    Array(Vec<serde_json::Value>),
    Object(Vec<(String, serde_json::Value)>),
}

/// The entries of one level, each value by its tree.
spec fn shape_entries(entries: Seq<(String, serde_json::Value)>) -> Seq<
    (Seq<char>, JsonView),
> {
    Seq::new(entries.len(), |i: int| (entries[i].0@, value_tree(entries[i].1)))
}

/// The tree that one level stands for.
spec fn shape_tree(shape: Shape) -> JsonView {
    match shape {
        Shape::Null => JsonView::Null,
        Shape::Bool(b) => JsonView::Bool(b),
        Shape::Number(n) => JsonView::Number(n),
        Shape::Str(s) => JsonView::Str(s@),
        Shape::Array(items) => JsonView::Array(
            Seq::new(items@.len(), |i: int| value_tree(items@[i])),
        ),
        Shape::Object(entries) => JsonView::Object(shape_entries(entries@)),
    }
}

/// The variants of `serde_json::Value`, each with its own field; the entries of a
/// `serde_json::Map` come out of its iterator in the order of their keys.
#[verifier::external_body]
fn open_value(v: serde_json::Value) -> (shape: Shape)
    ensures
        shape_tree(shape) == value_tree(v),
        shape matches Shape::Object(entries) ==> json::in_order(shape_entries(entries@)),
{
    match v {
        serde_json::Value::Null => Shape::Null,
        serde_json::Value::Bool(b) => Shape::Bool(b),
        serde_json::Value::Number(n) => Shape::Number(n),
        serde_json::Value::String(s) => Shape::Str(s),
        serde_json::Value::Array(items) => Shape::Array(items),
        serde_json::Value::Object(map) => Shape::Object(map.into_iter().collect()),
    }
}

/// The variants of `serde_json::Value`, each made of its own field; a `serde_json::Map`
/// collected from entries with distinct keys holds those entries, in the order of the keys.
#[verifier::external_body]
fn make_value(shape: Shape) -> (v: serde_json::Value)
    requires
        shape matches Shape::Object(entries) ==> json::in_order(shape_entries(entries@)),
    ensures
        value_tree(v) == shape_tree(shape),
{
    match shape {
        Shape::Null => serde_json::Value::Null,
        Shape::Bool(b) => serde_json::Value::Bool(b),
        Shape::Number(n) => serde_json::Value::Number(n),
        Shape::Str(s) => serde_json::Value::String(s),
        Shape::Array(items) => serde_json::Value::Array(items),
        Shape::Object(entries) => serde_json::Value::Object(entries.into_iter().collect()),
    }
}

/// A bound on the bytes of a text: a byte of a string takes at most six in the text, a number
/// at most 24, and each item one comma.
pub open spec fn text_bound(v: JsonView) -> nat
    decreases v,
{
    match v {
        JsonView::Null => 4,
        JsonView::Bool(_) => 5,
        JsonView::Number(_) => 24,
        JsonView::Str(s) => 6 * text::bytes(s) + 2,
        JsonView::Array(items) => 2 + items_bound(items),
        JsonView::Object(entries) => 2 + entries_bound(entries),
    }
}

pub open spec fn items_bound(items: Seq<JsonView>) -> nat
    decreases items,
{
    if items.len() == 0 {
        0
    } else {
        items_bound(items.drop_last()) + text_bound(items.last()) + 1
    }
}

pub open spec fn entries_bound(entries: Seq<(Seq<char>, JsonView)>) -> nat
    decreases entries,
{
    if entries.len() == 0 {
        0
    } else {
        entries_bound(entries.drop_last()) + 6 * text::bytes(entries.last().0) + text_bound(
            entries.last().1,
        ) + 4
    }
}

/// Putting an entry adds to the bound no more than the entry.
pub proof fn lemma_bound_with_entry(
    entries: Seq<(Seq<char>, JsonView)>,
    key: Seq<char>,
    value: JsonView,
)
    ensures
        entries_bound(json::with_entry(entries, key, value)) <= entries_bound(entries) + 6
            * text::bytes(key) + text_bound(value) + 4,
    decreases entries.len(),
{
    let all = json::with_entry(entries, key, value);
    if entries.len() == 0 {
        assert(all.drop_last() =~= entries);
    } else {
        let rest = entries.drop_last();
        if entries.last().0 == key {
            assert(all.drop_last() =~= rest);
        } else if text::precedes(entries.last().0, key) {
            assert(all.drop_last() =~= entries);
        } else {
            lemma_bound_with_entry(rest, key, value);
            assert(all.drop_last() =~= json::with_entry(rest, key, value));
        }
    }
}

/// Whether a text reads as a value.
pub open spec fn reads_as(text: Seq<char>, v: JsonView) -> bool {
    json_parsed(text) == Ok::<JsonView, Seq<char>>(v)
}

/// Whether the arrays and objects of a value are nested at most `depth` deep and, where `exact`
/// is asked for, none of its numbers is a floating point number.
pub open spec fn plain(v: JsonView, depth: nat, exact: bool) -> bool
    decreases v,
{
    match v {
        JsonView::Number(n) => exact ==> !number::number_is_float(n),
        JsonView::Array(items) => depth > 0 && forall|i: int|
            0 <= i < items.len() ==> plain(#[trigger] items[i], (depth - 1) as nat, exact),
        JsonView::Object(entries) => depth > 0 && forall|i: int|
            0 <= i < entries.len() ==> plain((#[trigger] entries[i]).1, (depth - 1) as nat, exact),
        _ => true,
    }
}

/// Whether the values of the entries are plain.
pub open spec fn plain_entries(entries: Seq<(Seq<char>, JsonView)>, depth: nat, exact: bool) -> bool {
    forall|i: int| 0 <= i < entries.len() ==> plain((#[trigger] entries[i]).1, depth, exact)
}

/// Putting a plain value among plain ones leaves them plain.
pub proof fn lemma_plain_with_entry(
    entries: Seq<(Seq<char>, JsonView)>,
    key: Seq<char>,
    value: JsonView,
    depth: nat,
    exact: bool,
)
    requires
        plain_entries(entries, depth, exact),
        plain(value, depth, exact),
    ensures
        plain_entries(json::with_entry(entries, key, value), depth, exact),
    decreases entries.len(),
{
    let all = json::with_entry(entries, key, value);
    if entries.len() > 0 {
        let rest = entries.drop_last();
        assert forall|i: int| 0 <= i < rest.len() implies plain(
            (#[trigger] rest[i]).1,
            depth,
            exact,
        ) by {
            assert(rest[i] == entries[i]);
        }
        lemma_plain_with_entry(rest, key, value, depth, exact);
        assert forall|i: int| 0 <= i < all.len() implies plain((#[trigger] all[i]).1, depth, exact) by {
            if entries.last().0 == key || text::precedes(entries.last().0, key) {
                if i < all.len() - 1 {
                    assert(all[i] == entries[i]);
                }
            } else if i < all.len() - 1 {
                assert(all[i] == json::with_entry(rest, key, value)[i]);
            } else {
                assert(all[i] == entries[entries.len() - 1]);
            }
        }
    }
}

/// What is found among plain values is plain.
pub proof fn lemma_plain_lookup(
    entries: Seq<(Seq<char>, JsonView)>,
    key: Seq<char>,
    depth: nat,
    exact: bool,
)
    requires
        plain_entries(entries, depth, exact),
    ensures
        match json::lookup(entries, key) {
            Some(v) => plain(v, depth, exact),
            None => true,
        },
    decreases entries.len(),
{
    if entries.len() > 0 {
        let rest = entries.drop_last();
        assert(entries[entries.len() - 1] == entries.last());
        assert forall|i: int| 0 <= i < rest.len() implies plain(
            (#[trigger] rest[i]).1,
            depth,
            exact,
        ) by {
            assert(rest[i] == entries[i]);
        }
        lemma_plain_lookup(rest, key, depth, exact);
    }
}

/// Whether a text is JSON.
pub open spec fn is_json(text: Seq<char>) -> bool {
    json_parsed(text) is Ok
}

/// `serde_json::to_string` writes the same text for the same value, compact, and never fails
/// on a `serde_json::Value`. Of the text the contract says that it is not empty, that it is one
/// line, since line breaks in strings are escaped, and how long it can be: a string stands
/// between quotes with each control character in at most six bytes, and between the items stand
/// only commas and colons. It also says what `serde_json::from_str` makes of the text of a value
/// that is nested no deeper than the reader goes: it reads a value, and this value where no
/// number is a floating point number, which the reader may round.
#[verifier::external_body]
fn value_text(v: &serde_json::Value) -> (r: String)
    ensures
        r@ == json_text(value_tree(*v)),
        text::bytes(r@) <= text_bound(value_tree(*v)),
        r@.len() > 0,
        !r@.contains('\n'),
        plain(value_tree(*v), 127, false) ==> is_json(r@),
        plain(value_tree(*v), 127, true) ==> reads_as(r@, value_tree(*v)),
{
    serde_json::to_string(v).unwrap_or_default()
}

/// `serde_json::from_str` reads the same value, or fails with the same message, for the same
/// text. What it reads is nested at most 127 deep.
#[verifier::external_body]
fn parse_value(text: &str) -> (r: Result<serde_json::Value, String>)
    ensures
        match r {
            Ok(v) => json_parsed(text@) == Ok::<JsonView, Seq<char>>(value_tree(v)),
            Err(e) => json_parsed(text@) == Err::<JsonView, Seq<char>>(e@),
        },
        match r {
            Ok(v) => plain(value_tree(v), 127, false),
            Err(_) => true,
        },
{
    serde_json::from_str::<serde_json::Value>(text).map_err(|e| e.to_string())
}

/// The value that serde_json holds, as a value of this library.
pub fn from_value(v: serde_json::Value) -> (r: Json)
    ensures
        r@ == value_tree(v),
    decreases value_tree(v),
{
    let ghost tree = value_tree(v);
    match open_value(v) {
        Shape::Null => Json::Null,
        Shape::Bool(b) => Json::Bool(b),
        Shape::Number(n) => Json::Number(n),
        Shape::Str(s) => Json::Str(s),
        Shape::Array(items) => {
            let ghost all = items@;
            let mut out: Vec<Json> = Vec::new();
            for item in it: items
                invariant
                    it.seq() == all,
                    tree == JsonView::Array(Seq::new(all.len(), |i: int| value_tree(all[i]))),
                    tree == value_tree(v),
                    out@.len() == it.index(),
                    forall|k: int| 0 <= k < out@.len() ==> (#[trigger] out@[k])@ == value_tree(all[k]),
            {
                assert(tree->Array_0[it.index()] == value_tree(item));
                out.push(from_value(item));
            }
            proof {
                json::lemma_array_view(out);
                assert(json::items_view(out@) =~= tree->Array_0);
            }
            Json::Array(out)
        },
        Shape::Object(entries) => {
            let ghost all = entries@;
            let mut out: Vec<(String, Json)> = Vec::new();
            for entry in it: entries
                invariant
                    it.seq() == all,
                    tree == JsonView::Object(shape_entries(all)),
                    tree == value_tree(v),
                    out@.len() == it.index(),
                    forall|k: int|
                        0 <= k < out@.len() ==> ((#[trigger] out@[k]).0@, out@[k].1@) == shape_entries(
                            all,
                        )[k],
            {
                proof {
                    json::lemma_entry_smaller(shape_entries(all), it.index());
                }
                out.push((entry.0, from_value(entry.1)));
            }
            assert(json::entries_view(out@) =~= shape_entries(all));
            Json::Object(JsonObject::from_entries(out))
        },
    }
}

/// The value as serde_json holds it.
pub fn to_value(v: &Json) -> (r: serde_json::Value)
    ensures
        value_tree(r) == v@,
    decreases v@,
{
    match v {
        Json::Null => make_value(Shape::Null),
        Json::Bool(b) => make_value(Shape::Bool(*b)),
        Json::Number(n) => make_value(Shape::Number(n.clone())),
        Json::Str(s) => make_value(Shape::Str(s.clone())),
        Json::Array(items) => {
            let mut out: Vec<serde_json::Value> = Vec::new();
            let mut i: usize = 0;
            while i < items.len()
                invariant
                    i <= items@.len(),
                    v == Json::Array(*items),
                    out@.len() == i,
                    forall|k: int| 0 <= k < i ==> value_tree(#[trigger] out@[k]) == items@[k]@,
                decreases items@.len() - i,
            {
                proof {
                    json::lemma_array_view(*items);
                    json::lemma_item_smaller(json::items_view(items@), i as int);
                }
                out.push(to_value(&items[i]));
                i += 1;
            }
            proof {
                json::lemma_array_view(*items);
                assert(shape_tree(Shape::Array(out))->Array_0 =~= json::items_view(items@));
            }
            make_value(Shape::Array(out))
        },
        Json::Object(object) => {
            let mut out: Vec<(String, serde_json::Value)> = Vec::new();
            let n = object.len();
            let mut i: usize = 0;
            while i < n
                invariant
                    i <= n == object@.len(),
                    v == Json::Object(*object),
                    out@.len() == i,
                    forall|k: int| 0 <= k < i ==> ((#[trigger] out@[k]).0@, value_tree(out@[k].1)) == object@[k],
                decreases n - i,
            {
                proof {
                    json::lemma_entry_smaller(object@, i as int);
                }
                out.push((object.key(i).clone(), to_value(object.value(i))));
                i += 1;
            }
            assert(shape_entries(out@) =~= object@);
            make_value(Shape::Object(out))
        },
    }
}

/// The compact JSON text of `v`.
pub fn to_text(v: &Json) -> (r: String)
    ensures
        r@ == json_text(v@),
        text::bytes(r@) <= text_bound(v@),
        r@.len() > 0,
        !r@.contains('\n'),
        plain(v@, 127, false) ==> is_json(r@),
        plain(v@, 127, true) ==> reads_as(r@, v@),
{
    value_text(&to_value(v))
}

/// The value that `text` writes, or what is wrong with it.
pub fn parse(text: &str) -> (r: Result<Json, String>)
    ensures
        match r {
            Ok(v) => json_parsed(text@) == Ok::<JsonView, Seq<char>>(v@),
            Err(e) => json_parsed(text@) == Err::<JsonView, Seq<char>>(e@),
        },
        r is Ok ==> plain(r->Ok_0@, 127, false),
{
    match parse_value(text) {
        Ok(v) => Ok(from_value(v)),
        Err(e) => Err(e),
    }
}

/// Whether a value is plain.
pub fn is_plain(v: &Json, depth: usize, exact: bool) -> (r: bool)
    ensures
        r == plain(v@, depth as nat, exact),
    decreases v@,
{
    match v {
        Json::Number(n) => !exact || !number::is_float(n),
        Json::Array(items) => {
            if depth == 0 {
                return false;
            }
            let ghost all = json::items_view(items@);
            proof {
                json::lemma_array_view(*items);
            }
            let mut i: usize = 0;
            while i < items.len()
                invariant
                    i <= items.len(),
                    depth > 0,
                    all == json::items_view(items@),
                    v@ == JsonView::Array(all),
                    forall|k: int| 0 <= k < i ==> plain(#[trigger] all[k], (depth - 1) as nat, exact),
                decreases items.len() - i,
            {
                proof {
                    json::lemma_item_smaller(all, i as int);
                }
                if !is_plain(&items[i], depth - 1, exact) {
                    proof {
                        if plain(v@, depth as nat, exact) {
                            assert(plain(v@->Array_0[i as int], (depth - 1) as nat, exact));
                        }
                    }
                    return false;
                }
                i += 1;
            }
            true
        },
        Json::Object(object) => {
            if depth == 0 {
                return false;
            }
            let n = object.len();
            let mut i: usize = 0;
            while i < n
                invariant
                    i <= n == object@.len(),
                    depth > 0,
                    v@ == JsonView::Object(object@),
                    forall|k: int|
                        0 <= k < i ==> plain((#[trigger] object@[k]).1, (depth - 1) as nat, exact),
                decreases n - i,
            {
                proof {
                    json::lemma_entry_smaller(object@, i as int);
                }
                if !is_plain(object.value(i), depth - 1, exact) {
                    proof {
                        if plain(v@, depth as nat, exact) {
                            assert(plain(v@->Object_0[i as int].1, (depth - 1) as nat, exact));
                        }
                    }
                    return false;
                }
                i += 1;
            }
            true
        },
        _ => true,
    }
}

/// What is plain: a scalar is, but for a floating point number where none is wanted; an array or an
/// object is where it may be nested and all that it holds is plain one level deeper.
pub proof fn plain_values_are_shallow(v: JsonView, depth: nat, exact: bool)
    ensures
        plain(v, depth, exact) <==> match v {
            JsonView::Number(n) => !(exact && number::number_is_float(n)),
            JsonView::Array(items) => depth > 0 && forall|i: int|
                0 <= i < items.len() ==> plain(#[trigger] items[i], (depth - 1) as nat, exact),
            JsonView::Object(entries) => depth > 0 && forall|i: int|
                0 <= i < entries.len() ==> plain(
                    (#[trigger] entries[i]).1,
                    (depth - 1) as nat,
                    exact,
                ),
            _ => true,
        },
{
}

} // verus!
