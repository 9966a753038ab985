//! The body of an uploaded event: the payload as JSON text within a budget.

use vstd::prelude::*;
use vstd::string::StringExecFns;
use crate::json::{Json, JsonObject, JsonView};
use crate::{codec, json, number, payload, text};

verus! {

/// The most bytes that a body may have.
pub const BODY_BUDGET: usize = 1_400_000;

/// The lengths of strings that are tried, from the most generous down.
pub open spec fn str_limits() -> Seq<nat> {
    seq![1_300_000, 400_000, 120_000, 24_000, 2_048, 256]
}

/// Whether a text can be a body.
pub open spec fn fits(s: Seq<char>) -> bool {
    0 < s.len() && text::bytes(s) <= BODY_BUDGET
}

/// The payload shrunk by the first limit, from the `from`th on, with which its text fits.
pub open spec fn first_fit(p: JsonView, from: nat) -> Option<JsonView>
    decreases str_limits().len() - from,
{
    if from >= str_limits().len() {
        None
    } else {
        let candidate = payload::shrunk(p, str_limits()[from as int], None);
        if fits(codec::json_text(candidate)) {
            Some(candidate)
        } else {
            first_fit(p, from + 1)
        }
    }
}

/// The entries of a payload that is an object, and none of another.
pub open spec fn top_entries(p: JsonView) -> Seq<(Seq<char>, JsonView)> {
    match p {
        JsonView::Object(entries) => entries,
        _ => Seq::empty(),
    }
}

/// The share of the budget that one of `count` keys has for its value.
pub open spec fn share(count: nat) -> nat {
    let part = BODY_BUDGET as nat / ((if count == 0 {
        1
    } else {
        count
    }) * 2);
    if part < 16 {
        16
    } else if part > 256 {
        256
    } else {
        part
    }
}

/// What a skeleton says of a value: scalars as they are, strings clipped, and of arrays and
/// objects only what was dropped.
pub open spec fn outline(v: JsonView, max: nat) -> JsonView {
    match v {
        JsonView::Str(s) => JsonView::Str(payload::clipped(s, max)),
        JsonView::Array(items) => JsonView::Str(
            "…[dropped: array of "@ + text::decimal(items.len()) + " items]"@,
        ),
        JsonView::Object(entries) => JsonView::Str(
            "…[dropped: object with keys "@ + payload::clipped(
                text::joined(json::keys(entries), ","@),
                max,
            ) + "]"@,
        ),
        _ => v,
    }
}

/// The top level of a payload, each value in outline, with the mark that it was truncated.
pub open spec fn skeleton(p: JsonView) -> JsonView {
    let entries = top_entries(p);
    let max = share(entries.len());
    JsonView::Object(
        json::with_entry(
            Seq::new(entries.len(), |i: int| (entries[i].0, outline(entries[i].1, max))),
            "_truncated"@,
            JsonView::Bool(true),
        ),
    )
}

/// The names of the keys of a payload, with a comma between any two.
pub open spec fn key_names(p: JsonView) -> Seq<char> {
    text::joined(json::keys(top_entries(p)), ","@)
}

/// The names of the keys of a payload, clipped.
pub open spec fn short_key_names(p: JsonView) -> Seq<char> {
    payload::clipped(key_names(p), 8000)
}

/// The entries of the identity of an event.
pub open spec fn identity_entries(
    p: JsonView,
    event: JsonView,
    session: JsonView,
    cwd: JsonView,
    names: Seq<char>,
) -> Seq<(Seq<char>, JsonView)> {
    seq![
        ("hook_event_name"@, event),
        ("session_id"@, session),
        ("cwd"@, cwd),
        ("_truncated"@, JsonView::Bool(true)),
        ("_dropped_keys"@, JsonView::Number(number::number_of(top_entries(p).len() as u64))),
        ("_dropped_key_names"@, JsonView::Str(names)),
    ]
}

/// The given identity of an event, with the number of the keys of its payload and their names.
pub open spec fn identity_of(
    p: JsonView,
    event: JsonView,
    session: JsonView,
    cwd: JsonView,
    names: Seq<char>,
) -> JsonView {
    JsonView::Object(json::built(identity_entries(p, event, session, cwd, names)))
}

/// The identity of an event with the names of all keys.
pub open spec fn full_identity(p: JsonView) -> JsonView {
    identity_of(p, p.at("hook_event_name"@), p.at("session_id"@), p.at("cwd"@), key_names(p))
}

/// The identity of an event with the names of the keys clipped.
pub open spec fn identity(p: JsonView) -> JsonView {
    identity_of(p, p.at("hook_event_name"@), p.at("session_id"@), p.at("cwd"@), short_key_names(p))
}

/// The identity of an event in outline, with the names of the keys clipped.
pub open spec fn short_identity(p: JsonView) -> JsonView {
    identity_of(
        p,
        outline(p.at("hook_event_name"@), 256),
        outline(p.at("session_id"@), 256),
        outline(p.at("cwd"@), 256),
        short_key_names(p),
    )
}

/// What is uploaded of a payload: the payload itself where its text fits, else the first of its
/// reductions whose text does.
pub open spec fn fitted(p: JsonView) -> JsonView {
    if fits(codec::json_text(p)) {
        p
    } else {
        match first_fit(p, 0) {
            Some(v) => v,
            None => if fits(codec::json_text(skeleton(p))) {
                skeleton(p)
            } else if fits(codec::json_text(full_identity(p))) {
                full_identity(p)
            } else if fits(codec::json_text(identity(p))) {
                identity(p)
            } else {
                short_identity(p)
            },
        }
    }
}

/// Whether a text can be a body.
pub fn can_be_body(s: &str) -> (r: bool)
    ensures
        r == fits(s@),
{
    !s.is_empty() && text::byte_len(s) <= BODY_BUDGET
}

/// The share of the budget that one of `count` keys has for its value.
pub fn key_share(count: usize) -> (r: usize)
    ensures
        r == share(count as nat),
{
    let n: usize = if count == 0 {
        1
    } else {
        count
    };
    let part = BODY_BUDGET / n / 2;
    proof {
        vstd::arithmetic::div_mod::lemma_div_denominator(BODY_BUDGET as int, n as int, 2);
    }
    if part < 16 {
        16
    } else if part > 256 {
        256
    } else {
        part
    }
}

/// What a skeleton says of a value.
pub fn outline_of(v: &Json, max: usize) -> (r: Json)
    ensures
        r@ == outline(v@, max as nat),
        codec::text_bound(r@) <= 18 * max + 2500,
{
    match v {
        Json::Str(s) => Json::Str(payload::clip(s.as_str(), max)),
        Json::Array(items) => {
            let mut out = String::new();
            out.append("…[dropped: array of ");
            out.append(text::render(items.len() as u64).as_str());
            out.append(" items]");
            proof {
                json::lemma_array_view(*items);
                assert(out@ =~= outline(v@, max as nat)->Str_0);
                reveal_strlit("…[dropped: array of ");
                reveal_strlit(" items]");
                text::lemma_decimal_u64(items.len() as u64);
                text::lemma_bytes_by_chars(out@);
            }
            Json::Str(out)
        },
        Json::Object(object) => {
            let names = payload::clip(object.key_list().as_str(), max);
            let mut out = String::new();
            out.append("…[dropped: object with keys ");
            out.append(names.as_str());
            out.append("]");
            proof {
                let head = "…[dropped: object with keys "@;
                assert(out@ =~= head + names@ + "]"@);
                reveal_strlit("…[dropped: object with keys ");
                reveal_strlit("]");
                text::lemma_bytes_by_chars(head);
                text::lemma_bytes_by_chars("]"@);
                text::lemma_bytes_concat(head, names@);
                text::lemma_bytes_concat(head + names@, "]"@);
            }
            Json::Str(out)
        },
        _ => v.duplicate(),
    }
}

/// The top level of a payload, each value in outline.
pub fn skeleton_of(p: &Json) -> (r: Json)
    ensures
        r@ == skeleton(p@),
{
    let mut out: Vec<(String, Json)> = Vec::new();
    if let Json::Object(object) = p {
        let n = object.len();
        let max = key_share(n);
        let mut i: usize = 0;
        while i < n
            invariant
                i <= n == object@.len(),
                max == share(n as nat),
                out@.len() == i,
                forall|k: int|
                    0 <= k < i ==> ((#[trigger] out@[k]).0@, out@[k].1@) == (
                        object@[k].0,
                        outline(object@[k].1, max as nat),
                    ),
            decreases n - i,
        {
            out.push((object.key(i).clone(), outline_of(object.value(i), max)));
            i += 1;
        }
        proof {
            let entries = json::entries_view(out@);
            assert forall|a: int, b: int| 0 <= a < b < entries.len() implies text::precedes(
                (#[trigger] entries[a]).0,
                (#[trigger] entries[b]).0,
            ) by {
                assert(entries[a].0 == object@[a].0);
                assert(entries[b].0 == object@[b].0);
            }
        }
    }
    let ghost entries = top_entries(p@);
    let ghost max = share(entries.len());
    assert(json::entries_view(out@) =~= Seq::new(
        entries.len(),
        |i: int| (entries[i].0, outline(entries[i].1, max)),
    ));
    let mut object = JsonObject::from_entries(out);
    object.insert("_truncated".to_owned(), Json::Bool(true));
    Json::Object(object)
}

proof fn lemma_plain_skeleton(p: JsonView, exact: bool)
    requires
        codec::plain(p, 127, exact),
    ensures
        codec::plain(skeleton(p), 127, exact),
{
    let entries = top_entries(p);
    let max = share(entries.len());
    let all = Seq::new(entries.len(), |i: int| (entries[i].0, outline(entries[i].1, max)));
    assert forall|i: int| 0 <= i < all.len() implies codec::plain((#[trigger] all[i]).1, 126, exact) by {
        assert(codec::plain(entries[i].1, 126, exact));
    }
    codec::lemma_plain_with_entry(all, "_truncated"@, JsonView::Bool(true), 126, exact);
}

proof fn lemma_plain_at(p: JsonView, key: Seq<char>, exact: bool)
    requires
        codec::plain(p, 127, exact),
    ensures
        codec::plain(p.at(key), 126, exact),
        codec::plain(outline(p.at(key), 256), 126, exact),
{
    if let JsonView::Object(entries) = p {
        codec::lemma_plain_lookup(entries, key, 126, exact);
    }
}

/// The names of the keys of a payload.
fn names_of(p: &Json) -> (r: String)
    ensures
        r@ == key_names(p@),
{
    match p {
        Json::Object(object) => object.key_list(),
        _ => {
            assert(json::keys(top_entries(p@)) =~= Seq::<Seq<char>>::empty());
            String::new()
        },
    }
}

/// The given identity of an event, with the number of the keys of its payload and their names.
pub fn identify(p: &Json, event: Json, session: Json, cwd: Json, names: String) -> (r: Json)
    ensures
        r@ == identity_of(p@, event@, session@, cwd@, names@),
        codec::text_bound(r@) <= codec::text_bound(event@) + codec::text_bound(session@)
            + codec::text_bound(cwd@) + 6 * text::bytes(names@) + 4000,
        forall|exact: bool|
            codec::plain(event@, 126, exact) && codec::plain(session@, 126, exact) && codec::plain(
                cwd@,
                126,
                exact,
            ) ==> #[trigger] codec::plain(r@, 127, exact),
{
    let ghost (e, s, c, n) = (event@, session@, cwd@, names@);
    let count = match p {
        Json::Object(object) => object.len(),
        _ => 0,
    };
    assert(count == top_entries(p@).len());
    let mut object = JsonObject::new();
    object.insert("hook_event_name".to_owned(), event);
    let ghost o1 = object@;
    object.insert("session_id".to_owned(), session);
    let ghost o2 = object@;
    object.insert("cwd".to_owned(), cwd);
    let ghost o3 = object@;
    object.insert("_truncated".to_owned(), Json::Bool(true));
    let ghost o4 = object@;
    let dropped = Json::from_u64(count as u64);
    let ghost d = dropped@;
    object.insert("_dropped_keys".to_owned(), dropped);
    let ghost o5 = object@;
    object.insert("_dropped_key_names".to_owned(), Json::Str(names));
    proof {
        let none = Seq::<(Seq<char>, JsonView)>::empty();
        let t = JsonView::Bool(true);
        let k = JsonView::Str(n);
        let p1 = none.push(("hook_event_name"@, e));
        let p2 = p1.push(("session_id"@, s));
        let p3 = p2.push(("cwd"@, c));
        let p4 = p3.push(("_truncated"@, t));
        let p5 = p4.push(("_dropped_keys"@, d));
        let p6 = p5.push(("_dropped_key_names"@, k));
        json::lemma_built_push(none, "hook_event_name"@, e);
        json::lemma_built_push(p1, "session_id"@, s);
        json::lemma_built_push(p2, "cwd"@, c);
        json::lemma_built_push(p3, "_truncated"@, t);
        json::lemma_built_push(p4, "_dropped_keys"@, d);
        json::lemma_built_push(p5, "_dropped_key_names"@, k);
        assert(p6 =~= identity_entries(p@, e, s, c, n));
        assert forall|exact: bool|
            codec::plain(e, 126, exact) && codec::plain(s, 126, exact) && codec::plain(
                c,
                126,
                exact,
            ) implies #[trigger] codec::plain(JsonView::Object(object@), 127, exact) by {
            codec::lemma_plain_with_entry(none, "hook_event_name"@, e, 126, exact);
            codec::lemma_plain_with_entry(o1, "session_id"@, s, 126, exact);
            codec::lemma_plain_with_entry(o2, "cwd"@, c, 126, exact);
            codec::lemma_plain_with_entry(o3, "_truncated"@, t, 126, exact);
            codec::lemma_plain_with_entry(o4, "_dropped_keys"@, d, 126, exact);
            codec::lemma_plain_with_entry(o5, "_dropped_key_names"@, k, 126, exact);
        }
        codec::lemma_bound_with_entry(none, "hook_event_name"@, e);
        codec::lemma_bound_with_entry(o1, "session_id"@, s);
        codec::lemma_bound_with_entry(o2, "cwd"@, c);
        codec::lemma_bound_with_entry(o3, "_truncated"@, t);
        codec::lemma_bound_with_entry(o4, "_dropped_keys"@, d);
        codec::lemma_bound_with_entry(o5, "_dropped_key_names"@, k);
        reveal_strlit("hook_event_name");
        reveal_strlit("session_id");
        reveal_strlit("cwd");
        reveal_strlit("_truncated");
        reveal_strlit("_dropped_keys");
        reveal_strlit("_dropped_key_names");
        text::lemma_bytes_by_chars("hook_event_name"@);
        text::lemma_bytes_by_chars("session_id"@);
        text::lemma_bytes_by_chars("cwd"@);
        text::lemma_bytes_by_chars("_truncated"@);
        text::lemma_bytes_by_chars("_dropped_keys"@);
        text::lemma_bytes_by_chars("_dropped_key_names"@);
    }
    Json::Object(object)
}

/// The body of an event with the payload `p`: JSON text within the budget. It is the payload
/// itself where that fits, else the payload with strings clipped, else its top level in
/// outline, else the identity of the event with the names of its keys. Without floating point
/// numbers it reads back as that.
pub fn fit_body(p: &Json) -> (r: String)
    ensures
        r@ == codec::json_text(fitted(p@)),
        text::bytes(r@) <= BODY_BUDGET,
        text::units(r@) <= BODY_BUDGET,
        codec::plain(fitted(p@), 127, false) ==> codec::is_json(r@),
        codec::plain(fitted(p@), 127, true) ==> codec::reads_as(r@, fitted(p@)),
        codec::plain(p@, 127, false) ==> codec::is_json(r@),
        codec::plain(p@, 127, true) ==> codec::reads_as(r@, fitted(p@)),
{
    let s = fitted_text(p);
    proof {
        text::units_within_bytes(s@);
    }
    s
}

/// What is made of a payload is as plain as the payload.
proof fn lemma_plain_parts(p: JsonView, exact: bool)
    ensures
        codec::plain(p, 127, exact) ==> {
            &&& codec::plain(skeleton(p), 127, exact)
            &&& codec::plain(p.at("hook_event_name"@), 126, exact)
            &&& codec::plain(p.at("session_id"@), 126, exact)
            &&& codec::plain(p.at("cwd"@), 126, exact)
            &&& codec::plain(outline(p.at("hook_event_name"@), 256), 126, exact)
            &&& codec::plain(outline(p.at("session_id"@), 256), 126, exact)
            &&& codec::plain(outline(p.at("cwd"@), 256), 126, exact)
        },
{
    if codec::plain(p, 127, exact) {
        lemma_plain_skeleton(p, exact);
        lemma_plain_at(p, "hook_event_name"@, exact);
        lemma_plain_at(p, "session_id"@, exact);
        lemma_plain_at(p, "cwd"@, exact);
    }
}

/// The text of the first reduction of `p` that fits.
fn fitted_text(p: &Json) -> (r: String)
    ensures
        r@ == codec::json_text(fitted(p@)),
        text::bytes(r@) <= BODY_BUDGET,
        codec::plain(fitted(p@), 127, false) ==> codec::is_json(r@),
        codec::plain(fitted(p@), 127, true) ==> codec::reads_as(r@, fitted(p@)),
        codec::plain(p@, 127, false) ==> codec::is_json(r@),
        codec::plain(p@, 127, true) ==> codec::reads_as(r@, fitted(p@)),
{
    let s = codec::to_text(p);
    if can_be_body(s.as_str()) {
        return s;
    }
    let limits: [usize; 6] = [1_300_000, 400_000, 120_000, 24_000, 2_048, 256];
    let mut i: usize = 0;
    while i < 6
        invariant
            i <= 6,
            limits@.len() == 6,
            !fits(codec::json_text(p@)),
            forall|k: int| 0 <= k < 6 ==> #[trigger] limits@[k] as nat == str_limits()[k],
            first_fit(p@, 0) == first_fit(p@, i as nat),
        decreases 6 - i,
    {
        let s = codec::to_text(&payload::shrink(p, limits[i], None));
        proof {
            assert(limits@[i as int] as nat == str_limits()[i as int]);
            let max = str_limits()[i as int];
            if codec::plain(p@, 127, false) {
                payload::shrinking_keeps_plain(p@, max, None, 127, false);
            }
            if codec::plain(p@, 127, true) {
                payload::shrinking_keeps_plain(p@, max, None, 127, true);
            }
        }
        if can_be_body(s.as_str()) {
            return s;
        }
        i += 1;
    }
    proof {
        lemma_plain_parts(p@, false);
        lemma_plain_parts(p@, true);
    }
    let s = codec::to_text(&skeleton_of(p));
    if can_be_body(s.as_str()) {
        return s;
    }
    let names = names_of(p);
    let short_names = payload::clip(names.as_str(), 8000);
    let event = p.at("hook_event_name");
    let session = p.at("session_id");
    let cwd = p.at("cwd");
    let v = identify(p, event.duplicate(), session.duplicate(), cwd.duplicate(), names);
    let s = codec::to_text(&v);
    if can_be_body(s.as_str()) {
        return s;
    }
    let v = identify(
        p,
        event.duplicate(),
        session.duplicate(),
        cwd.duplicate(),
        short_names.clone(),
    );
    let s = codec::to_text(&v);
    if can_be_body(s.as_str()) {
        return s;
    }
    let v = identify(
        p,
        outline_of(&event, 256),
        outline_of(&session, 256),
        outline_of(&cwd, 256),
        short_names,
    );
    codec::to_text(&v)
}

// ---- what every body keeps ----

/// A payload whose text fits is uploaded as it is.
pub proof fn small_payloads_are_verbatim(p: JsonView)
    requires
        fits(codec::json_text(p)),
    ensures
        fitted(p) == p,
{
}

/// Shrinking by some limit is all that happens to a payload for which a limit is found.
proof fn lemma_first_fit(p: JsonView, from: nat)
    ensures
        first_fit(p, from) matches Some(v) ==> exists|i: int|
            from <= i < str_limits().len() && v == payload::shrunk(
                p,
                #[trigger] str_limits()[i],
                None,
            ),
    decreases str_limits().len() - from,
{
    if from < str_limits().len() {
        let candidate = payload::shrunk(p, str_limits()[from as int], None);
        if !fits(codec::json_text(candidate)) {
            lemma_first_fit(p, from + 1);
        }
    }
}

proof fn lemma_lookup_outline(entries: Seq<(Seq<char>, JsonView)>, max: nat, key: Seq<char>)
    ensures
        json::lookup(
            Seq::new(entries.len(), |i: int| (entries[i].0, outline(entries[i].1, max))),
            key,
        ) == match json::lookup(entries, key) {
            Some(v) => Some(outline(v, max)),
            None => None,
        },
    decreases entries.len(),
{
    if entries.len() > 0 {
        let rest = entries.drop_last();
        lemma_lookup_outline(rest, max, key);
        let all = Seq::new(entries.len(), |i: int| (entries[i].0, outline(entries[i].1, max)));
        assert(all.drop_last() =~= Seq::new(rest.len(), |i: int| (rest[i].0, outline(rest[i].1, max))));
    }
}

/// A skeleton has every key of its payload, each with its value in outline, and one key more,
/// the mark.
pub proof fn skeleton_keeps_keys(p: JsonView, key: Seq<char>)
    ensures
        skeleton(p).get("_truncated"@) == Some(JsonView::Bool(true)),
        key != "_truncated"@ ==> skeleton(p).get(key) == match p.get(key) {
            Some(v) => Some(outline(v, share(top_entries(p).len()))),
            None => None,
        },
{
    let entries = top_entries(p);
    let max = share(entries.len());
    let all = Seq::new(entries.len(), |i: int| (entries[i].0, outline(entries[i].1, max)));
    lemma_lookup_outline(entries, max, key);
    json::lookup_after_with_entry(all, "_truncated"@, JsonView::Bool(true), key);
}

/// The identity of an event has its parts under their keys: the name of the event, its session
/// and its directory, the mark, and the number and the names of the keys.
pub proof fn identity_has_its_parts(
    p: JsonView,
    event: JsonView,
    session: JsonView,
    cwd: JsonView,
    names: Seq<char>,
)
    ensures
        ({
            let v = identity_of(p, event, session, cwd, names);
            &&& v.get("hook_event_name"@) == Some(event)
            &&& v.get("session_id"@) == Some(session)
            &&& v.get("cwd"@) == Some(cwd)
            &&& v.get("_truncated"@) == Some(JsonView::Bool(true))
            &&& v.get("_dropped_keys"@) == Some(
                JsonView::Number(number::number_of(top_entries(p).len() as u64)),
            )
            &&& v.get("_dropped_key_names"@) == Some(JsonView::Str(names))
        }),
{
    let all = identity_entries(p, event, session, cwd, names);
    reveal_strlit("hook_event_name");
    reveal_strlit("session_id");
    reveal_strlit("cwd");
    reveal_strlit("_truncated");
    reveal_strlit("_dropped_keys");
    reveal_strlit("_dropped_key_names");
    assert("_truncated"@[0] != "session_id"@[0]);
    assert("hook_event_name"@.len() == 15);
    assert("session_id"@.len() == 10);
    assert("cwd"@.len() == 3);
    assert("_truncated"@.len() == 10);
    assert("_dropped_keys"@.len() == 13);
    assert("_dropped_key_names"@.len() == 18);
    lemma_built_lookup(all, 0);
    lemma_built_lookup(all, 1);
    lemma_built_lookup(all, 2);
    lemma_built_lookup(all, 3);
    lemma_built_lookup(all, 4);
    lemma_built_lookup(all, 5);
}

/// A key that is put once has its value.
proof fn lemma_built_lookup(entries: Seq<(Seq<char>, JsonView)>, i: int)
    requires
        0 <= i < entries.len(),
        forall|j: int| i < j < entries.len() ==> (#[trigger] entries[j]).0 != entries[i].0,
    ensures
        json::lookup(json::built(entries), entries[i].0) == Some(entries[i].1),
    decreases entries.len(),
{
    let rest = entries.drop_last();
    json::lookup_after_with_entry(
        json::built(rest),
        entries.last().0,
        entries.last().1,
        entries[i].0,
    );
    if i < entries.len() - 1 {
        assert(rest[i] == entries[i]);
        assert forall|j: int| i < j < rest.len() implies (#[trigger] rest[j]).0 != rest[i].0 by {
            assert(rest[j] == entries[j]);
        }
        assert(entries[entries.len() - 1].0 != entries[i].0);
        lemma_built_lookup(rest, i);
    }
}

/// The three identities of an event have their parts.
proof fn lemma_identities(p: JsonView)
    ensures
        full_identity(p).get("hook_event_name"@) == Some(p.at("hook_event_name"@)),
        full_identity(p).get("session_id"@) == Some(p.at("session_id"@)),
        full_identity(p).get("cwd"@) == Some(p.at("cwd"@)),
        full_identity(p).get("_truncated"@) == Some(JsonView::Bool(true)),
        identity(p).get("hook_event_name"@) == Some(p.at("hook_event_name"@)),
        identity(p).get("session_id"@) == Some(p.at("session_id"@)),
        identity(p).get("cwd"@) == Some(p.at("cwd"@)),
        identity(p).get("_truncated"@) == Some(JsonView::Bool(true)),
        short_identity(p).get("hook_event_name"@) == Some(
            outline(p.at("hook_event_name"@), 256),
        ),
        short_identity(p).get("session_id"@) == Some(outline(p.at("session_id"@), 256)),
        short_identity(p).get("cwd"@) == Some(outline(p.at("cwd"@), 256)),
        short_identity(p).get("_truncated"@) == Some(JsonView::Bool(true)),
{
    let event = p.at("hook_event_name"@);
    let session = p.at("session_id"@);
    let cwd = p.at("cwd"@);
    identity_has_its_parts(p, event, session, cwd, key_names(p));
    identity_has_its_parts(p, event, session, cwd, short_key_names(p));
    identity_has_its_parts(
        p,
        outline(event, 256),
        outline(session, 256),
        outline(cwd, 256),
        short_key_names(p),
    );
}

/// Where even the skeleton does not fit, the names of all keys are uploaded if they can be.
pub proof fn all_key_names_are_kept(p: JsonView)
    requires
        !fits(codec::json_text(p)),
        first_fit(p, 0) is None,
        !fits(codec::json_text(skeleton(p))),
        fits(codec::json_text(full_identity(p))),
    ensures
        fitted(p).str_at("_dropped_key_names"@) == Some(
            text::joined(json::keys(top_entries(p)), ","@),
        ),
{
    identity_has_its_parts(
        p,
        p.at("hook_event_name"@),
        p.at("session_id"@),
        p.at("cwd"@),
        key_names(p),
    );
}

/// Whatever is uploaded of a payload names the event, its session and its directory where the
/// payload does.
pub proof fn bodies_keep_the_identity(p: JsonView)
    ensures
        p.get("hook_event_name"@) is Some ==> fitted(p).get("hook_event_name"@) is Some,
        p.get("session_id"@) is Some ==> fitted(p).get("session_id"@) is Some,
        p.get("cwd"@) is Some ==> fitted(p).get("cwd"@) is Some,
{
    reveal_strlit("hook_event_name");
    reveal_strlit("session_id");
    reveal_strlit("cwd");
    reveal_strlit("_truncated");
    lemma_first_fit(p, 0);
    if let Some(v) = first_fit(p, 0) {
        let i = choose|i: int|
            0 <= i < str_limits().len() && v == payload::shrunk(
                p,
                #[trigger] str_limits()[i],
                None,
            );
        payload::shrinking_keeps_keys(p, str_limits()[i], None, "hook_event_name"@);
        payload::shrinking_keeps_keys(p, str_limits()[i], None, "session_id"@);
        payload::shrinking_keeps_keys(p, str_limits()[i], None, "cwd"@);
    }
    assert("_truncated"@[0] != "session_id"@[0]);
    skeleton_keeps_keys(p, "hook_event_name"@);
    skeleton_keeps_keys(p, "session_id"@);
    skeleton_keeps_keys(p, "cwd"@);
    lemma_identities(p);
}

/// A name of the event, its session or its directory that has at most 16 code units is uploaded
/// as it is.
pub proof fn bodies_keep_short_names(p: JsonView, key: Seq<char>, name: Seq<char>)
    requires
        key == "hook_event_name"@ || key == "session_id"@ || key == "cwd"@,
        p.str_at(key) == Some(name),
        text::units(name) <= 16,
    ensures
        fitted(p).str_at(key) == Some(name),
{
    reveal_strlit("hook_event_name");
    reveal_strlit("session_id");
    reveal_strlit("cwd");
    reveal_strlit("_truncated");
    assert("_truncated"@[0] != "session_id"@[0]);
    assert("hook_event_name"@.len() == 15 && "cwd"@.len() == 3 && "_truncated"@.len() == 10);
    assert(p.get(key) == Some(JsonView::Str(name)));
    lemma_first_fit(p, 0);
    if let Some(v) = first_fit(p, 0) {
        let i = choose|i: int|
            0 <= i < str_limits().len() && v == payload::shrunk(
                p,
                #[trigger] str_limits()[i],
                None,
            );
        payload::shrinking_keeps_keys(p, str_limits()[i], None, key);
    }
    skeleton_keeps_keys(p, key);
    lemma_identities(p);
}

/// A body that is more than a payload with strings and arrays cut says that it was truncated.
pub proof fn reduced_bodies_are_marked(p: JsonView)
    requires
        !fits(codec::json_text(p)),
        first_fit(p, 0) is None,
    ensures
        fitted(p).get("_truncated"@) == Some(JsonView::Bool(true)),
{
    skeleton_keeps_keys(p, "_truncated"@);
    lemma_identities(p);
}

// ---- how a payload is reduced ----

/// What is tried as a body of a payload, in this order: the payload; the payload with its strings
/// clipped, ever shorter; its top level in outline; and the identity of the event, with ever less
/// beside it.
pub open spec fn candidates(p: JsonView) -> Seq<JsonView> {
    seq![
        p,
        payload::shrunk(p, 1_300_000, None),
        payload::shrunk(p, 400_000, None),
        payload::shrunk(p, 120_000, None),
        payload::shrunk(p, 24_000, None),
        payload::shrunk(p, 2_048, None),
        payload::shrunk(p, 256, None),
        skeleton(p),
        full_identity(p),
        identity(p),
        short_identity(p),
    ]
}

/// The first candidate whose text has at most 1400000 bytes, and is not empty, is uploaded, and
/// the last one where there is none.
pub proof fn first_candidate_that_fits_is_taken(p: JsonView, k: int)
    requires
        0 <= k < 11,
        forall|j: int|
            0 <= j < k ==> ({
                let s = codec::json_text(#[trigger] candidates(p)[j]);
                s.len() == 0 || text::bytes(s) > 1_400_000
            }),
        k == 10 || ({
            let s = codec::json_text(candidates(p)[k]);
            s.len() > 0 && text::bytes(s) <= 1_400_000
        }),
    ensures
        fitted(p) == candidates(p)[k],
{
    reveal_with_fuel(first_fit, 7);
    let c = candidates(p);
    assert(str_limits()[0] == 1_300_000 && str_limits()[1] == 400_000 && str_limits()[2] == 120_000);
    assert(str_limits()[3] == 24_000 && str_limits()[4] == 2_048 && str_limits()[5] == 256);
    if k > 0 {
        assert(!fits(codec::json_text(c[0])));
    }
    if k > 1 {
        assert(!fits(codec::json_text(c[1])));
    }
    if k > 2 {
        assert(!fits(codec::json_text(c[2])));
    }
    if k > 3 {
        assert(!fits(codec::json_text(c[3])));
    }
    if k > 4 {
        assert(!fits(codec::json_text(c[4])));
    }
    if k > 5 {
        assert(!fits(codec::json_text(c[5])));
    }
    if k > 6 {
        assert(!fits(codec::json_text(c[6])));
    }
    if k > 7 {
        assert(!fits(codec::json_text(c[7])));
    }
    if k > 8 {
        assert(!fits(codec::json_text(c[8])));
    }
    if k > 9 {
        assert(!fits(codec::json_text(c[9])));
    }
}

/// In outline a string is clipped, of an array the number of its items is told, of an object its
/// keys, clipped, and everything else stays as it is.
pub proof fn outlines_tell_what_was_dropped(v: JsonView, max: nat)
    ensures
        match v {
            JsonView::Str(s) => outline(v, max) == JsonView::Str(payload::clipped(s, max)),
            JsonView::Array(items) => outline(v, max) == JsonView::Str(
                "…[dropped: array of "@ + text::decimal(items.len()) + " items]"@,
            ),
            JsonView::Object(entries) => outline(v, max) == JsonView::Str(
                "…[dropped: object with keys "@ + payload::clipped(
                    text::joined(Seq::new(entries.len(), |i: int| entries[i].0), ","@),
                    max,
                ) + "]"@,
            ),
            _ => outline(v, max) == v,
        },
{
    if let JsonView::Object(entries) = v {
        assert(json::keys(entries) =~= Seq::new(entries.len(), |i: int| entries[i].0));
    }
}

/// Half of the budget is shared out evenly among the keys: a key has the greatest share with
/// which all of them stay within it, but never less than 16 and never more than 256 code units.
pub proof fn shares_are_even(count: nat)
    ensures
        ({
            let n = if count == 0 {
                1
            } else {
                count as int
            };
            &&& 16 <= share(count) <= 256
            &&& share(count) > 16 ==> share(count) * n <= 700_000
            &&& share(count) < 256 ==> (share(count) + 1) * n > 700_000
        }),
{
    let n: int = if count == 0 {
        1
    } else {
        count as int
    };
    let part: int = BODY_BUDGET as int / (n * 2);
    vstd::arithmetic::div_mod::lemma_fundamental_div_mod(BODY_BUDGET as int, n * 2);
    vstd::arithmetic::div_mod::lemma_mod_bound(BODY_BUDGET as int, n * 2);
    let rest: int = BODY_BUDGET as int % (n * 2);
    assert(n * 2 * part + rest == 1_400_000);
    assert(n * 2 * part == 2 * (part * n)) by (nonlinear_arith);
    assert((part + 1) * n == part * n + n) by (nonlinear_arith);
    assert(part * n <= 700_000 && (part + 1) * n > 700_000);
    let s = share(count) as int;
    if s > 16 {
        assert(s <= part);
        assert(s * n <= part * n) by (nonlinear_arith)
            requires
                s <= part,
                n > 0,
        ;
    }
    if s < 256 {
        assert(s >= part);
        assert((s + 1) * n >= (part + 1) * n) by (nonlinear_arith)
            requires
                s >= part,
                n > 0,
        ;
    }
}

/// An identity holds what it is given, how many keys the payload has and their names, and nothing
/// else.
pub proof fn identities_hold_nothing_else(
    p: JsonView,
    event: JsonView,
    session: JsonView,
    cwd: JsonView,
    names: Seq<char>,
    key: Seq<char>,
)
    ensures
        identity_of(p, event, session, cwd, names).get(key) == (if key == "hook_event_name"@ {
            Some(event)
        } else if key == "session_id"@ {
            Some(session)
        } else if key == "cwd"@ {
            Some(cwd)
        } else if key == "_truncated"@ {
            Some(JsonView::Bool(true))
        } else if key == "_dropped_keys"@ {
            let count = match p {
                JsonView::Object(entries) => entries.len(),
                _ => 0,
            };
            Some(JsonView::Number(number::number_of(count as u64)))
        } else if key == "_dropped_key_names"@ {
            Some(JsonView::Str(names))
        } else {
            None
        }),
{
    identity_has_its_parts(p, event, session, cwd, names);
    let all = identity_entries(p, event, session, cwd, names);
    json::built_objects_hold_the_last_values(all, key);
    json::looking_up_finds_the_entry(all, key);
}

/// The identities, from the fullest on: with the names of all keys, with those clipped to 8000
/// code units, and with what the payload says of the event in outline as well.
pub proof fn identities_get_shorter(p: JsonView)
    ensures
        ({
            let names = match p {
                JsonView::Object(entries) => text::joined(
                    Seq::new(entries.len(), |i: int| entries[i].0),
                    ","@,
                ),
                _ => Seq::empty(),
            };
            let event = p.at("hook_event_name"@);
            let session = p.at("session_id"@);
            let cwd = p.at("cwd"@);
            let clipped = payload::clipped(names, 8000);
            &&& full_identity(p) == identity_of(p, event, session, cwd, names)
            &&& identity(p) == identity_of(p, event, session, cwd, clipped)
            &&& short_identity(p) == identity_of(
                p,
                outline(event, 256),
                outline(session, 256),
                outline(cwd, 256),
                clipped,
            )
        }),
{
    match p {
        JsonView::Object(entries) => {
            assert(json::keys(top_entries(p)) =~= Seq::new(entries.len(), |i: int| entries[i].0));
        },
        _ => {
            assert(json::keys(top_entries(p)) =~= Seq::<Seq<char>>::empty());
            assert(key_names(p) =~= Seq::<char>::empty());
        },
    }
}

/// A skeleton has every key of its payload, each with its value in outline by the share of one
/// key, and the mark.
pub proof fn skeletons_outline_every_value(p: JsonView, key: Seq<char>)
    ensures
        skeleton(p).get(key) == (if key == "_truncated"@ {
            Some(JsonView::Bool(true))
        } else {
            match p {
                JsonView::Object(entries) => match json::lookup(entries, key) {
                    Some(v) => Some(outline(v, share(entries.len()))),
                    None => None,
                },
                _ => None,
            }
        }),
{
    skeleton_keeps_keys(p, key);
}

} // verus!
