//! JSON values, and objects whose keys are distinct and in order.

use vstd::prelude::*;
use vstd::string::StringExecFns;
use crate::{number, text};

verus! {

/// What a JSON value is. The entries of an object stand in the order of their keys.
pub enum JsonView {
    Null,
    Bool(bool),
    Number(serde_json::Number),
    Str(Seq<char>),
    Array(Seq<JsonView>),
    Object(Seq<(Seq<char>, JsonView)>),
}

/// A JSON value.
#[derive(Debug, PartialEq, Eq)]
pub enum Json {
    Null,
    Bool(bool),
    Number(serde_json::Number),
    Str(String),
    Array(Vec<Json>),
    Object(JsonObject),
}

/// A JSON object: its keys are distinct and in order.
#[derive(Debug, PartialEq, Eq)]
pub struct JsonObject {
    entries: Vec<(String, Json)>,
}

// ---- views ----

impl View for Json {
    type V = JsonView;

    open spec fn view(&self) -> JsonView
        decreases self,
    {
        match self {
            Json::Null => JsonView::Null,
            Json::Bool(b) => JsonView::Bool(*b),
            Json::Number(n) => JsonView::Number(*n),
            Json::Str(s) => JsonView::Str(s@),
            Json::Array(items) => JsonView::Array(
                Seq::new(
                    items@.len(),
                    |i: int|
                        if 0 <= i < items@.len() {
                            items@[i].view()
                        } else {
                            JsonView::Null
                        },
                ),
            ),
            Json::Object(object) => JsonView::Object(object.view()),
        }
    }
}

impl View for JsonObject {
    type V = Seq<(Seq<char>, JsonView)>;

    closed spec fn view(&self) -> Seq<(Seq<char>, JsonView)>
        decreases self,
    {
        Seq::new(
            self.entries@.len(),
            |i: int|
                if 0 <= i < self.entries@.len() {
                    (self.entries@[i].0@, self.entries@[i].1.view())
                } else {
                    (Seq::empty(), JsonView::Null)
                },
        )
    }
}

/// The views of a row of values.
pub open spec fn items_view(items: Seq<Json>) -> Seq<JsonView> {
    Seq::new(items.len(), |i: int| items[i]@)
}

/// The views of a row of entries.
pub open spec fn entries_view(entries: Seq<(String, Json)>) -> Seq<(Seq<char>, JsonView)> {
    Seq::new(entries.len(), |i: int| (entries[i].0@, entries[i].1@))
}

/// The view of an array is that of its items.
pub proof fn lemma_array_view(items: Vec<Json>)
    ensures
        Json::Array(items)@ == JsonView::Array(items_view(items@)),
{
    assert(Json::Array(items)@->Array_0 =~= items_view(items@));
}

/// An item is smaller than the array that holds it.
pub proof fn lemma_item_smaller(items: Seq<JsonView>, i: int)
    requires
        0 <= i < items.len(),
    ensures
        decreases_to!(JsonView::Array(items) => items[i]),
{
    assert(decreases_to!(JsonView::Array(items) => JsonView::Array(items)->Array_0));
    assert(decreases_to!(items => items[i]));
}

/// A value is smaller than the object that holds it.
pub proof fn lemma_entry_smaller(entries: Seq<(Seq<char>, JsonView)>, i: int)
    requires
        0 <= i < entries.len(),
    ensures
        decreases_to!(JsonView::Object(entries) => entries[i].1),
{
    assert(decreases_to!(JsonView::Object(entries) => JsonView::Object(entries)->Object_0));
    assert(decreases_to!(entries => entries[i]));
    assert(decreases_to!(entries[i] => entries[i].1));
}

// ---- objects ----

/// Whether the keys are distinct and in order.
pub open spec fn in_order(entries: Seq<(Seq<char>, JsonView)>) -> bool {
    forall|i: int, j: int|
        0 <= i < j < entries.len() ==> text::precedes((#[trigger] entries[i]).0, (#[trigger] entries[j]).0)
}

/// The value of `key` among the entries.
pub open spec fn lookup(entries: Seq<(Seq<char>, JsonView)>, key: Seq<char>) -> Option<JsonView>
    decreases entries.len(),
{
    if entries.len() == 0 {
        None
    } else if entries.last().0 == key {
        Some(entries.last().1)
    } else {
        lookup(entries.drop_last(), key)
    }
}

/// The entries with `value` under `key`: in the place of the entry that has this key, else in
/// the place where the key belongs.
pub open spec fn with_entry(
    entries: Seq<(Seq<char>, JsonView)>,
    key: Seq<char>,
    value: JsonView,
) -> Seq<(Seq<char>, JsonView)>
    decreases entries.len(),
{
    if entries.len() == 0 {
        seq![(key, value)]
    } else if entries.last().0 == key {
        entries.drop_last().push((key, value))
    } else if text::precedes(entries.last().0, key) {
        entries.push((key, value))
    } else {
        with_entry(entries.drop_last(), key, value).push(entries.last())
    }
}

/// What holds of the keys before an entry is put among them holds after it, if it holds of
/// the new key.
proof fn lemma_with_entry_keys(
    entries: Seq<(Seq<char>, JsonView)>,
    key: Seq<char>,
    value: JsonView,
    bound: Seq<char>,
)
    requires
        text::precedes(key, bound),
        forall|i: int| 0 <= i < entries.len() ==> text::precedes((#[trigger] entries[i]).0, bound),
    ensures
        forall|i: int|
            0 <= i < with_entry(entries, key, value).len() ==> text::precedes(
                (#[trigger] with_entry(entries, key, value)[i]).0,
                bound,
            ),
    decreases entries.len(),
{
    if entries.len() > 0 {
        let rest = entries.drop_last();
        assert forall|i: int| 0 <= i < rest.len() implies text::precedes(
            (#[trigger] rest[i]).0,
            bound,
        ) by {
            assert(rest[i] == entries[i]);
        }
        lemma_with_entry_keys(rest, key, value, bound);
        let all = with_entry(entries, key, value);
        assert forall|i: int| 0 <= i < all.len() implies text::precedes(
            (#[trigger] all[i]).0,
            bound,
        ) by {
            if entries.last().0 == key || text::precedes(entries.last().0, key) {
                if i < entries.len() && i < all.len() - 1 {
                    assert(all[i] == entries[i]);
                }
            } else if i < all.len() - 1 {
                assert(all[i] == with_entry(rest, key, value)[i]);
            } else {
                assert(all[i] == entries[entries.len() - 1]);
            }
        }
    }
}

/// Putting an entry among entries in order leaves them in order.
pub proof fn with_entry_keeps_order(
    entries: Seq<(Seq<char>, JsonView)>,
    key: Seq<char>,
    value: JsonView,
)
    requires
        in_order(entries),
    ensures
        in_order(with_entry(entries, key, value)),
    decreases entries.len(),
{
    if entries.len() > 0 {
        let rest = entries.drop_last();
        let last = entries.last();
        assert(in_order(rest));
        if last.0 == key {
        } else if text::precedes(last.0, key) {
            assert forall|i: int| 0 <= i < entries.len() implies text::precedes(
                (#[trigger] entries[i]).0,
                key,
            ) by {
                if i < entries.len() - 1 {
                    text::precedes_is_transitive(entries[i].0, last.0, key);
                }
            }
        } else {
            text::precedes_is_total(last.0, key);
            with_entry_keeps_order(rest, key, value);
            lemma_with_entry_keys(rest, key, value, last.0);
        }
    }
}

/// After an entry was put under a key, that key has its value and every other key has the
/// value that it had.
pub proof fn lookup_after_with_entry(
    entries: Seq<(Seq<char>, JsonView)>,
    key: Seq<char>,
    value: JsonView,
    other: Seq<char>,
)
    ensures
        lookup(with_entry(entries, key, value), key) == Some(value),
        other != key ==> lookup(with_entry(entries, key, value), other) == lookup(entries, other),
    decreases entries.len(),
{
    if entries.len() == 0 {
        assert(with_entry(entries, key, value).drop_last() =~= entries);
    } else {
        let rest = entries.drop_last();
        if entries.last().0 == key {
            assert(with_entry(entries, key, value).drop_last() =~= rest);
        } else if text::precedes(entries.last().0, key) {
            assert(with_entry(entries, key, value).drop_last() =~= entries);
        } else {
            lookup_after_with_entry(rest, key, value, other);
            assert(with_entry(entries, key, value).drop_last() =~= with_entry(rest, key, value));
        }
    }
}

/// The entries with `value` under `key`, where there is one.
pub open spec fn kept_value(
    entries: Seq<(Seq<char>, JsonView)>,
    key: Seq<char>,
    value: Option<JsonView>,
) -> Seq<(Seq<char>, JsonView)> {
    match value {
        Some(v) => with_entry(entries, key, v),
        None => entries,
    }
}

pub proof fn lemma_kept_value(
    entries: Seq<(Seq<char>, JsonView)>,
    key: Seq<char>,
    value: Option<JsonView>,
    other: Seq<char>,
)
    ensures
        value is Some ==> lookup(kept_value(entries, key, value), key) == value,
        value is None ==> kept_value(entries, key, value) == entries,
        other != key ==> lookup(kept_value(entries, key, value), other) == lookup(
            entries,
            other,
        ),
{
    if let Some(v) = value {
        lookup_after_with_entry(entries, key, v, other);
    }
}

/// The entries after the given ones were put among no entries, one after the other.
pub open spec fn built(entries: Seq<(Seq<char>, JsonView)>) -> Seq<(Seq<char>, JsonView)>
    decreases entries.len(),
{
    if entries.len() == 0 {
        Seq::empty()
    } else {
        with_entry(built(entries.drop_last()), entries.last().0, entries.last().1)
    }
}

/// Building with one entry more is building and then putting that entry.
pub proof fn lemma_built_push(
    entries: Seq<(Seq<char>, JsonView)>,
    key: Seq<char>,
    value: JsonView,
)
    ensures
        built(entries.push((key, value))) == with_entry(built(entries), key, value),
{
    assert(entries.push((key, value)).drop_last() =~= entries);
}

/// Entries that are built are in order.
pub proof fn built_is_in_order(entries: Seq<(Seq<char>, JsonView)>)
    ensures
        in_order(built(entries)),
    decreases entries.len(),
{
    if entries.len() > 0 {
        built_is_in_order(entries.drop_last());
        with_entry_keeps_order(built(entries.drop_last()), entries.last().0, entries.last().1);
    }
}

/// The keys of an object.
pub open spec fn keys(entries: Seq<(Seq<char>, JsonView)>) -> Seq<Seq<char>> {
    Seq::new(entries.len(), |i: int| entries[i].0)
}

impl JsonObject {
    #[verifier::type_invariant]
    spec fn well_formed(self) -> bool {
        in_order(self@)
    }

    /// An object without entries.
    pub fn new() -> (object: JsonObject)
        ensures
            object@ == Seq::<(Seq<char>, JsonView)>::empty(),
    {
        let object = JsonObject { entries: Vec::new() };
        assert(object@ =~= Seq::<(Seq<char>, JsonView)>::empty());
        object
    }

    /// The object with the given entries, whose keys are in order.
    pub fn from_entries(entries: Vec<(String, Json)>) -> (object: JsonObject)
        requires
            in_order(entries_view(entries@)),
        ensures
            object@ == entries_view(entries@),
    {
        let ghost expected = entries_view(entries@);
        proof {
            let object = JsonObject { entries };
            assert(object@ =~= expected);
        }
        JsonObject { entries }
    }

    /// The number of entries, whose keys are in order.
    pub fn len(&self) -> (n: usize)
        ensures
            n == self@.len(),
            in_order(self@),
    {
        proof {
            use_type_invariant(self);
        }
        self.entries.len()
    }

    /// The key of the entry at `i`.
    pub fn key(&self, i: usize) -> (key: &String)
        requires
            i < self@.len(),
        ensures
            key@ == self@[i as int].0,
    {
        &self.entries[i].0
    }

    /// The value of the entry at `i`.
    pub fn value(&self, i: usize) -> (value: &Json)
        requires
            i < self@.len(),
        ensures
            value@ == self@[i as int].1,
    {
        &self.entries[i].1
    }

    /// The value of `key`, where the object has one.
    pub fn get(&self, key: &str) -> (value: Option<&Json>)
        ensures
            match value {
                Some(v) => lookup(self@, key@) == Some(v@),
                None => lookup(self@, key@) is None,
            },
    {
        let mut i: usize = self.entries.len();
        assert(self@.take(self@.len() as int) =~= self@);
        while i > 0
            invariant
                i <= self@.len() == self.entries@.len(),
                lookup(self@, key@) == lookup(self@.take(i as int), key@),
            decreases i,
        {
            assert(self@.take(i as int).drop_last() =~= self@.take(i - 1));
            if text::same(self.entries[i - 1].0.as_str(), key) {
                return Some(&self.entries[i - 1].1);
            }
            i -= 1;
        }
        None
    }

    /// The keys, with a comma between any two.
    pub fn key_list(&self) -> (r: String)
        ensures
            r@ == text::joined(keys(self@), ","@),
    {
        let mut out = String::new();
        let n = self.entries.len();
        let mut i: usize = 0;
        assert(keys(self@).take(0) =~= Seq::<Seq<char>>::empty());
        while i < n
            invariant
                i <= n == self@.len(),
                n == self.entries@.len(),
                out@ == text::joined(keys(self@).take(i as int), ","@),
            decreases n - i,
        {
            let ghost before = out@;
            if i > 0 {
                out.append(",");
            }
            out.append(self.entries[i].0.as_str());
            proof {
                let now = keys(self@).take(i + 1);
                assert(now.drop_last() =~= keys(self@).take(i as int));
                assert(now.last() == self@[i as int].0);
                if i == 0 {
                    assert(out@ =~= now[0]);
                } else {
                    assert(out@ =~= before + ","@ + now.last());
                }
            }
            i += 1;
        }
        assert(keys(self@).take(n as int) =~= keys(self@));
        out
    }

    /// Puts `value` under `key`, in the place of the value that the key had.
    pub fn insert(&mut self, key: String, value: Json)
        ensures
            final(self)@ == with_entry(old(self)@, key@, value@),
    {
        proof {
            use_type_invariant(&*self);
            with_entry_keeps_order(self@, key@, value@);
        }
        let ghost before = self@;
        let ghost k = key@;
        let ghost v = value@;
        let mut entries: Vec<(String, Json)> = Vec::new();
        assert(JsonObject { entries }@ =~= Seq::<(Seq<char>, JsonView)>::empty());
        std::mem::swap(&mut entries, &mut self.entries);
        assert(entries_view(entries@) =~= before);
        let mut i: usize = entries.len();
        assert(before.take(i as int) =~= before);
        assert(before.skip(i as int) =~= Seq::<(Seq<char>, JsonView)>::empty());
        assert(with_entry(before, k, v) =~= with_entry(before.take(i as int), k, v) + before.skip(i as int));
        while i > 0 && text::before(key.as_str(), entries[i - 1].0.as_str())
            invariant
                i <= entries@.len(),
                entries_view(entries@) == before,
                key@ == k,
                with_entry(before, k, v) == with_entry(before.take(i as int), k, v) + before.skip(
                    i as int,
                ),
            decreases i,
        {
            proof {
                let s = before.take(i as int);
                assert(s.last() == before[i - 1]);
                text::precedes_is_irreflexive(k);
                if text::precedes(s.last().0, k) {
                    text::precedes_is_transitive(k, s.last().0, k);
                }
                assert(s.drop_last() =~= before.take(i - 1));
                assert(with_entry(s, k, v) + before.skip(i as int) =~= with_entry(before.take(i - 1), k, v)
                    + before.skip(i - 1));
            }
            i -= 1;
        }
        let ghost s = before.take(i as int);
        if i > 0 && text::same(entries[i - 1].0.as_str(), key.as_str()) {
            entries[i - 1] = (key, value);
            proof {
                assert(s.last() == before[i - 1]);
                assert(entries_view(entries@) =~= s.drop_last().push((k, v)) + before.skip(i as int));
            }
        } else {
            entries.insert(i, (key, value));
            proof {
                if i > 0 {
                    assert(s.last() == before[i - 1]);
                    text::precedes_is_total(s.last().0, k);
                }
                assert(entries_view(entries@) =~= s.push((k, v)) + before.skip(i as int));
                assert(with_entry(s, k, v) =~= s.push((k, v)));
            }
        }
        proof {
            assert(JsonObject { entries }@ =~= entries_view(entries@));
        }
        self.entries = entries;
    }
}

// ---- reading values ----

impl JsonView {
    /// The value of `key`, where this is an object that has one.
    pub open spec fn get(self, key: Seq<char>) -> Option<JsonView> {
        match self {
            JsonView::Object(entries) => lookup(entries, key),
            _ => None,
        }
    }

    /// The string that this is.
    pub open spec fn as_str(self) -> Option<Seq<char>> {
        match self {
            JsonView::Str(s) => Some(s),
            _ => None,
        }
    }

    /// The unsigned integer that this is.
    pub open spec fn as_u64(self) -> Option<u64> {
        match self {
            JsonView::Number(n) => number::number_u64(n),
            _ => None,
        }
    }

    /// The string under `key`.
    pub open spec fn str_at(self, key: Seq<char>) -> Option<Seq<char>> {
        match self.get(key) {
            Some(v) => v.as_str(),
            None => None,
        }
    }

    /// The unsigned integer under `key`.
    pub open spec fn u64_at(self, key: Seq<char>) -> Option<u64> {
        match self.get(key) {
            Some(v) => v.as_u64(),
            None => None,
        }
    }

    /// The value under `key`, or null.
    pub open spec fn at(self, key: Seq<char>) -> JsonView {
        match self.get(key) {
            Some(v) => v,
            None => JsonView::Null,
        }
    }
}

/// The view of an optional value.
pub open spec fn option_view(v: Option<Json>) -> Option<JsonView> {
    match v {
        Some(v) => Some(v@),
        None => None,
    }
}

/// The view of an optional reference.
pub open spec fn ref_view(v: Option<&Json>) -> Option<JsonView> {
    match v {
        Some(v) => Some(v@),
        None => None,
    }
}

impl Json {
    /// The value of `key`, where this is an object that has one.
    pub fn get(&self, key: &str) -> (r: Option<&Json>)
        ensures
            match r {
                Some(v) => self@.get(key@) == Some(v@),
                None => self@.get(key@) is None,
            },
    {
        match self {
            Json::Object(object) => object.get(key),
            _ => None,
        }
    }

    /// The string that this is.
    pub fn as_str(&self) -> (r: Option<&str>)
        ensures
            match r {
                Some(s) => self@.as_str() == Some(s@),
                None => self@.as_str() is None,
            },
    {
        match self {
            Json::Str(s) => Some(s.as_str()),
            _ => None,
        }
    }

    /// The unsigned integer that this is.
    pub fn as_u64(&self) -> (r: Option<u64>)
        ensures
            r == self@.as_u64(),
    {
        match self {
            Json::Number(n) => number::as_u64(n),
            _ => None,
        }
    }

    /// The string under `key`.
    pub fn str_at(&self, key: &str) -> (r: Option<&str>)
        ensures
            match r {
                Some(s) => self@.str_at(key@) == Some(s@),
                None => self@.str_at(key@) is None,
            },
    {
        match self.get(key) {
            Some(v) => v.as_str(),
            None => None,
        }
    }

    /// The unsigned integer under `key`.
    pub fn u64_at(&self, key: &str) -> (r: Option<u64>)
        ensures
            r == self@.u64_at(key@),
    {
        match self.get(key) {
            Some(v) => v.as_u64(),
            None => None,
        }
    }

    /// A copy of the value under `key`, or null.
    pub fn at(&self, key: &str) -> (r: Json)
        ensures
            r@ == self@.at(key@),
    {
        match self.get(key) {
            Some(v) => v.duplicate(),
            None => Json::Null,
        }
    }

    /// The number `n`.
    pub fn from_u64(n: u64) -> (r: Json)
        ensures
            r@ == JsonView::Number(number::number_of(n)),
            r@.as_u64() == Some(n),
            !number::number_is_float(number::number_of(n)),
    {
        Json::Number(number::from_u64(n))
    }

    /// The string `s`.
    pub fn from_str(s: &str) -> (r: Json)
        ensures
            r@ == JsonView::Str(s@),
    {
        Json::Str(s.to_owned())
    }

    /// A value equal to this one.
    pub fn duplicate(&self) -> (r: Json)
        ensures
            r@ == self@,
        decreases self@, 1nat,
    {
        match self {
            Json::Null => Json::Null,
            Json::Bool(b) => Json::Bool(*b),
            Json::Number(n) => Json::Number(n.clone()),
            Json::Str(s) => Json::Str(s.clone()),
            Json::Array(items) => {
                let mut out: Vec<Json> = Vec::new();
                let mut i: usize = 0;
                while i < items.len()
                    invariant
                        i <= items@.len(),
                        self == Json::Array(*items),
                        out@.len() == i,
                        forall|k: int| 0 <= k < i ==> (#[trigger] out@[k])@ == items@[k]@,
                    decreases items@.len() - i,
                {
                    proof {
                        lemma_array_view(*items);
                        lemma_item_smaller(items_view(items@), i as int);
                    }
                    out.push(items[i].duplicate());
                    i += 1;
                }
                proof {
                    lemma_array_view(out);
                    lemma_array_view(*items);
                    assert(items_view(out@) =~= items_view(items@));
                }
                Json::Array(out)
            },
            Json::Object(object) => Json::Object(object.duplicate()),
        }
    }
}

impl JsonObject {
    /// An object equal to this one.
    pub fn duplicate(&self) -> (r: JsonObject)
        ensures
            r@ == self@,
        decreases JsonView::Object(self@), 0nat,
    {
        let mut out: Vec<(String, Json)> = Vec::new();
        let n = self.len();
        let mut i: usize = 0;
        while i < n
            invariant
                i <= n == self.entries@.len(),
                n == self@.len(),
                out@.len() == i,
                forall|k: int| 0 <= k < i ==> ((#[trigger] out@[k]).0@, out@[k].1@) == self@[k],
            decreases n - i,
        {
            proof {
                lemma_entry_smaller(self@, i as int);
            }
            let entry = &self.entries[i];
            out.push((entry.0.clone(), entry.1.duplicate()));
            i += 1;
        }
        assert(entries_view(out@) =~= self@);
        JsonObject::from_entries(out)
    }
}

// ---- what looking up finds ----

/// A key is found exactly where an entry has it, and then under the last such entry, which is the
/// only one where the keys are in order.
pub proof fn looking_up_finds_the_entry(entries: Seq<(Seq<char>, JsonView)>, key: Seq<char>)
    ensures
        lookup(entries, key) is None <==> forall|i: int|
            0 <= i < entries.len() ==> (#[trigger] entries[i]).0 != key,
        forall|i: int|
            0 <= i < entries.len() && (#[trigger] entries[i]).0 == key && in_order(entries)
                ==> lookup(entries, key) == Some(entries[i].1),
        lookup(entries, key) is Some ==> exists|i: int|
            0 <= i < entries.len() && #[trigger] entries[i] == (key, lookup(entries, key)->0),
    decreases entries.len(),
{
    if entries.len() > 0 {
        let rest = entries.drop_last();
        let n = entries.len() - 1;
        looking_up_finds_the_entry(rest, key);
        assert(entries[n] == entries.last());
        if entries.last().0 == key {
            assert(entries[n] == (key, lookup(entries, key)->0));
            assert forall|i: int|
                0 <= i < entries.len() && (#[trigger] entries[i]).0 == key && in_order(
                    entries,
                ) implies lookup(entries, key) == Some(entries[i].1) by {
                if i < n {
                    assert(text::precedes(entries[i].0, entries[n].0));
                    text::precedes_is_irreflexive(key);
                }
            }
        } else {
            assert forall|i: int| 0 <= i < rest.len() implies rest[i] == #[trigger] entries[i] by {}
            if in_order(entries) {
                assert(in_order(rest));
            }
            if lookup(rest, key) is None {
                assert forall|i: int| 0 <= i < entries.len() implies (#[trigger] entries[i]).0
                    != key by {
                    if i < n {
                        assert(rest[i] == entries[i]);
                    }
                }
            } else {
                let k = choose|i: int|
                    0 <= i < rest.len() && #[trigger] rest[i] == (key, lookup(rest, key)->0);
                assert(entries[k] == rest[k]);
            }
        }
    }
}

/// What is put under a key is found there, and of a key that is put twice the last value counts.
pub proof fn built_objects_hold_the_last_values(
    entries: Seq<(Seq<char>, JsonView)>,
    key: Seq<char>,
)
    ensures
        lookup(built(entries), key) == lookup(entries, key),
    decreases entries.len(),
{
    if entries.len() > 0 {
        let rest = entries.drop_last();
        built_objects_hold_the_last_values(rest, key);
        lookup_after_with_entry(built(rest), entries.last().0, entries.last().1, key);
    }
}

/// Only objects have values under keys, only strings are read as strings, and only numbers as
/// numbers; what is missing reads as null.
pub proof fn values_are_read_by_kind(v: JsonView, w: JsonView, key: Seq<char>)
    ensures
        v is Object ==> v.get(key) == lookup(v->Object_0, key),
        !(v is Object) ==> v.get(key) is None && v.str_at(key) is None && v.u64_at(key) is None
            && v.at(key) == JsonView::Null,
        v is Str ==> v.as_str() == Some(v->Str_0),
        !(v is Str) ==> v.as_str() is None,
        v is Number ==> v.as_u64() == number::number_u64(v->Number_0),
        !(v is Number) ==> v.as_u64() is None,
        v.get(key) is None ==> v.str_at(key) is None && v.u64_at(key) is None && v.at(key)
            == JsonView::Null,
        v.get(key) == Some(w) ==> v.str_at(key) == w.as_str() && v.u64_at(key) == w.as_u64()
            && v.at(key) == w,
{
}

/// Values are seen as they are: each kind as itself, arrays item by item and objects entry by
/// entry.
pub proof fn values_are_seen_as_they_are(
    b: bool,
    n: serde_json::Number,
    s: String,
    items: Vec<Json>,
    object: JsonObject,
    i: int,
)
    requires
        0 <= i < items@.len(),
    ensures
        Json::Null@ == JsonView::Null,
        Json::Bool(b)@ == JsonView::Bool(b),
        Json::Number(n)@ == JsonView::Number(n),
        Json::Str(s)@ == JsonView::Str(s@),
        Json::Array(items)@ == JsonView::Array(items_view(items@)),
        Json::Object(object)@ == JsonView::Object(object@),
        items_view(items@).len() == items@.len(),
        items_view(items@)[i] == items@[i]@,
        option_view(Some(items@[i])) == Some(items@[i]@),
        option_view(None) is None,
        ref_view(Some(&items@[i])) == Some(items@[i]@),
        ref_view(None) is None,
{
    lemma_array_view(items);
}

/// The entries of an object are seen as they are.
pub proof fn entries_are_seen_as_they_are(entries: Seq<(String, Json)>, i: int)
    requires
        0 <= i < entries.len(),
    ensures
        entries_view(entries).len() == entries.len(),
        entries_view(entries)[i] == (entries[i].0@, entries[i].1@),
        keys(entries_view(entries)).len() == entries.len(),
        keys(entries_view(entries))[i] == entries[i].0@,
{
}

} // verus!
