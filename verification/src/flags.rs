//! The options of the commands that change a record.

use vstd::prelude::*;
use vstd::string::StringExecFns;
use crate::json::{Json, JsonObject, JsonView};
use crate::{checks, complaint, json, text};

verus! {

/// The states of a spec.
pub const SPEC_STATUSES: [&'static str; 2] = ["active", "done"];

/// The states of a task.
pub const TASK_STATUSES: [&'static str; 4] = ["todo", "doing", "done", "blocked"];

/// The fields that are to be changed.
pub struct PatchFlags {
    pub title: Option<String>,
    pub body: Option<String>,
    pub status: Option<String>,
}

/// The fields that are to be changed.
pub struct FlagsView {
    pub title: Option<Seq<char>>,
    pub body: Option<Seq<char>>,
    pub status: Option<Seq<char>>,
}

impl View for PatchFlags {
    type V = FlagsView;

    open spec fn view(&self) -> FlagsView {
        FlagsView {
            title: text::option_text(self.title),
            body: text::option_text(self.body),
            status: text::option_text(self.status),
        }
    }
}

/// No field at all.
pub open spec fn no_flags() -> FlagsView {
    FlagsView { title: None, body: None, status: None }
}

impl Default for PatchFlags {
    fn default() -> (r: PatchFlags)
        ensures
            r@ == no_flags(),
    {
        PatchFlags { title: None, body: None, status: None }
    }
}

/// A text as a value, where there is one.
pub open spec fn text_value(s: Option<Seq<char>>) -> Option<JsonView> {
    match s {
        Some(s) => Some(JsonView::Str(s)),
        None => None,
    }
}

/// The object that holds the fields that are set and no others.
pub open spec fn patch(flags: FlagsView) -> JsonView {
    let s1 = json::kept_value(Seq::empty(), "title"@, text_value(flags.title));
    let s2 = json::kept_value(s1, "body"@, text_value(flags.body));
    JsonView::Object(json::kept_value(s2, "status"@, text_value(flags.status)))
}

impl PatchFlags {
    /// The body of the request that makes the change.
    pub fn to_json(&self) -> (r: Json)
        ensures
            r@ == patch(self@),
    {
        let mut object = JsonObject::new();
        if let Some(s) = &self.title {
            object.insert("title".to_owned(), Json::from_str(s.as_str()));
        }
        if let Some(s) = &self.body {
            object.insert("body".to_owned(), Json::from_str(s.as_str()));
        }
        if let Some(s) = &self.status {
            object.insert("status".to_owned(), Json::from_str(s.as_str()));
        }
        Json::Object(object)
    }
}

/// An option and, where it is written `--option=value`, its value.
pub open spec fn split_flag(arg: Seq<char>) -> (Seq<char>, Option<Seq<char>>) {
    let k = text::first_of(arg, '=');
    if k < arg.len() && "--"@.is_prefix_of(arg.take(k)) {
        (arg.take(k), Some(arg.skip(k + 1)))
    } else {
        (arg, None)
    }
}

/// Whether an option names a field.
pub open spec fn is_field(key: Seq<char>) -> bool {
    key == "--title"@ || key == "--body"@ || key == "--status"@
}

/// The fields with the one that `key` names set to `value`.
pub open spec fn with_field(flags: FlagsView, key: Seq<char>, value: Seq<char>) -> FlagsView {
    if key == "--title"@ {
        FlagsView { title: Some(value), ..flags }
    } else if key == "--body"@ {
        FlagsView { body: Some(value), ..flags }
    } else {
        FlagsView { status: Some(value), ..flags }
    }
}

/// What is wrong with an argument that names no field.
pub open spec fn no_field(key: Seq<char>, arg: Seq<char>) -> Seq<char> {
    if "--"@.is_prefix_of(key) {
        checks::about("unknown option"@, key)
    } else {
        checks::about("unexpected argument"@, arg)
    }
}

/// The fields that the arguments from the `i`th on set, after `flags`; or what is wrong with
/// the first argument that something is wrong with. Of a field that is set twice, the last
/// value counts.
pub open spec fn set_fields(args: Seq<Seq<char>>, i: int, flags: FlagsView) -> Result<
    FlagsView,
    Seq<char>,
>
    decreases args.len() - i,
{
    if i >= args.len() {
        Ok(flags)
    } else {
        let (key, inline) = split_flag(args[i]);
        if !is_field(key) {
            Err(no_field(key, args[i]))
        } else if inline is Some {
            set_fields(args, i + 1, with_field(flags, key, inline->0))
        } else if i + 1 < args.len() {
            set_fields(args, i + 2, with_field(flags, key, args[i + 1]))
        } else {
            Err(checks::about(checks::about("option"@, key), "requires an argument"@))
        }
    }
}

/// What is wrong with a state that is not allowed.
pub open spec fn bad_status(status: Seq<char>, allowed: Seq<Seq<char>>) -> Seq<char> {
    "invalid status '"@ + status + "'; allowed: "@ + text::joined(allowed, "|"@)
}

/// The fields that the arguments set, or the line to give up with: at least one field is
/// set, the state is an allowed one, and the title and the body have proper lengths.
pub open spec fn set_flags(
    entry: Seq<char>,
    args: Seq<Seq<char>>,
    allowed: Seq<Seq<char>>,
    usage: Seq<char>,
) -> Result<FlagsView, Seq<char>> {
    match set_fields(args, 0, no_flags()) {
        Err(reason) => Err(complaint::usage_complaint(entry, usage, reason)),
        Ok(flags) => if flags == no_flags() {
            Err(complaint::usage_complaint(entry, usage, "no fields provided"@))
        } else if flags.status is Some && !allowed.contains(flags.status->0) {
            Err(complaint::usage_complaint(entry, usage, bad_status(flags.status->0, allowed)))
        } else if flags.title is Some && checks::title_complaint(entry, flags.title->0) is Some {
            Err(checks::title_complaint(entry, flags.title->0)->0)
        } else if flags.body is Some && checks::body_complaint(entry, flags.body->0) is Some {
            Err(checks::body_complaint(entry, flags.body->0)->0)
        } else {
            Ok(flags)
        },
    }
}

/// What the parsing gives.
pub open spec fn flags_result(r: Result<PatchFlags, String>) -> Result<FlagsView, Seq<char>> {
    match r {
        Ok(flags) => Ok(flags@),
        Err(line) => Err(line@),
    }
}

/// An option and its value, where it is written `--option=value`.
fn split(arg: &str) -> (r: (String, Option<String>))
    ensures
        (r.0@, text::option_text(r.1)) == split_flag(arg@),
{
    match text::split_once(arg, '=') {
        Some((key, value)) => {
            if text::starts_with(key.as_str(), "--") {
                (key, Some(value))
            } else {
                (arg.to_owned(), None)
            }
        },
        None => (arg.to_owned(), None),
    }
}

fn names_field(key: &str) -> (r: bool)
    ensures
        r == is_field(key@),
{
    text::same(key, "--title") || text::same(key, "--body") || text::same(key, "--status")
}

impl PatchFlags {
    fn set_field(&mut self, key: &str, value: String)
        requires
            is_field(key@),
        ensures
            final(self)@ == with_field(old(self)@, key@, value@),
    {
        if text::same(key, "--title") {
            self.title = Some(value);
        } else if text::same(key, "--body") {
            self.body = Some(value);
        } else {
            self.status = Some(value);
        }
    }
}

/// The fields that the arguments set.
fn read_fields(args: &[String]) -> (r: Result<PatchFlags, String>)
    ensures
        flags_result(r) == set_fields(checks::args_view(args@), 0, no_flags()),
{
    let ghost all = checks::args_view(args@);
    let mut flags = PatchFlags::default();
    let mut i: usize = 0;
    while i < args.len()
        invariant
            i <= args.len(),
            all == checks::args_view(args@),
            set_fields(all, 0, no_flags()) == set_fields(all, i as int, flags@),
        decreases args.len() - i,
    {
        let arg = &args[i];
        assert(all[i as int] == arg@);
        let (key, inline) = split(arg.as_str());
        if !names_field(key.as_str()) {
            let reason = if text::starts_with(key.as_str(), "--") {
                checks::say_about("unknown option", key.as_str())
            } else {
                checks::say_about("unexpected argument", arg.as_str())
            };
            return Err(reason);
        }
        match inline {
            Some(value) => {
                flags.set_field(key.as_str(), value);
                i += 1;
            },
            None => {
                if args.len() - i <= 1 {
                    let option = checks::say_about("option", key.as_str());
                    return Err(checks::say_about(option.as_str(), "requires an argument"));
                }
                assert(all[i + 1] == args@[i + 1]@);
                flags.set_field(key.as_str(), args[i + 1].clone());
                i += 2;
            },
        }
    }
    Ok(flags)
}

/// Whether a state is one of the allowed ones.
fn is_allowed(status: &str, allowed: &[&str]) -> (r: bool)
    ensures
        r == text::strs_view(allowed@).contains(status@),
{
    let mut i: usize = 0;
    while i < allowed.len()
        invariant
            i <= allowed.len(),
            forall|k: int| 0 <= k < i ==> #[trigger] text::strs_view(allowed@)[k] != status@,
        decreases allowed.len() - i,
    {
        assert(text::strs_view(allowed@)[i as int] == allowed@[i as int]@);
        if text::same(allowed[i], status) {
            return true;
        }
        i += 1;
    }
    false
}

/// The fields that the options `--title`, `--body` and `--status` set, each written
/// `--option value` or `--option=value`.
pub fn parse_set_flags(
    entry: &str,
    args: &[String],
    allowed_statuses: &[&str],
    usage: &str,
) -> (r: Result<PatchFlags, String>)
    ensures
        flags_result(r) == set_flags(
            entry@,
            checks::args_view(args@),
            text::strs_view(allowed_statuses@),
            usage@,
        ),
{
    let flags = match read_fields(args) {
        Ok(flags) => flags,
        Err(reason) => {
            return Err(complaint::die_usage(entry, usage, reason.as_str()));
        },
    };
    if flags.title.is_none() && flags.body.is_none() && flags.status.is_none() {
        return Err(complaint::die_usage(entry, usage, "no fields provided"));
    }
    if let Some(status) = &flags.status {
        if !is_allowed(status.as_str(), allowed_statuses) {
            let mut reason = "invalid status '".to_owned();
            reason.append(status.as_str());
            reason.append("'; allowed: ");
            reason.append(text::join_strs(allowed_statuses, "|").as_str());
            return Err(complaint::die_usage(entry, usage, reason.as_str()));
        }
    }
    if let Some(title) = &flags.title {
        if let Err(line) = checks::validate_title(entry, title.as_str()) {
            return Err(line);
        }
    }
    if let Some(body) = &flags.body {
        if let Err(line) = checks::validate_body(entry, body.as_str()) {
            return Err(line);
        }
    }
    Ok(flags)
}

// ---- what holds of the fields ----

/// What is accepted sets a field, and what it sets is proper.
pub proof fn accepted_flags_are_proper(
    entry: Seq<char>,
    args: Seq<Seq<char>>,
    allowed: Seq<Seq<char>>,
    usage: Seq<char>,
)
    ensures
        match set_flags(entry, args, allowed, usage) {
            Ok(flags) => {
                &&& flags.title is Some || flags.body is Some || flags.status is Some
                &&& flags.status is Some ==> allowed.contains(flags.status->0)
                &&& flags.title is Some ==> 1 <= text::units(flags.title->0)
                    <= checks::MAX_TITLE_LEN
                &&& flags.body is Some ==> text::units(flags.body->0) <= checks::MAX_BODY_LEN
            },
            Err(_) => true,
        },
{
}

proof fn lemma_set_fields_shift(head: Seq<Seq<char>>, rest: Seq<Seq<char>>, i: int, flags: FlagsView)
    requires
        0 <= i,
    ensures
        set_fields(head + rest, head.len() + i, flags) == set_fields(rest, i, flags),
    decreases rest.len() - i,
{
    let all = head + rest;
    let n = head.len() as int;
    if i < rest.len() {
        assert(all[n + i] == rest[i]);
        let (key, inline) = split_flag(rest[i]);
        if is_field(key) {
            if inline is Some {
                lemma_set_fields_shift(head, rest, i + 1, with_field(flags, key, inline->0));
            } else if i + 1 < rest.len() {
                assert(all[n + i + 1] == rest[i + 1]);
                lemma_set_fields_shift(head, rest, i + 2, with_field(flags, key, rest[i + 1]));
            }
        }
    }
}

proof fn lemma_field_spellings(key: Seq<char>, value: Seq<char>)
    requires
        is_field(key),
    ensures
        split_flag(key) == (key, None::<Seq<char>>),
        split_flag(key + "="@ + value) == (key, Some(value)),
{
    reveal_strlit("--title");
    reveal_strlit("--body");
    reveal_strlit("--status");
    reveal_strlit("--");
    reveal_strlit("=");
    let n = key.len() as int;
    let whole = key + "="@ + value;
    text::lemma_first_of(key, '=', n);
    assert forall|k: int| 0 <= k < n implies whole[k] != '=' by {
        assert(whole[k] == key[k]);
    }
    assert(whole[n] == '=');
    text::lemma_first_of(whole, '=', n);
    assert(whole.take(n) =~= key);
    assert(whole.skip(n + 1) =~= value);
    assert("--"@.is_prefix_of(key)) by {
        assert(key.take(2) =~= "--"@);
    }
}

/// After arguments that are complete, the next ones are read as if they were alone.
proof fn lemma_set_fields_after(head: Seq<Seq<char>>, rest: Seq<Seq<char>>, i: int, flags: FlagsView)
    requires
        0 <= i <= head.len(),
        set_fields(head, i, flags) is Ok,
    ensures
        set_fields(head + rest, i, flags) == set_fields(
            rest,
            0,
            set_fields(head, i, flags)->Ok_0,
        ),
    decreases head.len() - i,
{
    let all = head + rest;
    if i < head.len() {
        assert(all[i] == head[i]);
        let (key, inline) = split_flag(head[i]);
        if inline is Some {
            lemma_set_fields_after(head, rest, i + 1, with_field(flags, key, inline->0));
        } else {
            assert(all[i + 1] == head[i + 1]);
            lemma_set_fields_after(head, rest, i + 2, with_field(flags, key, head[i + 1]));
        }
    } else {
        lemma_set_fields_shift(head, rest, 0, flags);
    }
}

/// `--option value` and `--option=value` say the same, after any complete arguments and before
/// any others.
pub proof fn both_spellings_agree(
    head: Seq<Seq<char>>,
    key: Seq<char>,
    value: Seq<char>,
    rest: Seq<Seq<char>>,
    flags: FlagsView,
)
    requires
        is_field(key),
        set_fields(head, 0, flags) is Ok,
    ensures
        set_fields(head + (seq![key, value] + rest), 0, flags) == set_fields(
            head + (seq![key + "="@ + value] + rest),
            0,
            flags,
        ),
{
    let whole = key + "="@ + value;
    let two = seq![key, value] + rest;
    let one = seq![whole] + rest;
    let after = set_fields(head, 0, flags)->Ok_0;
    lemma_set_fields_after(head, two, 0, flags);
    lemma_set_fields_after(head, one, 0, flags);
    lemma_field_spellings(key, value);
    assert(two[0] == key && two[1] == value);
    assert(one[0] == whole);
    lemma_set_fields_shift(seq![key, value], rest, 0, with_field(after, key, value));
    lemma_set_fields_shift(seq![whole], rest, 0, with_field(after, key, value));
}

/// The change holds each field that is set, and no other.
pub proof fn patch_holds_what_is_set(flags: FlagsView)
    ensures
        patch(flags).get("title"@) == (match flags.title {
            Some(s) => Some(JsonView::Str(s)),
            None => None,
        }),
        patch(flags).get("body"@) == (match flags.body {
            Some(s) => Some(JsonView::Str(s)),
            None => None,
        }),
        patch(flags).get("status"@) == (match flags.status {
            Some(s) => Some(JsonView::Str(s)),
            None => None,
        }),
        forall|key: Seq<char>|
            key != "title"@ && key != "body"@ && key != "status"@ ==> (#[trigger] patch(flags).get(
                key,
            )) is None,
{
    reveal_strlit("title");
    reveal_strlit("body");
    reveal_strlit("status");
    assert("title"@.len() == 5);
    assert("body"@.len() == 4);
    assert("status"@.len() == 6);
    let s1 = json::kept_value(Seq::empty(), "title"@, text_value(flags.title));
    let s2 = json::kept_value(s1, "body"@, text_value(flags.body));
    json::lemma_kept_value(s1, "body"@, text_value(flags.body), "title"@);
    json::lemma_kept_value(s2, "status"@, text_value(flags.status), "title"@);
    json::lemma_kept_value(s2, "status"@, text_value(flags.status), "body"@);
    assert forall|key: Seq<char>| true implies #[trigger] json::lookup(s1, key) == (if key
        == "title"@ {
        text_value(flags.title)
    } else {
        None
    }) by {
        json::lemma_kept_value(Seq::empty(), "title"@, text_value(flags.title), key);
    }
    assert forall|key: Seq<char>| key != "body"@ implies #[trigger] json::lookup(s2, key)
        == json::lookup(s1, key) by {
        json::lemma_kept_value(s1, "body"@, text_value(flags.body), key);
    }
    assert forall|key: Seq<char>|
        key != "title"@ && key != "body"@ && key != "status"@ implies (#[trigger] patch(flags).get(
        key,
    )) is None by {
        json::lemma_kept_value(s2, "status"@, text_value(flags.status), key);
        assert(json::lookup(s2, key) == json::lookup(s1, key));
    }
    if flags.body is None {
        assert(json::lookup(s1, "body"@) is None);
    }
    assert(json::lookup(s1, "status"@) is None);
    assert(json::lookup(s2, "status"@) == json::lookup(s1, "status"@));
}

// ---- what the arguments set ----

/// A field with the value that an argument gives it, and whether the two are written as one
/// argument.
pub struct FieldView {
    pub key: Seq<char>,
    pub value: Seq<char>,
    pub joined: bool,
}

/// The arguments that write a field.
pub open spec fn written_field(field: FieldView) -> Seq<Seq<char>> {
    if field.joined {
        seq![field.key + "="@ + field.value]
    } else {
        seq![field.key, field.value]
    }
}

/// The arguments that write some fields, one after the other.
pub open spec fn written_fields(fields: Seq<FieldView>) -> Seq<Seq<char>>
    decreases fields.len(),
{
    if fields.len() == 0 {
        Seq::empty()
    } else {
        written_fields(fields.drop_last()) + written_field(fields.last())
    }
}

/// Whether all of them are fields that there are.
pub open spec fn all_fields(fields: Seq<FieldView>) -> bool {
    forall|i: int|
        0 <= i < fields.len() ==> {
            let key = (#[trigger] fields[i]).key;
            key == "--title"@ || key == "--body"@ || key == "--status"@
        }
}

/// The last value that a field is given.
pub open spec fn last_value(fields: Seq<FieldView>, key: Seq<char>) -> Option<Seq<char>>
    decreases fields.len(),
{
    if fields.len() == 0 {
        None
    } else if fields.last().key == key {
        Some(fields.last().value)
    } else {
        last_value(fields.drop_last(), key)
    }
}

proof fn lemma_option_names()
    ensures
        "--title"@.len() == 7,
        "--body"@.len() == 6,
        "--status"@.len() == 8,
        "--"@.is_prefix_of("--title"@),
        "--"@.is_prefix_of("--body"@),
        "--"@.is_prefix_of("--status"@),
{
    reveal_strlit("--title");
    reveal_strlit("--body");
    reveal_strlit("--status");
    reveal_strlit("--");
    assert("--title"@.take(2) =~= "--"@);
    assert("--body"@.take(2) =~= "--"@);
    assert("--status"@.take(2) =~= "--"@);
}

/// After complete arguments, one more field is set to the value that it is given, and the
/// others stay as they were.
pub proof fn setting_a_field_leaves_the_others(
    head: Seq<Seq<char>>,
    field: FieldView,
    flags: FlagsView,
    before: FlagsView,
    after: FlagsView,
)
    requires
        field.key == "--title"@ || field.key == "--body"@ || field.key == "--status"@,
        set_fields(head, 0, flags) == Ok::<FlagsView, Seq<char>>(before),
    ensures
        set_fields(head + written_field(field), 0, flags) is Ok,
        set_fields(head + written_field(field), 0, flags) == Ok::<FlagsView, Seq<char>>(after)
            ==> {
            &&& after.title == (if field.key == "--title"@ {
                Some(field.value)
            } else {
                before.title
            })
            &&& after.body == (if field.key == "--body"@ {
                Some(field.value)
            } else {
                before.body
            })
            &&& after.status == (if field.key == "--status"@ {
                Some(field.value)
            } else {
                before.status
            })
        },
{
    let rest = written_field(field);
    lemma_option_names();
    lemma_field_spellings(field.key, field.value);
    lemma_set_fields_after(head, rest, 0, flags);
    reveal_with_fuel(set_fields, 3);
    if field.joined {
        assert(rest[0] == field.key + "="@ + field.value);
    } else {
        assert(rest[0] == field.key && rest[1] == field.value);
    }
}

/// Arguments that write fields, in either spelling, set each field to the last value that it is
/// given, and leave out exactly the fields that are not named.
pub proof fn last_values_count(fields: Seq<FieldView>)
    requires
        all_fields(fields),
    ensures
        set_fields(written_fields(fields), 0, no_flags()) == Ok::<FlagsView, Seq<char>>(
            FlagsView {
                title: last_value(fields, "--title"@),
                body: last_value(fields, "--body"@),
                status: last_value(fields, "--status"@),
            },
        ),
    decreases fields.len(),
{
    lemma_option_names();
    if fields.len() > 0 {
        let less = fields.drop_last();
        assert(all_fields(less)) by {
            assert forall|i: int| 0 <= i < less.len() implies {
                let key = (#[trigger] less[i]).key;
                key == "--title"@ || key == "--body"@ || key == "--status"@
            } by {
                assert(less[i] == fields[i]);
            }
        }
        last_values_count(less);
        let head = written_fields(less);
        let before = set_fields(head, 0, no_flags())->Ok_0;
        let after = set_fields(written_fields(fields), 0, no_flags())->Ok_0;
        assert(fields[fields.len() - 1] == fields.last());
        setting_a_field_leaves_the_others(head, fields.last(), no_flags(), before, after);
        assert(set_fields(head + written_field(fields.last()), 0, no_flags()) == Ok::<
            FlagsView,
            Seq<char>,
        >(after));
    }
}

proof fn lemma_split_field(arg: Seq<char>, key: Seq<char>, value: Seq<char>)
    requires
        split_flag(arg) == (key, Some(value)),
    ensures
        arg == key + "="@ + value,
{
    reveal_strlit("=");
    let k = text::first_of(arg, '=');
    text::first_of_is_the_first(arg, '=');
    assert(arg =~= key + "="@ + value);
}

proof fn lemma_written_first(field: FieldView, fields: Seq<FieldView>)
    ensures
        written_fields(seq![field] + fields) == written_field(field) + written_fields(fields),
    decreases fields.len(),
{
    let all = seq![field] + fields;
    if fields.len() == 0 {
        assert(all.drop_last() =~= Seq::<FieldView>::empty());
        assert(all.last() == field);
        assert(written_fields(all.drop_last()) =~= Seq::<Seq<char>>::empty());
        assert(written_fields(all) =~= written_field(field) + written_fields(fields));
    } else {
        lemma_written_first(field, fields.drop_last());
        assert(all.drop_last() =~= seq![field] + fields.drop_last());
        assert(all.last() == fields.last());
        assert(written_fields(all) =~= written_field(field) + written_fields(fields));
    }
}

proof fn lemma_accepted_fields(args: Seq<Seq<char>>, i: int, flags: FlagsView) -> (fields: Seq<
    FieldView,
>)
    requires
        0 <= i <= args.len(),
        set_fields(args, i, flags) is Ok,
    ensures
        all_fields(fields),
        written_fields(fields) == args.skip(i),
    decreases args.len() - i,
{
    if i >= args.len() {
        assert(args.skip(i) =~= Seq::<Seq<char>>::empty());
        Seq::empty()
    } else {
        let (key, inline) = split_flag(args[i]);
        if inline is Some {
            let field = FieldView { key, value: inline->0, joined: true };
            let more = lemma_accepted_fields(args, i + 1, with_field(flags, key, inline->0));
            lemma_split_field(args[i], key, inline->0);
            lemma_written_first(field, more);
            assert(args.skip(i) =~= written_field(field) + args.skip(i + 1));
            seq![field] + more
        } else {
            let field = FieldView { key, value: args[i + 1], joined: false };
            let more = lemma_accepted_fields(args, i + 2, with_field(flags, key, args[i + 1]));
            lemma_written_first(field, more);
            assert(args.skip(i) =~= written_field(field) + args.skip(i + 2));
            seq![field] + more
        }
    }
}

/// No other arguments are accepted than those that write fields.
pub proof fn accepted_arguments_write_fields(args: Seq<Seq<char>>)
    requires
        set_fields(args, 0, no_flags()) is Ok,
    ensures
        exists|fields: Seq<FieldView>|
            all_fields(fields) && #[trigger] written_fields(fields) == args,
{
    let fields = lemma_accepted_fields(args, 0, no_flags());
    assert(args.skip(0) =~= args);
    assert(written_fields(fields) == args);
}

/// Of arguments for two different fields the order does not matter.
pub proof fn order_of_fields_is_free(
    head: Seq<Seq<char>>,
    a: FieldView,
    b: FieldView,
    rest: Seq<Seq<char>>,
    flags: FlagsView,
)
    requires
        all_fields(seq![a, b]),
        a.key != b.key,
        set_fields(head, 0, flags) is Ok,
    ensures
        set_fields(head + written_field(a) + written_field(b) + rest, 0, flags) == set_fields(
            head + written_field(b) + written_field(a) + rest,
            0,
            flags,
        ),
{
    assert(seq![a, b][0] == a && seq![a, b][1] == b);
    let before = set_fields(head, 0, flags)->Ok_0;
    let ha = head + written_field(a);
    let hb = head + written_field(b);
    setting_a_field_leaves_the_others(head, a, flags, before, before);
    setting_a_field_leaves_the_others(head, b, flags, before, before);
    let fa = set_fields(ha, 0, flags)->Ok_0;
    let fb = set_fields(hb, 0, flags)->Ok_0;
    setting_a_field_leaves_the_others(head, a, flags, before, fa);
    setting_a_field_leaves_the_others(head, b, flags, before, fb);
    setting_a_field_leaves_the_others(ha, b, flags, fa, fa);
    setting_a_field_leaves_the_others(hb, a, flags, fb, fb);
    let fab = set_fields(ha + written_field(b), 0, flags)->Ok_0;
    let fba = set_fields(hb + written_field(a), 0, flags)->Ok_0;
    setting_a_field_leaves_the_others(ha, b, flags, fa, fab);
    setting_a_field_leaves_the_others(hb, a, flags, fb, fba);
    assert(fab == fba);
    lemma_set_fields_after(ha + written_field(b), rest, 0, flags);
    lemma_set_fields_after(hb + written_field(a), rest, 0, flags);
}

/// Why arguments are refused: after complete ones, an argument that is no option is not wanted,
/// an option that names no field is unknown, and one without a value needs one.
pub proof fn refused_arguments_are_told_why(
    head: Seq<Seq<char>>,
    x: Seq<char>,
    value: Seq<char>,
    rest: Seq<Seq<char>>,
    flags: FlagsView,
)
    requires
        set_fields(head, 0, flags) is Ok,
    ensures
        !"--"@.is_prefix_of(x) ==> set_fields(head + (seq![x] + rest), 0, flags) == Err::<
            FlagsView,
            Seq<char>,
        >("unexpected argument "@ + x),
        "--"@.is_prefix_of(x) && !x.contains('=') && x != "--title"@ && x != "--body"@ && x
            != "--status"@ ==> {
            &&& set_fields(head + (seq![x] + rest), 0, flags) == Err::<FlagsView, Seq<char>>(
                "unknown option "@ + x,
            )
            &&& set_fields(head + (seq![x + "="@ + value] + rest), 0, flags) == Err::<
                FlagsView,
                Seq<char>,
            >("unknown option "@ + x)
        },
        x == "--title"@ || x == "--body"@ || x == "--status"@ ==> set_fields(
            head + seq![x],
            0,
            flags,
        ) == Err::<FlagsView, Seq<char>>("option "@ + x + " requires an argument"@),
{
    reveal_strlit("unexpected argument");
    reveal_strlit("unexpected argument ");
    reveal_strlit("unknown option");
    reveal_strlit("unknown option ");
    reveal_strlit("option");
    reveal_strlit("option ");
    reveal_strlit("requires an argument");
    reveal_strlit(" requires an argument");
    reveal_strlit(" ");
    reveal_strlit("=");
    reveal_strlit("--");
    assert("unexpected argument"@ + " "@ =~= "unexpected argument "@);
    assert("unknown option"@ + " "@ =~= "unknown option "@);
    assert("option"@ + " "@ =~= "option "@);
    assert(" "@ + "requires an argument"@ =~= " requires an argument"@);
    lemma_option_names();
    let one = seq![x] + rest;
    let two = seq![x + "="@ + value] + rest;
    lemma_set_fields_after(head, one, 0, flags);
    lemma_set_fields_after(head, two, 0, flags);
    lemma_set_fields_after(head, seq![x], 0, flags);
    assert(one[0] == x);
    assert(two[0] == x + "="@ + value);
    text::first_of_is_the_first(x, '=');
    let k = text::first_of(x, '=');
    if !"--"@.is_prefix_of(x) {
        if "--"@.is_prefix_of(x.take(k)) {
            assert(x.subrange(0, 2) =~= x.take(k).subrange(0, 2));
        }
        assert(split_flag(x) == (x, None::<Seq<char>>));
    } else {
        if !x.contains('=') {
            if k < x.len() {
                assert(x.contains(x[k]));
            }
            assert(split_flag(x) == (x, None::<Seq<char>>));
            let whole = x + "="@ + value;
            let n = x.len() as int;
            assert forall|j: int| 0 <= j < n implies whole[j] != '=' by {
                assert(whole[j] == x[j]);
                assert(x.contains(x[j]));
            }
            assert(whole[n] == '=');
            text::lemma_first_of(whole, '=', n);
            assert(whole.take(n) =~= x);
        }
    }
    if is_field(x) {
        lemma_field_spellings(x, value);
        assert("option"@ + " "@ + x + " "@ + "requires an argument"@ =~= "option "@ + x
            + " requires an argument"@);
    }
}

/// Fields are accepted exactly where the arguments set them, at least one of them is set, the
/// state is an allowed one, the title has 1 to 200 code units, and the body at most 65536.
pub proof fn fields_are_accepted_where_proper(
    entry: Seq<char>,
    args: Seq<Seq<char>>,
    allowed: Seq<Seq<char>>,
    usage: Seq<char>,
    flags: FlagsView,
)
    ensures
        set_flags(entry, args, allowed, usage) == Ok::<FlagsView, Seq<char>>(flags) <==> {
            &&& set_fields(args, 0, no_flags()) == Ok::<FlagsView, Seq<char>>(flags)
            &&& flags.title is Some || flags.body is Some || flags.status is Some
            &&& flags.status is Some ==> allowed.contains(flags.status->0)
            &&& flags.title is Some ==> 1 <= text::units(flags.title->0) <= 200
            &&& flags.body is Some ==> text::units(flags.body->0) <= 65536
        },
{
    if flags.title is Some {
        checks::lengths_are_bounded(entry, flags.title->0);
        text::units_within_bytes(flags.title->0);
    }
    if flags.body is Some {
        checks::lengths_are_bounded(entry, flags.body->0);
    }
}

/// Why fields are refused: what is wrong with the arguments, that there is none, that the state
/// is not allowed, or that the title or else the body has no proper length.
pub proof fn refused_fields_are_told_why(
    entry: Seq<char>,
    args: Seq<Seq<char>>,
    allowed: Seq<Seq<char>>,
    usage: Seq<char>,
)
    ensures
        match set_fields(args, 0, no_flags()) {
            Err(reason) => set_flags(entry, args, allowed, usage) == Err::<FlagsView, Seq<char>>(
                complaint::usage_complaint(entry, usage, reason),
            ),
            Ok(flags) => {
                let why = set_flags(entry, args, allowed, usage);
                let bad_state = flags.status is Some && !allowed.contains(flags.status->0);
                let bad_title = flags.title is Some && !(1 <= text::units(flags.title->0) <= 200);
                &&& flags.title is None && flags.body is None && flags.status is None ==> why
                    == Err::<FlagsView, Seq<char>>(
                    complaint::usage_complaint(entry, usage, "no fields provided"@),
                )
                &&& bad_state ==> why == Err::<FlagsView, Seq<char>>(
                    complaint::usage_complaint(
                        entry,
                        usage,
                        "invalid status '"@ + flags.status->0 + "'; allowed: "@ + text::joined(
                            allowed,
                            "|"@,
                        ),
                    ),
                )
                &&& !bad_state && bad_title ==> why == Err::<FlagsView, Seq<char>>(
                    complaint::complaint(entry, "title length must be 1..200"@),
                )
                &&& !bad_state && !bad_title && flags.body is Some && text::units(flags.body->0)
                    > 65536 ==> why == Err::<FlagsView, Seq<char>>(
                    complaint::complaint(entry, "body too long (max 65536 chars)"@),
                )
            },
        },
{
    if let Ok(flags) = set_fields(args, 0, no_flags()) {
        if flags.title is Some {
            checks::lengths_are_bounded(entry, flags.title->0);
            text::units_within_bytes(flags.title->0);
        }
        if flags.body is Some {
            checks::lengths_are_bounded(entry, flags.body->0);
        }
    }
}

/// The fields are seen as they are, and so is what the parsing gives.
pub proof fn fields_are_seen_as_they_are(flags: PatchFlags, line: String)
    ensures
        flags@.title == text::option_text(flags.title),
        flags@.body == text::option_text(flags.body),
        flags@.status == text::option_text(flags.status),
        flags_result(Ok(flags)) == Ok::<FlagsView, Seq<char>>(flags@),
        flags_result(Err(line)) == Err::<FlagsView, Seq<char>>(line@),
        no_flags().title is None && no_flags().body is None && no_flags().status is None,
{
}

/// The states that specs and tasks can have.
pub proof fn states_are_these()
    ensures
        text::strs_view(SPEC_STATUSES@) == seq!["active"@, "done"@],
        text::strs_view(TASK_STATUSES@) == seq!["todo"@, "doing"@, "done"@, "blocked"@],
{
    assert(text::strs_view(SPEC_STATUSES@) =~= seq!["active"@, "done"@]);
    assert(text::strs_view(TASK_STATUSES@) =~= seq!["todo"@, "doing"@, "done"@, "blocked"@]);
}

} // verus!
