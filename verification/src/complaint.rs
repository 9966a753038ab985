//! What a command says on standard error when it gives up.

use vstd::prelude::*;
use vstd::string::StringExecFns;
use crate::text;

verus! {

/// `<entry>: <message>`, on one line.
pub open spec fn complaint(entry: Seq<char>, message: Seq<char>) -> Seq<char> {
    entry + ": "@ + text::joined(text::words(message), " "@)
}

/// A reason, with how the command is used.
pub open spec fn with_usage(reason: Seq<char>, usage: Seq<char>) -> Seq<char> {
    reason + "; usage: "@ + usage
}

/// `<entry>: <reason>; usage: <usage>`, on one line.
pub open spec fn usage_complaint(entry: Seq<char>, usage: Seq<char>, reason: Seq<char>) -> Seq<
    char,
> {
    complaint(entry, with_usage(reason, usage))
}

/// The line that `entry` gives up with: `<entry>: <message>`, with one blank for every run of
/// whitespace in the message.
pub fn die(entry: &str, message: &str) -> (r: String)
    ensures
        r@ == complaint(entry@, message@),
{
    let mut line = entry.to_owned();
    line.append(": ");
    line.append(text::collapse(message).as_str());
    line
}

/// The line that `entry` gives up with when it is not used as it should be.
pub fn die_usage(entry: &str, usage: &str, reason: &str) -> (r: String)
    ensures
        r@ == usage_complaint(entry@, usage@, reason@),
{
    let mut message = reason.to_owned();
    message.append("; usage: ");
    message.append(usage);
    die(entry, message.as_str())
}

proof fn lemma_words_hold_no_space(s: Seq<char>)
    ensures
        forall|k: int, i: int|
            #![trigger text::words(s)[k][i]]
            0 <= k < text::words(s).len() && 0 <= i < text::words(s)[k].len() ==> !text::is_space(
                text::words(s)[k][i],
            ),
        s.len() > 0 && !text::is_space(s.last()) ==> text::words(s).len() > 0,
    decreases s.len(),
{
    if s.len() > 0 {
        let rest = s.drop_last();
        let c = s.last();
        let before = text::words(rest);
        let all = text::words(s);
        lemma_words_hold_no_space(rest);
        assert forall|k: int, i: int|
            #![trigger all[k][i]]
            0 <= k < all.len() && 0 <= i < all[k].len() implies !text::is_space(all[k][i]) by {
            if text::is_space(c) {
                assert(all[k] == before[k]);
                assert(!text::is_space(before[k][i]));
            } else if rest.len() == 0 || text::is_space(rest.last()) {
                if k < before.len() {
                    assert(all[k] == before[k]);
                    assert(!text::is_space(before[k][i]));
                }
            } else if k < before.len() - 1 {
                assert(all[k] == before[k]);
                assert(!text::is_space(before[k][i]));
            } else {
                assert(all[k] == before.last().push(c));
                if i < before.last().len() {
                    assert(!text::is_space(before[before.len() - 1][i]));
                }
            }
        }
    }
}

proof fn lemma_joined_one_line(parts: Seq<Seq<char>>, sep: Seq<char>, c: char)
    requires
        forall|k: int, i: int|
            #![trigger parts[k][i]]
            0 <= k < parts.len() && 0 <= i < parts[k].len() ==> parts[k][i] != c,
        forall|i: int| 0 <= i < sep.len() ==> sep[i] != c,
    ensures
        !text::joined(parts, sep).contains(c),
    decreases parts.len(),
{
    if parts.len() == 1 {
        assert forall|i: int| 0 <= i < parts[0].len() implies parts[0][i] != c by {}
    } else if parts.len() > 1 {
        let rest = parts.drop_last();
        assert forall|k: int, i: int|
            #![trigger rest[k][i]]
            0 <= k < rest.len() && 0 <= i < rest[k].len() implies rest[k][i] != c by {
            assert(rest[k] == parts[k]);
            assert(parts[k][i] != c);
        }
        lemma_joined_one_line(rest, sep, c);
        let all = text::joined(parts, sep);
        let head = text::joined(rest, sep);
        assert forall|i: int| 0 <= i < all.len() implies all[i] != c by {
            if i < head.len() {
                assert(head[i] == all[i]);
                assert(head.contains(head[i]));
            } else if i >= head.len() + sep.len() {
                assert(parts[parts.len() - 1][i - head.len() - sep.len()] == all[i]);
            }
        }
    }
}

/// A complaint is one line, whatever the message, if the entry has no line break.
pub proof fn complaints_are_one_line(entry: Seq<char>, message: Seq<char>)
    requires
        !entry.contains('\n'),
    ensures
        !complaint(entry, message).contains('\n'),
{
    reveal_strlit(": ");
    reveal_strlit(" ");
    let parts = text::words(message);
    lemma_words_hold_no_space(message);
    assert forall|k: int, i: int|
        #![trigger parts[k][i]]
        0 <= k < parts.len() && 0 <= i < parts[k].len() implies parts[k][i] != '\n' by {
        assert(!text::is_space(text::words(message)[k][i]));
    }
    lemma_joined_one_line(parts, " "@, '\n');
    let all = complaint(entry, message);
    let tail = text::joined(parts, " "@);
    assert forall|i: int| 0 <= i < all.len() implies all[i] != '\n' by {
        if i < entry.len() {
            assert(entry[i] == all[i]);
        } else if i >= entry.len() + 2 {
            assert(tail[i - entry.len() - 2] == all[i]);
        }
    }
}

/// A complaint names who complains and says the words of the message, one blank between any two;
/// how the command is used follows a reason.
pub proof fn complaints_say_who_and_what(
    entry: Seq<char>,
    usage: Seq<char>,
    reason: Seq<char>,
    message: Seq<char>,
)
    ensures
        complaint(entry, message) == entry + ": "@ + text::joined(text::words(message), " "@),
        usage_complaint(entry, usage, reason) == complaint(entry, reason + "; usage: "@ + usage),
{
}

} // verus!
