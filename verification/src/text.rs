//! Strings as sequences of characters: measures, searching, trimming and rendering.

use vstd::prelude::*;
use vstd::string::StringExecFns;

verus! {

/// `String::push` appends one character to the string.
pub assume_specification[ String::push ](s: &mut String, c: char)
    ensures
        final(s)@ == old(s)@.push(c),
;

/// `std::str::from_utf8` gives the string that the bytes encode, and fails exactly where they
/// are no UTF-8.
#[verifier::external_body]
pub(crate) fn from_utf8(bytes: &[u8]) -> (r: Option<&str>)
    ensures
        match r {
            Some(s) => vstd::utf8::encode_utf8(s@) == bytes@,
            None => !vstd::utf8::valid_utf8(bytes@),
        },
{
    std::str::from_utf8(bytes).ok()
}

/// The string that `String::from_utf8_lossy` makes of bytes: what is no UTF-8 in them is written
/// as replacement characters.
pub uninterp spec fn lossy_text(bytes: Seq<u8>) -> Seq<char>;

/// `String::from_utf8_lossy` makes the same string of the same bytes.
#[verifier::external_body]
pub(crate) fn from_utf8_lossy(bytes: &[u8]) -> (r: String)
    ensures
        r@ == lossy_text(bytes@),
{
    String::from_utf8_lossy(bytes).into_owned()
}

/// The number of UTF-16 code units that one character takes.
pub open spec fn char_units(c: char) -> nat {
    if (c as u32) < 0x10000 {
        1
    } else {
        2
    }
}

/// The number of UTF-16 code units of a string.
pub open spec fn units(s: Seq<char>) -> nat
    decreases s.len(),
{
    if s.len() == 0 {
        0
    } else {
        units(s.drop_last()) + char_units(s.last())
    }
}

/// The number of bytes of a string in UTF-8.
pub open spec fn bytes(s: Seq<char>) -> nat {
    vstd::utf8::encode_utf8(s).len()
}

/// UTF-8 encodes a concatenation piece by piece.
pub proof fn lemma_encode_concat(a: Seq<char>, b: Seq<char>)
    ensures
        vstd::utf8::encode_utf8(a + b) == vstd::utf8::encode_utf8(a) + vstd::utf8::encode_utf8(b),
    decreases a.len(),
{
    if a.len() == 0 {
        assert(a + b =~= b);
        assert(vstd::utf8::encode_utf8(a + b) =~= vstd::utf8::encode_utf8(a) + vstd::utf8::encode_utf8(b));
    } else {
        lemma_encode_concat(a.drop_first(), b);
        assert((a + b).drop_first() =~= a.drop_first() + b);
        assert(vstd::utf8::encode_utf8(a + b) =~= vstd::utf8::encode_utf8(a) + vstd::utf8::encode_utf8(b));
    }
}

/// The UTF-8 length grows with each character by what that character takes.
pub proof fn lemma_bytes_push(s: Seq<char>, c: char)
    ensures
        bytes(s.push(c)) == bytes(s) + vstd::utf8::encode_scalar(c as u32).len(),
        char_units(c) <= vstd::utf8::encode_scalar(c as u32).len() <= 3 * char_units(c),
{
    lemma_encode_concat(s, seq![c]);
    assert(s.push(c) =~= s + seq![c]);
    assert(seq![c].drop_first() =~= Seq::<char>::empty());
    assert(vstd::utf8::encode_utf8(Seq::<char>::empty()) =~= Seq::<u8>::empty());
    assert(vstd::utf8::encode_utf8(seq![c]) =~= vstd::utf8::encode_scalar(c as u32));
}

pub proof fn lemma_bytes_concat(a: Seq<char>, b: Seq<char>)
    ensures
        bytes(a + b) == bytes(a) + bytes(b),
{
    lemma_encode_concat(a, b);
}

/// A string never has more UTF-16 code units than UTF-8 bytes, and at most three bytes for
/// each unit.
pub proof fn units_within_bytes(s: Seq<char>)
    ensures
        s.len() <= units(s),
        units(s) <= bytes(s),
        bytes(s) <= 3 * units(s),
    decreases s.len(),
{
    if s.len() > 0 {
        units_within_bytes(s.drop_last());
        lemma_bytes_push(s.drop_last(), s.last());
        assert(s.drop_last().push(s.last()) =~= s);
    }
}

pub proof fn lemma_units_concat(a: Seq<char>, b: Seq<char>)
    ensures
        units(a + b) == units(a) + units(b),
    decreases b.len(),
{
    if b.len() == 0 {
        assert(a + b =~= a);
    } else {
        lemma_units_concat(a, b.drop_last());
        assert((a + b).drop_last() =~= a + b.drop_last());
    }
}

/// A longer prefix has at least as many UTF-16 code units.
pub proof fn lemma_units_prefix(s: Seq<char>, i: int, j: int)
    requires
        0 <= i <= j <= s.len(),
    ensures
        units(s.take(i)) <= units(s.take(j)),
{
    lemma_units_concat(s.take(i), s.subrange(i, j));
    assert(s.take(i) + s.subrange(i, j) =~= s.take(j));
}

/// A character takes at most four bytes.
pub proof fn lemma_bytes_by_chars(s: Seq<char>)
    ensures
        bytes(s) <= 4 * s.len(),
    decreases s.len(),
{
    if s.len() > 0 {
        lemma_bytes_by_chars(s.drop_last());
        lemma_bytes_push(s.drop_last(), s.last());
        assert(s.drop_last().push(s.last()) =~= s);
    }
}

/// The characters of a string.
pub fn chars_of(s: &str) -> (chars: Vec<char>)
    ensures
        chars@ == s@,
{
    let mut chars: Vec<char> = Vec::new();
    for c in it: s.chars()
        invariant
            it.seq() == s@,
            chars@ == s@.take(it.index()),
    {
        chars.push(c);
        assert(s@.take(it.index() + 1) =~= s@.take(it.index()).push(c));
    }
    assert(s@.take(s@.len() as int) =~= s@);
    chars
}

/// The string made of the characters from `from` up to `to`.
pub fn string_of(chars: &Vec<char>, from: usize, to: usize) -> (s: String)
    requires
        from <= to <= chars@.len(),
    ensures
        s@ == chars@.subrange(from as int, to as int),
{
    let mut s = String::new();
    let mut i: usize = from;
    assert(s@ =~= chars@.subrange(from as int, i as int));
    while i < to
        invariant
            from <= i <= to <= chars@.len(),
            s@ == chars@.subrange(from as int, i as int),
        decreases to - i,
    {
        s.push(chars[i]);
        i += 1;
        assert(s@ =~= chars@.subrange(from as int, i as int));
    }
    s
}

/// The number of bytes of `s`.
pub fn byte_len(s: &str) -> (n: usize)
    ensures
        n == bytes(s@),
{
    s.as_bytes().len()
}

/// The number of UTF-16 code units of `s`.
pub fn len16(s: &str) -> (n: usize)
    ensures
        n == units(s@),
{
    let total = byte_len(s);
    proof {
        units_within_bytes(s@);
    }
    let mut n: usize = 0;
    for c in it: s.chars()
        invariant
            it.seq() == s@,
            n == units(s@.take(it.index())),
            units(s@) <= total,
    {
        proof {
            let done = s@.take(it.index() + 1);
            assert(done.drop_last() =~= s@.take(it.index()));
            assert(done.last() == c);
            lemma_units_concat(done, s@.skip(it.index() + 1));
            assert(done + s@.skip(it.index() + 1) =~= s@);
        }
        n = n + char_width(c);
    }
    assert(s@.take(s@.len() as int) =~= s@);
    n
}

/// The number of UTF-16 code units of `c`.
pub fn char_width(c: char) -> (n: usize)
    ensures
        n == char_units(c),
{
    if (c as u32) < 0x10000 {
        1
    } else {
        2
    }
}

// ---- comparing and searching ----

/// Whether two strings hold the same characters.
pub fn same(a: &str, b: &str) -> (r: bool)
    ensures
        r == (a@ == b@),
{
    let x = a.as_bytes();
    let y = b.as_bytes();
    proof {
        vstd::utf8::encode_utf8_decode_utf8(a@);
        vstd::utf8::encode_utf8_decode_utf8(b@);
    }
    if x.len() != y.len() {
        return false;
    }
    let mut i: usize = 0;
    while i < x.len()
        invariant
            i <= x@.len() == y@.len(),
            x@ == vstd::utf8::encode_utf8(a@),
            y@ == vstd::utf8::encode_utf8(b@),
            forall|j: int| 0 <= j < i ==> x@[j] == y@[j],
        decreases x@.len() - i,
    {
        if x[i] != y[i] {
            return false;
        }
        i += 1;
    }
    assert(x@ =~= y@);
    true
}

/// The order of strings: by the first character in which they differ, and a proper prefix
/// before the longer string.
pub open spec fn precedes(a: Seq<char>, b: Seq<char>) -> bool
    decreases a.len(),
{
    if b.len() == 0 {
        false
    } else if a.len() == 0 {
        true
    } else if a[0] == b[0] {
        precedes(a.drop_first(), b.drop_first())
    } else {
        a[0] < b[0]
    }
}

/// No string comes before itself.
pub proof fn precedes_is_irreflexive(a: Seq<char>)
    ensures
        !precedes(a, a),
    decreases a.len(),
{
    if a.len() > 0 {
        precedes_is_irreflexive(a.drop_first());
    }
}

/// A string that comes before a second comes before all that the second comes before.
pub proof fn precedes_is_transitive(a: Seq<char>, b: Seq<char>, c: Seq<char>)
    requires
        precedes(a, b),
        precedes(b, c),
    ensures
        precedes(a, c),
    decreases a.len(),
{
    if a.len() > 0 && a[0] == b[0] && b[0] == c[0] {
        precedes_is_transitive(a.drop_first(), b.drop_first(), c.drop_first());
    }
}

/// Of two different strings, one comes before the other.
pub proof fn precedes_is_total(a: Seq<char>, b: Seq<char>)
    ensures
        a == b || precedes(a, b) || precedes(b, a),
    decreases a.len(),
{
    if a.len() == 0 || b.len() == 0 {
        if a.len() == b.len() {
            assert(a =~= b);
        }
    } else if a[0] == b[0] {
        precedes_is_total(a.drop_first(), b.drop_first());
        if a.drop_first() == b.drop_first() {
            assert(a =~= seq![a[0]] + a.drop_first());
            assert(b =~= seq![b[0]] + b.drop_first());
        }
    }
}

/// Whether `a` comes strictly before `b`.
pub fn before(a: &str, b: &str) -> (r: bool)
    ensures
        r == precedes(a@, b@),
{
    let x = chars_of(a);
    let y = chars_of(b);
    proof {
        assert(a@.skip(0) =~= a@);
        assert(b@.skip(0) =~= b@);
    }
    let mut i: usize = 0;
    loop
        invariant
            i <= a@.len(),
            i <= b@.len(),
            x@ == a@,
            y@ == b@,
            precedes(a@, b@) == precedes(a@.skip(i as int), b@.skip(i as int)),
        decreases a@.len() - i,
    {
        if i == y.len() {
            return false;
        }
        if i == x.len() {
            return true;
        }
        if x[i] != y[i] {
            return x[i] < y[i];
        }
        assert(a@.skip(i as int).drop_first() =~= a@.skip(i + 1));
        assert(b@.skip(i as int).drop_first() =~= b@.skip(i + 1));
        i += 1;
    }
}

/// Whether `s` begins with `prefix`.
pub fn starts_with(s: &str, prefix: &str) -> (r: bool)
    ensures
        r == prefix@.is_prefix_of(s@),
{
    let x = chars_of(s);
    let p = chars_of(prefix);
    if p.len() > x.len() {
        return false;
    }
    matches_at(&x, 0, &p)
}

/// Whether `s` ends with `suffix`.
pub fn ends_with(s: &str, suffix: &str) -> (r: bool)
    ensures
        r == suffix@.is_suffix_of(s@),
{
    let x = chars_of(s);
    let p = chars_of(suffix);
    if p.len() > x.len() {
        return false;
    }
    matches_at(&x, x.len() - p.len(), &p)
}

/// Whether the characters of `p` stand in `x` from position `at` on.
fn matches_at(x: &Vec<char>, at: usize, p: &Vec<char>) -> (r: bool)
    requires
        at + p@.len() <= x@.len(),
    ensures
        r == (x@.subrange(at as int, at + p@.len()) == p@),
{
    let mut j: usize = 0;
    while j < p.len()
        invariant
            j <= p@.len(),
            at + p@.len() <= x.len(),
            forall|k: int| 0 <= k < j ==> x@[at + k] == p@[k],
        decreases p@.len() - j,
    {
        if x[at + j] != p[j] {
            assert(x@.subrange(at as int, at + p@.len())[j as int] != p@[j as int]);
            return false;
        }
        j += 1;
    }
    assert(x@.subrange(at as int, at + p@.len()) =~= p@);
    true
}

/// Whether `needle` occurs in `s`.
pub open spec fn occurs(needle: Seq<char>, s: Seq<char>) -> bool {
    exists|i: int|
        0 <= i <= s.len() - needle.len() && #[trigger] s.subrange(i, i + needle.len()) == needle
}

/// Whether `needle` occurs in `s`.
pub fn contains(s: &str, needle: &str) -> (r: bool)
    ensures
        r == occurs(needle@, s@),
{
    let x = chars_of(s);
    let p = chars_of(needle);
    if p.len() > x.len() {
        return false;
    }
    let last = x.len() - p.len();
    let mut i: usize = 0;
    loop
        invariant
            i <= last,
            last == x@.len() - p@.len(),
            x@ == s@,
            p@ == needle@,
            forall|k: int| 0 <= k < i ==> #[trigger] x@.subrange(k, k + p@.len()) != p@,
        decreases last - i,
    {
        if matches_at(&x, i, &p) {
            return true;
        }
        if i == last {
            return false;
        }
        i += 1;
    }
}

/// The position of the first `c` in `s`, or the length of `s` where it does not occur.
pub open spec fn first_of(s: Seq<char>, c: char) -> int
    decreases s.len(),
{
    if s.len() == 0 || s[0] == c {
        0
    } else {
        1 + first_of(s.drop_first(), c)
    }
}

pub proof fn lemma_first_of(s: Seq<char>, c: char, i: int)
    requires
        0 <= i <= s.len(),
        forall|k: int| 0 <= k < i ==> s[k] != c,
        i < s.len() ==> s[i] == c,
    ensures
        first_of(s, c) == i,
    decreases s.len(),
{
    if i > 0 {
        assert forall|k: int| 0 <= k < i - 1 implies s.drop_first()[k] != c by {
            assert(s.drop_first()[k] == s[k + 1]);
        }
        lemma_first_of(s.drop_first(), c, i - 1);
    }
}

/// The parts of `s` before and after its first `c`, where it has one.
pub fn split_once(s: &str, c: char) -> (r: Option<(String, String)>)
    ensures
        match r {
            Some((k, v)) => {
                let i = first_of(s@, c);
                &&& i < s@.len()
                &&& k@ == s@.take(i)
                &&& v@ == s@.skip(i + 1)
            },
            None => first_of(s@, c) == s@.len(),
        },
{
    let x = chars_of(s);
    let mut i: usize = 0;
    while i < x.len()
        invariant
            i <= x@.len(),
            x@ == s@,
            forall|k: int| 0 <= k < i ==> s@[k] != c,
        decreases x@.len() - i,
    {
        if x[i] == c {
            proof {
                lemma_first_of(s@, c, i as int);
            }
            let k = string_of(&x, 0, i);
            let v = string_of(&x, i + 1, x.len());
            assert(k@ =~= s@.take(i as int));
            assert(v@ =~= s@.skip(i + 1));
            return Some((k, v));
        }
        i += 1;
    }
    proof {
        lemma_first_of(s@, c, i as int);
    }
    None
}

/// The view of an optional string.
pub open spec fn option_text(s: Option<String>) -> Option<Seq<char>> {
    match s {
        Some(s) => Some(s@),
        None => None,
    }
}

/// The view of an optional reference to a string.
pub open spec fn ref_text(s: Option<&str>) -> Option<Seq<char>> {
    match s {
        Some(s) => Some(s@),
        None => None,
    }
}

/// The views of a row of strings.
pub open spec fn strs_view(parts: Seq<&str>) -> Seq<Seq<char>> {
    Seq::new(parts.len(), |i: int| parts[i]@)
}

/// `s` with `to` in the place of every `from`, found from the left.
pub open spec fn replaced(s: Seq<char>, from: Seq<char>, to: Seq<char>) -> Seq<char>
    decreases s.len(),
{
    if s.len() == 0 {
        Seq::empty()
    } else if from.len() > 0 && from.is_prefix_of(s) {
        to + replaced(s.skip(from.len() as int), from, to)
    } else {
        seq![s[0]] + replaced(s.drop_first(), from, to)
    }
}

/// `s` with `to` in the place of every `from`.
pub fn replace(s: &str, from: &str, to: &str) -> (r: String)
    requires
        from@.len() > 0,
    ensures
        r@ == replaced(s@, from@, to@),
{
    let x = chars_of(s);
    let p = chars_of(from);
    let mut out = String::new();
    let mut i: usize = 0;
    assert(s@.skip(0) =~= s@);
    assert(out@ + replaced(s@, from@, to@) =~= replaced(s@, from@, to@));
    while i < x.len()
        invariant
            i <= x.len(),
            x@ == s@,
            p@ == from@,
            p@.len() > 0,
            out@ + replaced(s@.skip(i as int), from@, to@) == replaced(s@, from@, to@),
        decreases x.len() - i,
    {
        let ghost rest = s@.skip(i as int);
        let ghost before = out@;
        if p.len() <= x.len() - i && matches_at(&x, i, &p) {
            proof {
                assert(rest.subrange(0, p@.len() as int) =~= x@.subrange(i as int, i + p@.len()));
                assert(rest.skip(p@.len() as int) =~= s@.skip(i + p@.len()));
                assert(before + (to@ + replaced(s@.skip(i + p@.len()), from@, to@)) =~= (before
                    + to@) + replaced(s@.skip(i + p@.len()), from@, to@));
            }
            out.append(to);
            i += p.len();
        } else {
            proof {
                if p@.len() <= rest.len() {
                    assert(rest.subrange(0, p@.len() as int) =~= x@.subrange(
                        i as int,
                        i + p@.len(),
                    ));
                }
                assert(rest.drop_first() =~= s@.skip(i + 1));
                assert(before + (seq![x@[i as int]] + replaced(s@.skip(i + 1), from@, to@))
                    =~= before.push(x@[i as int]) + replaced(s@.skip(i + 1), from@, to@));
            }
            out.push(x[i]);
            i += 1;
        }
    }
    assert(s@.skip(i as int) =~= Seq::<char>::empty());
    assert(out@ =~= replaced(s@, from@, to@));
    out
}

// ---- whitespace ----

/// The characters with the Unicode property White_Space.
pub open spec fn is_space(c: char) -> bool {
    let u = c as u32;
    ||| 0x9 <= u <= 0xD
    ||| u == 0x20
    ||| u == 0x85
    ||| u == 0xA0
    ||| u == 0x1680
    ||| 0x2000 <= u <= 0x200A
    ||| u == 0x2028
    ||| u == 0x2029
    ||| u == 0x202F
    ||| u == 0x205F
    ||| u == 0x3000
}

/// Whether `c` is whitespace.
pub fn space(c: char) -> (r: bool)
    ensures
        r == is_space(c),
{
    let u = c as u32;
    (0x9 <= u && u <= 0xD) || u == 0x20 || u == 0x85 || u == 0xA0 || u == 0x1680 || (0x2000 <= u && u
        <= 0x200A) || u == 0x2028 || u == 0x2029 || u == 0x202F || u == 0x205F || u == 0x3000
}

/// `s` without the whitespace that it begins with.
pub open spec fn trimmed_start(s: Seq<char>) -> Seq<char>
    decreases s.len(),
{
    if s.len() > 0 && is_space(s[0]) {
        trimmed_start(s.drop_first())
    } else {
        s
    }
}

/// `s` without the whitespace that it ends with.
pub open spec fn trimmed_end(s: Seq<char>) -> Seq<char>
    decreases s.len(),
{
    if s.len() > 0 && is_space(s.last()) {
        trimmed_end(s.drop_last())
    } else {
        s
    }
}

/// `s` without the whitespace around it.
pub open spec fn trimmed(s: Seq<char>) -> Seq<char> {
    trimmed_end(trimmed_start(s))
}

/// `s` without the whitespace around it.
pub fn trim(s: &str) -> (r: String)
    ensures
        r@ == trimmed(s@),
{
    let x = chars_of(s);
    let mut i: usize = 0;
    assert(s@.skip(0) =~= s@);
    while i < x.len() && space(x[i])
        invariant
            i <= x@.len(),
            x@ == s@,
            trimmed_start(s@) == trimmed_start(s@.skip(i as int)),
        decreases x@.len() - i,
    {
        assert(s@.skip(i as int).drop_first() =~= s@.skip(i + 1));
        i += 1;
    }
    let ghost rest = s@.skip(i as int);
    assert(trimmed_start(s@) == rest);
    let mut j: usize = x.len();
    assert(s@.subrange(i as int, j as int) =~= rest);
    while j > i && space(x[j - 1])
        invariant
            i <= j <= x@.len(),
            x@ == s@,
            trimmed_end(rest) == trimmed_end(s@.subrange(i as int, j as int)),
        decreases j,
    {
        assert(s@.subrange(i as int, j as int).drop_last() =~= s@.subrange(i as int, j - 1));
        j -= 1;
    }
    string_of(&x, i, j)
}

/// The words of `s`: its runs of characters that are not whitespace, in order.
pub open spec fn words(s: Seq<char>) -> Seq<Seq<char>>
    decreases s.len(),
{
    if s.len() == 0 {
        Seq::empty()
    } else {
        let rest = s.drop_last();
        let c = s.last();
        if is_space(c) {
            words(rest)
        } else if rest.len() == 0 || is_space(rest.last()) {
            words(rest).push(seq![c])
        } else {
            words(rest).drop_last().push(words(rest).last().push(c))
        }
    }
}

/// The parts one after the other, with `sep` between any two.
pub open spec fn joined(parts: Seq<Seq<char>>, sep: Seq<char>) -> Seq<char>
    decreases parts.len(),
{
    if parts.len() == 0 {
        Seq::empty()
    } else if parts.len() == 1 {
        parts[0]
    } else {
        joined(parts.drop_last(), sep) + sep + parts.last()
    }
}

proof fn lemma_words_nonempty(s: Seq<char>)
    requires
        s.len() > 0,
        !is_space(s.last()),
    ensures
        words(s).len() > 0,
{
}

/// The words of `s`, one blank between any two.
pub fn collapse(s: &str) -> (r: String)
    ensures
        r@ == joined(words(s@), " "@),
{
    let mut out = String::new();
    let mut pending = false;
    let mut empty = true;
    proof {
        reveal_strlit(" ");
    }
    for c in it: s.chars()
        invariant
            it.seq() == s@,
            " "@ =~= seq![' '],
            out@ == joined(words(s@.take(it.index())), " "@),
            empty == (words(s@.take(it.index())).len() == 0),
            pending == (it.index() > 0 && is_space(s@[it.index() - 1])),
    {
        let ghost done = s@.take(it.index());
        let ghost next = s@.take(it.index() + 1);
        let ghost before = out@;
        proof {
            assert(next.drop_last() =~= done);
            assert(next.last() == c);
            if it.index() > 0 {
                assert(done.last() == s@[it.index() - 1]);
                if !is_space(done.last()) {
                    lemma_words_nonempty(done);
                }
            }
        }
        if space(c) {
            pending = true;
        } else {
            let ghost ws = words(done);
            if pending && !empty {
                out.push(' ');
            }
            out.push(c);
            proof {
                if it.index() == 0 || is_space(done.last()) {
                    let now = ws.push(seq![c]);
                    assert(words(next) == now);
                    assert(now.drop_last() =~= ws);
                    if ws.len() > 0 {
                        assert(out@ =~= joined(ws, " "@) + " "@ + seq![c]);
                    } else {
                        assert(out@ =~= seq![c]);
                    }
                } else {
                    let now = ws.drop_last().push(ws.last().push(c));
                    assert(words(next) == now);
                    assert(now.drop_last() =~= ws.drop_last());
                    if ws.len() == 1 {
                        assert(out@ =~= ws[0].push(c));
                    } else {
                        assert(out@ =~= joined(ws.drop_last(), " "@) + " "@ + ws.last().push(c));
                    }
                }
            }
            pending = false;
            empty = false;
        }
    }
    assert(s@.take(s@.len() as int) =~= s@);
    out
}

/// The parts one after the other, with `sep` between any two.
pub fn join_strs(parts: &[&str], sep: &str) -> (r: String)
    ensures
        r@ == joined(strs_view(parts@), sep@),
{
    let ghost all = strs_view(parts@);
    let mut out = String::new();
    let mut i: usize = 0;
    assert(all.take(0) =~= Seq::<Seq<char>>::empty());
    while i < parts.len()
        invariant
            i <= parts.len(),
            all == strs_view(parts@),
            out@ == joined(all.take(i as int), sep@),
        decreases parts.len() - i,
    {
        let ghost before = out@;
        if i > 0 {
            out.append(sep);
        }
        out.append(parts[i]);
        proof {
            let now = all.take(i + 1);
            assert(now.drop_last() =~= all.take(i as int));
            assert(now.last() == parts@[i as int]@);
            if i == 0 {
                assert(out@ =~= now[0]);
            } else {
                assert(out@ =~= before + sep@ + now.last());
            }
        }
        i += 1;
    }
    assert(all.take(i as int) =~= all);
    out
}

// ---- numbers ----

/// The character of a decimal digit.
pub open spec fn digit(d: int) -> char {
    (48 + d) as char
}

/// A number in decimal, without leading zeros.
pub open spec fn decimal(n: nat) -> Seq<char>
    decreases n,
{
    if n < 10 {
        seq![digit(n as int)]
    } else {
        decimal(n / 10).push(digit((n % 10) as int))
    }
}

/// A number below a power of ten has no more digits than that power has zeros.
pub proof fn lemma_decimal_len(n: nat, d: nat)
    requires
        n < vstd::arithmetic::power::pow(10, d),
    ensures
        decimal(n).len() <= if d == 0 {
            1
        } else {
            d
        },
    decreases d,
{
    reveal(vstd::arithmetic::power::pow);
    if d > 0 && n >= 10 {
        lemma_decimal_len(n / 10, (d - 1) as nat);
    }
}

/// A number of 64 bits has at most 20 digits.
pub proof fn lemma_decimal_u64(n: u64)
    ensures
        decimal(n as nat).len() <= 20,
{
    assert(n < vstd::arithmetic::power::pow(10, 20)) by {
        reveal_with_fuel(vstd::arithmetic::power::pow, 21);
    }
    lemma_decimal_len(n as nat, 20);
}

/// `n` in decimal.
pub fn render(n: u64) -> (r: String)
    ensures
        r@ == decimal(n as nat),
    decreases n,
{
    if n < 10 {
        let mut r = String::new();
        r.push((48 + n as u8) as char);
        assert(r@ =~= decimal(n as nat));
        r
    } else {
        let mut r = render(n / 10);
        r.push((48 + (n % 10) as u8) as char);
        r
    }
}

/// Whether `c` is a decimal digit.
pub open spec fn is_digit(c: char) -> bool {
    '0' <= c <= '9'
}

/// What a row of decimal digits stands for.
pub open spec fn value_of(s: Seq<char>) -> nat
    decreases s.len(),
{
    if s.len() == 0 {
        0
    } else {
        value_of(s.drop_last()) * 10 + (s.last() as nat - 48) as nat
    }
}

/// The number that a row of decimal digits stands for, where it fits in 32 bits.
pub open spec fn digits_u32(digits: Seq<char>) -> Option<u32> {
    if digits.len() > 0 && (forall|i: int| 0 <= i < digits.len() ==> is_digit(#[trigger] digits[i]))
        && value_of(digits) <= u32::MAX {
        Some(value_of(digits) as u32)
    } else {
        None
    }
}

/// The number that `s` is in decimal, where it fits: digits, which one `+` may precede.
pub open spec fn parsed_u32(s: Seq<char>) -> Option<u32> {
    if s.len() > 0 && s[0] == '+' {
        digits_u32(s.drop_first())
    } else {
        digits_u32(s)
    }
}

proof fn lemma_value_grows(s: Seq<char>, i: int)
    requires
        0 <= i <= s.len(),
    ensures
        value_of(s.take(i)) <= value_of(s),
    decreases s.len() - i,
{
    if i < s.len() {
        lemma_value_grows(s, i + 1);
        assert(s.take(i + 1).drop_last() =~= s.take(i));
    } else {
        assert(s.take(i) =~= s);
    }
}

/// The number that `s` is in decimal, where it fits in 32 bits.
pub fn parse_u32(s: &str) -> (r: Option<u32>)
    ensures
        r == parsed_u32(s@),
{
    let x = chars_of(s);
    let start: usize = if x.len() > 0 && x[0] == '+' {
        1
    } else {
        0
    };
    let ghost digits = if s@.len() > 0 && s@[0] == '+' {
        s@.drop_first()
    } else {
        s@
    };
    assert(digits =~= s@.skip(start as int));
    if start == x.len() {
        return None;
    }
    let mut n: u64 = 0;
    let mut i: usize = start;
    assert(digits.take(0) =~= Seq::<char>::empty());
    while i < x.len()
        invariant
            start <= i <= x@.len(),
            x@ == s@,
            start <= s@.len(),
            digits == s@.skip(start as int),
            parsed_u32(s@) == digits_u32(digits),
            forall|k: int| 0 <= k < i - start ==> is_digit(#[trigger] digits[k]),
            n == value_of(digits.take(i - start)),
            n <= u32::MAX,
        decreases x@.len() - i,
    {
        let c = x[i];
        assert(digits[i - start] == c);
        if c < '0' || c > '9' {
            return None;
        }
        n = n * 10 + (c as u32 - 48) as u64;
        i += 1;
        proof {
            assert(digits.take(i - start).drop_last() =~= digits.take(i - start - 1));
            lemma_value_grows(digits, i - start);
        }
        if n > 0xFFFF_FFFF {
            return None;
        }
    }
    assert(digits.take(i - start) =~= digits);
    Some(n as u32)
}

// ---- what these functions are for ----

/// One character counts as one code unit, and as two beyond the basic plane; a string counts as
/// its characters do.
pub proof fn units_add_up(a: Seq<char>, c: char)
    ensures
        units(Seq::<char>::empty()) == 0,
        units(a.push(c)) == units(a) + (if (c as u32) < 0x10000 {
            1nat
        } else {
            2nat
        }),
{
    assert(a.push(c).drop_last() =~= a);
}

/// A string comes before another where it is a proper prefix of it, or where the first character
/// in which they differ is the smaller one.
pub proof fn order_is_by_the_first_difference(a: Seq<char>, b: Seq<char>, k: int)
    requires
        0 <= k <= a.len(),
        k <= b.len(),
        forall|i: int| 0 <= i < k ==> a[i] == b[i],
        k < a.len() && k < b.len() ==> a[k] != b[k],
    ensures
        precedes(a, b) <==> k < b.len() && (k == a.len() || a[k] < b[k]),
    decreases k,
{
    if k > 0 {
        let x = a.drop_first();
        let y = b.drop_first();
        assert forall|i: int| 0 <= i < k - 1 implies x[i] == y[i] by {
            assert(a[i + 1] == b[i + 1]);
        }
        order_is_by_the_first_difference(x, y, k - 1);
    }
}

/// A text occurs wherever it stands between two others, and only there.
pub proof fn occurrences_are_parts(needle: Seq<char>, s: Seq<char>)
    ensures
        occurs(needle, s) <==> exists|a: Seq<char>, b: Seq<char>| s == #[trigger] (a + needle + b),
{
    if occurs(needle, s) {
        let i = choose|i: int|
            0 <= i <= s.len() - needle.len() && #[trigger] s.subrange(i, i + needle.len())
                == needle;
        let a = s.take(i);
        let b = s.skip(i + needle.len());
        assert forall|k: int| 0 <= k < needle.len() implies s[i + k] == needle[k] by {
            assert(s.subrange(i, i + needle.len())[k] == s[i + k]);
        }
        assert(s =~= a + needle + b);
    }
    if exists|a: Seq<char>, b: Seq<char>| s == #[trigger] (a + needle + b) {
        let (a, b) = choose|a: Seq<char>, b: Seq<char>| s == #[trigger] (a + needle + b);
        let i = a.len() as int;
        assert(s.subrange(i, i + needle.len()) =~= needle);
    }
}

/// The position that is found is that of the character, and none before it is.
pub proof fn first_of_is_the_first(s: Seq<char>, c: char)
    ensures
        0 <= first_of(s, c) <= s.len(),
        forall|k: int| 0 <= k < first_of(s, c) ==> s[k] != c,
        first_of(s, c) < s.len() ==> s[first_of(s, c)] == c,
    decreases s.len(),
{
    if s.len() > 0 && s[0] != c {
        let rest = s.drop_first();
        first_of_is_the_first(rest, c);
        assert forall|k: int| 0 <= k < first_of(s, c) implies s[k] != c by {
            if k > 0 {
                assert(rest[k - 1] == s[k]);
            }
        }
    }
}

/// Replacing goes from the left: what is found is replaced and not looked at again, and any other
/// character stays.
pub proof fn replacing_goes_from_the_left(s: Seq<char>, from: Seq<char>, to: Seq<char>, c: char)
    requires
        from.len() > 0,
    ensures
        replaced(Seq::<char>::empty(), from, to) == Seq::<char>::empty(),
        replaced(from + s, from, to) == to + replaced(s, from, to),
        !from.is_prefix_of(seq![c] + s) ==> replaced(seq![c] + s, from, to) == seq![c] + replaced(
            s,
            from,
            to,
        ),
{
    let found = from + s;
    assert(found.subrange(0, from.len() as int) =~= from);
    assert(found.skip(from.len() as int) =~= s);
    let other = seq![c] + s;
    assert(other.drop_first() =~= s);
}

/// What does not occur is not replaced.
pub proof fn replacing_leaves_the_rest(s: Seq<char>, from: Seq<char>, to: Seq<char>)
    requires
        from.len() > 0,
        !occurs(from, s),
    ensures
        replaced(s, from, to) == s,
    decreases s.len(),
{
    if s.len() > 0 {
        if from.is_prefix_of(s) {
            assert(s.subrange(0int, 0int + from.len()) == from);
        }
        let rest = s.drop_first();
        if occurs(from, rest) {
            let i = choose|i: int|
                0 <= i <= rest.len() - from.len() && #[trigger] rest.subrange(i, i + from.len())
                    == from;
            assert(s.subrange(i + 1, i + 1 + from.len()) =~= rest.subrange(i, i + from.len()));
        }
        replacing_leaves_the_rest(rest, from, to);
        assert(seq![s[0]] + rest =~= s);
    }
}

proof fn lemma_trimmed_start(s: Seq<char>) -> (i: int)
    ensures
        0 <= i <= s.len(),
        trimmed_start(s) == s.skip(i),
        forall|k: int| 0 <= k < i ==> is_space(s[k]),
        i < s.len() ==> !is_space(s[i]),
    decreases s.len(),
{
    if s.len() > 0 && is_space(s[0]) {
        let j = lemma_trimmed_start(s.drop_first());
        assert(s.drop_first().skip(j) =~= s.skip(j + 1));
        assert forall|k: int| 0 <= k < j + 1 implies is_space(s[k]) by {
            if k > 0 {
                assert(s.drop_first()[k - 1] == s[k]);
            }
        }
        j + 1
    } else {
        assert(s.skip(0) =~= s);
        0
    }
}

proof fn lemma_trimmed_end(s: Seq<char>) -> (j: int)
    ensures
        0 <= j <= s.len(),
        trimmed_end(s) == s.take(j),
        forall|k: int| j <= k < s.len() ==> is_space(s[k]),
        j > 0 ==> !is_space(s[j - 1]),
    decreases s.len(),
{
    if s.len() > 0 && is_space(s.last()) {
        let j = lemma_trimmed_end(s.drop_last());
        assert(s.drop_last().take(j) =~= s.take(j));
        assert forall|k: int| j <= k < s.len() implies is_space(s[k]) by {
            if k < s.len() - 1 {
                assert(s.drop_last()[k] == s[k]);
            }
        }
        j
    } else {
        assert(s.take(s.len() as int) =~= s);
        s.len() as int
    }
}

/// Trimming takes the whitespace at both ends, all of it, and nothing else.
pub proof fn trimming_takes_only_whitespace(s: Seq<char>)
    ensures
        exists|i: int, j: int|
            #![trigger s.subrange(i, j)]
            {
                &&& 0 <= i <= j <= s.len()
                &&& trimmed(s) == s.subrange(i, j)
                &&& forall|k: int| 0 <= k < i ==> is_space(s[k])
                &&& forall|k: int| j <= k < s.len() ==> is_space(s[k])
                &&& i < j ==> !is_space(s[i]) && !is_space(s[j - 1])
            },
{
    let i = lemma_trimmed_start(s);
    let t = s.skip(i);
    let n = lemma_trimmed_end(t);
    let j = i + n;
    assert(t.take(n) =~= s.subrange(i, j));
    assert forall|k: int| j <= k < s.len() implies is_space(s[k]) by {
        assert(t[k - i] == s[k]);
    }
    if n > 0 {
        assert(t[n - 1] == s[j - 1]);
        if is_space(s[i]) {
            assert(false);
        }
    }
}

/// A text without whitespace is one word.
pub proof fn text_without_whitespace_is_a_word(w: Seq<char>)
    requires
        w.len() > 0,
        forall|i: int| 0 <= i < w.len() ==> !is_space(w[i]),
    ensures
        words(w) == seq![w],
        words(Seq::<char>::empty()) == Seq::<Seq<char>>::empty(),
    decreases w.len(),
{
    let rest = w.drop_last();
    if rest.len() == 0 {
        assert(seq![w.last()] =~= w);
        assert(words(rest) =~= Seq::<Seq<char>>::empty());
        assert(words(w) =~= seq![w]);
    } else {
        assert forall|i: int| 0 <= i < rest.len() implies !is_space(rest[i]) by {
            assert(rest[i] == w[i]);
        }
        text_without_whitespace_is_a_word(rest);
        assert(!is_space(w[rest.len() - 1]));
        assert(rest.push(w.last()) =~= w);
        assert(words(w) =~= seq![w]);
    }
}

/// Whitespace parts the words before it from those after it.
pub proof fn whitespace_parts_words(a: Seq<char>, c: char, b: Seq<char>)
    requires
        is_space(c),
    ensures
        words(a.push(c) + b) == words(a) + words(b),
    decreases b.len(),
{
    let all = a.push(c) + b;
    if b.len() == 0 {
        assert(all =~= a.push(c));
        assert(all.drop_last() =~= a);
        assert(words(a) + words(b) =~= words(a));
    } else {
        let rest = b.drop_last();
        let d = b.last();
        whitespace_parts_words(a, c, rest);
        assert(all.drop_last() =~= a.push(c) + rest);
        assert(all.last() == d);
        if is_space(d) {
        } else if rest.len() == 0 {
            assert(all.drop_last().last() == c);
            assert(words(rest) =~= Seq::<Seq<char>>::empty());
            assert(words(all) =~= words(a) + words(b));
        } else {
            assert(all.drop_last().last() == rest.last());
            if !is_space(rest.last()) {
                lemma_words_nonempty(rest);
                let w = words(a) + words(rest);
                assert(w.last() == words(rest).last());
                assert(w.drop_last() =~= words(a) + words(rest).drop_last());
            }
            assert(words(all) =~= words(a) + words(b));
        }
    }
}

/// Joining two rows of parts joins the two texts; a single part is the text itself.
pub proof fn joining_goes_part_by_part(a: Seq<Seq<char>>, b: Seq<Seq<char>>, sep: Seq<char>)
    ensures
        joined(Seq::<Seq<char>>::empty(), sep) == Seq::<char>::empty(),
        a.len() == 1 ==> joined(a, sep) == a[0],
        a.len() > 0 && b.len() > 0 ==> joined(a + b, sep) == joined(a, sep) + sep + joined(b, sep),
    decreases b.len(),
{
    if a.len() > 0 && b.len() > 0 {
        let all = a + b;
        let rest = b.drop_last();
        assert(all.drop_last() =~= a + rest);
        if rest.len() == 0 {
            assert(a + rest =~= a);
        } else {
            joining_goes_part_by_part(a, rest, sep);
            assert(joined(a, sep) + sep + joined(rest, sep) + sep + b.last() =~= joined(a, sep)
                + sep + (joined(rest, sep) + sep + b.last()));
        }
    }
}

/// A number in decimal is its digits, without a zero in front, and reads back as the number.
pub proof fn decimals_read_back(n: nat)
    ensures
        decimal(n).len() > 0,
        forall|i: int| 0 <= i < decimal(n).len() ==> '0' <= #[trigger] decimal(n)[i] <= '9',
        decimal(n).len() > 1 ==> decimal(n)[0] != '0',
        value_of(decimal(n)) == n,
    decreases n,
{
    let d = digit((n % 10) as int);
    if n < 10 {
        assert(decimal(n).drop_last() =~= Seq::<char>::empty());
        assert(value_of(Seq::<char>::empty()) == 0);
    } else {
        let head = decimal(n / 10);
        decimals_read_back(n / 10);
        assert(decimal(n).drop_last() =~= head);
        assert forall|i: int| 0 <= i < decimal(n).len() implies '0' <= #[trigger] decimal(n)[i]
            <= '9' by {
            if i < head.len() {
                assert(decimal(n)[i] == head[i]);
            }
        }
        assert(decimal(n)[0] == head[0]);
        if head.len() == 1 {
            assert(value_of(head.drop_last()) == 0);
        }
    }
}

/// A digit that is appended counts once, and what was before it ten times.
pub proof fn digits_count_by_tens(s: Seq<char>, d: nat)
    requires
        d < 10,
    ensures
        value_of(Seq::<char>::empty()) == 0,
        value_of(s.push((48 + d) as char)) == 10 * value_of(s) + d,
{
    assert(s.push((48 + d) as char).drop_last() =~= s);
}

/// Different numbers are written differently.
pub proof fn decimals_tell_numbers_apart(m: nat, n: nat)
    requires
        decimal(m) == decimal(n),
    ensures
        m == n,
{
    decimals_read_back(m);
    decimals_read_back(n);
}

/// A row of digits, with or without a plus sign, is read as the number that it stands for, where
/// that fits in 32 bits.
pub proof fn digits_are_read(digits: Seq<char>)
    requires
        digits.len() > 0,
        forall|i: int| 0 <= i < digits.len() ==> '0' <= #[trigger] digits[i] <= '9',
    ensures
        parsed_u32(digits) == (if value_of(digits) <= 0xFFFF_FFFF {
            Some(value_of(digits) as u32)
        } else {
            None
        }),
        parsed_u32(seq!['+'] + digits) == parsed_u32(digits),
{
    assert(digits[0] != '+');
    assert((seq!['+'] + digits).drop_first() =~= digits);
}

/// Nothing but digits, with at most one plus sign in front, is read as a number.
pub proof fn only_digits_are_read(s: Seq<char>)
    requires
        parsed_u32(s) is Some,
    ensures
        s.len() > 0,
        '0' <= s.last() <= '9',
        s[0] == '+' || '0' <= s[0] <= '9',
        forall|i: int| 1 <= i < s.len() ==> '0' <= #[trigger] s[i] <= '9',
{
    let digits = if s[0] == '+' {
        s.drop_first()
    } else {
        s
    };
    let shift = s.len() - digits.len();
    assert(is_digit(digits[0]));
    assert forall|i: int| 1 <= i < s.len() implies '0' <= #[trigger] s[i] <= '9' by {
        assert(is_digit(digits[i - shift]));
    }
    assert(is_digit(digits[digits.len() - 1]));
}

/// A number of 32 bits is read as it is written.
pub proof fn numbers_read_as_written(n: u32)
    ensures
        parsed_u32(decimal(n as nat)) == Some(n),
{
    decimals_read_back(n as nat);
    digits_are_read(decimal(n as nat));
}

// ---- characters and views ----

/// These characters are whitespace: those with the Unicode property White_Space.
pub proof fn whitespace_has_these_characters(c: char)
    ensures
        is_space(c) <==> {
            ||| c == '\t'
            ||| c == '\n'
            ||| c == '\u{b}'
            ||| c == '\u{c}'
            ||| c == '\r'
            ||| c == ' '
            ||| c == '\u{85}'
            ||| c == '\u{a0}'
            ||| c == '\u{1680}'
            ||| '\u{2000}' <= c <= '\u{200a}'
            ||| c == '\u{2028}'
            ||| c == '\u{2029}'
            ||| c == '\u{202f}'
            ||| c == '\u{205f}'
            ||| c == '\u{3000}'
        },
{
}

/// The bytes of a text are those of its UTF-8 encoding: one for a character below U+0080, two below
/// U+0800, three below U+10000, and else four.
pub proof fn bytes_are_those_of_utf8(s: Seq<char>, c: char)
    ensures
        bytes(s) == vstd::utf8::encode_utf8(s).len(),
        bytes(Seq::empty()) == 0,
        bytes(s.push(c)) == bytes(s) + (if (c as u32) < 0x80 {
            1int
        } else if (c as u32) < 0x800 {
            2
        } else if (c as u32) < 0x10000 {
            3
        } else {
            4
        }),
{
    lemma_bytes_push(s, c);
}

/// The views of optional texts, and of rows of texts, are those of the texts.
pub proof fn views_are_those_of_the_texts(s: String, t: &str, parts: Seq<&str>, i: int)
    requires
        0 <= i < parts.len(),
    ensures
        option_text(Some(s)) == Some(s@),
        option_text(None) is None,
        ref_text(Some(t)) == Some(t@),
        ref_text(None) is None,
        strs_view(parts).len() == parts.len(),
        strs_view(parts)[i] == parts[i]@,
{
}

} // verus!
