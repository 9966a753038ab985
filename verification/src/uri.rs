//! Percent-encoding of a part of a URL path.

use vstd::prelude::*;
use crate::text;

verus! {

/// The bytes that stand for themselves: letters, digits and `- _ . ! ~ * ' ( )`.
pub open spec fn is_kept(b: u8) -> bool {
    ||| 0x41 <= b <= 0x5A
    ||| 0x61 <= b <= 0x7A
    ||| 0x30 <= b <= 0x39
    ||| b == 0x2D
    ||| b == 0x5F
    ||| b == 0x2E
    ||| b == 0x21
    ||| b == 0x7E
    ||| b == 0x2A
    ||| b == 0x27
    ||| b == 0x28
    ||| b == 0x29
}

/// The upper-case hexadecimal digit of a number below 16.
pub open spec fn hex_digit(d: int) -> char {
    if d < 10 {
        (0x30 + d) as char
    } else {
        (0x41 + (d - 10)) as char
    }
}

/// What is written for a byte: itself where it is kept, else `%` and its two digits.
pub open spec fn encoded_byte(b: u8) -> Seq<char> {
    if is_kept(b) {
        seq![b as char]
    } else {
        seq!['%', hex_digit(b as int / 16), hex_digit(b as int % 16)]
    }
}

/// What is written for a row of bytes.
pub open spec fn encoded(bytes: Seq<u8>) -> Seq<char>
    decreases bytes.len(),
{
    if bytes.len() == 0 {
        Seq::empty()
    } else {
        encoded(bytes.drop_last()) + encoded_byte(bytes.last())
    }
}

/// What is written for a text: its UTF-8 bytes, encoded.
pub open spec fn uri_component(s: Seq<char>) -> Seq<char> {
    encoded(vstd::utf8::encode_utf8(s))
}

fn keep(b: u8) -> (r: bool)
    ensures
        r == is_kept(b),
{
    (0x41 <= b && b <= 0x5A) || (0x61 <= b && b <= 0x7A) || (0x30 <= b && b <= 0x39) || b == 0x2D || b
        == 0x5F || b == 0x2E || b == 0x21 || b == 0x7E || b == 0x2A || b == 0x27 || b == 0x28 || b
        == 0x29
}

fn hex(d: u8) -> (r: char)
    requires
        d < 16,
    ensures
        r == hex_digit(d as int),
{
    if d < 10 {
        (0x30 + d) as char
    } else {
        (0x41 + (d - 10)) as char
    }
}

/// The text as one part of a URL path: letters, digits and `- _ . ! ~ * ' ( )` stand for
/// themselves, every other byte of its UTF-8 encoding is written as `%` and two digits.
pub fn encode_uri_component(s: &str) -> (r: String)
    ensures
        r@ == uri_component(s@),
{
    let bytes = s.as_bytes();
    let mut out = String::new();
    let mut i: usize = 0;
    assert(bytes@.take(0) =~= Seq::<u8>::empty());
    while i < bytes.len()
        invariant
            i <= bytes.len(),
            out@ == encoded(bytes@.take(i as int)),
        decreases bytes.len() - i,
    {
        let b = bytes[i];
        let ghost before = out@;
        if keep(b) {
            out.push(b as char);
        } else {
            out.push('%');
            out.push(hex(b / 16));
            out.push(hex(b % 16));
        }
        proof {
            let now = bytes@.take(i + 1);
            assert(now.drop_last() =~= bytes@.take(i as int));
            assert(now.last() == b);
            assert(out@ =~= before + encoded_byte(b));
        }
        i += 1;
    }
    assert(bytes@.take(i as int) =~= bytes@);
    out
}

// ---- what the encoding keeps ----

/// The characters that an encoded text is made of.
pub open spec fn is_safe(c: char) -> bool {
    c == '%' || ((c as u32) < 128 && is_kept(c as u8))
}

/// An encoded text is made of `%` and of characters that stand for themselves, at most three
/// for a byte.
pub proof fn encoded_text_is_safe(bytes: Seq<u8>)
    ensures
        forall|i: int| 0 <= i < encoded(bytes).len() ==> is_safe(#[trigger] encoded(bytes)[i]),
        bytes.len() <= encoded(bytes).len() <= 3 * bytes.len(),
    decreases bytes.len(),
{
    if bytes.len() > 0 {
        let rest = encoded(bytes.drop_last());
        let last = encoded_byte(bytes.last());
        encoded_text_is_safe(bytes.drop_last());
        assert forall|i: int| 0 <= i < last.len() implies is_safe(#[trigger] last[i]) by {}
        assert forall|i: int| 0 <= i < encoded(bytes).len() implies is_safe(
            #[trigger] encoded(bytes)[i],
        ) by {
            if i < rest.len() {
                assert(encoded(bytes)[i] == rest[i]);
            } else {
                assert(encoded(bytes)[i] == last[i - rest.len()]);
            }
        }
    }
}

proof fn lemma_kept_bytes(bytes: Seq<u8>)
    requires
        forall|i: int| 0 <= i < bytes.len() ==> is_kept(#[trigger] bytes[i]),
    ensures
        encoded(bytes) == Seq::new(bytes.len(), |i: int| bytes[i] as char),
    decreases bytes.len(),
{
    if bytes.len() > 0 {
        let rest = bytes.drop_last();
        assert forall|i: int| 0 <= i < rest.len() implies is_kept(#[trigger] rest[i]) by {
            assert(rest[i] == bytes[i]);
        }
        lemma_kept_bytes(rest);
        assert(is_kept(bytes[bytes.len() - 1]));
    }
    assert(encoded(bytes) =~= Seq::new(bytes.len(), |i: int| bytes[i] as char));
}

proof fn lemma_small_char(c: char)
    requires
        (c as u32) < 128,
    ensures
        '\0' <= c <= '\u{7f}',
        (c as u8) as char == c,
{
}

/// A text of characters that stand for themselves is left as it is.
pub proof fn plain_text_is_left(s: Seq<char>)
    requires
        forall|i: int| 0 <= i < s.len() ==> is_safe(#[trigger] s[i]) && s[i] != '%',
    ensures
        uri_component(s) == s,
{
    let bytes = vstd::utf8::encode_utf8(s);
    assert forall|i: int| 0 <= i < s.len() implies '\0' <= #[trigger] s[i] <= '\u{7f}' by {
        assert(is_safe(s[i]));
        lemma_small_char(s[i]);
    }
    assert(vstd::utf8::is_ascii_chars(s));
    vstd::utf8::is_ascii_chars_encode_utf8(s);
    assert forall|i: int| 0 <= i < bytes.len() implies is_kept(#[trigger] bytes[i]) by {
        assert(s[i] as u8 == bytes[i]);
    }
    lemma_kept_bytes(bytes);
    assert forall|i: int| 0 <= i < s.len() implies #[trigger] s[i] == bytes[i] as char by {
        assert(is_safe(s[i]));
    }
    assert(encoded(bytes) =~= s);
}

/// The value of a hexadecimal digit.
pub open spec fn hex_value(c: char) -> int {
    let u = c as u32 as int;
    if u < 0x41 {
        u - 0x30
    } else {
        u - 0x41 + 10
    }
}

/// The bytes that an encoded text stands for.
pub open spec fn decoded(s: Seq<char>) -> Seq<u8>
    decreases s.len(),
{
    if s.len() == 0 {
        Seq::empty()
    } else if s[0] == '%' && s.len() >= 3 {
        seq![(hex_value(s[1]) * 16 + hex_value(s[2])) as u8] + decoded(s.skip(3))
    } else {
        seq![s[0] as u8] + decoded(s.skip(1))
    }
}

proof fn lemma_encoded_first(bytes: Seq<u8>)
    requires
        bytes.len() > 0,
    ensures
        encoded(bytes) == encoded_byte(bytes[0]) + encoded(bytes.drop_first()),
    decreases bytes.len(),
{
    if bytes.len() == 1 {
        assert(bytes.drop_last() =~= Seq::<u8>::empty());
        assert(bytes.drop_first() =~= Seq::<u8>::empty());
        assert(encoded(bytes) =~= encoded_byte(bytes[0]) + encoded(bytes.drop_first()));
    } else {
        let rest = bytes.drop_last();
        lemma_encoded_first(rest);
        assert(rest.drop_first() =~= bytes.drop_first().drop_last());
        assert(bytes.drop_first().last() == bytes.last());
        assert(encoded(bytes) =~= encoded_byte(bytes[0]) + encoded(bytes.drop_first()));
    }
}

/// Decoding gives back the bytes that were encoded.
pub proof fn decoding_undoes_encoding(bytes: Seq<u8>)
    ensures
        decoded(encoded(bytes)) == bytes,
    decreases bytes.len(),
{
    if bytes.len() > 0 {
        let b = bytes[0];
        let rest = bytes.drop_first();
        let s = encoded(bytes);
        lemma_encoded_first(bytes);
        decoding_undoes_encoding(rest);
        if is_kept(b) {
            assert(s[0] == b as char);
            assert(s.skip(1) =~= encoded(rest));
            assert(decoded(s) =~= seq![b] + rest);
        } else {
            let h = b as int / 16;
            let l = b as int % 16;
            assert(s[0] == '%' && s[1] == hex_digit(h) && s[2] == hex_digit(l));
            assert(s.skip(3) =~= encoded(rest));
            assert(hex_value(hex_digit(h)) == h);
            assert(hex_value(hex_digit(l)) == l);
            assert(decoded(s) =~= seq![b] + rest);
        }
        assert(seq![b] + rest =~= bytes);
    }
}

/// Two texts that are encoded alike are the same text.
pub proof fn encoding_tells_texts_apart(a: Seq<char>, b: Seq<char>)
    requires
        uri_component(a) == uri_component(b),
    ensures
        a == b,
{
    decoding_undoes_encoding(vstd::utf8::encode_utf8(a));
    decoding_undoes_encoding(vstd::utf8::encode_utf8(b));
    vstd::utf8::encode_utf8_decode_utf8(a);
    vstd::utf8::encode_utf8_decode_utf8(b);
}

// ---- how texts are encoded ----

/// The letters, the digits and the marks that stand for themselves.
pub open spec fn is_unreserved(c: char) -> bool {
    ||| 'A' <= c <= 'Z'
    ||| 'a' <= c <= 'z'
    ||| '0' <= c <= '9'
    ||| c == '-' || c == '_' || c == '.' || c == '!' || c == '~' || c == '*' || c == '\'' || c == '('
        || c == ')'
}

proof fn lemma_encoded_concat(a: Seq<u8>, b: Seq<u8>)
    ensures
        encoded(a + b) == encoded(a) + encoded(b),
    decreases b.len(),
{
    if b.len() == 0 {
        assert(a + b =~= a);
        assert(encoded(a) + encoded(b) =~= encoded(a));
    } else {
        lemma_encoded_concat(a, b.drop_last());
        assert((a + b).drop_last() =~= a + b.drop_last());
        assert(encoded(a + b) =~= encoded(a) + encoded(b));
    }
}

/// Texts are encoded piece by piece.
pub proof fn encoding_goes_piece_by_piece(a: Seq<char>, b: Seq<char>)
    ensures
        uri_component(a + b) == uri_component(a) + uri_component(b),
{
    text::lemma_encode_concat(a, b);
    lemma_encoded_concat(vstd::utf8::encode_utf8(a), vstd::utf8::encode_utf8(b));
}

/// A letter, a digit or one of the marks stands for itself.
pub proof fn unreserved_characters_stand(c: char)
    requires
        is_unreserved(c),
    ensures
        uri_component(seq![c]) == seq![c],
{
    assert(is_safe(c) && c != '%');
    plain_text_is_left(seq![c]);
}

/// Whether a text is `%` and the two hexadecimal digits of a byte, the upper one first.
pub open spec fn is_escape(s: Seq<char>, b: u8) -> bool {
    s == seq!['%', "0123456789ABCDEF"@[b as int / 16], "0123456789ABCDEF"@[b as int % 16]]
}

/// Every byte of any other character is written as `%` and its two hexadecimal digits, the upper
/// one first, in upper case.
pub proof fn other_characters_are_escaped(c: char)
    requires
        !is_unreserved(c),
    ensures
        ({
            let bytes = vstd::utf8::encode_utf8(seq![c]);
            &&& uri_component(seq![c]).len() == 3 * bytes.len()
            &&& forall|i: int|
                0 <= i < bytes.len() ==> is_escape(
                    uri_component(seq![c]).subrange(3 * i, 3 * i + 3),
                    #[trigger] bytes[i],
                )
        }),
{
    let bytes = vstd::utf8::encode_utf8(seq![c]);
    assert(seq![c].drop_first() =~= Seq::<char>::empty());
    assert(vstd::utf8::encode_utf8(Seq::<char>::empty()) =~= Seq::<u8>::empty());
    assert(bytes =~= vstd::utf8::encode_scalar(c as u32));
    assert forall|i: int| 0 <= i < bytes.len() implies !is_kept(#[trigger] bytes[i]) by {
        lemma_scalar_bytes(c as u32, i);
    }
    lemma_escaped(bytes);
}

/// Of the bytes of a character, only that of an ASCII character is below 128.
proof fn lemma_scalar_bytes(u: u32, i: int)
    requires
        vstd::utf8::is_scalar(u),
        0 <= i < vstd::utf8::encode_scalar(u).len(),
    ensures
        u < 128 ==> vstd::utf8::encode_scalar(u)[i] == u,
        u >= 128 ==> vstd::utf8::encode_scalar(u)[i] >= 128,
{
    assert(u < 128 ==> (u & 0x7F) as u8 == u) by (bit_vector);
    assert(0xC0u8 | ((u >> 6) & 0x1F) as u8 >= 128) by (bit_vector);
    assert(0xE0u8 | ((u >> 12) & 0x0F) as u8 >= 128) by (bit_vector);
    assert(0xF0u8 | ((u >> 18) & 0x7) as u8 >= 128) by (bit_vector);
    assert(0x80u8 | (u & 0x3F) as u8 >= 128) by (bit_vector);
    assert(0x80u8 | ((u >> 6) & 0x3F) as u8 >= 128) by (bit_vector);
    assert(0x80u8 | ((u >> 12) & 0x3F) as u8 >= 128) by (bit_vector);
}

proof fn lemma_escaped(bytes: Seq<u8>)
    requires
        forall|i: int| 0 <= i < bytes.len() ==> !is_kept(#[trigger] bytes[i]),
    ensures
        encoded(bytes).len() == 3 * bytes.len(),
        forall|i: int|
            0 <= i < bytes.len() ==> is_escape(
                encoded(bytes).subrange(3 * i, 3 * i + 3),
                #[trigger] bytes[i],
            ),
    decreases bytes.len(),
{
    reveal_strlit("0123456789ABCDEF");
    if bytes.len() > 0 {
        let rest = bytes.drop_last();
        let b = bytes.last();
        assert(bytes[bytes.len() - 1] == b);
        assert forall|i: int| 0 <= i < rest.len() implies !is_kept(#[trigger] rest[i]) by {
            assert(rest[i] == bytes[i]);
        }
        lemma_escaped(rest);
        lemma_hex_digit(b as int / 16);
        lemma_hex_digit(b as int % 16);
        assert forall|i: int| 0 <= i < bytes.len() implies is_escape(
            encoded(bytes).subrange(3 * i, 3 * i + 3),
            #[trigger] bytes[i],
        ) by {
            if i < rest.len() {
                assert(rest[i] == bytes[i]);
                assert(encoded(bytes).subrange(3 * i, 3 * i + 3) =~= encoded(rest).subrange(
                    3 * i,
                    3 * i + 3,
                ));
            } else {
                assert(encoded(bytes).subrange(3 * i, 3 * i + 3) =~= encoded_byte(b));
            }
        }
    }
}

proof fn lemma_hex_digit(d: int)
    requires
        0 <= d < 16,
    ensures
        hex_digit(d) == "0123456789ABCDEF"@[d],
{
    reveal_strlit("0123456789ABCDEF");
}

} // verus!
