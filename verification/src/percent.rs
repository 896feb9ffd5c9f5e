//! Percent-encoding of paths for use in a URL.

use vstd::prelude::*;
use vstd::utf8::encode_utf8;

use crate::text::is_digit;

verus! {

/// The byte of an ASCII letter or digit, or of one of `-` `_` `.` `~` `/` `:`.
pub open spec fn is_plain(b: u8) -> bool {
    ||| 0x30 <= b <= 0x39
    ||| 0x41 <= b <= 0x5a
    ||| 0x61 <= b <= 0x7a
    ||| b == 0x2d
    ||| b == 0x5f
    ||| b == 0x2e
    ||| b == 0x7e
    ||| b == 0x2f
    ||| b == 0x3a
}

/// The upper-case hexadecimal digit with value `n`.
pub open spec fn hex_digit(n: int) -> char {
    if n < 10 {
        (0x30 + n) as u8 as char
    } else {
        (0x37 + n) as u8 as char
    }
}

/// The value of an upper-case hexadecimal digit.
pub open spec fn hex_value(c: char) -> int {
    if is_digit(c) {
        c as int - 0x30
    } else {
        c as int - 0x37
    }
}

/// What one byte is written as: itself, or `%` and two hexadecimal digits.
pub open spec fn encoded_byte(b: u8) -> Seq<char> {
    if is_plain(b) {
        seq![b as char]
    } else {
        seq!['%', hex_digit(b as int / 16), hex_digit(b as int % 16)]
    }
}

/// What a run of bytes is written as.
pub open spec fn encoded(bytes: Seq<u8>) -> Seq<char>
    decreases bytes.len(),
{
    if bytes.len() == 0 {
        Seq::empty()
    } else {
        encoded_byte(bytes[0]) + encoded(bytes.drop_first())
    }
}

/// The bytes that a percent-encoded text stands for.
pub open spec fn decoded(s: Seq<char>) -> Seq<u8>
    decreases s.len(),
{
    if s.len() == 0 {
        Seq::empty()
    } else if s[0] == '%' && s.len() >= 3 {
        seq![(hex_value(s[1]) * 16 + hex_value(s[2])) as u8] + decoded(s.skip(3))
    } else {
        seq![s[0] as u8] + decoded(s.drop_first())
    }
}

/// A character that stands for itself in the path of a URL, or the `%` of an escape.
pub open spec fn is_url_safe(c: char) -> bool {
    c == '%' || (c as u32 <= 0xff && is_plain(c as u8))
}

fn plain(b: u8) -> (yes: bool)
    ensures
        yes == is_plain(b),
{
    (0x30 <= b && b <= 0x39) || (0x41 <= b && b <= 0x5a) || (0x61 <= b && b <= 0x7a) || b == 0x2d
        || b == 0x5f || b == 0x2e || b == 0x7e || b == 0x2f || b == 0x3a
}

fn hex_digit_of(n: u8) -> (c: char)
    requires
        n < 16,
    ensures
        c == hex_digit(n as int),
{
    if n < 10 {
        (0x30 + n) as char
    } else {
        (0x37 + n) as char
    }
}

/// A text with every byte of its UTF-8 form that is not plain written as an escape.
pub fn percent_encode(value: &str) -> (out: String)
    ensures
        out@ == encoded(encode_utf8(value@)),
{
    let bytes = value.as_bytes();
    let mut out = String::new();
    let mut i: usize = 0;
    assert(bytes@.skip(0) == bytes@);
    while i < bytes.len()
        invariant
            i <= bytes@.len(),
            bytes@ == encode_utf8(value@),
            encoded(bytes@) == out@ + encoded(bytes@.skip(i as int)),
        decreases bytes@.len() - i,
    {
        let b = bytes[i];
        let ghost before = out@;
        if plain(b) {
            out.push(b as char);
        } else {
            out.push('%');
            out.push(hex_digit_of(b / 16));
            out.push(hex_digit_of(b % 16));
        }
        assert(out@ =~= before + encoded_byte(b));
        assert(bytes@.skip(i as int).drop_first() == bytes@.skip(i + 1));
        assert(out@ + encoded(bytes@.skip(i + 1)) =~= before + encoded(bytes@.skip(i as int)));
        i = i + 1;
    }
    assert(out@ + encoded(bytes@.skip(i as int)) =~= out@);
    out
}

/// Decoding gives back the bytes that were encoded.
pub proof fn decoding_undoes_encoding(bytes: Seq<u8>)
    ensures
        decoded(encoded(bytes)) == bytes,
    decreases bytes.len(),
{
    if bytes.len() > 0 {
        let b = bytes[0];
        let head = encoded_byte(b);
        let tail = encoded(bytes.drop_first());
        let whole = encoded(bytes);
        decoding_undoes_encoding(bytes.drop_first());
        if is_plain(b) {
            assert(whole[0] == b as char);
            assert(whole[0] != '%');
            assert(whole.drop_first() =~= tail);
            assert(whole[0] as u8 == b);
        } else {
            let high = b as int / 16;
            let low = b as int % 16;
            assert(whole[0] == '%' && whole[1] == hex_digit(high) && whole[2] == hex_digit(low));
            assert(hex_value(hex_digit(high)) == high);
            assert(hex_value(hex_digit(low)) == low);
            assert(whole.skip(3) =~= tail);
        }
        assert(decoded(whole) =~= bytes);
    }
}

/// Two texts with the same encoding are the same text.
pub proof fn encoding_is_injective(a: Seq<char>, b: Seq<char>)
    requires
        encoded(encode_utf8(a)) == encoded(encode_utf8(b)),
    ensures
        a == b,
{
    decoding_undoes_encoding(encode_utf8(a));
    decoding_undoes_encoding(encode_utf8(b));
    vstd::utf8::encode_utf8_decode_utf8(a);
    vstd::utf8::encode_utf8_decode_utf8(b);
}

/// An encoded text holds nothing but characters that are safe in a URL.
pub proof fn encoding_is_url_safe(bytes: Seq<u8>)
    ensures
        forall|i: int| 0 <= i < encoded(bytes).len() ==> is_url_safe(#[trigger] encoded(bytes)[i]),
    decreases bytes.len(),
{
    if bytes.len() > 0 {
        encoding_is_url_safe(bytes.drop_first());
        let head = encoded_byte(bytes[0]);
        assert forall|i: int| 0 <= i < encoded(bytes).len() implies is_url_safe(
            #[trigger] encoded(bytes)[i],
        ) by {
            if i < head.len() {
                assert(encoded(bytes)[i] == head[i]);
                assert(is_url_safe(head[i]));
            } else {
                assert(encoded(bytes)[i] == encoded(bytes.drop_first())[i - head.len()]);
            }
        }
    }
}

/// The bytes of one run are written before those of the next: the writing of a whole is the writings
/// of its parts.
pub proof fn encoding_goes_part_by_part(a: Seq<u8>, b: Seq<u8>)
    ensures
        encoded(a + b) == encoded(a) + encoded(b),
    decreases a.len(),
{
    if a.len() == 0 {
        assert(a + b =~= b);
        assert(encoded(a) + encoded(b) =~= encoded(b));
    } else {
        assert((a + b).drop_first() =~= a.drop_first() + b);
        encoding_goes_part_by_part(a.drop_first(), b);
        assert(encoded(a + b) =~= encoded(a) + encoded(b));
    }
}

/// The encoding of two texts joined is their encodings joined.
pub proof fn joined_texts_are_encoded_one_by_one(a: Seq<char>, b: Seq<char>)
    ensures
        encoded(encode_utf8(a + b)) == encoded(encode_utf8(a)) + encoded(encode_utf8(b)),
{
    lemma_utf8_of_joined(a, b);
    encoding_goes_part_by_part(encode_utf8(a), encode_utf8(b));
}

proof fn lemma_utf8_of_joined(a: Seq<char>, b: Seq<char>)
    ensures
        encode_utf8(a + b) == encode_utf8(a) + encode_utf8(b),
    decreases a.len(),
{
    if a.len() == 0 {
        assert(a + b =~= b);
        assert(encode_utf8(a) + encode_utf8(b) =~= encode_utf8(b));
    } else {
        assert((a + b).drop_first() =~= a.drop_first() + b);
        lemma_utf8_of_joined(a.drop_first(), b);
        assert(encode_utf8(a + b) =~= encode_utf8(a) + encode_utf8(b));
    }
}

/// An upper-case hexadecimal digit.
pub open spec fn is_hex_digit(c: char) -> bool {
    is_digit(c) || ('A' <= c && c <= 'F')
}

/// Every `%` begins an escape: two upper-case hexadecimal digits follow it.
pub proof fn escapes_are_whole(bytes: Seq<u8>)
    ensures
        forall|i: int|
            #![trigger encoded(bytes)[i]]
            0 <= i < encoded(bytes).len() && encoded(bytes)[i] == '%' ==> {
                &&& i + 2 < encoded(bytes).len()
                &&& is_hex_digit(encoded(bytes)[i + 1])
                &&& is_hex_digit(encoded(bytes)[i + 2])
            },
    decreases bytes.len(),
{
    if bytes.len() > 0 {
        let whole = encoded(bytes);
        let head = encoded_byte(bytes[0]);
        let tail = encoded(bytes.drop_first());
        escapes_are_whole(bytes.drop_first());
        assert(whole =~= head + tail);
        assert forall|i: int|
            #![trigger whole[i]]
            0 <= i < whole.len() && whole[i] == '%' implies i + 2 < whole.len() && is_hex_digit(
            whole[i + 1],
        ) && is_hex_digit(whole[i + 2]) by {
            if i < head.len() {
                assert(whole[i] == head[i]);
                assert(!is_plain(bytes[0]));
                assert(i == 0);
                assert(whole[1] == head[1] && whole[2] == head[2]);
            } else {
                let k = i - head.len();
                assert(whole[i] == tail[k]);
                assert(whole[i + 1] == tail[k + 1] && whole[i + 2] == tail[k + 2]);
            }
        }
    }
}

/// The encoding is longer than the bytes by two characters for each that is not plain.
pub proof fn escapes_add_two_characters(bytes: Seq<u8>)
    ensures
        encoded(bytes).len() == bytes.len() + 2 * bytes.filter(|b: u8| !is_plain(b)).len(),
    decreases bytes.len(),
{
    let escaped = |b: u8| !is_plain(b);
    if bytes.len() > 0 {
        let first = seq![bytes[0]];
        let rest = bytes.drop_first();
        escapes_add_two_characters(rest);
        assert(bytes =~= first + rest);
        Seq::filter_distributes_over_add(first, rest, escaped);
        assert(first.drop_last() =~= Seq::<u8>::empty());
        reveal_with_fuel(Seq::filter, 2);
    }
}

/// A run of plain bytes is written as it is.
pub proof fn plain_bytes_are_kept(bytes: Seq<u8>)
    requires
        forall|i: int| 0 <= i < bytes.len() ==> is_plain(#[trigger] bytes[i]),
    ensures
        encoded(bytes) == bytes.map_values(|b: u8| b as char),
    decreases bytes.len(),
{
    if bytes.len() > 0 {
        let rest = bytes.drop_first();
        assert forall|i: int| 0 <= i < rest.len() implies is_plain(#[trigger] rest[i]) by {
            assert(rest[i] == bytes[i + 1]);
        }
        assert(is_plain(bytes[0]));
        plain_bytes_are_kept(rest);
    }
    assert(encoded(bytes) =~= bytes.map_values(|b: u8| b as char));
}

/// One byte is written as itself where it is that of an ASCII letter, a digit or one of `-_.~/:`;
/// otherwise as `%` and its two digits to the base sixteen.
pub proof fn one_byte_is_kept_or_escaped(b: u8)
    ensures
        ({
            let c = b as char;
            let kept = 'a' <= c <= 'z' || 'A' <= c <= 'Z' || '0' <= c <= '9' || c == '-' || c == '_'
                || c == '.' || c == '~' || c == '/' || c == ':';
            let written = encoded(seq![b]);
            if kept {
                written == seq![c]
            } else {
                &&& written.len() == 3
                &&& written[0] == '%'
                &&& is_hex_digit(written[1])
                &&& is_hex_digit(written[2])
                &&& 16 * hex_value(written[1]) + hex_value(written[2]) == b
            }
        }),
        encoded(Seq::<u8>::empty()) == Seq::<char>::empty(),
        hex_value('0') == 0 && hex_value('9') == 9 && hex_value('A') == 10 && hex_value('F') == 15,
{
    let one = seq![b];
    assert(one[0] == b);
    assert(one.drop_first() =~= Seq::<u8>::empty());
    assert(encoded(one.drop_first()) =~= Seq::<char>::empty());
    assert(encoded(one) =~= encoded_byte(b));
}

} // verus!
