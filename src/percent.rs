//! Percent-decoding of request targets, by the `urlencoding` crate.

use vstd::prelude::*;
use vstd::utf8::{
    char_u32_cast, decode_utf8, decode_utf8_split, encode_scalar, encode_utf8,
    is_char_boundary_iff_not_is_continuation_byte, pop_first_scalar, valid_utf8, valid_utf8_split,
};
use crate::text::{contains, occurs_at};

verus! {

pub open spec fn is_hex_digit(b: u8) -> bool {
    (48 <= b && b <= 57) || (65 <= b && b <= 70) || (97 <= b && b <= 102)
}

pub open spec fn hex_value(b: u8) -> int {
    if 48 <= b && b <= 57 {
        b - 48
    } else if 65 <= b && b <= 70 {
        b - 55
    } else {
        b - 87
    }
}

/// Bytes with each `%XX` (two hex digits, either case) replaced by the byte
/// it names; every other byte, a `%` without two hex digits after it
/// included, is kept.
pub open spec fn percent_decode_bytes(b: Seq<u8>) -> Seq<u8>
    decreases b.len(),
{
    if b.len() == 0 {
        Seq::empty()
    } else if b.len() >= 3 && b[0] == 37 && is_hex_digit(b[1]) && is_hex_digit(b[2]) {
        seq![(16 * hex_value(b[1]) + hex_value(b[2])) as u8] + percent_decode_bytes(
            b.subrange(3, b.len() as int),
        )
    } else {
        seq![b[0]] + percent_decode_bytes(b.drop_first())
    }
}

/// The decoded text of `s`, if the decoded bytes are UTF-8.
pub open spec fn percent_decoded(s: Seq<char>) -> Option<Seq<char>> {
    let b = percent_decode_bytes(encode_utf8(s));
    if valid_utf8(b) {
        Some(decode_utf8(b))
    } else {
        None
    }
}

/// Relies on `urlencoding::decode`: percent escapes become bytes, and the
/// result is returned when those bytes are UTF-8 (its error otherwise).
#[verifier::external_body]
pub(crate) fn percent_decode(s: &str) -> (r: Option<String>)
    ensures
        match (r, percent_decoded(s@)) {
            (Some(d), Some(e)) => d@ == e,
            (None, None) => true,
            _ => false,
        },
{
    match urlencoding::decode(s) {
        Ok(d) => Some(d.into_owned()),
        Err(_) => None,
    }
}

proof fn lemma_encode_concat(a: Seq<char>, b: Seq<char>)
    ensures
        encode_utf8(a + b) == encode_utf8(a) + encode_utf8(b),
    decreases a.len(),
{
    if a.len() == 0 {
        assert(a + b =~= b);
        assert(encode_utf8(a) =~= Seq::<u8>::empty());
        assert(encode_utf8(a) + encode_utf8(b) =~= encode_utf8(b));
    } else {
        assert((a + b).drop_first() =~= a.drop_first() + b);
        assert((a + b)[0] == a[0]);
        lemma_encode_concat(a.drop_first(), b);
        assert(encode_utf8(a + b) =~= encode_utf8(a) + encode_utf8(b));
    }
}

proof fn lemma_dot_byte()
    ensures
        encode_scalar('.' as u32) == seq![46u8],
{
    assert(('.' as u32) == 46);
    assert((46u32 & 0x7f) as u8 == 46u8) by (bit_vector);
    assert(encode_scalar('.' as u32) =~= seq![46u8]);
}

/// Two dots in the text are two adjacent 46 bytes in its UTF-8 form.
proof fn lemma_dots_encoded(t: Seq<char>, i: int) -> (k: int)
    requires
        occurs_at(t, ".."@, i),
    ensures
        0 <= k && k + 1 < encode_utf8(t).len(),
        encode_utf8(t)[k] == 46u8 && encode_utf8(t)[k + 1] == 46u8,
{
    reveal_strlit("..");
    assert(t[i + 0] == '.' && t[i + 1] == '.');
    let pre = t.subrange(0, i);
    let rest = t.subrange(i, t.len() as int);
    assert(t =~= pre + rest);
    lemma_encode_concat(pre, rest);
    lemma_dot_byte();
    assert(rest[0] == '.');
    assert(rest.drop_first()[0] == '.');
    let e1 = encode_utf8(rest.drop_first());
    assert(e1 == encode_scalar('.' as u32) + encode_utf8(rest.drop_first().drop_first()));
    assert(encode_utf8(rest) == encode_scalar('.' as u32) + e1);
    let k = encode_utf8(pre).len() as int;
    assert(encode_utf8(t)[k] == encode_utf8(rest)[0]);
    assert(encode_utf8(t)[k + 1] == encode_utf8(rest)[1]);
    k
}

/// Percent-decoding keeps two adjacent 46 bytes: `.` is no hex digit, so
/// no escape can take either of them.
proof fn lemma_dots_survive_decoding(b: Seq<u8>, k: int) -> (j: int)
    requires
        0 <= k && k + 1 < b.len(),
        b[k] == 46u8 && b[k + 1] == 46u8,
    ensures
        0 <= j && j + 1 < percent_decode_bytes(b).len(),
        percent_decode_bytes(b)[j] == 46u8 && percent_decode_bytes(b)[j + 1] == 46u8,
    decreases b.len(),
{
    if b.len() >= 3 && b[0] == 37 && is_hex_digit(b[1]) && is_hex_digit(b[2]) {
        let rest = b.subrange(3, b.len() as int);
        assert(k >= 3);
        assert(rest[k - 3] == b[k] && rest[k - 2] == b[k + 1]);
        let j0 = lemma_dots_survive_decoding(rest, k - 3);
        j0 + 1
    } else if k == 0 {
        let rest = b.drop_first();
        assert(rest[0] == 46u8);
        assert(percent_decode_bytes(rest) == seq![46u8] + percent_decode_bytes(rest.drop_first()));
        0
    } else {
        let rest = b.drop_first();
        assert(rest[k - 1] == b[k] && rest[k] == b[k + 1]);
        let j0 = lemma_dots_survive_decoding(rest, k - 1);
        j0 + 1
    }
}

proof fn lemma_dot_decodes(c: Seq<u8>)
    requires
        valid_utf8(c),
        c.len() > 0,
        c[0] == 46u8,
    ensures
        decode_utf8(c) == seq!['.'] + decode_utf8(c.drop_first()),
        valid_utf8(c.drop_first()),
{
    assert((46u8 & 0x7f) as u32 == 46u32) by (bit_vector);
    assert(pop_first_scalar(c) =~= c.drop_first());
    char_u32_cast('.', 46u32);
}

/// Two adjacent 46 bytes of valid UTF-8 decode to two adjacent dots.
proof fn lemma_dots_decoded(b: Seq<u8>, k: int)
    requires
        valid_utf8(b),
        0 <= k && k + 1 < b.len(),
        b[k] == 46u8 && b[k + 1] == 46u8,
    ensures
        contains(decode_utf8(b), ".."@),
{
    reveal_strlit("..");
    is_char_boundary_iff_not_is_continuation_byte(b, k);
    valid_utf8_split(b, k);
    decode_utf8_split(b, k);
    let c = b.subrange(k, b.len() as int);
    lemma_dot_decodes(c);
    assert(c.drop_first()[0] == 46u8);
    lemma_dot_decodes(c.drop_first());
    let d = decode_utf8(b);
    let n = decode_utf8(b.subrange(0, k)).len() as int;
    assert(d[n] == '.' && d[n + 1] == '.');
    assert(occurs_at(d, ".."@, n));
}

/// Two dots written out in `t` are still there once it is decoded.
pub proof fn lemma_decoding_keeps_dots(t: Seq<char>)
    requires
        contains(t, ".."@),
    ensures
        percent_decoded(t) matches Some(d) ==> contains(d, ".."@),
{
    let i = choose|i: int| occurs_at(t, ".."@, i);
    let k = lemma_dots_encoded(t, i);
    let j = lemma_dots_survive_decoding(encode_utf8(t), k);
    let b = percent_decode_bytes(encode_utf8(t));
    if valid_utf8(b) {
        lemma_dots_decoded(b, j);
    }
}

} // verus!
