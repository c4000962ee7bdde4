//! UTF-8 helpers used when writing and reading documentation text as bytes.

use vstd::prelude::*;
use vstd::utf8::*;

verus! {

/// Encodes `c` as UTF-8 into the front of `buf` and returns the encoded bytes.
pub fn encode_char_utf8<'a>(c: char, buf: &'a mut [u8]) -> (res: &'a [u8])
    requires
        old(buf)@.len() >= 4,
    ensures
        res@ == encode_scalar(c as u32),
        final(buf)@.len() == old(buf)@.len(),
        final(buf)@.subrange(0, res@.len() as int) == res@,
{
    proof {
        char_is_scalar(c);
    }
    let c = c as u32;
    if c <= 0x7f {
        assert(c as u8 == (c & 0x7F) as u8) by (bit_vector)
            requires
                c <= 0x7f,
        ;
        buf[0] = c as u8;
        &buf[0..1]
    } else if c <= 0x7ff {
        buf[1] = 0b10000000 | (c & 0b00111111) as u8;
        buf[0] = 0b11000000 | ((c >> 6) & 0b00011111) as u8;
        &buf[0..2]
    } else if c <= 0xffff {
        buf[2] = 0b10000000 | (c & 0b00111111) as u8;
        buf[1] = 0b10000000 | ((c >> 6) & 0b00111111) as u8;
        buf[0] = 0b11100000 | ((c >> 12) & 0b00001111) as u8;
        &buf[0..3]
    } else {
        buf[3] = 0b10000000 | (c & 0b00111111) as u8;
        buf[2] = 0b10000000 | ((c >> 6) & 0b00111111) as u8;
        buf[1] = 0b10000000 | ((c >> 12) & 0b00111111) as u8;
        buf[0] = 0b11110000 | ((c >> 18) & 0b00000111) as u8;
        &buf[0..4]
    }
}

/// The number of bytes that a UTF-8 sequence starting with `first` announces, or 0 where
/// `first` cannot start a sequence.
pub open spec fn announced_width(first: u8) -> usize {
    if is_leading_byte_width_1(first) {
        1
    } else if is_leading_byte_width_2(first) {
        2
    } else if is_leading_byte_width_3(first) {
        3
    } else if is_leading_byte_width_4(first) {
        4
    } else {
        0
    }
}

/// The width in bytes of the UTF-8 sequence whose leading byte is `first` (0 when `first` is a
/// continuation byte or can never occur in UTF-8).
pub fn utf8_char_bytes(first: u8) -> (width: usize)
    ensures
        width == announced_width(first),
{
    assert((first & 0x80 == 0) == (first <= 0x7f)) by (bit_vector);
    assert((first & 0xe0 == 0xc0) == (0xc0 <= first <= 0xdf)) by (bit_vector);
    assert((first & 0xf0 == 0xe0) == (0xe0 <= first <= 0xef)) by (bit_vector);
    assert((first & 0xf8 == 0xf0) == (0xf0 <= first <= 0xf7)) by (bit_vector);
    if first & 0b10000000 == 0 {
        1
    } else if first & 0b11100000 == 0b11000000 {
        2
    } else if first & 0b11110000 == 0b11100000 {
        3
    } else if first & 0b11111000 == 0b11110000 {
        4
    } else {
        0
    }
}

/// `char::from_u32`: the `char` whose scalar value is `v`, or `None` where `v` is no Unicode
/// scalar value (above 0x10FFFF or a surrogate), as the std documentation states.
#[verifier::external_body]
fn char_from_u32(v: u32) -> (r: Option<char>)
    ensures
        r == (if is_scalar(v) { Some(v as char) } else { None::<char> }),
{
    std::char::from_u32(v)
}

/// Decodes one character from `bytes`, a leading byte followed by exactly as many
/// continuation bytes as it announces. Returns `None` where the bytes are no valid UTF-8
/// (bad continuation bytes, an overlong encoding or a surrogate).
pub fn decode_char(bytes: &[u8]) -> (r: Option<char>)
    requires
        bytes@.len() > 0,
        bytes@.len() == announced_width(bytes@[0]),
    ensures
        r is Some <==> valid_utf8(bytes@),
        valid_utf8(bytes@) ==> r == Some(decode_utf8(bytes@)[0]),
{
    let ghost b = bytes@;
    let width = bytes.len();
    let b0 = bytes[0];
    let mut i: usize = 1;
    while i < width
        invariant
            1 <= i <= width,
            width == b.len(),
            b == bytes@,
            b.len() > 0,
            width == announced_width(b[0]),
            forall|j: int| 1 <= j < i ==> is_continuation_byte(#[trigger] b[j]),
        decreases width - i,
    {
        if !(0x80 <= bytes[i] && bytes[i] <= 0xbf) {
            proof {
                assert(!is_continuation_byte(b[i as int]));
                assert(!valid_leading_and_continuation_bytes_first_codepoint(b));
                reveal_with_fuel(valid_utf8, 2);
            }
            return None;
        }
        i = i + 1;
    }
    assert(valid_leading_and_continuation_bytes_first_codepoint(b));
    let cp: u32 = if width == 1 {
        (b0 & 0x7f) as u32
    } else if width == 2 {
        (((b0 & 0x1f) as u32) << 6) | ((bytes[1] & 0x3f) as u32)
    } else if width == 3 {
        (((b0 & 0x0f) as u32) << 12) | (((bytes[1] & 0x3f) as u32) << 6) | ((bytes[2] & 0x3f) as u32)
    } else {
        (((b0 & 0x07) as u32) << 18) | (((bytes[1] & 0x3f) as u32) << 12) | (((bytes[2] & 0x3f) as u32) << 6)
            | ((bytes[3] & 0x3f) as u32)
    };
    assert(cp == decode_first_codepoint(b));
    let ok = (width != 2 || 0x80 <= cp) && (width != 3 || 0x800 <= cp) && (width != 4 || (0x10000
        <= cp && cp <= 0x10ffff)) && !(0xd800 <= cp && cp <= 0xdfff);
    proof {
        assert(length_of_first_codepoint(b) == width as int);
        assert(pop_first_scalar(b) =~= Seq::<u8>::empty());
        reveal_with_fuel(valid_utf8, 2);
        reveal_with_fuel(decode_utf8, 2);
    }
    if ok {
        assert(valid_first_scalar(b));
        assert(valid_utf8(b));
        assert(is_scalar(cp)) by {
            assert(cp <= 0x10ffff) by {
                if width == 1 {
                    assert((b0 & 0x7f) as u32 <= 0x7f) by (bit_vector);
                } else if width == 2 {
                    let c1 = bytes[1];
                    assert((((b0 & 0x1f) as u32) << 6) | ((c1 & 0x3f) as u32) <= 0x7ff) by (bit_vector);
                } else if width == 3 {
                    let c1 = bytes[1];
                    let c2 = bytes[2];
                    assert((((b0 & 0x0f) as u32) << 12) | (((c1 & 0x3f) as u32) << 6) | ((c2 & 0x3f) as u32) <= 0xffff) by (bit_vector);
                }
            }
        }
        char_from_u32(cp)
    } else {
        assert(!valid_first_scalar(b));
        None
    }
}

/// Decoding what `encode_char_utf8` wrote gives back the character: the encoding of a `char`
/// is valid UTF-8 that decodes to that `char`, and its leading byte announces its length (so
/// `decode_char` accepts it).
pub proof fn lemma_utf8_round_trip(c: char)
    ensures
        encode_scalar(c as u32).len() > 0,
        encode_scalar(c as u32).len() == announced_width(encode_scalar(c as u32)[0]),
        valid_utf8(encode_scalar(c as u32)),
        decode_utf8(encode_scalar(c as u32)) == seq![c],
{
    let s = c as u32;
    char_is_scalar(c);
    assert(encode_utf8(seq![c]) =~= encode_scalar(s)) by {
        assert(seq![c].drop_first() =~= Seq::<char>::empty());
        assert(encode_utf8(Seq::<char>::empty()) =~= Seq::<u8>::empty());
    }
    encode_utf8_valid_utf8(seq![c]);
    encode_utf8_decode_utf8(seq![c]);
    if has_width_1_encoding(s) {
        assert(0 <= s <= 0x7f ==> (s as u8) <= 0x7f) by (bit_vector);
    } else if has_width_2_encoding(s) {
        assert(0x80 <= s <= 0x7ff ==> 0xc0 <= (0xC0 | ((s >> 6) & 0x1F) as u8) <= 0xdf) by (bit_vector);
    } else if has_width_3_encoding(s) {
        assert(0x800 <= s <= 0xffff ==> 0xe0 <= (0xE0 | ((s >> 12) & 0xF) as u8) <= 0xef) by (bit_vector);
    } else {
        assert(0x10000 <= s <= 0x10ffff ==> 0xf0 <= (0xF0 | ((s >> 18) & 0x7) as u8) <= 0xf7) by (bit_vector);
    }
}

/// What reading a byte stream `b` character by character yields, each item a character or
/// (`None`) a sequence that is no UTF-8: the leading byte announces how many bytes to read;
/// a byte that cannot lead is an error by itself; a stream that ends before the announced
/// bytes ends with an error; else the bytes read are decoded (`decode_char`).
pub open spec fn stream_chars(b: Seq<u8>) -> Seq<Option<char>>
    decreases b.len(),
{
    if b.len() == 0 {
        seq![]
    } else {
        let w = announced_width(b[0]) as int;
        if w == 0 {
            seq![None::<char>] + stream_chars(b.drop_first())
        } else if b.len() < w {
            seq![None::<char>]
        } else {
            let piece = b.subrange(0, w);
            let item = if valid_utf8(piece) {
                Some(decode_utf8(piece)[0])
            } else {
                None::<char>
            };
            seq![item] + stream_chars(b.subrange(w, b.len() as int))
        }
    }
}

/// The leading byte's announced width is the length of the first code point it starts.
proof fn lemma_announced_width(b: Seq<u8>)
    requires
        b.len() > 0,
    ensures
        announced_width(b[0]) != 0 ==> length_of_first_codepoint(b) == announced_width(b[0]),
        valid_leading_and_continuation_bytes_first_codepoint(b) ==> announced_width(b[0]) != 0,
{
    let f = b[0];
    assert(is_leading_byte_width_1(f) ==> !is_leading_byte_width_2(f) && !is_leading_byte_width_3(f)
        && !is_leading_byte_width_4(f));
    assert(is_leading_byte_width_2(f) ==> !is_leading_byte_width_3(f) && !is_leading_byte_width_4(f));
    assert(is_leading_byte_width_3(f) ==> !is_leading_byte_width_4(f));
}

/// The first announced bytes of a stream start it with a valid scalar exactly when they form
/// valid UTF-8 on their own, which then decodes to that scalar.
proof fn lemma_first_piece(b: Seq<u8>)
    requires
        b.len() > 0,
        announced_width(b[0]) != 0,
        b.len() >= announced_width(b[0]),
    ensures
        valid_utf8(b.subrange(0, announced_width(b[0]) as int)) <==> valid_first_scalar(b),
        valid_first_scalar(b) ==> decode_utf8(b.subrange(0, announced_width(b[0]) as int))[0]
            == decode_first_scalar(b) as char,
        valid_first_scalar(b) ==> pop_first_scalar(b) == b.subrange(announced_width(b[0]) as int, b.len() as int),
{
    let w = announced_width(b[0]) as int;
    let piece = b.subrange(0, w);
    lemma_announced_width(b);
    lemma_announced_width(piece);
    assert(piece[0] == b[0]);
    assert(forall|k: int| 0 <= k < w ==> piece[k] == b[k]);
    assert(valid_leading_and_continuation_bytes_first_codepoint(piece) == valid_leading_and_continuation_bytes_first_codepoint(b));
    assert(valid_first_scalar(piece) == valid_first_scalar(b));
    if valid_first_scalar(b) {
        assert(length_of_first_codepoint(piece) == w);
        assert(pop_first_scalar(piece) =~= Seq::<u8>::empty());
        assert(decode_first_codepoint(piece) == decode_first_codepoint(b));
    }
    reveal_with_fuel(valid_utf8, 2);
    reveal_with_fuel(decode_utf8, 2);
}

/// Reading a whole byte stream character by character gives its characters, in order, where
/// it is valid UTF-8, and else at least one error.
pub proof fn lemma_stream_chars(b: Seq<u8>)
    ensures
        valid_utf8(b) ==> stream_chars(b) == decode_utf8(b).map_values(|c: char| Some(c)),
        !valid_utf8(b) ==> stream_chars(b).contains(None::<char>),
    decreases b.len(),
{
    if b.len() == 0 {
        assert(decode_utf8(b).map_values(|c: char| Some(c)) =~= Seq::<Option<char>>::empty());
    } else {
        let w = announced_width(b[0]) as int;
        lemma_announced_width(b);
        if w == 0 {
            assert(!valid_utf8(b));
            assert(stream_chars(b)[0] == None::<char>);
        } else if b.len() < w {
            assert(!valid_leading_and_continuation_bytes_first_codepoint(b));
            assert(!valid_utf8(b));
            assert(stream_chars(b)[0] == None::<char>);
        } else {
            let rest = b.subrange(w, b.len() as int);
            lemma_first_piece(b);
            lemma_stream_chars(rest);
            let s = stream_chars(b);
            assert(s == seq![s[0]] + stream_chars(rest));
            if valid_utf8(b) {
                assert(valid_first_scalar(b));
                assert(pop_first_scalar(b) == rest);
                assert(decode_utf8(b) == seq![decode_first_scalar(b) as char] + decode_utf8(rest));
                assert(s =~= decode_utf8(b).map_values(|c: char| Some(c)));
            } else if !valid_first_scalar(b) {
                assert(s[0] == None::<char>);
            } else {
                assert(pop_first_scalar(b) == rest);
                assert(!valid_utf8(rest));
                let k = choose|k: int| 0 <= k < stream_chars(rest).len() && stream_chars(rest)[k] == None::<char>;
                assert(s[k + 1] == None::<char>);
            }
        }
    }
}

} // verus!
