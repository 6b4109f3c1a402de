//! How the characters of a string show in its bytes, as far as they are
//! ASCII. The decoder reads bytes; its contract speaks of characters.

use vstd::prelude::*;
use vstd::utf8::*;

verus! {

/// The first byte of a scalar's encoding is below 128 exactly when the scalar
/// is, and is then the scalar itself.
proof fn lemma_first_byte(scalar: u32)
    requires
        is_scalar(scalar),
    ensures
        encode_scalar(scalar).len() >= 1,
        encode_scalar(scalar)[0] < 128 <==> scalar < 128,
        scalar < 128 ==> encode_scalar(scalar) == seq![scalar as u8],
{
    if has_width_1_encoding(scalar) {
        assert((scalar & 0x7F) as u8 == scalar as u8 && (scalar as u8) < 128) by (bit_vector)
            requires
                scalar <= 0x7F,
        ;
    } else if has_width_2_encoding(scalar) {
        assert(0xC0 | ((scalar >> 6) & 0x1F) as u8 >= 128) by (bit_vector);
    } else if has_width_3_encoding(scalar) {
        assert(0xE0 | ((scalar >> 12) & 0x0F) as u8 >= 128) by (bit_vector);
    } else {
        assert(0xF0 | ((scalar >> 18) & 0x7) as u8 >= 128) by (bit_vector);
    }
}

/// A string has at least as many bytes as characters.
pub proof fn lemma_bytes_outnumber_chars(s: Seq<char>)
    ensures
        encode_utf8(s).len() >= s.len(),
    decreases s.len(),
{
    if s.len() > 0 {
        char_is_scalar(s[0]);
        lemma_first_byte(s[0] as u32);
        lemma_bytes_outnumber_chars(s.drop_first());
    }
}

/// Where the first `k` bytes of a string are below 128, they are its first
/// `k` characters; and the byte after them, if there is one, begins the next
/// character, which is below 128 exactly when that byte is.
pub proof fn lemma_ascii_prefix(s: Seq<char>, k: int)
    requires
        0 <= k <= encode_utf8(s).len(),
        forall|j: int| 0 <= j < k ==> encode_utf8(s)[j] < 128,
    ensures
        k <= s.len(),
        forall|j: int| 0 <= j < k ==> s[j] == #[trigger] encode_utf8(s)[j] as char,
        k < encode_utf8(s).len() ==> {
            &&& k < s.len()
            &&& (encode_utf8(s)[k] < 128 <==> (s[k] as u32) < 128)
            &&& (encode_utf8(s)[k] < 128 ==> s[k] == encode_utf8(s)[k] as char)
        },
    decreases s.len(),
{
    let bytes = encode_utf8(s);
    if s.len() > 0 {
        let first = encode_scalar(s[0] as u32);
        let rest = s.drop_first();
        char_is_scalar(s[0]);
        lemma_first_byte(s[0] as u32);
        assert(bytes == first + encode_utf8(rest));
        assert(bytes[0] == first[0]);
        if bytes[0] < 128 {
            assert(first[0] == (s[0] as u32) as u8);
            assert(bytes[0] as u32 == s[0] as u32);
            char_u32_cast(s[0], s[0] as u32);
            assert(s[0] == bytes[0] as char);
        }
        if k > 0 {
            assert(bytes[0] < 128);
            assert(first.len() == 1);
            assert forall|j: int| 0 <= j < encode_utf8(rest).len() implies encode_utf8(rest)[j]
                == bytes[j + 1] by {}
            lemma_ascii_prefix(rest, k - 1);
            assert forall|j: int| 0 <= j < k implies s[j] == #[trigger] bytes[j] as char by {
                if j > 0 {
                    assert(s[j] == rest[j - 1]);
                    assert(bytes[j] == encode_utf8(rest)[j - 1]);
                }
            }
            if k < bytes.len() {
                assert(s[k] == rest[k - 1]);
                assert(bytes[k] == encode_utf8(rest)[k - 1]);
            }
        }
    }
}

} // verus!
