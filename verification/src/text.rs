//! How the bytes of an input and the text that they encode go together.

use vstd::prelude::*;
use vstd::utf8::*;

verus! {

/// The text that `bytes` encodes. It is meaningful where `bytes` is
/// well-formed UTF-8.
pub open spec fn text_of(bytes: Seq<u8>) -> Seq<char> {
    decode_utf8(bytes)
}

/// The encoding of one scalar value, alone, is well-formed and holds that one
/// character.
pub proof fn lemma_single_scalar(bytes: Seq<u8>)
    requires
        valid_first_scalar(bytes),
        bytes.len() == length_of_first_scalar(bytes),
    ensures
        valid_utf8(bytes),
        text_of(bytes) == seq![decode_first_scalar(bytes) as char],
{
    let rest = pop_first_scalar(bytes);
    assert(rest.len() == 0);
    assert(valid_utf8(rest));
    assert(decode_utf8(rest) =~= Seq::<char>::empty());
    assert(valid_utf8(bytes));
    assert(decode_utf8(bytes) =~= seq![decode_first_scalar(bytes) as char]);
}

/// Two well-formed inputs put together are well-formed, and encode the text
/// of the first followed by the text of the second.
pub proof fn lemma_text_concat(left: Seq<u8>, right: Seq<u8>)
    requires
        valid_utf8(left),
        valid_utf8(right),
    ensures
        valid_utf8(left + right),
        text_of(left + right) == text_of(left) + text_of(right),
    decreases left.len(),
{
    if left.len() == 0 {
        assert(left + right =~= right);
        assert(text_of(left) + text_of(right) =~= text_of(right));
    } else {
        let rest = pop_first_scalar(left);
        let whole = left + right;
        assert(valid_first_scalar(whole) && length_of_first_scalar(whole)
            == length_of_first_scalar(left) && decode_first_scalar(whole) == decode_first_scalar(
            left,
        )) by {
            assert(whole[0] == left[0]);
            if left.len() >= 2 {
                assert(whole[1] == left[1]);
            }
            if left.len() >= 3 {
                assert(whole[2] == left[2]);
            }
            if left.len() >= 4 {
                assert(whole[3] == left[3]);
            }
        }
        assert(pop_first_scalar(whole) =~= rest + right);
        lemma_text_concat(rest, right);
        assert(text_of(whole) =~= text_of(left) + text_of(right));
    }
}

/// Where a well-formed prefix is followed by the encoding of one more scalar
/// value, the prefix that takes it in is well-formed too, and its text is
/// longer by that one character.
pub proof fn lemma_text_step(bytes: Seq<u8>, pos: int)
    requires
        0 <= pos < bytes.len(),
        valid_utf8(bytes.take(pos)),
        valid_first_scalar(bytes.skip(pos)),
    ensures
        pos + length_of_first_scalar(bytes.skip(pos)) <= bytes.len(),
        valid_utf8(bytes.take(pos + length_of_first_scalar(bytes.skip(pos)))),
        text_of(bytes.take(pos + length_of_first_scalar(bytes.skip(pos)))) == text_of(
            bytes.take(pos),
        ).push(decode_first_scalar(bytes.skip(pos)) as char),
{
    let tail = bytes.skip(pos);
    let w = length_of_first_scalar(tail);
    let one = tail.take(w);
    assert(valid_first_scalar(one) && length_of_first_scalar(one) == w && decode_first_scalar(one)
        == decode_first_scalar(tail)) by {
        assert(one[0] == tail[0]);
        if w >= 2 {
            assert(one[1] == tail[1]);
        }
        if w >= 3 {
            assert(one[2] == tail[2]);
        }
        if w >= 4 {
            assert(one[3] == tail[3]);
        }
    }
    lemma_single_scalar(one);
    lemma_text_concat(bytes.take(pos), one);
    assert(bytes.take(pos) + one =~= bytes.take(pos + w));
    assert(text_of(bytes.take(pos)) + seq![decode_first_scalar(tail) as char] =~= text_of(
        bytes.take(pos),
    ).push(decode_first_scalar(tail) as char));
}

/// Where a well-formed prefix is followed by bytes that do not begin with the
/// encoding of a scalar value, the input is ill-formed.
pub proof fn lemma_ill_formed_after(bytes: Seq<u8>, pos: int)
    requires
        0 <= pos < bytes.len(),
        valid_utf8(bytes.take(pos)),
        !valid_first_scalar(bytes.skip(pos)),
    ensures
        !valid_utf8(bytes),
{
    assert(!valid_utf8(bytes.skip(pos)));
    partial_valid_partial_invalid_utf8(bytes, pos);
}

/// A text has no more characters than its encoding has bytes, and as many
/// exactly when every character is encoded in a single byte, that is, when
/// the text is ASCII.
pub proof fn lemma_chars_at_most_bytes(bytes: Seq<u8>)
    requires
        valid_utf8(bytes),
    ensures
        text_of(bytes).len() <= bytes.len(),
        text_of(bytes).len() == bytes.len() <==> is_ascii_chars(text_of(bytes)),
    decreases bytes.len(),
{
    if bytes.len() > 0 {
        let rest = pop_first_scalar(bytes);
        let w = length_of_first_scalar(bytes);
        let v = decode_first_scalar(bytes);
        let c = v as char;
        let text = text_of(bytes);
        lemma_chars_at_most_bytes(rest);
        lemma_first_scalar_width(bytes);
        assert(text =~= seq![c] + text_of(rest));
        assert(text[0] == c);
        if is_ascii_chars(text) {
            assert(c <= '\u{7f}');
            assert forall|i: int| 0 <= i < text_of(rest).len() implies '\0' <= #[trigger] text_of(
                rest,
            )[i] <= '\u{7f}' by {
                assert(text_of(rest)[i] == text[i + 1]);
            }
        }
        if w == 1 && is_ascii_chars(text_of(rest)) {
            assert forall|i: int| 0 <= i < text.len() implies '\0' <= #[trigger] text[i]
                <= '\u{7f}' by {
                if i > 0 {
                    assert(text[i] == text_of(rest)[i - 1]);
                }
            }
        }
    }
}

/// A well-formed first scalar value is a character, and it takes a single
/// byte exactly when it is ASCII.
pub proof fn lemma_first_scalar_width(bytes: Seq<u8>)
    requires
        valid_first_scalar(bytes),
    ensures
        is_scalar(decode_first_scalar(bytes)),
        1 <= length_of_first_scalar(bytes) <= 4,
        length_of_first_scalar(bytes) <= bytes.len(),
        length_of_first_scalar(bytes) == 1 <==> decode_first_scalar(bytes) <= 0x7f,
        (decode_first_scalar(bytes) as char) as u32 == decode_first_scalar(bytes),
{
    let b0 = bytes[0];
    if is_leading_byte_width_1(b0) {
        assert(b0 & 0x7F <= 0x7F) by (bit_vector);
    } else if is_leading_byte_width_2(b0) {
        let b1 = bytes[1];
        assert((((b0 & 0x1F) as u32) << 6) | ((b1 & 0x3f) as u32) <= 0x7FF) by (bit_vector);
    } else if is_leading_byte_width_3(b0) {
        let b1 = bytes[1];
        let b2 = bytes[2];
        assert((((b0 & 0x0F) as u32) << 12) | (((b1 & 0x3f) as u32) << 6) | ((b2 & 0x3f) as u32)
            <= 0xFFFF) by (bit_vector);
    }
}

} // verus!
