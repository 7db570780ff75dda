//! Text as UTF-8 bytes: decoding a byte string, and cutting a string at
//! positions that are known to lie between characters.

use vstd::prelude::*;
use vstd::utf8::{
    encode_utf8, encode_utf8_valid_utf8, is_char_boundary,
    is_char_boundary_iff_not_is_continuation_byte, is_char_boundary_start_end_of_seq, valid_utf8,
    valid_utf8_split,
};

verus! {

/// The UTF-8 bytes of each string of a sequence.
pub open spec fn bytes_of_each(texts: Seq<String>) -> Seq<Seq<u8>> {
    texts.map_values(|text: String| encode_utf8(text@))
}

/// True when `index` is the place of an ASCII byte of `bytes`, or the place
/// right after one, or one of the two ends of `bytes`.
pub open spec fn beside_ascii(bytes: Seq<u8>, index: int) -> bool {
    ||| index == 0
    ||| index == bytes.len()
    ||| 0 <= index < bytes.len() && bytes[index] < 0x80
    ||| 0 < index <= bytes.len() && bytes[index - 1] < 0x80
}

/// In UTF-8 text no character's encoding reaches across an ASCII byte, so a
/// character starts or the text ends at every place beside one.
pub proof fn lemma_boundary_beside_ascii(bytes: Seq<u8>, index: int)
    requires
        valid_utf8(bytes),
        beside_ascii(bytes, index),
    ensures
        is_char_boundary(bytes, index),
{
    is_char_boundary_start_end_of_seq(bytes);
    if 0 < index < bytes.len() {
        if bytes[index] < 0x80 {
            is_char_boundary_iff_not_is_continuation_byte(bytes, index);
        } else {
            let before = index - 1;
            is_char_boundary_iff_not_is_continuation_byte(bytes, before);
            valid_utf8_split(bytes, before);
            let tail = bytes.subrange(before, bytes.len() as int);
            let rest = tail.subrange(1, tail.len() as int);
            assert(valid_utf8(rest));
            is_char_boundary_iff_not_is_continuation_byte(bytes, index);
        }
    }
}

/// Decodes bytes as UTF-8 text.
///
/// The body calls `core::str::from_utf8`, and the contract is taken on trust
/// from what that function documents: it succeeds exactly when the bytes are
/// valid UTF-8, and the text it then gives is encoded by those same bytes.
#[verifier::external_body]
pub(crate) fn decode_text(bytes: &[u8]) -> (text: Option<&str>)
    ensures
        text is Some <==> valid_utf8(bytes@),
        text matches Some(decoded) ==> encode_utf8(decoded@) == bytes@,
{
    core::str::from_utf8(bytes).ok()
}

/// The part of `text` between two byte positions that each lie beside an
/// ASCII byte or at an end of the text.
pub(crate) fn cut<'a>(text: &'a str, from: usize, to: usize) -> (piece: &'a str)
    requires
        from <= to <= encode_utf8(text@).len(),
        beside_ascii(encode_utf8(text@), from as int),
        beside_ascii(encode_utf8(text@), to as int),
    ensures
        encode_utf8(piece@) == encode_utf8(text@).subrange(from as int, to as int),
{
    let ghost bytes = encode_utf8(text@);
    proof {
        encode_utf8_valid_utf8(text@);
        lemma_boundary_beside_ascii(bytes, to as int);
    }
    let (head, _) = text.split_at(to);
    proof {
        let head_bytes = encode_utf8(head@);
        encode_utf8_valid_utf8(head@);
        lemma_boundary_beside_ascii(head_bytes, from as int);
    }
    let (_, piece) = head.split_at(from);
    piece
}

} // verus!
