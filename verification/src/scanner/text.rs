//! Cutting text out of a source by byte offsets.

use super::grammar::text_of;
use vstd::prelude::*;
use vstd::string::StringSliceAdditionalSpecFns;
use vstd::utf8::{
    encode_utf8_decode_utf8, encode_utf8_valid_utf8, is_char_boundary,
    is_char_boundary_iff_not_is_continuation_byte, is_char_boundary_start_end_of_seq, valid_utf8,
    valid_utf8_split,
};

verus! {

/// A byte below `0x80` is a character of its own: in well-formed UTF-8 a
/// character starts at it and the next one starts right behind it.
pub proof fn lemma_ascii_is_bounded(bytes: Seq<u8>, i: int)
    requires
        valid_utf8(bytes),
        0 <= i < bytes.len(),
        bytes[i] <= 0x7f,
    ensures
        is_char_boundary(bytes, i),
        is_char_boundary(bytes, i + 1),
{
    is_char_boundary_iff_not_is_continuation_byte(bytes, i);
    if i + 1 == bytes.len() {
        is_char_boundary_start_end_of_seq(bytes);
    } else {
        let rest = bytes.subrange(i, bytes.len() as int);
        valid_utf8_split(bytes, i);
        assert(rest[0] == bytes[i]);
        assert(rest[1] == bytes[i + 1]);
        assert(is_char_boundary(rest, 1)) by {
            reveal_with_fuel(is_char_boundary, 2);
            reveal_with_fuel(valid_utf8, 2);
        }
        is_char_boundary_iff_not_is_continuation_byte(rest, 1);
        is_char_boundary_iff_not_is_continuation_byte(bytes, i + 1);
    }
}

/// A character boundary of a text is one of each of its prefixes that
/// reaches it and ends on a boundary too.
pub proof fn lemma_boundary_in_prefix(bytes: Seq<u8>, from: int, to: int)
    requires
        valid_utf8(bytes),
        0 <= from <= to <= bytes.len(),
        is_char_boundary(bytes, from),
        is_char_boundary(bytes, to),
    ensures
        valid_utf8(bytes.subrange(0, to)),
        is_char_boundary(bytes.subrange(0, to), from),
{
    let head = bytes.subrange(0, to);
    valid_utf8_split(bytes, to);
    if from == to {
        is_char_boundary_start_end_of_seq(head);
    } else {
        assert(head[from] == bytes[from]);
        is_char_boundary_iff_not_is_continuation_byte(bytes, from);
        is_char_boundary_iff_not_is_continuation_byte(head, from);
    }
}

/// The text between two character boundaries of `source`, given as byte
/// offsets.
pub fn slice_text(source: &str, from: usize, to: usize) -> (text: &str)
    requires
        from <= to <= source.spec_bytes().len(),
        is_char_boundary(source.spec_bytes(), from as int),
        is_char_boundary(source.spec_bytes(), to as int),
    ensures
        text@ == text_of(source.spec_bytes(), from as int, to as int),
        text.spec_bytes() == source.spec_bytes().subrange(from as int, to as int),
{
    let ghost bytes = source.spec_bytes();
    proof {
        encode_utf8_valid_utf8(source@);
        lemma_boundary_in_prefix(bytes, from as int, to as int);
    }
    let (head, _) = source.split_at(to);
    let (_, text) = head.split_at(from);
    proof {
        assert(text.spec_bytes() =~= bytes.subrange(from as int, to as int));
        encode_utf8_decode_utf8(text@);
    }
    text
}

} // verus!
