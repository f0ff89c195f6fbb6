//! Cutting a piece out of source text at byte positions.

use vstd::prelude::*;
use vstd::string::*;
use vstd::utf8::*;

verus! {

/// In well-formed text a byte below 0x80 is a character of its own: a
/// character starts at it, and the next one starts right after it.
pub proof fn lemma_boundary_around_ascii(bytes: Seq<u8>, i: int)
    requires
        valid_utf8(bytes),
        0 <= i < bytes.len(),
        bytes[i] < 0x80,
    ensures
        is_char_boundary(bytes, i),
        is_char_boundary(bytes, i + 1),
    decreases bytes.len(),
{
    is_char_boundary_iff_not_is_continuation_byte(bytes, i);
    let width = length_of_first_scalar(bytes);
    let tail = pop_first_scalar(bytes);
    if i == 0 {
        assert(is_char_boundary(tail, 0));
    } else {
        assert(i >= width) by {
            reveal_with_fuel(is_char_boundary, 2);
        }
        assert(tail[i - width] == bytes[i]);
        lemma_boundary_around_ascii(tail, i - width);
    }
}

/// The piece of `source` between two character boundaries.
pub(crate) fn span<'a>(source: &'a str, from: usize, to: usize) -> (piece: &'a str)
    requires
        from <= to <= source.spec_bytes().len(),
        is_char_boundary(source.spec_bytes(), from as int),
        is_char_boundary(source.spec_bytes(), to as int),
    ensures
        piece.spec_bytes() == source.spec_bytes().subrange(from as int, to as int),
{
    let (head, _) = source.split_at(to);
    proof {
        let bytes = source.spec_bytes();
        let kept = head.spec_bytes();
        encode_utf8_valid_utf8(source@);
        encode_utf8_valid_utf8(head@);
        if from < to {
            is_char_boundary_iff_not_is_continuation_byte(bytes, from as int);
            is_char_boundary_iff_not_is_continuation_byte(kept, from as int);
        } else {
            is_char_boundary_start_end_of_seq(kept);
        }
    }
    let (_, piece) = head.split_at(from);
    proof {
        assert(piece.spec_bytes() =~= source.spec_bytes().subrange(from as int, to as int));
    }
    piece
}

/// The piece of `source` that starts at `start` and is `len` bytes long,
/// where it starts with a byte below 0x80 and either ends with one, or ends
/// where the source ends, or is followed by one.
pub(crate) fn piece<'a>(source: &'a str, start: usize, len: usize) -> (text: &'a str)
    requires
        len > 0,
        start + len <= source.spec_bytes().len(),
        source.spec_bytes()[start as int] < 0x80,
        source.spec_bytes()[start + len - 1] < 0x80 || start + len == source.spec_bytes().len()
            || source.spec_bytes()[start + len] < 0x80,
    ensures
        text.spec_bytes() == source.spec_bytes().subrange(start as int, start + len),
{
    proof {
        let bytes = source.spec_bytes();
        encode_utf8_valid_utf8(source@);
        lemma_boundary_around_ascii(bytes, start as int);
        if bytes[start + len - 1] < 0x80 {
            lemma_boundary_around_ascii(bytes, start + len - 1);
        } else if start + len == bytes.len() {
            is_char_boundary_start_end_of_seq(bytes);
        } else {
            lemma_boundary_around_ascii(bytes, start + len);
        }
    }
    let total = source.as_bytes().len();
    assert(start + len <= total);
    span(source, start, start + len)
}

/// Whether two runs of bytes are the same.
pub fn same_bytes(a: &[u8], b: &[u8]) -> (same: bool)
    ensures
        same == (a@ == b@),
{
    if a.len() != b.len() {
        return false;
    }
    let mut i: usize = 0;
    while i < a.len()
        invariant
            i <= a@.len() == b@.len(),
            a@.subrange(0, i as int) == b@.subrange(0, i as int),
        decreases a@.len() - i,
    {
        if a[i] != b[i] {
            return false;
        }
        i = i + 1;
        proof {
            assert(a@.subrange(0, i as int) =~= a@.subrange(0, i - 1).push(a@[i - 1]));
            assert(b@.subrange(0, i as int) =~= b@.subrange(0, i - 1).push(b@[i - 1]));
        }
    }
    proof {
        assert(a@ =~= a@.subrange(0, i as int));
        assert(b@ =~= b@.subrange(0, i as int));
    }
    true
}

} // verus!
