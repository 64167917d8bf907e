//! Telling apart NLRI blocks with and without path identifiers.

use crate::error::Error;
use crate::stream::Cursor;
use vstd::prelude::*;

verus! {

/// The octets that a prefix of `bits` bits takes.
pub open spec fn prefix_octets(bits: int) -> int {
    (bits + 7) / 8
}

/// Whether the last octet `v` of a prefix of `bits` bits has a bit set
/// beyond the prefix.
pub open spec fn spec_has_trailing_bits(v: u8, bits: u8) -> bool {
    bits % 8 > 0 && v & (0xFFu8 >> (bits % 8)) > 0
}

/// Whether the last octet `v` of a prefix of `bits` bits has a bit set
/// beyond the prefix.
#[verifier::when_used_as_spec(spec_has_trailing_bits)]
pub fn has_trailing_bits(v: u8, bits: u8) -> (r: bool)
    ensures
        r == spec_has_trailing_bits(v, bits),
{
    bits % 8 > 0 && v & (0xFFu8 >> (bits % 8)) > 0
}

/// The last octet `v` of a prefix of `bits` bits with the bits beyond the
/// prefix cleared.
pub open spec fn spec_clear_trailing_bits(v: u8, bits: u8) -> u8 {
    if bits % 8 == 0 {
        v
    } else {
        v & !(0xFFu8 >> (bits % 8))
    }
}

/// The last octet `v` of a prefix of `bits` bits with the bits beyond the
/// prefix cleared.
#[verifier::when_used_as_spec(spec_clear_trailing_bits)]
pub fn clear_trailing_bits(v: u8, bits: u8) -> (r: u8)
    ensures
        r == spec_clear_trailing_bits(v, bits),
        !spec_has_trailing_bits(r, bits),
        !spec_has_trailing_bits(v, bits) ==> r == v,
{
    proof {
        lemma_clear_trailing_bits(v, bits);
    }
    if bits % 8 == 0 {
        v
    } else {
        v & !(0xFFu8 >> (bits % 8))
    }
}

/// An octet whose trailing bits were cleared has none, and differs from
/// the octet in its trailing bits only: every bit of the prefix is as it
/// was. It is the octet itself where that had no trailing bit, and
/// clearing it again changes nothing.
pub proof fn lemma_clear_trailing_bits(v: u8, bits: u8)
    ensures
        !spec_has_trailing_bits(spec_clear_trailing_bits(v, bits), bits),
        bits % 8 > 0 ==> spec_clear_trailing_bits(v, bits) & (0xFFu8 >> (bits % 8)) == 0,
        bits % 8 > 0 ==> spec_clear_trailing_bits(v, bits) & !(0xFFu8 >> (bits % 8)) == v & !(0xFFu8
            >> (bits % 8)),
        !spec_has_trailing_bits(v, bits) ==> spec_clear_trailing_bits(v, bits) == v,
        spec_clear_trailing_bits(spec_clear_trailing_bits(v, bits), bits)
            == spec_clear_trailing_bits(v, bits),
{
    let m = 0xFFu8 >> (bits % 8);
    assert((v & !m) & m == 0) by (bit_vector);
    assert(v & m == 0 ==> v & !m == v) by (bit_vector);
    assert((v & !m) & !m == v & !m) by (bit_vector);
}

/// Whether the bytes of `data` from `i` on read as prefixes that each
/// follow a four-byte path identifier, where `i` is the place of the first
/// length octet: no length above `max`, no prefix cut short by the end of
/// the block, no bit set beyond a prefix. A last path identifier that is
/// cut short, or bytes that end before the next length octet, are let pass.
pub open spec fn path_id_walk(data: Seq<u8>, i: int, max: int) -> bool
    decreases
        (if i <= data.len() {
            data.len() - i
        } else {
            0
        }),
{
    if i < 0 || i >= data.len() {
        true
    } else {
        let bits = data[i];
        let next = i + 1 + (bits as int + 7) / 8;
        if bits > max {
            false
        } else if next > data.len() {
            false
        } else if spec_has_trailing_bits(data[next - 1], bits) {
            false
        } else {
            path_id_walk(data, next + 4, max)
        }
    }
}

/// Whether the bytes of `data` from `j` on read as plain prefixes, one
/// after the other up to the end: no length above `max`, no prefix cut
/// short, no bit set beyond a prefix, and no empty prefix but the last.
pub open spec fn plain_walk(data: Seq<u8>, j: int, max: int) -> bool
    decreases data.len() - j,
{
    if j < 0 || j >= data.len() {
        true
    } else {
        let bits = data[j];
        let next = j + 1 + (bits as int + 7) / 8;
        if bits == 0 && data.len() - (j + 1) > 0 {
            false
        } else if bits > max {
            false
        } else if next > data.len() {
            false
        } else if spec_has_trailing_bits(data[next - 1], bits) {
            false
        } else {
            plain_walk(data, next, max)
        }
    }
}

/// Whether the block that starts at `pos` is taken to carry path
/// identifiers: it reads well with them and does not read well without.
pub open spec fn spec_detect_add_path_prefix(data: Seq<u8>, pos: int, max: int) -> bool {
    path_id_walk(data, pos + 4, max) && !plain_walk(data, pos, max)
}

/// Guesses whether the prefixes from the cursor to the end of its bytes
/// carry path identifiers. The cursor stays where it is, and the call
/// always succeeds.
pub fn detect_add_path_prefix(cur: &mut Cursor, max_bit_len: u32) -> (r: Result<bool, Error>)
    ensures
        *final(cur) == *old(cur),
        r == Ok::<bool, Error>(
            spec_detect_add_path_prefix(old(cur).data@, old(cur).pos as int, max_bit_len as int),
        ),
{
    let data = cur.data;
    let end = data.len();
    let start = cur.pos;
    if start >= end {
        return Ok(false);
    }
    let ghost max = max_bit_len as int;
    let mut i: usize = if end - start < 4 {
        end
    } else {
        start + 4
    };
    while i < end
        invariant
            end == data@.len(),
            *cur == *old(cur),
            data == old(cur).data,
            start == old(cur).pos,
            start < end,
            start <= i <= end,
            max == max_bit_len as int,
            path_id_walk(data@, start + 4, max) == path_id_walk(data@, i as int, max),
        decreases end - i,
    {
        let bits = data[i];
        if bits as u32 > max_bit_len {
            return Ok(false);
        }
        let step: usize = 1 + (bits as usize + 7) / 8;
        if step > end - i {
            return Ok(false);
        }
        i = i + step;
        if has_trailing_bits(data[i - 1], bits) {
            return Ok(false);
        }
        proof {
            assert(path_id_walk(data@, i + 4, max) == path_id_walk(
                data@,
                if end - i < 4 {
                    end as int
                } else {
                    i + 4
                },
                max,
            ));
        }
        i = if end - i < 4 {
            end
        } else {
            i + 4
        };
    }
    let mut j: usize = start;
    while j < end
        invariant
            end == data@.len(),
            *cur == *old(cur),
            data == old(cur).data,
            start == old(cur).pos,
            start <= j <= end,
            max == max_bit_len as int,
            path_id_walk(data@, start + 4, max),
            plain_walk(data@, start as int, max) == plain_walk(data@, j as int, max),
        decreases end - j,
    {
        let bits = data[j];
        if bits == 0 && end - (j + 1) > 0 {
            return Ok(true);
        }
        if bits as u32 > max_bit_len {
            return Ok(true);
        }
        let step: usize = 1 + (bits as usize + 7) / 8;
        if step > end - j {
            return Ok(true);
        }
        j = j + step;
        if has_trailing_bits(data[j - 1], bits) {
            return Ok(true);
        }
    }
    Ok(false)
}

/// A block that reads as plain prefixes up to its end is not taken to
/// carry path identifiers, whatever else it could be read as.
pub proof fn lemma_plain_block_is_not_add_path(data: Seq<u8>, pos: int, max: int)
    requires
        plain_walk(data, pos, max),
    ensures
        !spec_detect_add_path_prefix(data, pos, max),
{
}

/// A block that does not read as plain prefixes is taken to carry path
/// identifiers exactly where it reads as prefixes with them.
pub proof fn lemma_add_path_is_the_only_reading(data: Seq<u8>, pos: int, max: int)
    requires
        !plain_walk(data, pos, max),
    ensures
        spec_detect_add_path_prefix(data, pos, max) == path_id_walk(data, pos + 4, max),
{
}

} // verus!
