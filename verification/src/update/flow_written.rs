//! Flow specifications that are written as they were read: every value
//! in the fewest bytes that hold it, and every prefix without a bit
//! beyond its length.

use crate::endian::{lemma_u16_bytes_round_trip, lemma_u32_bytes_round_trip};
use crate::error::Error;
use crate::family::{AFI, SAFI};
use crate::stream::{bytes_at, fits, lemma_joined, u16_at, u32_at};
use crate::update::flowspec::{
    filter_prefix_at, prefix_body, spec_parse_filter, FlowspecFilterView,
    binary_pair_encoding, binary_pairs_encoding, fragment_pairs_encoding, narrow_pairs_encoding,
    narrow_pairs_from, spec_find_length, spec_into_binary_op, spec_into_fragment_op,
    spec_into_num_op, spec_is_end_of_list, wide_pair_encoding, wide_pairs_encoding,
    wide_pairs_from, with_eol, BinaryOperator, FragmentOperator, NumericOperator,
};
use crate::update::nlri::{
    filters_encoding, filters_from, nlri_from, routes_encoding, spec_parse_flowspec,
    spec_parse_route, NLRIView,
};
use crate::util::lemma_clear_trailing_bits;
use vstd::prelude::*;

verus! {

/// An operator octet that is read is the octet that is written for it,
/// where the width that it selects is the width of the value that is
/// written: the end-of-list bit is set again where it was set and cleared
/// where it was clear, and the selector is set to what it was.
pub proof fn lemma_numeric_operator_kept(op: u8)
    ensures
        spec_find_length(op) == 1 ==> NumericOperator::with_length(
            with_eol(op, spec_is_end_of_list(op)),
            1,
        ) == op,
        spec_find_length(op) == 2 ==> NumericOperator::with_length(
            with_eol(op, spec_is_end_of_list(op)),
            2,
        ) == op,
        spec_find_length(op) == 4 ==> NumericOperator::with_length(
            with_eol(op, spec_is_end_of_list(op)),
            4,
        ) == op,
        with_eol(op, spec_is_end_of_list(op)) == op,
{
    assert((op & 0x80 != 0 ==> op | 0x80 == op) && (op & 0x80 == 0 ==> op & 0x7f == op))
        by (bit_vector);
    assert(((1u8 << ((op & 0x30) >> 4)) == 1 ==> op & 0xcf == op) && ((1u8 << ((op & 0x30) >> 4))
        == 2 ==> (op & 0xcf) | 0x10 == op) && ((1u8 << ((op & 0x30) >> 4)) == 4 ==> (op & 0xcf)
        | 0x20 == op)) by (bit_vector);
}

/// The width in bytes that a value is written in: the fewest of one, two
/// and four that hold it.
pub open spec fn width_needed(value: u32) -> int {
    if value <= 0xff {
        1
    } else if value <= 0xffff {
        2
    } else {
        4
    }
}

/// The value of `width` bytes at `pos`, where `width` is one, two or
/// four.
pub open spec fn value_at(data: Seq<u8>, pos: int, width: int) -> u32 {
    if width == 1 {
        data[pos] as u32
    } else if width == 2 {
        u16_at(data, pos) as u32
    } else {
        u32_at(data, pos)
    }
}

/// Whether the numeric pairs from `pos` on, up to the one that ends the
/// list, each hold their value in the fewest bytes that hold it.
pub open spec fn wide_kept(data: Seq<u8>, pos: int) -> bool
    decreases data.len() - pos,
{
    fits(data, pos, 1) && ({
        let width = spec_find_length(data[pos]) as int;
        (width == 1 || width == 2 || width == 4) && fits(data, pos + 1, width) && width_needed(
            value_at(data, pos + 1, width),
        ) == width && (spec_is_end_of_list(data[pos]) || wide_kept(data, pos + 1 + width))
    })
}

/// The numeric pair that was read at `pos` is written as the bytes it
/// was read from, where its value takes the fewest bytes that hold it.
proof fn lemma_wide_pair_kept(data: Seq<u8>, pos: int)
    requires
        0 <= pos,
        fits(data, pos, 1),
        ({
            let width = spec_find_length(data[pos]) as int;
            (width == 1 || width == 2 || width == 4) && fits(data, pos + 1, width) && width_needed(
                value_at(data, pos + 1, width),
            ) == width
        }),
    ensures
        ({
            let width = spec_find_length(data[pos]) as int;
            wide_pair_encoding(
                (NumericOperator { bits: data[pos] }, value_at(data, pos + 1, width)),
                spec_is_end_of_list(data[pos]),
            ) == data.subrange(pos, pos + 1 + width)
        }),
{
    let op = data[pos];
    let width = spec_find_length(op) as int;
    let value = value_at(data, pos + 1, width);
    lemma_numeric_operator_kept(op);
    let written = wide_pair_encoding((NumericOperator { bits: op }, value), spec_is_end_of_list(op));
    if width == 1 {
        assert(written =~= data.subrange(pos, pos + 2));
    } else if width == 2 {
        lemma_u16_bytes_round_trip(bytes_at(data, pos + 1, 2));
        assert(written =~= data.subrange(pos, pos + 3));
    } else {
        lemma_u32_bytes_round_trip(bytes_at(data, pos + 1, 4));
        assert(written =~= data.subrange(pos, pos + 5));
    }
}

/// The pairs that are read from `pos` on, after `acc`, are `acc` and at
/// least one pair more, of which the last and no other ends the list.
proof fn lemma_wide_pairs_extend(data: Seq<u8>, pos: int, acc: Seq<(u8, u32)>)
    requires
        0 <= pos,
        wide_pairs_from(data, pos, acc) is Ok,
    ensures
        ({
            let (values, end) = wide_pairs_from(data, pos, acc)->Ok_0;
            &&& pos < end <= data.len()
            &&& acc.len() < values.len()
            &&& values.subrange(0, acc.len() as int) == acc
        }),
    decreases data.len() - pos,
{
    let (values, end) = wide_pairs_from(data, pos, acc)->Ok_0;
    let k = acc.len() as int;
    let op = data[pos];
    let width = spec_find_length(op) as int;
    let pair = (op, value_at(data, pos + 1, width));
    if spec_is_end_of_list(op) {
        assert(values == acc.push(pair));
        assert(values.subrange(0, k) =~= acc);
    } else {
        assert(wide_pairs_from(data, pos, acc) == wide_pairs_from(
            data,
            pos + 1 + width,
            acc.push(pair),
        ));
        lemma_wide_pairs_extend(data, pos + 1 + width, acc.push(pair));
        assert(values.subrange(0, k) =~= values.subrange(0, k + 1).subrange(0, k));
    }
}

/// The bytes that numeric pairs were read from are the bytes that they
/// are written as, where each value takes the fewest bytes that hold it.
pub proof fn lemma_wide_pairs_kept(data: Seq<u8>, pos: int, acc: Seq<(u8, u32)>, out: Seq<u8>)
    requires
        0 <= pos,
        wide_pairs_from(data, pos, acc) is Ok,
        wide_kept(data, pos),
    ensures
        ({
            let (values, end) = wide_pairs_from(data, pos, acc)->Ok_0;
            pos < end <= data.len() && wide_pairs_encoding(
                spec_into_num_op(values),
                acc.len() as int,
                out,
            ) == out + data.subrange(pos, end)
        }),
    decreases data.len() - pos,
{
    let (values, end) = wide_pairs_from(data, pos, acc)->Ok_0;
    let k = acc.len() as int;
    let op = data[pos];
    let width = spec_find_length(op) as int;
    let next = pos + 1 + width;
    let pair = (op, value_at(data, pos + 1, width));
    let more = acc.push(pair);
    let ops = spec_into_num_op(values);
    lemma_wide_pairs_extend(data, pos, acc);
    lemma_wide_pair_kept(data, pos);
    let bytes = data.subrange(pos, next);
    if spec_is_end_of_list(op) {
        assert(values == more);
        assert(values[k] == pair);
        assert(ops[k] == (NumericOperator { bits: op }, pair.1));
        assert(wide_pairs_encoding(ops, k, out) == wide_pairs_encoding(ops, k + 1, out + bytes));
    } else {
        assert(wide_pairs_from(data, pos, acc) == wide_pairs_from(data, next, more));
        lemma_wide_pairs_extend(data, next, more);
        assert(values[k] == values.subrange(0, k + 1)[k]);
        assert(values[k] == pair);
        assert(ops[k] == (NumericOperator { bits: op }, pair.1));
        assert(k + 1 != values.len());
        assert(wide_pairs_encoding(ops, k, out) == wide_pairs_encoding(ops, k + 1, out + bytes));
        lemma_wide_pairs_kept(data, next, more, out + bytes);
        lemma_joined(out, data, pos, next, end);
    }
}

/// The octet of a bitmask operator that is read is the octet that is
/// written for it, where it selects one byte or two and that is the width
/// of the value that is written.
pub proof fn lemma_binary_operator_kept(op: u8)
    ensures
        spec_find_length(op) == 1 ==> BinaryOperator::with_length(
            with_eol(op, spec_is_end_of_list(op)),
            1,
        ) == op,
        spec_find_length(op) == 2 ==> BinaryOperator::with_length(
            with_eol(op, spec_is_end_of_list(op)),
            2,
        ) == op,
{
    assert((op & 0x80 != 0 ==> op | 0x80 == op) && (op & 0x80 == 0 ==> op & 0x7f == op))
        by (bit_vector);
    assert(((1u8 << ((op & 0x30) >> 4)) == 1 ==> op & 0xef == op) && ((1u8 << ((op & 0x30) >> 4))
        == 2 ==> op | 0x10 == op)) by (bit_vector);
}

/// Whether the bitmask pairs from `pos` on, up to the one that ends the
/// list, each hold their value in one byte, or in two where it needs
/// them.
pub open spec fn binary_kept(data: Seq<u8>, pos: int) -> bool
    decreases data.len() - pos,
{
    fits(data, pos, 1) && ({
        let width = spec_find_length(data[pos]) as int;
        (width == 1 || width == 2) && fits(data, pos + 1, width) && width_needed(
            value_at(data, pos + 1, width),
        ) == width && (spec_is_end_of_list(data[pos]) || binary_kept(data, pos + 1 + width))
    })
}

/// The bitmask pair that was read at `pos` is written as the bytes it
/// was read from, where its value takes the fewest bytes that hold it.
proof fn lemma_binary_pair_kept(data: Seq<u8>, pos: int)
    requires
        0 <= pos,
        fits(data, pos, 1),
        ({
            let width = spec_find_length(data[pos]) as int;
            (width == 1 || width == 2) && fits(data, pos + 1, width) && width_needed(
                value_at(data, pos + 1, width),
            ) == width
        }),
    ensures
        ({
            let width = spec_find_length(data[pos]) as int;
            binary_pair_encoding(
                (BinaryOperator { bits: data[pos] }, value_at(data, pos + 1, width) as u16),
                spec_is_end_of_list(data[pos]),
            ) == data.subrange(pos, pos + 1 + width)
        }),
{
    let op = data[pos];
    let width = spec_find_length(op) as int;
    let value = value_at(data, pos + 1, width) as u16;
    lemma_binary_operator_kept(op);
    lemma_numeric_operator_kept(op);
    let written = binary_pair_encoding((BinaryOperator { bits: op }, value), spec_is_end_of_list(op));
    if width == 1 {
        assert(written =~= data.subrange(pos, pos + 2));
    } else {
        lemma_u16_bytes_round_trip(bytes_at(data, pos + 1, 2));
        assert(written =~= data.subrange(pos, pos + 3));
    }
}

/// The bytes that bitmask pairs were read from are the bytes that they
/// are written as, where each value takes the fewest bytes that hold it.
pub proof fn lemma_binary_pairs_kept(data: Seq<u8>, pos: int, acc: Seq<(u8, u32)>, out: Seq<u8>)
    requires
        0 <= pos,
        wide_pairs_from(data, pos, acc) is Ok,
        binary_kept(data, pos),
    ensures
        ({
            let (values, end) = wide_pairs_from(data, pos, acc)->Ok_0;
            pos < end <= data.len() && binary_pairs_encoding(
                spec_into_binary_op(values),
                acc.len() as int,
                out,
            ) == out + data.subrange(pos, end)
        }),
    decreases data.len() - pos,
{
    let (values, end) = wide_pairs_from(data, pos, acc)->Ok_0;
    let k = acc.len() as int;
    let op = data[pos];
    let width = spec_find_length(op) as int;
    let next = pos + 1 + width;
    let pair = (op, value_at(data, pos + 1, width));
    let more = acc.push(pair);
    let ops = spec_into_binary_op(values);
    lemma_wide_pairs_extend(data, pos, acc);
    lemma_binary_pair_kept(data, pos);
    let bytes = data.subrange(pos, next);
    if spec_is_end_of_list(op) {
        assert(values == more);
        assert(values[k] == pair);
        assert(ops[k] == (BinaryOperator { bits: op }, pair.1 as u16));
        assert(binary_pairs_encoding(ops, k, out) == binary_pairs_encoding(ops, k + 1, out + bytes));
    } else {
        assert(wide_pairs_from(data, pos, acc) == wide_pairs_from(data, next, more));
        lemma_wide_pairs_extend(data, next, more);
        assert(values[k] == values.subrange(0, k + 1)[k]);
        assert(values[k] == pair);
        assert(ops[k] == (BinaryOperator { bits: op }, pair.1 as u16));
        assert(k + 1 != values.len());
        assert(binary_pairs_encoding(ops, k, out) == binary_pairs_encoding(ops, k + 1, out + bytes));
        lemma_binary_pairs_kept(data, next, more, out + bytes);
        lemma_joined(out, data, pos, next, end);
    }
}

/// Whether the one-byte numeric pairs from `pos` on, up to the one that
/// ends the list, each select a value of one byte.
pub open spec fn narrow_kept(data: Seq<u8>, pos: int) -> bool
    decreases data.len() - pos,
{
    fits(data, pos, 2) && spec_find_length(data[pos]) == 1 && (spec_is_end_of_list(data[pos])
        || narrow_kept(data, pos + 2))
}

/// The one-byte pairs that are read from `pos` on, after `acc`, are `acc`
/// and at least one pair more, of which the last and no other ends the
/// list.
proof fn lemma_narrow_pairs_extend(data: Seq<u8>, pos: int, acc: Seq<(u8, u8)>)
    requires
        0 <= pos,
        narrow_pairs_from(data, pos, acc) is Ok,
    ensures
        ({
            let (values, end) = narrow_pairs_from(data, pos, acc)->Ok_0;
            &&& pos < end <= data.len()
            &&& acc.len() < values.len()
            &&& values.subrange(0, acc.len() as int) == acc
        }),
    decreases data.len() - pos,
{
    let (values, end) = narrow_pairs_from(data, pos, acc)->Ok_0;
    let k = acc.len() as int;
    let pair = (data[pos], data[pos + 1]);
    if spec_is_end_of_list(data[pos]) {
        assert(values == acc.push(pair));
        assert(values.subrange(0, k) =~= acc);
    } else {
        lemma_narrow_pairs_extend(data, pos + 2, acc.push(pair));
        assert(values.subrange(0, k) =~= values.subrange(0, k + 1).subrange(0, k));
    }
}

/// The bytes that one-byte numeric pairs were read from are the bytes
/// that they are written as, where each selects a value of one byte.
pub proof fn lemma_narrow_pairs_kept(data: Seq<u8>, pos: int, acc: Seq<(u8, u8)>, out: Seq<u8>)
    requires
        0 <= pos,
        narrow_pairs_from(data, pos, acc) is Ok,
        narrow_kept(data, pos),
    ensures
        ({
            let (values, end) = narrow_pairs_from(data, pos, acc)->Ok_0;
            pos < end <= data.len() && narrow_pairs_encoding(
                spec_into_num_op(values),
                acc.len() as int,
                out,
            ) == out + data.subrange(pos, end)
        }),
    decreases data.len() - pos,
{
    let (values, end) = narrow_pairs_from(data, pos, acc)->Ok_0;
    let k = acc.len() as int;
    let op = data[pos];
    let pair = (op, data[pos + 1]);
    let more = acc.push(pair);
    let ops = spec_into_num_op(values);
    lemma_narrow_pairs_extend(data, pos, acc);
    lemma_numeric_operator_kept(op);
    let bytes = data.subrange(pos, pos + 2);
    assert(seq![op, data[pos + 1]] =~= bytes);
    if spec_is_end_of_list(op) {
        assert(values == more);
        assert(values[k] == pair);
        assert(ops[k] == (NumericOperator { bits: op }, pair.1));
        assert(narrow_pairs_encoding(ops, k, out) == narrow_pairs_encoding(ops, k + 1, out + bytes));
    } else {
        lemma_narrow_pairs_extend(data, pos + 2, more);
        assert(values[k] == values.subrange(0, k + 1)[k]);
        assert(values[k] == pair);
        assert(ops[k] == (NumericOperator { bits: op }, pair.1));
        assert(k + 1 != values.len());
        assert(narrow_pairs_encoding(ops, k, out) == narrow_pairs_encoding(ops, k + 1, out + bytes));
        lemma_narrow_pairs_kept(data, pos + 2, more, out + bytes);
        lemma_joined(out, data, pos, pos + 2, end);
    }
}

/// The bytes that fragment pairs were read from are the bytes that they
/// are written as.
pub proof fn lemma_fragment_pairs_kept(data: Seq<u8>, pos: int, acc: Seq<(u8, u8)>, out: Seq<u8>)
    requires
        0 <= pos,
        narrow_pairs_from(data, pos, acc) is Ok,
    ensures
        ({
            let (values, end) = narrow_pairs_from(data, pos, acc)->Ok_0;
            pos < end <= data.len() && fragment_pairs_encoding(
                spec_into_fragment_op(values),
                acc.len() as int,
                out,
            ) == out + data.subrange(pos, end)
        }),
    decreases data.len() - pos,
{
    let (values, end) = narrow_pairs_from(data, pos, acc)->Ok_0;
    let k = acc.len() as int;
    let op = data[pos];
    let pair = (op, data[pos + 1]);
    let more = acc.push(pair);
    let ops = spec_into_fragment_op(values);
    lemma_narrow_pairs_extend(data, pos, acc);
    lemma_numeric_operator_kept(op);
    let bytes = data.subrange(pos, pos + 2);
    assert(seq![op, data[pos + 1]] =~= bytes);
    if spec_is_end_of_list(op) {
        assert(values == more);
        assert(values[k] == pair);
        assert(ops[k] == (FragmentOperator { bits: op }, pair.1));
        assert(fragment_pairs_encoding(ops, k, out) == fragment_pairs_encoding(
            ops,
            k + 1,
            out + bytes,
        ));
    } else {
        lemma_narrow_pairs_extend(data, pos + 2, more);
        assert(values[k] == values.subrange(0, k + 1)[k]);
        assert(values[k] == pair);
        assert(ops[k] == (FragmentOperator { bits: op }, pair.1));
        assert(k + 1 != values.len());
        assert(fragment_pairs_encoding(ops, k, out) == fragment_pairs_encoding(
            ops,
            k + 1,
            out + bytes,
        ));
        lemma_fragment_pairs_kept(data, pos + 2, more, out + bytes);
        lemma_joined(out, data, pos, pos + 2, end);
    }
}

/// Whether the prefix of a prefix component at `pos` is written as it
/// was read: it holds no bit beyond its length, and its offset octet,
/// where the family has one, is zero.
pub open spec fn prefix_component_kept(data: Seq<u8>, pos: int, afi: AFI) -> bool {
    filter_prefix_at(data, pos, afi) matches Ok((p, _)) && p.masked() && (afi == AFI::IPV6
        ==> data[pos + 1] == 0)
}

/// Such a prefix is written as the bytes it was read from.
proof fn lemma_prefix_component_kept(data: Seq<u8>, pos: int, afi: AFI)
    requires
        0 <= pos,
        prefix_component_kept(data, pos, afi),
    ensures
        ({
            let (p, end) = filter_prefix_at(data, pos, afi)->Ok_0;
            pos < end <= data.len() && prefix_body(p) == Ok::<Seq<u8>, Error>(
                data.subrange(pos, end),
            )
        }),
{
    let (p, end) = filter_prefix_at(data, pos, afi)->Ok_0;
    let octets = p.octet_length();
    if octets > 0 {
        lemma_clear_trailing_bits(p.prefix[octets - 1], p.length);
    }
    assert(p.wire_octets() =~= p.prefix);
    assert(prefix_body(p)->Ok_0 =~= data.subrange(pos, end));
}

/// Whether the component at `pos` is written as it was read: a prefix
/// without a bit beyond its length, or pairs whose values each take the
/// fewest bytes that hold them.
pub open spec fn filter_kept(data: Seq<u8>, pos: int, afi: AFI) -> bool {
    fits(data, pos, 1) && ({
        let code = data[pos];
        if code == 1 || code == 2 {
            prefix_component_kept(data, pos + 1, afi)
        } else if 3 <= code <= 6 || code == 10 {
            wide_kept(data, pos + 1)
        } else if code == 9 {
            binary_kept(data, pos + 1)
        } else if code == 7 || code == 8 || code == 11 {
            narrow_kept(data, pos + 1)
        } else {
            code == 12
        }
    })
}

/// Writing a component is writing its type code and its body.
proof fn lemma_filter_is_coded(f: FlowspecFilterView, body: Seq<u8>, data: Seq<u8>, pos: int, end: int)
    requires
        0 <= pos < end <= data.len(),
        f.body() == Ok::<Seq<u8>, Error>(body),
        f.code() == data[pos],
        body == data.subrange(pos + 1, end),
    ensures
        f.encoding() == Ok::<Seq<u8>, Error>(data.subrange(pos, end)),
{
    assert(seq![data[pos]] + data.subrange(pos + 1, end) =~= data.subrange(pos, end));
}

/// The bytes that such a component was read from are the bytes that it
/// is written as.
pub proof fn lemma_filter_kept(data: Seq<u8>, pos: int, afi: AFI)
    requires
        0 <= pos,
        spec_parse_filter(data, pos, afi) is Ok,
        filter_kept(data, pos, afi),
    ensures
        ({
            let (f, end) = spec_parse_filter(data, pos, afi)->Ok_0;
            pos < end <= data.len() && f.encoding() == Ok::<Seq<u8>, Error>(
                data.subrange(pos, end),
            )
        }),
{
    let (f, end) = spec_parse_filter(data, pos, afi)->Ok_0;
    let code = data[pos];
    let none = Seq::<u8>::empty();
    if code == 1 || code == 2 {
        lemma_prefix_component_kept(data, pos + 1, afi);
    } else if 3 <= code <= 6 || code == 10 {
        lemma_wide_pairs_kept(data, pos + 1, Seq::empty(), none);
    } else if code == 9 {
        lemma_binary_pairs_kept(data, pos + 1, Seq::empty(), none);
    } else if code == 7 || code == 8 || code == 11 {
        lemma_narrow_pairs_kept(data, pos + 1, Seq::empty(), none);
    } else {
        lemma_fragment_pairs_kept(data, pos + 1, Seq::empty(), none);
    }
    assert(none + data.subrange(pos + 1, end) =~= data.subrange(pos + 1, end));
    lemma_filter_is_coded(f, data.subrange(pos + 1, end), data, pos, end);
}

/// Whether every component from `pos` to the end of `window` is written
/// as it was read.
pub open spec fn filters_kept(window: Seq<u8>, pos: int, afi: AFI) -> bool
    decreases
        (if pos < window.len() {
            window.len() - pos
        } else {
            0
        }),
{
    pos >= window.len() || (filter_kept(window, pos, afi) && (match spec_parse_filter(
        window,
        pos,
        afi,
    ) {
        Ok((_, next)) => next > pos && filters_kept(window, next, afi),
        Err(_) => true,
    }))
}

/// The components that are read from `pos` on, after `acc`, are `acc`
/// and the components read.
proof fn lemma_filters_extend(window: Seq<u8>, pos: int, afi: AFI, acc: Seq<FlowspecFilterView>)
    requires
        0 <= pos <= window.len(),
        filters_from(window, pos, afi, acc) is Ok,
        filters_kept(window, pos, afi),
    ensures
        ({
            let filters = filters_from(window, pos, afi, acc)->Ok_0;
            acc.len() <= filters.len() && filters.subrange(0, acc.len() as int) == acc
        }),
    decreases window.len() - pos,
{
    let filters = filters_from(window, pos, afi, acc)->Ok_0;
    let k = acc.len() as int;
    if pos >= window.len() {
        assert(filters.subrange(0, k) =~= acc);
    } else {
        lemma_filter_kept(window, pos, afi);
        let (f, next) = spec_parse_filter(window, pos, afi)->Ok_0;
        lemma_filters_extend(window, next, afi, acc.push(f));
        assert(filters.subrange(0, k) =~= filters.subrange(0, k + 1).subrange(0, k));
    }
}

/// Writing the components from `k` on is writing the component at `k`
/// and then the components after it.
proof fn lemma_filters_encoding_step(
    filters: Seq<FlowspecFilterView>,
    k: int,
    out: Seq<u8>,
    bytes: Seq<u8>,
)
    requires
        0 <= k < filters.len(),
        filters[k].encoding() == Ok::<Seq<u8>, Error>(bytes),
    ensures
        filters_encoding(filters, k, out) == filters_encoding(filters, k + 1, out + bytes),
{
}

/// The bytes that such components were read from are the bytes that they
/// are written as, one after the other.
pub proof fn lemma_filters_kept(
    window: Seq<u8>,
    pos: int,
    afi: AFI,
    acc: Seq<FlowspecFilterView>,
    out: Seq<u8>,
)
    requires
        0 <= pos <= window.len(),
        filters_from(window, pos, afi, acc) is Ok,
        filters_kept(window, pos, afi),
    ensures
        filters_encoding(filters_from(window, pos, afi, acc)->Ok_0, acc.len() as int, out) == Ok::<
            Seq<u8>,
            Error,
        >(out + window.subrange(pos, window.len() as int)),
    decreases window.len() - pos,
{
    let whole = filters_from(window, pos, afi, acc);
    let filters = whole->Ok_0;
    let k = acc.len() as int;
    lemma_filters_extend(window, pos, afi, acc);
    if pos >= window.len() {
        lemma_joined(out, window, pos, pos, pos);
    } else {
        lemma_filter_kept(window, pos, afi);
        let (f, next) = spec_parse_filter(window, pos, afi)->Ok_0;
        let more = acc.push(f);
        assert(whole == filters_from(window, next, afi, more));
        let bytes = window.subrange(pos, next);
        lemma_filters_extend(window, next, afi, more);
        lemma_filters_kept(window, next, afi, more, out + bytes);
        assert(filters.subrange(0, k + 1) == more);
        assert(filters[k] == filters.subrange(0, k + 1)[k]);
        assert(filters[k] == f);
        lemma_filters_encoding_step(filters, k, out, bytes);
        lemma_joined(out, window, pos, next, window.len() as int);
    }
}

/// Whether the flow specification at `pos` is written as it was read:
/// each of its components is.
pub open spec fn flow_kept(data: Seq<u8>, pos: int, afi: AFI) -> bool {
    fits(data, pos, 1) && fits(data, pos + 1, data[pos] as int) && filters_kept(
        bytes_at(data, pos + 1, data[pos] as int),
        0,
        afi,
    )
}

/// The bytes that such a flow specification was read from are the bytes
/// that it is written as.
pub proof fn lemma_flow_kept(data: Seq<u8>, pos: int, afi: AFI)
    requires
        0 <= pos,
        spec_parse_flowspec(data, pos, afi) is Ok,
        flow_kept(data, pos, afi),
    ensures
        ({
            let (route, end) = spec_parse_flowspec(data, pos, afi)->Ok_0;
            pos < end <= data.len() && route.encoding() == Ok::<Seq<u8>, Error>(
                data.subrange(pos, end),
            )
        }),
{
    let (route, end) = spec_parse_flowspec(data, pos, afi)->Ok_0;
    let window = bytes_at(data, pos + 1, data[pos] as int);
    lemma_filters_kept(window, 0, afi, Seq::empty(), Seq::empty());
    assert(Seq::<u8>::empty() + window.subrange(0, window.len() as int) =~= window);
    assert(seq![window.len() as u8] + window =~= data.subrange(pos, end));
}

/// Whether every flow specification from `pos` up to `size` is written
/// as it was read.
pub open spec fn flows_kept(data: Seq<u8>, pos: int, size: int, afi: AFI) -> bool
    decreases
        (if pos < size {
            size - pos
        } else {
            0
        }),
{
    pos >= size || (flow_kept(data, pos, afi) && flows_kept(
        data,
        pos + 1 + data[pos],
        size,
        afi,
    ))
}

/// The flow specifications that are read from `pos` on, after `acc`, are
/// `acc` and the ones read, and reading ends within the bytes and not
/// before `size`.
proof fn lemma_flows_extend(
    data: Seq<u8>,
    pos: int,
    size: int,
    afi: AFI,
    add_path: bool,
    acc: Seq<NLRIView>,
)
    requires
        0 <= pos <= data.len(),
        nlri_from(data, pos, size, afi, SAFI::Flowspec, add_path, acc) is Ok,
    ensures
        ({
            let (routes, end) = nlri_from(
                data,
                pos,
                size,
                afi,
                SAFI::Flowspec,
                add_path,
                acc,
            )->Ok_0;
            &&& pos <= end <= data.len()
            &&& size <= end
            &&& acc.len() <= routes.len()
            &&& routes.subrange(0, acc.len() as int) == acc
        }),
    decreases
        (if pos < size {
            size - pos
        } else {
            0
        }),
{
    let whole = nlri_from(data, pos, size, afi, SAFI::Flowspec, add_path, acc);
    let (routes, end) = whole->Ok_0;
    let k = acc.len() as int;
    if pos >= size {
        assert(routes.subrange(0, k) =~= acc);
    } else {
        let step = spec_parse_flowspec(data, pos, afi);
        assert(spec_parse_route(data, pos, afi, SAFI::Flowspec, add_path) == step);
        let (route, next) = step->Ok_0;
        lemma_flows_extend(data, next, size, afi, add_path, acc.push(route));
        assert(routes.subrange(0, k) =~= routes.subrange(0, k + 1).subrange(0, k));
    }
}

/// Writing the routes from `k` on is writing the route at `k` and then
/// the routes after it.
proof fn lemma_flows_encoding_step(routes: Seq<NLRIView>, k: int, out: Seq<u8>, bytes: Seq<u8>)
    requires
        0 <= k < routes.len(),
        routes[k].encoding() == Ok::<Seq<u8>, Error>(bytes),
    ensures
        routes_encoding(routes, k, out) == routes_encoding(routes, k + 1, out + bytes),
{
}

/// The bytes that such flow specifications were read from are the bytes
/// that they are written as, one after the other.
pub proof fn lemma_flows_kept(
    data: Seq<u8>,
    pos: int,
    size: int,
    afi: AFI,
    add_path: bool,
    acc: Seq<NLRIView>,
    out: Seq<u8>,
)
    requires
        0 <= pos <= data.len(),
        nlri_from(data, pos, size, afi, SAFI::Flowspec, add_path, acc) is Ok,
        flows_kept(data, pos, size, afi),
    ensures
        ({
            let (routes, end) = nlri_from(
                data,
                pos,
                size,
                afi,
                SAFI::Flowspec,
                add_path,
                acc,
            )->Ok_0;
            pos <= end <= data.len() && size <= end && routes_encoding(
                routes,
                acc.len() as int,
                out,
            ) == Ok::<Seq<u8>, Error>(out + data.subrange(pos, end))
        }),
    decreases
        (if pos < size {
            size - pos
        } else {
            0
        }),
{
    let whole = nlri_from(data, pos, size, afi, SAFI::Flowspec, add_path, acc);
    let (routes, end) = whole->Ok_0;
    let k = acc.len() as int;
    lemma_flows_extend(data, pos, size, afi, add_path, acc);
    if pos >= size {
        lemma_joined(out, data, pos, pos, pos);
    } else {
        let step = spec_parse_flowspec(data, pos, afi);
        assert(spec_parse_route(data, pos, afi, SAFI::Flowspec, add_path) == step);
        assert(step is Ok);
        let (route, next) = step->Ok_0;
        let more = acc.push(route);
        assert(whole == nlri_from(data, next, size, afi, SAFI::Flowspec, add_path, more));
        lemma_flow_kept(data, pos, afi);
        let bytes = data.subrange(pos, next);
        lemma_flows_extend(data, next, size, afi, add_path, more);
        assert(routes.subrange(0, k + 1) == more);
        assert(routes[k] == routes.subrange(0, k + 1)[k]);
        assert(routes[k] == route);
        lemma_flows_encoding_step(routes, k, out, bytes);
        lemma_flows_kept(data, next, size, afi, add_path, more, out + bytes);
        lemma_joined(out, data, pos, next, end);
    }
}

} // verus!
