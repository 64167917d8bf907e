//! Path attributes that are written as they were read: the kinds that
//! this codec writes, under the flags of their kind and the shortest form
//! of their length.

use crate::endian::{
    lemma_u128_bytes_round_trip, lemma_u16_bytes_round_trip, lemma_u32_bytes_round_trip,
    lemma_u64_bytes_round_trip, u16_be_bytes,
};
use crate::error::{Error, Parsed};
use crate::family::{lemma_afi_from_code_exact, lemma_safi_from_code_exact, AFI, SAFI};
use crate::stream::{bytes_at, fits, lemma_joined, u16_at, u32_at, u64_at};
use crate::update::aspath::{
    asn_bytes, asns_at, asns_encoding, segments_encoding, segments_from, spec_asn_width,
    spec_parse_unknown_segments, ASPathView, SegmentView,
};
use crate::update::attributes::{
    attribute_framed, attributes_encoding, spec_attribute_frame, spec_is_extended,
    spec_parse_attribute, spec_parse_limited, spec_parse_lists, spec_parse_numbers, u32s_at,
    u32s_encoding, u64s_at, u64s_encoding, PathAttributeView,
};
use crate::update::flow_written::{flows_kept, lemma_flows_kept};
use crate::update::nlri::{
    lemma_routes_bytes_round_trip, nlri_from, routes_encoding, routes_masked, spec_parse_block,
    spec_parse_mp_reach, spec_parse_mp_unreach, NLRIView,
};
use crate::update::update_attributes_from;
use vstd::prelude::*;

verus! {

/// The AS numbers of `width` bytes that stand at `pos` are written in
/// that width as the bytes they were read from.
proof fn lemma_asns_bytes_round_trip(
    data: Seq<u8>,
    pos: int,
    count: int,
    width: int,
    i: int,
    acc: Seq<u8>,
)
    requires
        width == 2 || width == 4,
        0 <= i <= count,
        fits(data, pos, asn_bytes(count, width)),
    ensures
        asns_encoding(asns_at(data, pos, count, width), i, width == 4, acc) == acc + data.subrange(
            pos + asn_bytes(i, width),
            pos + asn_bytes(count, width),
        ),
    decreases count - i,
{
    let asns = asns_at(data, pos, count, width);
    let from = pos + asn_bytes(i, width);
    let to = pos + asn_bytes(count, width);
    if i < count {
        let next = pos + asn_bytes(i + 1, width);
        if width == 4 {
            lemma_u32_bytes_round_trip(bytes_at(data, pos + 4 * i, 4));
            assert(asns[i] == u32_at(data, pos + 4 * i));
        } else {
            lemma_u16_bytes_round_trip(bytes_at(data, pos + 2 * i, 2));
            assert(asns[i] == u16_at(data, pos + 2 * i) as u32);
        }
        let bytes = data.subrange(from, next);
        lemma_asns_bytes_round_trip(data, pos, count, width, i + 1, acc + bytes);
        lemma_joined(acc, data, from, next, to);
    } else {
        lemma_joined(acc, data, from, from, from);
    }
}

/// The segments that are read from `pos` on, after `acc`, are `acc` and
/// the segments read, and reading them takes exactly the bytes owed.
proof fn lemma_segments_extend(
    data: Seq<u8>,
    pos: int,
    size: int,
    width: int,
    acc: Seq<SegmentView>,
)
    requires
        width == 2 || width == 4,
        0 <= pos,
        0 <= size,
        segments_from(data, pos, size, width, acc) is Ok,
    ensures
        ({
            let (segments, end) = segments_from(data, pos, size, width, acc)->Ok_0;
            &&& end == pos + size
            &&& end <= data.len() || size == 0
            &&& acc.len() <= segments.len()
            &&& segments.subrange(0, acc.len() as int) == acc
            &&& width == 2 ==> forall|i: int|
                acc.len() <= i < segments.len() ==> !(#[trigger] segments[i]).has_4_byte_asns()
        }),
    decreases size,
{
    let (segments, end) = segments_from(data, pos, size, width, acc)->Ok_0;
    let k = acc.len() as int;
    if size <= 0 {
        assert(segments.subrange(0, k) =~= acc);
    } else {
        let count = data[pos + 1] as int;
        let n = 2 + asn_bytes(count, width);
        let asns = asns_at(data, pos + 2, count, width);
        let segment = if data[pos] == 1 {
            SegmentView::AS_SET(asns)
        } else {
            SegmentView::AS_SEQUENCE(asns)
        };
        lemma_segments_extend(data, pos + n, size - n, width, acc.push(segment));
        assert(segments.subrange(0, k) =~= segments.subrange(0, k + 1).subrange(0, k));
        assert(segments[k] == segments.subrange(0, k + 1)[k]);
        if width == 2 {
            assert forall|j: int| 0 <= j < asns.len() implies asns[j] <= 0xffff by {}
            assert(!segment.has_4_byte_asns());
        }
    }
}

/// The bytes that segments of AS numbers of `width` bytes were read from
/// are the bytes that they are written as in that width.
proof fn lemma_segments_bytes_round_trip(
    data: Seq<u8>,
    pos: int,
    size: int,
    width: int,
    acc: Seq<SegmentView>,
    out: Seq<u8>,
)
    requires
        width == 2 || width == 4,
        0 <= pos <= data.len(),
        0 <= size,
        segments_from(data, pos, size, width, acc) is Ok,
    ensures
        ({
            let (segments, end) = segments_from(data, pos, size, width, acc)->Ok_0;
            pos <= end <= data.len() && segments_encoding(
                segments,
                acc.len() as int,
                width == 4,
                out,
            ) == Ok::<Seq<u8>, Error>(out + data.subrange(pos, end))
        }),
    decreases size,
{
    let whole = segments_from(data, pos, size, width, acc);
    let (segments, end) = whole->Ok_0;
    let k = acc.len() as int;
    lemma_segments_extend(data, pos, size, width, acc);
    if size <= 0 {
        lemma_joined(out, data, pos, pos, pos);
    } else {
        let count = data[pos + 1] as int;
        let n = 2 + asn_bytes(count, width);
        let asns = asns_at(data, pos + 2, count, width);
        let segment = if data[pos] == 1 {
            SegmentView::AS_SET(asns)
        } else {
            SegmentView::AS_SEQUENCE(asns)
        };
        let more = acc.push(segment);
        assert(whole == segments_from(data, pos + n, size - n, width, more));
        lemma_segments_extend(data, pos + n, size - n, width, more);
        assert(segments.subrange(0, k + 1) == more);
        assert(segments[k] == segments.subrange(0, k + 1)[k]);
        assert(segments[k] == segment);
        let head = out + seq![segment.type_code(), asns.len() as u8];
        lemma_asns_bytes_round_trip(data, pos + 2, count, width, 0, head);
        assert(head =~= out + data.subrange(pos, pos + 2));
        lemma_joined(out, data, pos, pos + 2, pos + n);
        let written = out + data.subrange(pos, pos + n);
        assert(asns_encoding(asns, 0, width == 4, head) == written);
        assert(segments_encoding(segments, k, width == 4, out) == segments_encoding(
            segments,
            k + 1,
            width == 4,
            written,
        ));
        lemma_segments_bytes_round_trip(data, pos + n, size - n, width, more, written);
        lemma_joined(out, data, pos, pos + n, end);
    }
}

/// Whether the segment stream `window` is written as it was read: it is
/// empty, or its AS numbers take two bytes, or they take four and one of
/// them needs four.
pub open spec fn path_kept(window: Seq<u8>) -> bool {
    window.len() <= 0xffff && (match spec_parse_unknown_segments(
        window,
        0,
        window.len() as u16,
    ) {
        Ok((segments, _)) => window.len() == 0 || spec_asn_width(window) == Some(2u8) || (
        ASPathView { segments }).has_4_byte_asns(),
        Err(_) => false,
    })
}

/// A segment stream of such a kind is written as the bytes it was read
/// from.
pub proof fn lemma_path_kept(window: Seq<u8>)
    requires
        path_kept(window),
    ensures
        spec_parse_unknown_segments(window, 0, window.len() as u16) matches Ok((segments, _))
            && (ASPathView { segments }).encoding() == Ok::<Seq<u8>, Error>(window),
{
    let length = window.len() as int;
    let block = window.subrange(0, 0 + length);
    assert(block =~= window);
    let width = spec_asn_width(window)->Some_0 as int;
    let none = Seq::<SegmentView>::empty();
    lemma_segments_extend(window, 0, length, width, none);
    lemma_segments_bytes_round_trip(window, 0, length, width, none, Seq::empty());
    let (segments, end) = segments_from(window, 0, length, width, none)->Ok_0;
    let path = ASPathView { segments };
    if length == 0 {
        assert(segments =~= none);
        assert(path.encoding()->Ok_0 =~= window);
    } else {
        assert(path.has_4_byte_asns() == (width == 4));
        assert(Seq::<u8>::empty() + window.subrange(0, end) =~= window);
    }
}

/// Whether the routes that fill `block`, of family `afi` and subsequent
/// family `safi`, are written as they were read: plain routes of which no
/// prefix holds a bit beyond its length, or flow specifications whose
/// components are each written as they were read.
pub open spec fn block_kept(
    block: Seq<u8>,
    afi: AFI,
    safi: SAFI,
    routes: Seq<NLRIView>,
) -> bool {
    afi.max_prefix_bits() is Some && ((safi.plain() && routes_masked(routes)) || (safi
        == SAFI::Flowspec && flows_kept(block, 0, block.len() as int, afi)))
}

/// The routes of such a block are written as the block.
proof fn lemma_block_kept(block: Seq<u8>, afi: AFI, safi: SAFI, add_path: bool)
    requires
        spec_parse_block(block, afi, safi, add_path) matches Ok(routes) && block_kept(
            block,
            afi,
            safi,
            routes,
        ),
    ensures
        routes_encoding(spec_parse_block(block, afi, safi, add_path)->Ok_0, 0, Seq::empty()) == Ok::<
            Seq<u8>,
            Error,
        >(block),
{
    let size = block.len() as int;
    let none = Seq::<NLRIView>::empty();
    let end = nlri_from(block, 0, size, afi, safi, add_path, none)->Ok_0.1;
    if safi == SAFI::Flowspec {
        lemma_flows_kept(block, 0, size, afi, add_path, none, Seq::empty());
    } else {
        lemma_routes_bytes_round_trip(block, 0, size, afi, safi, add_path, none, Seq::empty());
    }
    assert(Seq::<u8>::empty() + block.subrange(0, end) =~= block);
}

/// Whether `window`, the body of an MP_REACH_NLRI attribute, is written
/// as it was read: its reserved octet is zero, and the routes of an IP
/// family that it announces are written as they were read.
pub open spec fn reach_kept(window: Seq<u8>, add_path: bool) -> bool {
    window.len() <= 0xffff && (match spec_parse_mp_reach(
        window,
        0,
        window.len() as u16,
        add_path,
    ) {
        Ok((m, _)) => window[4 + window[3]] == 0 && block_kept(
            bytes_at(window, 5 + window[3], window.len() - 5 - window[3]),
            m.afi,
            m.safi,
            m.announced_routes,
        ),
        Err(_) => false,
    })
}

/// Such a body is written as the bytes it was read from.
proof fn lemma_reach_kept(window: Seq<u8>, add_path: bool)
    requires
        reach_kept(window, add_path),
    ensures
        spec_parse_mp_reach(window, 0, window.len() as u16, add_path) matches Ok((m, _))
            && m.encoding() == Ok::<Seq<u8>, Error>(window),
{
    let m = spec_parse_mp_reach(window, 0, window.len() as u16, add_path)->Ok_0.0;
    let hop = window[3] as int;
    let size = window.len() - 5 - hop;
    let block = bytes_at(window, 5 + hop, size);
    lemma_afi_from_code_exact(u16_at(window, 0));
    lemma_safi_from_code_exact(window[2]);
    lemma_u16_bytes_round_trip(bytes_at(window, 0, 2));
    assert(spec_parse_block(block, m.afi, m.safi, add_path) == Ok::<Seq<NLRIView>, Error>(
        m.announced_routes,
    ));
    lemma_block_kept(block, m.afi, m.safi, add_path);
    assert(routes_encoding(m.announced_routes, 0, Seq::empty()) == Ok::<Seq<u8>, Error>(block));
    assert(m.next_hop == bytes_at(window, 4, hop));
    assert(bytes_at(window, 0, 2) + seq![window[2], window[3]] + bytes_at(window, 4, hop) + seq![
        0u8,
    ] + block =~= window);
}

/// Whether `window`, the body of an MP_UNREACH_NLRI attribute, is written
/// as it was read: the routes of an IP family that it withdraws are.
pub open spec fn unreach_kept(window: Seq<u8>, add_path: bool) -> bool {
    window.len() <= 0xffff && (match spec_parse_mp_unreach(
        window,
        0,
        window.len() as u16,
        add_path,
    ) {
        Ok((m, _)) => block_kept(
            bytes_at(window, 3, window.len() - 3),
            m.afi,
            m.safi,
            m.withdrawn_routes,
        ),
        Err(_) => false,
    })
}

/// Such a body is written as the bytes it was read from.
proof fn lemma_unreach_kept(window: Seq<u8>, add_path: bool)
    requires
        unreach_kept(window, add_path),
    ensures
        spec_parse_mp_unreach(window, 0, window.len() as u16, add_path) matches Ok((m, _))
            && m.encoding() == Ok::<Seq<u8>, Error>(window),
{
    let m = spec_parse_mp_unreach(window, 0, window.len() as u16, add_path)->Ok_0.0;
    let size = window.len() - 3;
    let block = bytes_at(window, 3, size);
    lemma_afi_from_code_exact(u16_at(window, 0));
    lemma_safi_from_code_exact(window[2]);
    lemma_u16_bytes_round_trip(bytes_at(window, 0, 2));
    assert(spec_parse_block(block, m.afi, m.safi, add_path) == Ok::<Seq<NLRIView>, Error>(
        m.withdrawn_routes,
    ));
    lemma_block_kept(block, m.afi, m.safi, add_path);
    assert(routes_encoding(m.withdrawn_routes, 0, Seq::empty()) == Ok::<Seq<u8>, Error>(block));
    assert(bytes_at(window, 0, 2) + seq![window[2]] + block =~= window);
}

/// The flags under which an attribute of type `code` is written, before
/// the extended-length bit; zero for a type that is not written.
pub open spec fn kind_flags(code: u8) -> u8 {
    if code == 1 || code == 2 || code == 3 || code == 5 {
        0x40
    } else if code == 4 || code == 9 || code == 10 || code == 14 || code == 15 {
        0x80
    } else if code == 7 || code == 8 || code == 16 || code == 17 {
        0xc0
    } else {
        0
    }
}

/// Whether `window`, the body of an attribute of type `code`, is one
/// that is written as it was read: an origin that is known; a next hop of
/// four or of sixteen bytes; a discriminator, a preference or an
/// originator of four bytes; an aggregator with an AS number of two
/// bytes, or of four that needs them; communities or a cluster list of whole entries of four bytes;
/// extended communities of whole entries of eight bytes; a path of AS
/// numbers in the width that it is written in; plain routes or flow
/// specifications of an IP family that are announced or withdrawn with
/// their family.
pub open spec fn body_kept(window: Seq<u8>, code: u8, add_path: bool) -> bool {
    if code == 1 {
        window.len() == 1 && window[0] <= 2
    } else if code == 2 || code == 17 {
        path_kept(window)
    } else if code == 3 {
        window.len() == 4 || window.len() == 16
    } else if code == 4 || code == 5 || code == 9 {
        window.len() == 4
    } else if code == 7 {
        window.len() == 6 || (window.len() == 8 && u32_at(window, 0) > 0xffff)
    } else if code == 8 || code == 10 {
        window.len() % 4 == 0
    } else if code == 14 {
        reach_kept(window, add_path)
    } else if code == 15 {
        unreach_kept(window, add_path)
    } else if code == 16 {
        window.len() % 8 == 0
    } else {
        false
    }
}

/// The 32-bit values that fill `window` are written as `window`.
proof fn lemma_u32s_bytes_round_trip(window: Seq<u8>, n: int, i: int, acc: Seq<u8>)
    requires
        window.len() == 4 * n,
        0 <= i <= n,
        acc == window.subrange(0, 4 * i),
    ensures
        u32s_encoding(u32s_at(window, 0, n), i, acc) == window,
    decreases n - i,
{
    if i < n {
        lemma_u32_bytes_round_trip(bytes_at(window, 4 * i, 4));
        assert(u32s_at(window, 0, n)[i] == u32_at(window, 0 + 4 * i));
        assert(acc + bytes_at(window, 4 * i, 4) =~= window.subrange(0, 4 * (i + 1)));
        lemma_u32s_bytes_round_trip(window, n, i + 1, acc + bytes_at(window, 4 * i, 4));
    } else {
        assert(acc =~= window);
    }
}

/// The 64-bit values that fill `window` are written as `window`.
proof fn lemma_u64s_bytes_round_trip(window: Seq<u8>, n: int, i: int, acc: Seq<u8>)
    requires
        window.len() == 8 * n,
        0 <= i <= n,
        acc == window.subrange(0, 8 * i),
    ensures
        u64s_encoding(u64s_at(window, 0, n), i, acc) == window,
    decreases n - i,
{
    if i < n {
        lemma_u64_bytes_round_trip(bytes_at(window, 8 * i, 8));
        assert(u64s_at(window, 0, n)[i] == u64_at(window, 0 + 8 * i));
        assert(acc + bytes_at(window, 8 * i, 8) =~= window.subrange(0, 8 * (i + 1)));
        lemma_u64s_bytes_round_trip(window, n, i + 1, acc + bytes_at(window, 8 * i, 8));
    } else {
        assert(acc =~= window);
    }
}

/// What reading the body `window` of an attribute of type `code` has to
/// give for the attribute to be written as it was read: an attribute of
/// that type, which is written under the flags of the type and with
/// `window` as its body.
pub open spec fn gives_back(r: Parsed<PathAttributeView>, window: Seq<u8>, code: u8) -> bool {
    r matches Ok((a, _)) && a.body() == Ok::<Seq<u8>, Error>(window) && a.id().spec_code() == code
        && a.default_flags() == Some(kind_flags(code))
}

/// A body of plain numbers of such a kind is written as it was read.
proof fn lemma_numbers_kept(window: Seq<u8>, code: u8)
    requires
        (code == 1 && window.len() == 1 && window[0] <= 2) || (code == 3 && (window.len() == 4
            || window.len() == 16)) || ((code == 4 || code == 5 || code == 9) && window.len() == 4)
            || (code == 7 && (window.len() == 6 || (window.len() == 8 && u32_at(window, 0)
            > 0xffff))),
    ensures
        gives_back(spec_parse_numbers(window, 0, code, window.len() as u16), window, code),
{
    reveal(spec_parse_numbers);
    let a = spec_parse_numbers(window, 0, code, window.len() as u16)->Ok_0.0;
    if code == 1 {
        assert(a.body()->Ok_0 =~= window);
    } else if code == 3 && window.len() == 16 {
        lemma_u128_bytes_round_trip(bytes_at(window, 0, 16));
        assert(a.body()->Ok_0 =~= window);
    } else if code == 7 && window.len() == 6 {
        lemma_u16_bytes_round_trip(bytes_at(window, 0, 2));
        lemma_u32_bytes_round_trip(bytes_at(window, 2, 4));
        assert(a.body()->Ok_0 =~= window);
    } else if code == 7 {
        lemma_u32_bytes_round_trip(bytes_at(window, 0, 4));
        lemma_u32_bytes_round_trip(bytes_at(window, 4, 4));
        assert(a.body()->Ok_0 =~= window);
    } else {
        lemma_u32_bytes_round_trip(bytes_at(window, 0, 4));
        assert(a.body()->Ok_0 =~= window);
    }
}

/// A body that is a list of numbers of such a kind is written as it was
/// read.
proof fn lemma_lists_kept(window: Seq<u8>, code: u8)
    requires
        window.len() <= 0xffff,
        ((code == 8 || code == 10) && window.len() % 4 == 0) || (code == 16 && window.len() % 8
            == 0),
    ensures
        gives_back(spec_parse_lists(window, 0, code, window.len() as u16), window, code),
{
    reveal(spec_parse_lists);
    assert(Seq::<u8>::empty() =~= window.subrange(0, 0));
    if code == 16 {
        lemma_u64s_bytes_round_trip(window, window.len() as int / 8, 0, Seq::empty());
    } else {
        lemma_u32s_bytes_round_trip(window, window.len() as int / 4, 0, Seq::empty());
    }
}

/// A body of such a kind reads as an attribute of its type, which is
/// written under the flags of the type and with the body it was read
/// from.
pub proof fn lemma_body_kept(window: Seq<u8>, code: u8, add_path: bool)
    requires
        window.len() <= 0xffff,
        body_kept(window, code, add_path),
    ensures
        gives_back(
            spec_parse_limited(window, 0, add_path, code, window.len() as u16),
            window,
            code,
        ),
{
    let length = window.len() as u16;
    let r = spec_parse_limited(window, 0, add_path, code, length);
    if code == 8 || code == 10 || code == 16 {
        lemma_lists_kept(window, code);
        assert(r == spec_parse_lists(window, 0, code, length));
    } else if code == 14 {
        lemma_reach_kept(window, add_path);
    } else if code == 15 {
        lemma_unreach_kept(window, add_path);
    } else if code == 2 || code == 17 {
        lemma_path_kept(window);
    } else {
        lemma_numbers_kept(window, code);
        assert(r == spec_parse_numbers(window, 0, code, length));
    }
}

/// Whether the attribute at `pos` is written as it was read: its body is
/// of such a kind, its flags are those of its type, and its length takes
/// two bytes exactly where it is above 255.
pub open spec fn attribute_kept(data: Seq<u8>, pos: int, add_path: bool) -> bool {
    attribute_framed(data, pos) && ({
        let frame = spec_attribute_frame(data, pos)->Ok_0;
        body_kept(bytes_at(data, frame.body, frame.length as int), frame.code, add_path)
            && frame.flags == (
        if frame.length > 0xff {
            kind_flags(frame.code) | 0x10
        } else {
            kind_flags(frame.code)
        })
    })
}

/// The bytes of an attribute under flags `flags`, of type `code` and
/// with body `body`: the length of the body takes two bytes, and the
/// flags carry the extended-length bit, exactly where it is above 255.
pub open spec fn framed(flags: u8, code: u8, body: Seq<u8>) -> Seq<u8> {
    if body.len() > 0xff {
        seq![flags | 0x10, code] + u16_be_bytes(body.len() as u16) + body
    } else {
        seq![flags, code, body.len() as u8] + body
    }
}

/// An attribute is written as the frame of its kind and its body.
proof fn lemma_attribute_is_framed(a: PathAttributeView, flags: u8, body: Seq<u8>)
    requires
        a.body() == Ok::<Seq<u8>, Error>(body),
        a.default_flags() == Some(flags),
        body.len() <= 0xffff,
    ensures
        a.encoding() == Ok::<Seq<u8>, Error>(framed(flags, a.id().spec_code(), body)),
{
}

/// The bytes of an attribute that stands at `pos` under the flags of its
/// type, and under the shortest form of its length, are the frame of its
/// type and its body.
proof fn lemma_frame_bytes(data: Seq<u8>, pos: int)
    requires
        0 <= pos,
        attribute_framed(data, pos),
        ({
            let frame = spec_attribute_frame(data, pos)->Ok_0;
            let flags = kind_flags(frame.code);
            flags != 0 && frame.flags == (if frame.length > 0xff {
                flags | 0x10
            } else {
                flags
            })
        }),
    ensures
        ({
            let frame = spec_attribute_frame(data, pos)->Ok_0;
            &&& pos < frame.body
            &&& frame.body + frame.length <= data.len()
            &&& data.subrange(pos, frame.body + frame.length) == framed(
                kind_flags(frame.code),
                frame.code,
                bytes_at(data, frame.body, frame.length as int),
            )
        }),
{
    let frame = spec_attribute_frame(data, pos)->Ok_0;
    let flags = kind_flags(frame.code);
    let window = bytes_at(data, frame.body, frame.length as int);
    assert(flags == 0x40 || flags == 0x80 || flags == 0xc0);
    assert(0x40u8 & 0x10 == 0 && 0x80u8 & 0x10 == 0 && 0xc0u8 & 0x10 == 0) by (bit_vector);
    assert((0x40u8 | 0x10) & 0x10 != 0 && (0x80u8 | 0x10) & 0x10 != 0 && (0xc0u8 | 0x10) & 0x10
        != 0) by (bit_vector);
    if frame.length > 0xff {
        assert(spec_is_extended(data[pos]));
        lemma_u16_bytes_round_trip(bytes_at(data, pos + 2, 2));
        assert(data.subrange(pos, frame.body + frame.length) =~= seq![flags | 0x10, frame.code]
            + bytes_at(data, pos + 2, 2) + window);
    } else {
        assert(!spec_is_extended(data[pos]));
        assert(data.subrange(pos, frame.body + frame.length) =~= seq![
            flags,
            frame.code,
            frame.length as u8,
        ] + window);
    }
}

/// The bytes that such an attribute was read from are the bytes that it
/// is written as.
pub proof fn lemma_attribute_bytes_round_trip(data: Seq<u8>, pos: int, add_path: bool)
    requires
        0 <= pos,
        attribute_kept(data, pos, add_path),
    ensures
        ({
            let (r, end) = spec_parse_attribute(data, pos, add_path);
            &&& pos < end <= data.len()
            &&& r is Ok
            &&& r->Ok_0.encoding() == Ok::<Seq<u8>, Error>(data.subrange(pos, end))
        }),
{
    let frame = spec_attribute_frame(data, pos)->Ok_0;
    let window = bytes_at(data, frame.body, frame.length as int);
    lemma_body_kept(window, frame.code, add_path);
    let (r, end) = spec_parse_attribute(data, pos, add_path);
    let a = r->Ok_0;
    assert(end == frame.body + frame.length);
    assert(kind_flags(frame.code) != 0);
    lemma_frame_bytes(data, pos);
    lemma_attribute_is_framed(a, kind_flags(frame.code), window);
}

/// Whether every attribute from `pos` to the end of `data` is written as
/// it was read.
pub open spec fn attributes_kept(data: Seq<u8>, pos: int, add_path: bool) -> bool
    decreases
        (if pos < data.len() {
            data.len() - pos
        } else {
            0
        }),
{
    pos >= data.len() || (attribute_kept(data, pos, add_path) && ({
        let frame = spec_attribute_frame(data, pos)->Ok_0;
        frame.body + frame.length > pos && attributes_kept(
            data,
            frame.body + frame.length,
            add_path,
        )
    }))
}

/// The attributes that are read from `pos` on, after `acc`, are `acc` and
/// the attributes read, where each of them is written as it was read.
proof fn lemma_attributes_extend(
    data: Seq<u8>,
    pos: int,
    add_path: bool,
    acc: Seq<PathAttributeView>,
)
    requires
        0 <= pos <= data.len(),
        attributes_kept(data, pos, add_path),
    ensures
        update_attributes_from(data, pos, add_path, acc) matches Ok(attributes) && acc.len()
            <= attributes.len() && attributes.subrange(0, acc.len() as int) == acc,
    decreases data.len() - pos,
{
    let k = acc.len() as int;
    if pos >= data.len() {
        assert(acc.subrange(0, k) =~= acc);
    } else {
        lemma_attribute_bytes_round_trip(data, pos, add_path);
        let (r, next) = spec_parse_attribute(data, pos, add_path);
        lemma_attributes_extend(data, next, add_path, acc.push(r->Ok_0));
        let attributes = update_attributes_from(data, pos, add_path, acc)->Ok_0;
        assert(attributes.subrange(0, k) =~= attributes.subrange(0, k + 1).subrange(0, k));
    }
}

/// Writing the attributes from `k` on is writing the attribute at `k` and
/// then the attributes after it.
proof fn lemma_attributes_encoding_step(
    attributes: Seq<PathAttributeView>,
    k: int,
    out: Seq<u8>,
    bytes: Seq<u8>,
)
    requires
        0 <= k < attributes.len(),
        attributes[k].encoding() == Ok::<Seq<u8>, Error>(bytes),
    ensures
        attributes_encoding(attributes, k, out) == attributes_encoding(
            attributes,
            k + 1,
            out + bytes,
        ),
{
}

/// The bytes that such attributes were read from are the bytes that they
/// are written as, one after the other, and none of them is left out.
pub proof fn lemma_attributes_bytes_round_trip(
    data: Seq<u8>,
    pos: int,
    add_path: bool,
    acc: Seq<PathAttributeView>,
    out: Seq<u8>,
)
    requires
        0 <= pos <= data.len(),
        attributes_kept(data, pos, add_path),
    ensures
        update_attributes_from(data, pos, add_path, acc) matches Ok(attributes)
            && attributes_encoding(attributes, acc.len() as int, out) == Ok::<Seq<u8>, Error>(
            out + data.subrange(pos, data.len() as int),
        ),
    decreases data.len() - pos,
{
    let k = acc.len() as int;
    lemma_attributes_extend(data, pos, add_path, acc);
    let whole = update_attributes_from(data, pos, add_path, acc);
    let attributes = whole->Ok_0;
    if pos >= data.len() {
        lemma_joined(out, data, pos, pos, pos);
    } else {
        lemma_attribute_bytes_round_trip(data, pos, add_path);
        let (r, next) = spec_parse_attribute(data, pos, add_path);
        let a = r->Ok_0;
        let more = acc.push(a);
        assert(whole == update_attributes_from(data, next, add_path, more));
        let bytes = data.subrange(pos, next);
        lemma_attributes_extend(data, next, add_path, more);
        lemma_attributes_bytes_round_trip(data, next, add_path, more, out + bytes);
        assert(attributes.subrange(0, k + 1) == more);
        assert(attributes[k] == attributes.subrange(0, k + 1)[k]);
        assert(attributes[k] == a);
        lemma_attributes_encoding_step(attributes, k, out, bytes);
        lemma_joined(out, data, pos, next, data.len() as int);
    }
}

} // verus!
