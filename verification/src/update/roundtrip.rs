//! What an UPDATE that was read is written as, where nothing in it is
//! dropped or changed by reading.

use crate::endian::{lemma_u16_bytes_round_trip, u16_be_bytes};
use crate::error::Error;
use crate::family::{AFI, SAFI};
use crate::stream::{bytes_at, fits, u16_at};
use crate::update::attributes::{attributes_encoding, PathAttributeView};
use crate::update::nlri::{
    lemma_routes_bytes_round_trip, nlri_from, routes_encoding, routes_masked, NLRIView,
};
use crate::update::written::{attributes_kept, lemma_attributes_bytes_round_trip};
use crate::update::{
    block_at, families_from, ipv4_routes_from, section_routes, spec_parse_update,
    update_attributes_from, UpdateView,
};
use vstd::prelude::*;

verus! {

/// Whether every one of the routes is a plain IPv4 route without a path
/// identifier.
pub open spec fn all_ipv4(routes: Seq<NLRIView>) -> bool {
    forall|i: int| 0 <= i < routes.len() ==> (#[trigger] routes[i]).is_ipv4()
}

/// Among plain IPv4 routes, the plain IPv4 routes are all of them.
proof fn lemma_ipv4_routes_kept(routes: Seq<NLRIView>, i: int, acc: Seq<NLRIView>)
    requires
        all_ipv4(routes),
        0 <= i <= routes.len(),
        acc == routes.subrange(0, i),
    ensures
        ipv4_routes_from(routes, i, acc) == routes,
    decreases routes.len() - i,
{
    if i < routes.len() {
        assert(acc.push(routes[i]) =~= routes.subrange(0, i + 1));
        lemma_ipv4_routes_kept(routes, i + 1, acc.push(routes[i]));
    } else {
        assert(acc =~= routes);
    }
}

/// Plain IPv4 routes have no family that an MP_UNREACH_NLRI is written
/// for.
proof fn lemma_ipv4_routes_have_no_family(routes: Seq<NLRIView>, i: int)
    requires
        all_ipv4(routes),
        0 <= i <= routes.len(),
    ensures
        families_from(routes, i, Seq::empty()) == Seq::<(AFI, SAFI)>::empty(),
    decreases routes.len() - i,
{
    if i < routes.len() {
        lemma_ipv4_routes_have_no_family(routes, i + 1);
    }
}

/// The plain IPv4 routes that fill a block are written as the block,
/// where they hold no bit beyond the length of a prefix.
pub proof fn lemma_section_bytes_round_trip(block: Seq<u8>, add_path: bool)
    requires
        section_routes(block, add_path) matches Ok(routes) && routes_masked(routes),
    ensures
        routes_encoding(section_routes(block, add_path)->Ok_0, 0, Seq::empty()) == Ok::<
            Seq<u8>,
            Error,
        >(block),
{
    let size = block.len() as int;
    let none = Seq::<NLRIView>::empty();
    lemma_routes_bytes_round_trip(
        block,
        0,
        size,
        AFI::IPV4,
        SAFI::Unicast,
        add_path,
        none,
        Seq::empty(),
    );
    let end = nlri_from(block, 0, size, AFI::IPV4, SAFI::Unicast, add_path, none)->Ok_0.1;
    assert(Seq::<u8>::empty() + block.subrange(0, end) =~= block);
}

/// An UPDATE whose withdrawn routes are plain IPv4 routes is written as
/// the length of the withdrawn routes, those routes, the length of its
/// attributes, the attributes, and the announced routes.
proof fn lemma_update_encoding(u: UpdateView, w: Seq<u8>, a: Seq<u8>, n: Seq<u8>)
    requires
        all_ipv4(u.withdrawn_routes),
        routes_encoding(u.withdrawn_routes, 0, Seq::empty()) == Ok::<Seq<u8>, Error>(w),
        w.len() <= 0xffff,
        attributes_encoding(u.attributes, 0, Seq::empty()) == Ok::<Seq<u8>, Error>(a),
        a.len() <= 0xffff,
        routes_encoding(u.announced_routes, 0, Seq::empty()) == Ok::<Seq<u8>, Error>(n),
    ensures
        u.encoding() == Ok::<Seq<u8>, Error>(
            u16_be_bytes(w.len() as u16) + w + u16_be_bytes(a.len() as u16) + a + n,
        ),
{
    assert(Seq::<NLRIView>::empty() =~= u.withdrawn_routes.subrange(0, 0));
    lemma_ipv4_routes_kept(u.withdrawn_routes, 0, Seq::empty());
    lemma_ipv4_routes_have_no_family(u.withdrawn_routes, 0);
    assert(u.unreach_attributes() == Seq::<PathAttributeView>::empty());
    assert(u.withdrawals_supported());
    assert(attributes_encoding(u.unreach_attributes(), 0, a) == Ok::<Seq<u8>, Error>(a));
}

/// The three sections of an UPDATE that was read: each was read from its
/// own bytes, the first two after their lengths.
proof fn lemma_update_sections(data: Seq<u8>, pos: int, length: u16, add_path: bool)
    requires
        0 <= pos,
        spec_parse_update(data, pos, length, add_path) is Ok,
    ensures
        ({
            let (u, end) = spec_parse_update(data, pos, length, add_path)->Ok_0;
            let w = u16_at(data, pos) as int;
            let a = u16_at(data, pos + 2 + w) as int;
            let n = end - (pos + 4 + w + a);
            &&& length >= 23
            &&& end == pos + length - 19
            &&& n >= 0
            &&& end <= data.len()
            &&& section_routes(bytes_at(data, pos + 2, w), add_path) == Ok::<
                Seq<NLRIView>,
                Error,
            >(u.withdrawn_routes)
            &&& update_attributes_from(
                bytes_at(data, pos + 4 + w, a),
                0,
                add_path,
                Seq::empty(),
            ) == Ok::<Seq<PathAttributeView>, Error>(u.attributes)
            &&& section_routes(bytes_at(data, pos + 4 + w + a, n), add_path) == Ok::<
                Seq<NLRIView>,
                Error,
            >(u.announced_routes)
        }),
{
    reveal(spec_parse_update);
    let first = block_at(data, pos, length - 23);
    assert(first is Ok);
    let (withdrawn, p1) = first->Ok_0;
    assert(section_routes(withdrawn, add_path) is Ok);
    let second = block_at(data, p1, length - 23 - withdrawn.len());
    assert(second is Ok);
    let (attrs, p2) = second->Ok_0;
    assert(update_attributes_from(attrs, 0, add_path, Seq::empty()) is Ok);
}

/// The bytes of an UPDATE are the length of its withdrawn routes, their
/// bytes, the length of its attributes, their bytes, and the bytes of its
/// announced routes.
proof fn lemma_sections_joined(data: Seq<u8>, pos: int, n: int)
    requires
        0 <= pos,
        0 <= n,
        fits(data, pos, 2),
        fits(data, pos + 2 + u16_at(data, pos), 2),
        pos + 4 + u16_at(data, pos) + u16_at(data, pos + 2 + u16_at(data, pos)) + n <= data.len(),
    ensures
        ({
            let w = u16_at(data, pos);
            let a = u16_at(data, pos + 2 + w);
            u16_be_bytes(w) + bytes_at(data, pos + 2, w as int) + u16_be_bytes(a) + bytes_at(
                data,
                pos + 4 + w,
                a as int,
            ) + bytes_at(data, pos + 4 + w + a, n) == data.subrange(pos, pos + 4 + w + a + n)
        }),
{
    let w = u16_at(data, pos);
    let a = u16_at(data, pos + 2 + w);
    lemma_u16_bytes_round_trip(bytes_at(data, pos, 2));
    lemma_u16_bytes_round_trip(bytes_at(data, pos + 2 + w, 2));
    assert(bytes_at(data, pos, 2) + bytes_at(data, pos + 2, w as int) + bytes_at(
        data,
        pos + 2 + w,
        2,
    ) + bytes_at(data, pos + 4 + w, a as int) + bytes_at(data, pos + 4 + w + a, n)
        =~= data.subrange(pos, pos + 4 + w + a + n));
}

/// The body of an UPDATE that was read is written as the bytes it was
/// read from, where each of its attributes is written as it was read, no
/// prefix holds a bit beyond its length, and the withdrawn routes that
/// were read hold no path identifiers.
pub proof fn lemma_update_round_trip(data: Seq<u8>, pos: int, length: u16, add_path: bool)
    requires
        0 <= pos,
        spec_parse_update(data, pos, length, add_path) is Ok,
        all_ipv4(spec_parse_update(data, pos, length, add_path)->Ok_0.0.withdrawn_routes),
        routes_masked(spec_parse_update(data, pos, length, add_path)->Ok_0.0.withdrawn_routes),
        routes_masked(spec_parse_update(data, pos, length, add_path)->Ok_0.0.announced_routes),
        attributes_kept(
            bytes_at(
                data,
                pos + 4 + u16_at(data, pos),
                u16_at(data, pos + 2 + u16_at(data, pos)) as int,
            ),
            0,
            add_path,
        ),
    ensures
        ({
            let (u, end) = spec_parse_update(data, pos, length, add_path)->Ok_0;
            pos + 4 <= end <= data.len() && end == pos + length - 19 && u.encoding() == Ok::<
                Seq<u8>,
                Error,
            >(data.subrange(pos, end))
        }),
{
    let (u, end) = spec_parse_update(data, pos, length, add_path)->Ok_0;
    let w = u16_at(data, pos) as int;
    let a = u16_at(data, pos + 2 + w) as int;
    let n = end - (pos + 4 + w + a);
    lemma_update_sections(data, pos, length, add_path);
    let withdrawn = bytes_at(data, pos + 2, w);
    let attributes = bytes_at(data, pos + 4 + w, a);
    let announced = bytes_at(data, pos + 4 + w + a, n);
    assert(section_routes(withdrawn, add_path) == Ok::<Seq<NLRIView>, Error>(u.withdrawn_routes));
    assert(section_routes(announced, add_path) == Ok::<Seq<NLRIView>, Error>(u.announced_routes));
    lemma_section_bytes_round_trip(withdrawn, add_path);
    lemma_section_bytes_round_trip(announced, add_path);
    lemma_attributes_bytes_round_trip(attributes, 0, add_path, Seq::empty(), Seq::empty());
    assert(Seq::<u8>::empty() + attributes.subrange(0, attributes.len() as int) =~= attributes);
    assert(attributes_encoding(u.attributes, 0, Seq::empty()) == Ok::<Seq<u8>, Error>(attributes));
    lemma_update_encoding(u, withdrawn, attributes, announced);
    lemma_sections_joined(data, pos, n);
    assert(withdrawn.len() as u16 == u16_at(data, pos));
    assert(attributes.len() as u16 == u16_at(data, pos + 2 + w));
    assert(end == pos + 4 + w + a + n);
}

} // verus!
