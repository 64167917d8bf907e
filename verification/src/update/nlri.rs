//! Network layer reachability information: the encodings of a route, and
//! the multiprotocol attributes that carry them.

use crate::endian::{
    lemma_u32_bytes_round_trip, push_bytes, push_u16, push_u32, push_u64, push_u8, u16_be_bytes,
    u32_be_bytes, u64_be_bytes,
};
use crate::error::{appended, done, in_block, stop, Error, Parsed};
use crate::family::{AFI, SAFI};
use crate::open::Capabilities;
use crate::stream::{
    bytes_at, fits, lemma_joined, past, u16_at, u24_at, u32_at, u64_at, Cursor,
    ReadCountingStream,
};
use crate::update::flowspec::{
    lemma_filter_advance, spec_parse_filter, FlowspecFilter, FlowspecFilterView,
};
use crate::update::prefix::{
    lemma_prefix_bytes_round_trip, spec_parse_prefix, to_vec, Prefix, PrefixView,
};
use crate::util::{detect_add_path_prefix, prefix_octets, spec_detect_add_path_prefix};
use vstd::prelude::*;

verus! {

/// One route, in one of the encodings that an NLRI section can hold.
#[derive(Debug, Eq, PartialEq)]
#[allow(non_camel_case_types)]
pub enum NLRIEncoding {
    /// A prefix.
    IP(Prefix),
    /// A prefix and its path identifier.
    IP_WITH_PATH_ID((Prefix, u32)),
    /// A prefix and its MPLS label.
    IP_MPLS((Prefix, u32)),
    /// A prefix, its MPLS label and its path identifier.
    IP_MPLS_WITH_PATH_ID((Prefix, u32, u32)),
    /// A route distinguisher, a prefix and its MPLS label.
    IP_VPN_MPLS((u64, Prefix, u32)),
    /// A VPLS endpoint: route distinguisher, VE identifier, label block
    /// offset, label block size and label base.
    L2VPN((u64, u16, u16, u16, u32)),
    /// The components of a flow specification.
    FLOWSPEC(Vec<FlowspecFilter>),
}

/// What an `NLRIEncoding` holds, as mathematical values.
#[allow(non_camel_case_types)]
pub enum NLRIView {
    /// A prefix.
    IP(PrefixView),
    /// A prefix and its path identifier.
    IP_WITH_PATH_ID((PrefixView, u32)),
    /// A prefix and its MPLS label.
    IP_MPLS((PrefixView, u32)),
    /// A prefix, its MPLS label and its path identifier.
    IP_MPLS_WITH_PATH_ID((PrefixView, u32, u32)),
    /// A route distinguisher, a prefix and its MPLS label.
    IP_VPN_MPLS((u64, PrefixView, u32)),
    /// A VPLS endpoint.
    L2VPN((u64, u16, u16, u16, u32)),
    /// The components of a flow specification.
    FLOWSPEC(Seq<FlowspecFilterView>),
}

/// The views of a list of filters.
pub open spec fn filter_views(filters: Seq<FlowspecFilter>) -> Seq<FlowspecFilterView> {
    filters.map_values(|f: FlowspecFilter| f@)
}

/// The views of a list of routes.
pub open spec fn nlri_views(routes: Seq<NLRIEncoding>) -> Seq<NLRIView> {
    routes.map_values(|n: NLRIEncoding| n@)
}

impl View for NLRIEncoding {
    type V = NLRIView;

    open spec fn view(&self) -> NLRIView {
        match self {
            NLRIEncoding::IP(p) => NLRIView::IP(p@),
            NLRIEncoding::IP_WITH_PATH_ID((p, id)) => NLRIView::IP_WITH_PATH_ID((p@, *id)),
            NLRIEncoding::IP_MPLS((p, label)) => NLRIView::IP_MPLS((p@, *label)),
            NLRIEncoding::IP_MPLS_WITH_PATH_ID((p, label, id)) => NLRIView::IP_MPLS_WITH_PATH_ID(
                (p@, *label, *id),
            ),
            NLRIEncoding::IP_VPN_MPLS((rd, p, label)) => NLRIView::IP_VPN_MPLS((*rd, p@, *label)),
            NLRIEncoding::L2VPN(t) => NLRIView::L2VPN(*t),
            NLRIEncoding::FLOWSPEC(filters) => NLRIView::FLOWSPEC(filter_views(filters@)),
        }
    }
}

/// Copies a list of filters.
fn clone_filters(filters: &Vec<FlowspecFilter>) -> (r: Vec<FlowspecFilter>)
    ensures
        filter_views(r@) == filter_views(filters@),
{
    let mut out: Vec<FlowspecFilter> = Vec::new();
    let mut i: usize = 0;
    while i < filters.len()
        invariant
            i <= filters.len(),
            out@.len() == i,
            forall|j: int| 0 <= j < i ==> out@[j]@ == filters@[j]@,
        decreases filters.len() - i,
    {
        out.push(filters[i].clone());
        i = i + 1;
    }
    assert(filter_views(out@) =~= filter_views(filters@));
    out
}

impl Clone for NLRIEncoding {
    fn clone(&self) -> (r: Self)
        ensures
            r@ == self@,
    {
        match self {
            NLRIEncoding::IP(p) => NLRIEncoding::IP(p.clone()),
            NLRIEncoding::IP_WITH_PATH_ID((p, id)) => NLRIEncoding::IP_WITH_PATH_ID(
                (p.clone(), *id),
            ),
            NLRIEncoding::IP_MPLS((p, label)) => NLRIEncoding::IP_MPLS((p.clone(), *label)),
            NLRIEncoding::IP_MPLS_WITH_PATH_ID((p, label, id)) => {
                NLRIEncoding::IP_MPLS_WITH_PATH_ID((p.clone(), *label, *id))
            },
            NLRIEncoding::IP_VPN_MPLS((rd, p, label)) => NLRIEncoding::IP_VPN_MPLS(
                (*rd, p.clone(), *label),
            ),
            NLRIEncoding::L2VPN(t) => NLRIEncoding::L2VPN(*t),
            NLRIEncoding::FLOWSPEC(filters) => NLRIEncoding::FLOWSPEC(clone_filters(filters)),
        }
    }
}

/// Copies a list of routes.
pub fn clone_routes(routes: &Vec<NLRIEncoding>) -> (r: Vec<NLRIEncoding>)
    ensures
        nlri_views(r@) == nlri_views(routes@),
{
    let mut out: Vec<NLRIEncoding> = Vec::new();
    let mut i: usize = 0;
    while i < routes.len()
        invariant
            i <= routes.len(),
            out@.len() == i,
            forall|j: int| 0 <= j < i ==> out@[j]@ == routes@[j]@,
        decreases routes.len() - i,
    {
        out.push(routes[i].clone());
        i = i + 1;
    }
    assert(nlri_views(out@) =~= nlri_views(routes@));
    out
}

/// The wire form of the filters from `i` on, after `acc`; the error of
/// the first filter that has none.
pub open spec fn filters_encoding(filters: Seq<FlowspecFilterView>, i: int, acc: Seq<u8>) -> Result<
    Seq<u8>,
    Error,
>
    decreases filters.len() - i,
{
    if i < 0 || i >= filters.len() {
        Ok(acc)
    } else {
        match filters[i].encoding() {
            Err(e) => Err(e),
            Ok(bytes) => filters_encoding(filters, i + 1, acc + bytes),
        }
    }
}

impl NLRIView {
    /// Whether the route is a plain IPv4 prefix, which an UPDATE carries
    /// in its own sections.
    pub open spec fn is_ipv4(self) -> bool {
        self matches NLRIView::IP(p) && p.protocol == AFI::IPV4
    }

    /// Whether the route is of an encoding whose family can be told: a
    /// plain prefix or a flow specification.
    pub open spec fn has_family(self) -> bool {
        self is IP || self is FLOWSPEC
    }

    /// The address family of the route: that of its prefix for a plain
    /// prefix, and IPv4 for a flow specification, whatever its components
    /// hold.
    pub open spec fn afi(self) -> AFI
        recommends
            self.has_family(),
    {
        match self {
            NLRIView::IP(p) => p.protocol,
            _ => AFI::IPV4,
        }
    }

    /// The subsequent address family of the route: unicast for a plain
    /// prefix, flow specification for a flow specification.
    pub open spec fn safi(self) -> SAFI
        recommends
            self.has_family(),
    {
        match self {
            NLRIView::FLOWSPEC(_) => SAFI::Flowspec,
            _ => SAFI::Unicast,
        }
    }

    /// Whether the prefix of a plain route holds no bit beyond its
    /// length; so it is of every other route.
    pub open spec fn masked(self) -> bool {
        match self {
            NLRIView::IP(p) => p.masked(),
            NLRIView::IP_WITH_PATH_ID((p, _)) => p.masked(),
            _ => true,
        }
    }

    /// The wire form of the route. A plain prefix is its length and the
    /// octets that the length covers, without the bits beyond the length,
    /// after the path identifier where there is one; a VPN route is label, route distinguisher and every
    /// octet of the prefix; a flow specification is the length of its
    /// components in one byte, then the components. The labeled and the
    /// VPLS encodings have no wire form, nor has a prefix that lacks
    /// octets, nor a flow specification longer than 255 bytes.
    pub open spec fn encoding(self) -> Result<Seq<u8>, Error> {
        match self {
            NLRIView::IP(p) => if p.wf() {
                Ok(p.encoding())
            } else {
                Err(Error::UnsupportedEncoding)
            },
            NLRIView::IP_WITH_PATH_ID((p, id)) => if p.wf() {
                Ok(u32_be_bytes(id) + p.encoding())
            } else {
                Err(Error::UnsupportedEncoding)
            },
            NLRIView::IP_VPN_MPLS((rd, p, label)) => Ok(
                u32_be_bytes(label) + u64_be_bytes(rd) + p.prefix,
            ),
            NLRIView::FLOWSPEC(filters) => match filters_encoding(filters, 0, Seq::empty()) {
                Err(e) => Err(e),
                Ok(bytes) => if bytes.len() > 0xff {
                    Err(Error::EncodeOverflow)
                } else {
                    Ok(seq![bytes.len() as u8] + bytes)
                },
            },
            _ => Err(Error::UnsupportedEncoding),
        }
    }
}

/// The wire form of the routes from `i` on, after `acc`; the error of the
/// first route that has none.
pub open spec fn routes_encoding(routes: Seq<NLRIView>, i: int, acc: Seq<u8>) -> Result<
    Seq<u8>,
    Error,
>
    decreases routes.len() - i,
{
    if i < 0 || i >= routes.len() {
        Ok(acc)
    } else {
        match routes[i].encoding() {
            Err(e) => Err(e),
            Ok(bytes) => routes_encoding(routes, i + 1, acc + bytes),
        }
    }
}

/// Writes the components of a flow specification one after the other.
fn encode_filters(filters: &Vec<FlowspecFilter>) -> (r: Result<Vec<u8>, Error>)
    ensures
        match r {
            Ok(v) => filters_encoding(filter_views(filters@), 0, Seq::empty()) == Ok::<
                Seq<u8>,
                Error,
            >(v@),
            Err(e) => filters_encoding(filter_views(filters@), 0, Seq::empty()) == Err::<
                Seq<u8>,
                Error,
            >(e),
        },
{
    let mut out: Vec<u8> = Vec::new();
    let mut i: usize = 0;
    while i < filters.len()
        invariant
            i <= filters.len(),
            filters_encoding(filter_views(filters@), 0, Seq::empty()) == filters_encoding(
                filter_views(filters@),
                i as int,
                out@,
            ),
        decreases filters.len() - i,
    {
        assert(filter_views(filters@)[i as int] == filters@[i as int]@);
        filters[i].encode(&mut out)?;
        i = i + 1;
    }
    Ok(out)
}

/// Writes routes one after the other.
pub fn encode_routes(routes: &Vec<NLRIEncoding>) -> (r: Result<Vec<u8>, Error>)
    ensures
        match r {
            Ok(v) => routes_encoding(nlri_views(routes@), 0, Seq::empty()) == Ok::<
                Seq<u8>,
                Error,
            >(v@),
            Err(e) => routes_encoding(nlri_views(routes@), 0, Seq::empty()) == Err::<
                Seq<u8>,
                Error,
            >(e),
        },
{
    let mut out: Vec<u8> = Vec::new();
    let mut i: usize = 0;
    while i < routes.len()
        invariant
            i <= routes.len(),
            routes_encoding(nlri_views(routes@), 0, Seq::empty()) == routes_encoding(
                nlri_views(routes@),
                i as int,
                out@,
            ),
        decreases routes.len() - i,
    {
        assert(nlri_views(routes@)[i as int] == routes@[i as int]@);
        routes[i].encode(&mut out)?;
        i = i + 1;
    }
    Ok(out)
}

impl NLRIEncoding {
    /// Whether the route is a plain IPv4 prefix.
    pub fn is_ipv4(&self) -> (r: bool)
        ensures
            r == self@.is_ipv4(),
    {
        match self {
            NLRIEncoding::IP(prefix) => prefix.protocol == AFI::IPV4,
            _ => false,
        }
    }

    /// The address family of a plain prefix or a flow specification.
    pub fn afi(&self) -> (r: AFI)
        requires
            self@.has_family(),
        ensures
            r == self@.afi(),
    {
        match self {
            NLRIEncoding::IP(prefix) => prefix.protocol,
            _ => AFI::IPV4,
        }
    }

    /// The subsequent address family of a plain prefix or a flow
    /// specification.
    pub fn safi(&self) -> (r: SAFI)
        requires
            self@.has_family(),
        ensures
            r == self@.safi(),
    {
        match self {
            NLRIEncoding::FLOWSPEC(_) => SAFI::Flowspec,
            _ => SAFI::Unicast,
        }
    }

    /// Appends the wire form of the route to `buf`.
    pub fn encode(&self, buf: &mut Vec<u8>) -> (r: Result<(), Error>)
        ensures
            appended(old(buf)@, final(buf)@, r, self@.encoding()),
    {
        match self {
            NLRIEncoding::IP(prefix) => {
                if !prefix.is_wf() {
                    return Err(Error::UnsupportedEncoding);
                }
                push_u8(buf, prefix.length);
                let octets = prefix.wire_octets();
                push_bytes(buf, octets.as_slice());
                assert(buf@ =~= old(buf)@ + prefix@.encoding());
                Ok(())
            },
            NLRIEncoding::IP_WITH_PATH_ID((prefix, path_id)) => {
                if !prefix.is_wf() {
                    return Err(Error::UnsupportedEncoding);
                }
                push_u32(buf, *path_id);
                push_u8(buf, prefix.length);
                let octets = prefix.wire_octets();
                push_bytes(buf, octets.as_slice());
                assert(buf@ =~= old(buf)@ + (u32_be_bytes(*path_id) + prefix@.encoding()));
                Ok(())
            },
            NLRIEncoding::IP_VPN_MPLS((rd, prefix, label)) => {
                push_u32(buf, *label);
                push_u64(buf, *rd);
                push_bytes(buf, prefix.prefix.as_slice());
                assert(buf@ =~= old(buf)@ + (u32_be_bytes(*label) + u64_be_bytes(*rd)
                    + prefix@.prefix));
                Ok(())
            },
            NLRIEncoding::FLOWSPEC(filters) => {
                let bytes = encode_filters(filters)?;
                if bytes.len() > 0xff {
                    return Err(Error::EncodeOverflow);
                }
                push_u8(buf, bytes.len() as u8);
                push_bytes(buf, bytes.as_slice());
                assert(buf@ =~= old(buf)@ + (seq![bytes@.len() as u8] + bytes@));
                Ok(())
            },
            _ => Err(Error::UnsupportedEncoding),
        }
    }
}

/// The plain route of family `afi` read at `pos`, and the place after it:
/// a prefix, after a four-byte path identifier where `add_path` says so or
/// where the bytes from `pos` on are taken to carry them.
pub open spec fn spec_parse_unicast(data: Seq<u8>, pos: int, afi: AFI, add_path: bool) -> Parsed<
    NLRIView,
> {
    let with_id = add_path || (afi.max_prefix_bits() matches Some(max)
        && spec_detect_add_path_prefix(data, pos, max as int));
    if with_id {
        if !fits(data, pos, 4) {
            stop(Error::UnexpectedEof, pos)
        } else {
            match spec_parse_prefix(data, pos + 4, afi) {
                Err(e) => Err(e),
                Ok((p, end)) => done(NLRIView::IP_WITH_PATH_ID((p, u32_at(data, pos))), end),
            }
        }
    } else {
        match spec_parse_prefix(data, pos, afi) {
            Err(e) => Err(e),
            Ok((p, end)) => done(NLRIView::IP(p), end),
        }
    }
}

/// Reads one plain route of family `afi`, with a path identifier where
/// `add_path` says so or where the bytes ahead are taken to carry them.
/// Where that fails, the stream is left where reading stopped.
pub fn parse_unicast(stream: &mut Cursor, afi: AFI, add_path: bool) -> (r: Result<
    NLRIEncoding,
    Error,
>)
    ensures
        final(stream).data == old(stream).data,
        match r {
            Ok(n) => spec_parse_unicast(old(stream).data@, old(stream).at(), afi, add_path) == done(
                n@,
                final(stream).at(),
            ),
            Err(e) => spec_parse_unicast(old(stream).data@, old(stream).at(), afi, add_path)
                == stop::<NLRIView>(e, final(stream).at()),
        },
{
    let with_id = if add_path {
        true
    } else {
        match afi.max_prefix_bits() {
            Some(max) => detect_add_path_prefix(stream, max as u32)?,
            None => false,
        }
    };
    if with_id {
        let path_id = stream.read_u32()?;
        let prefix = Prefix::parse(stream, afi)?;
        Ok(NLRIEncoding::IP_WITH_PATH_ID((prefix, path_id)))
    } else {
        Ok(NLRIEncoding::IP(Prefix::parse(stream, afi)?))
    }
}

/// `octets`, cut or filled up with zero octets to `size` octets.
pub open spec fn zero_padded(octets: Seq<u8>, size: int) -> Seq<u8> {
    Seq::new(
        size as nat,
        |i: int|
            if i < octets.len() {
                octets[i]
            } else {
                0u8
            },
    )
}

/// A buffer of `size` octets that starts with `octets` and is zero after
/// them.
fn pad_with_zeros(octets: &[u8], size: usize) -> (r: Vec<u8>)
    ensures
        r@ == zero_padded(octets@, size as int),
{
    let mut out: Vec<u8> = Vec::new();
    let mut i: usize = 0;
    while i < size
        invariant
            i <= size,
            out@ == zero_padded(octets@, i as int),
        decreases size - i,
    {
        let b: u8 = if i < octets.len() {
            octets[i]
        } else {
            0u8
        };
        out.push(b);
        i = i + 1;
        assert(out@ =~= zero_padded(octets@, i as int));
    }
    out
}

/// The labeled route of family `afi` read at `pos`, and the place after
/// it: a path identifier where the bytes ahead are taken to carry them, a
/// length in bits that counts the 24 bits of the label area, the label
/// area, and the prefix octets, held in an address-sized buffer. The
/// label itself is not kept. A length that does not cover the label is
/// refused after the length octet; a family without addresses, and a
/// prefix longer than an address, after the label area.
pub open spec fn spec_parse_mpls(data: Seq<u8>, pos: int, afi: AFI) -> Parsed<NLRIView> {
    let with_id = spec_detect_add_path_prefix(data, pos, 255);
    let at: int = if with_id {
        pos + 4
    } else {
        pos
    };
    if with_id && !fits(data, pos, 4) {
        stop(Error::UnexpectedEof, pos)
    } else if !fits(data, at, 1) {
        stop(Error::UnexpectedEof, at)
    } else if data[at] < 24 {
        stop(Error::MalformedNlri, at + 1)
    } else if !fits(data, at + 1, 3) {
        stop(Error::UnexpectedEof, at + 1)
    } else {
        match afi.max_prefix_bits() {
            None => stop(Error::UnsupportedAfi(afi.code()), at + 4),
            Some(max) => {
                let size = max as int / 8;
                let remaining = prefix_octets(data[at] as int) - 3;
                if remaining > size {
                    stop(Error::MalformedNlri, at + 4)
                } else if !fits(data, at + 4, remaining) {
                    stop(Error::UnexpectedEof, at + 4)
                } else {
                    let prefix = PrefixView {
                        protocol: afi,
                        length: (data[at] - 24) as u8,
                        prefix: zero_padded(bytes_at(data, at + 4, remaining), size),
                    };
                    done(
                        if with_id {
                            NLRIView::IP_MPLS_WITH_PATH_ID((prefix, 0, u32_at(data, pos)))
                        } else {
                            NLRIView::IP_MPLS((prefix, 0))
                        },
                        at + 4 + remaining,
                    )
                }
            },
        }
    }
}

/// Reads one labeled route of family `afi`. Where that fails, the stream
/// is left where reading stopped.
pub fn parse_mpls(afi: AFI, buf: &mut Cursor) -> (r: Result<NLRIEncoding, Error>)
    ensures
        final(buf).data == old(buf).data,
        match r {
            Ok(n) => spec_parse_mpls(old(buf).data@, old(buf).at(), afi) == done(
                n@,
                final(buf).at(),
            ),
            Err(e) => spec_parse_mpls(old(buf).data@, old(buf).at(), afi) == stop::<NLRIView>(
                e,
                final(buf).at(),
            ),
        },
{
    let path_id = if detect_add_path_prefix(buf, 255)? {
        Some(buf.read_u32()?)
    } else {
        None
    };
    let len_bits = buf.read_u8()?;
    if len_bits < 24 {
        return Err(Error::MalformedNlri);
    }
    let len_bytes: usize = (len_bits as usize + 7) / 8;
    let _label = buf.read_exact(3)?;
    let size: usize = match afi.max_prefix_bits() {
        Some(max) => max as usize / 8,
        None => {
            return Err(Error::UnsupportedAfi(afi.code()));
        },
    };
    let remaining: usize = len_bytes - 3;
    if remaining > size {
        return Err(Error::MalformedNlri);
    }
    let octets = buf.read_exact(remaining)?;
    let prefix = Prefix::new(afi, len_bits - 24, pad_with_zeros(octets, size));
    match path_id {
        Some(path_id) => Ok(NLRIEncoding::IP_MPLS_WITH_PATH_ID((prefix, 0, path_id))),
        None => Ok(NLRIEncoding::IP_MPLS((prefix, 0))),
    }
}

/// The labeled VPN route of family `afi` read at `pos`, and the place
/// after it: a length in bits that counts the 24 bits of the label area
/// and the 64 of the route distinguisher, the label area, the route
/// distinguisher, and the prefix octets, held in an address-sized buffer.
/// The label itself is not kept. A length that does not cover label and
/// route distinguisher is refused after the length octet; a family
/// without addresses, and a prefix longer than an address, after the
/// route distinguisher. Where the bytes end, the place is after the last
/// field that is whole.
pub open spec fn spec_parse_mplsvpn(data: Seq<u8>, pos: int, afi: AFI) -> Parsed<NLRIView> {
    if !fits(data, pos, 1) {
        stop(Error::UnexpectedEof, pos)
    } else if data[pos] < 88 {
        stop(Error::MalformedNlri, pos + 1)
    } else if !fits(data, pos + 1, 3) {
        stop(Error::UnexpectedEof, pos + 1)
    } else if !fits(data, pos + 4, 8) {
        stop(Error::UnexpectedEof, pos + 4)
    } else {
        match afi.max_prefix_bits() {
            None => stop(Error::UnsupportedAfi(afi.code()), pos + 12),
            Some(max) => {
                let size = max as int / 8;
                let remaining = prefix_octets(data[pos] as int) - 11;
                if remaining > size {
                    stop(Error::MalformedNlri, pos + 12)
                } else if !fits(data, pos + 12, remaining) {
                    stop(Error::UnexpectedEof, pos + 12)
                } else {
                    let prefix = PrefixView {
                        protocol: afi,
                        length: (data[pos] - 88) as u8,
                        prefix: zero_padded(bytes_at(data, pos + 12, remaining), size),
                    };
                    done(
                        NLRIView::IP_VPN_MPLS((u64_at(data, pos + 4), prefix, 0)),
                        pos + 12 + remaining,
                    )
                }
            },
        }
    }
}

/// Reads one labeled VPN route of family `afi`. Where that fails, the
/// stream is left where reading stopped.
pub fn parse_mplsvpn(afi: AFI, buf: &mut Cursor) -> (r: Result<NLRIEncoding, Error>)
    ensures
        final(buf).data == old(buf).data,
        match r {
            Ok(n) => spec_parse_mplsvpn(old(buf).data@, old(buf).at(), afi) == done(
                n@,
                final(buf).at(),
            ),
            Err(e) => spec_parse_mplsvpn(old(buf).data@, old(buf).at(), afi) == stop::<NLRIView>(
                e,
                final(buf).at(),
            ),
        },
{
    let len_bits = buf.read_u8()?;
    if len_bits < 88 {
        return Err(Error::MalformedNlri);
    }
    let len_bytes: usize = (len_bits as usize + 7) / 8;
    let _label = buf.read_exact(3)?;
    let rd = buf.read_u64()?;
    let size: usize = match afi.max_prefix_bits() {
        Some(max) => max as usize / 8,
        None => {
            return Err(Error::UnsupportedAfi(afi.code()));
        },
    };
    let remaining: usize = len_bytes - 11;
    if remaining > size {
        return Err(Error::MalformedNlri);
    }
    let octets = buf.read_exact(remaining)?;
    let prefix = Prefix::new(afi, len_bits - 88, pad_with_zeros(octets, size));
    Ok(NLRIEncoding::IP_VPN_MPLS((rd, prefix, 0u32)))
}

/// The VPLS record read at `pos`, as a list of one route, and the place
/// after it: a length, a route distinguisher, a VE identifier, a label
/// block offset, a label block size and a 24-bit label base. Where the
/// bytes end within the record, the place is after the last field that is
/// whole.
pub open spec fn spec_parse_l2vpn(data: Seq<u8>, pos: int) -> Parsed<Seq<NLRIView>> {
    if !fits(data, pos, 2) {
        stop(Error::UnexpectedEof, pos)
    } else if !fits(data, pos + 2, 8) {
        stop(Error::UnexpectedEof, pos + 2)
    } else if !fits(data, pos + 10, 2) {
        stop(Error::UnexpectedEof, pos + 10)
    } else if !fits(data, pos + 12, 2) {
        stop(Error::UnexpectedEof, pos + 12)
    } else if !fits(data, pos + 14, 2) {
        stop(Error::UnexpectedEof, pos + 14)
    } else if !fits(data, pos + 16, 3) {
        stop(Error::UnexpectedEof, pos + 16)
    } else {
        done(
            seq![
                NLRIView::L2VPN(
                    (
                        u64_at(data, pos + 2),
                        u16_at(data, pos + 10),
                        u16_at(data, pos + 12),
                        u16_at(data, pos + 14),
                        u24_at(data, pos + 16),
                    ),
                ),
            ],
            pos + 19,
        )
    }
}

/// Reads the one VPLS record of an L2VPN block. Where that fails, the
/// stream is left where reading stopped.
pub fn parse_l2vpn(buf: &mut Cursor) -> (r: Result<Vec<NLRIEncoding>, Error>)
    ensures
        final(buf).data == old(buf).data,
        match r {
            Ok(v) => spec_parse_l2vpn(old(buf).data@, old(buf).at()) == done(
                nlri_views(v@),
                final(buf).at(),
            ),
            Err(e) => spec_parse_l2vpn(old(buf).data@, old(buf).at()) == stop::<Seq<NLRIView>>(
                e,
                final(buf).at(),
            ),
        },
{
    let _len = buf.read_u16()?;
    let rd = buf.read_u64()?;
    let ve_id = buf.read_u16()?;
    let label_block_offset = buf.read_u16()?;
    let label_block_size = buf.read_u16()?;
    let label_base = buf.read_u24()?;
    let mut out: Vec<NLRIEncoding> = Vec::new();
    out.push(NLRIEncoding::L2VPN((rd, ve_id, label_block_offset, label_block_size, label_base)));
    assert(nlri_views(out@) =~= seq![out@[0]@]);
    Ok(out)
}

/// The components of family `afi` read from `pos` to the end of
/// `window`, after `acc`.
pub open spec fn filters_from(
    window: Seq<u8>,
    pos: int,
    afi: AFI,
    acc: Seq<FlowspecFilterView>,
) -> Result<Seq<FlowspecFilterView>, Error>
    decreases
        (if pos < window.len() {
            window.len() - pos
        } else {
            0
        }),
{
    if pos >= window.len() {
        Ok(acc)
    } else {
        match spec_parse_filter(window, pos, afi) {
            Err((e, _)) => Err(e),
            Ok((filter, next)) => {
                proof {
                    lemma_filter_advance(window, pos, afi);
                }
                filters_from(window, next, afi, acc.push(filter))
            },
        }
    }
}

/// The flow specification of family `afi` read at `pos`, and the place
/// after it: a length in one byte, then components that fill exactly that
/// many bytes. Where a component fails to read, the place is after the
/// bytes that the length counts.
pub open spec fn spec_parse_flowspec(data: Seq<u8>, pos: int, afi: AFI) -> Parsed<NLRIView> {
    if !fits(data, pos, 1) {
        stop(Error::UnexpectedEof, pos)
    } else if !fits(data, pos + 1, data[pos] as int) {
        stop(Error::UnexpectedEof, pos + 1)
    } else {
        match filters_from(bytes_at(data, pos + 1, data[pos] as int), 0, afi, Seq::empty()) {
            Err(e) => stop(e, pos + 1 + data[pos]),
            Ok(filters) => done(NLRIView::FLOWSPEC(filters), pos + 1 + data[pos]),
        }
    }
}

/// Reads the components of family `afi` that fill `block`.
fn parse_filters(block: &[u8], afi: AFI) -> (r: Result<Vec<FlowspecFilter>, Error>)
    ensures
        match r {
            Ok(v) => filters_from(block@, 0, afi, Seq::empty()) == Ok::<
                Seq<FlowspecFilterView>,
                Error,
            >(filter_views(v@)),
            Err(e) => filters_from(block@, 0, afi, Seq::empty()) == Err::<
                Seq<FlowspecFilterView>,
                Error,
            >(e),
        },
{
    let mut window = Cursor::new(block);
    let mut filters: Vec<FlowspecFilter> = Vec::new();
    assert(filter_views(filters@) =~= Seq::empty());
    while window.position() < block.len()
        invariant
            window.data == block,
            filters_from(block@, 0, afi, Seq::empty()) == filters_from(
                block@,
                window.at(),
                afi,
                filter_views(filters@),
            ),
        decreases
            (if window.pos < block@.len() {
                block@.len() - window.pos
            } else {
                0
            }),
    {
        let ghost before = filter_views(filters@);
        proof {
            lemma_filter_advance(block@, window.at(), afi);
        }
        let filter = FlowspecFilter::parse(&mut window, afi)?;
        let ghost view = filter@;
        filters.push(filter);
        assert(filter_views(filters@) =~= before.push(view));
    }
    Ok(filters)
}

/// Reads one flow specification of family `afi`. Where a component fails
/// to read, the stream is left after the bytes that the length counts.
pub fn parse_flowspec(afi: AFI, buf: &mut Cursor) -> (r: Result<NLRIEncoding, Error>)
    ensures
        final(buf).data == old(buf).data,
        match r {
            Ok(n) => spec_parse_flowspec(old(buf).data@, old(buf).at(), afi) == done(
                n@,
                final(buf).at(),
            ),
            Err(e) => spec_parse_flowspec(old(buf).data@, old(buf).at(), afi) == stop::<NLRIView>(
                e,
                final(buf).at(),
            ),
        },
{
    let nlri_length = buf.read_u8()?;
    let block = buf.read_exact(nlri_length as usize)?;
    let filters = parse_filters(block, afi)?;
    Ok(NLRIEncoding::FLOWSPEC(filters))
}

/// The route of family `afi` and subsequent family `safi` read at `pos`,
/// and the place after it. Labeled, labeled VPN and flow specification
/// families have encodings of their own; flow specifications for VPNs are
/// refused before a byte is read; every other family holds plain routes.
pub open spec fn spec_parse_route(
    data: Seq<u8>,
    pos: int,
    afi: AFI,
    safi: SAFI,
    add_path: bool,
) -> Parsed<NLRIView> {
    match safi {
        SAFI::Mpls => spec_parse_mpls(data, pos, afi),
        SAFI::MplsVpn => spec_parse_mplsvpn(data, pos, afi),
        SAFI::Flowspec => spec_parse_flowspec(data, pos, afi),
        SAFI::FlowspecVPN => stop(Error::UnsupportedSafi(safi.code()), pos),
        _ => spec_parse_unicast(data, pos, afi, add_path),
    }
}

/// A route that was read ends after the place it started at, and within
/// the bytes.
pub proof fn lemma_route_advance(data: Seq<u8>, pos: int, afi: AFI, safi: SAFI, add_path: bool)
    ensures
        spec_parse_route(data, pos, afi, safi, add_path) matches Ok((_, end)) ==> pos < end
            <= data.len(),
{
}

/// Reads one route of family `afi` and subsequent family `safi`. Where
/// that fails, the stream is left where reading stopped.
pub fn parse_route(afi: AFI, safi: SAFI, add_path: bool, buf: &mut Cursor) -> (r: Result<
    NLRIEncoding,
    Error,
>)
    ensures
        final(buf).data == old(buf).data,
        match r {
            Ok(n) => spec_parse_route(old(buf).data@, old(buf).at(), afi, safi, add_path) == done(
                n@,
                final(buf).at(),
            ),
            Err(e) => spec_parse_route(old(buf).data@, old(buf).at(), afi, safi, add_path)
                == stop::<NLRIView>(e, final(buf).at()),
        },
{
    match safi {
        SAFI::Mpls => parse_mpls(afi, buf),
        SAFI::MplsVpn => parse_mplsvpn(afi, buf),
        SAFI::Flowspec => parse_flowspec(afi, buf),
        SAFI::FlowspecVPN => Err(Error::UnsupportedSafi(safi.code())),
        _ => parse_unicast(buf, afi, add_path),
    }
}

/// The routes of family `afi` and subsequent family `safi` read from
/// `pos` up to `size`, after `acc`, and the place after them; where a
/// route fails to read, its error and the place where reading stopped.
pub open spec fn nlri_from(
    data: Seq<u8>,
    pos: int,
    size: int,
    afi: AFI,
    safi: SAFI,
    add_path: bool,
    acc: Seq<NLRIView>,
) -> Parsed<Seq<NLRIView>>
    decreases
        (if pos < size {
            size - pos
        } else {
            0
        }),
{
    if pos >= size {
        done(acc, pos)
    } else {
        match spec_parse_route(data, pos, afi, safi, add_path) {
            Err(e) => Err(e),
            Ok((route, next)) => {
                proof {
                    lemma_route_advance(data, pos, afi, safi, add_path);
                }
                nlri_from(data, next, size, afi, safi, add_path, acc.push(route))
            },
        }
    }
}

/// Reads the routes of a block of family `afi` and subsequent family
/// `safi` until the cursor reaches `size`. Plain routes carry path
/// identifiers where the capabilities say so, or where the bytes ahead
/// are taken to carry them. Where a route fails to read, the stream is
/// left where reading stopped.
pub fn parse_nlri(
    afi: AFI,
    safi: SAFI,
    capabilities: &Capabilities,
    buf: &mut Cursor,
    size: u16,
) -> (r: Result<Vec<NLRIEncoding>, Error>)
    ensures
        final(buf).data == old(buf).data,
        match r {
            Ok(v) => nlri_from(
                old(buf).data@,
                old(buf).at(),
                size as int,
                afi,
                safi,
                capabilities.EXTENDED_PATH_NLRI_SUPPORT,
                Seq::empty(),
            ) == done(nlri_views(v@), final(buf).at()),
            Err(e) => nlri_from(
                old(buf).data@,
                old(buf).at(),
                size as int,
                afi,
                safi,
                capabilities.EXTENDED_PATH_NLRI_SUPPORT,
                Seq::empty(),
            ) == stop::<Seq<NLRIView>>(e, final(buf).at()),
        },
{
    let add_path = capabilities.EXTENDED_PATH_NLRI_SUPPORT;
    let end: usize = size as usize;
    let mut nlri: Vec<NLRIEncoding> = Vec::new();
    let ghost data = buf.data@;
    let ghost start = buf.at();
    assert(nlri_views(nlri@) =~= Seq::empty());
    while buf.position() < end
        invariant
            buf.data == old(buf).data,
            data == buf.data@,
            start == old(buf).at(),
            end == size,
            add_path == capabilities.EXTENDED_PATH_NLRI_SUPPORT,
            nlri_from(data, start, size as int, afi, safi, add_path, Seq::empty()) == nlri_from(
                data,
                buf.at(),
                size as int,
                afi,
                safi,
                add_path,
                nlri_views(nlri@),
            ),
        decreases
            (if buf.pos < end {
                end - buf.pos
            } else {
                0
            }),
    {
        let ghost before = nlri_views(nlri@);
        proof {
            lemma_route_advance(data, buf.at(), afi, safi, add_path);
        }
        let route = parse_route(afi, safi, add_path, buf)?;
        let ghost view = route@;
        nlri.push(route);
        assert(nlri_views(nlri@) =~= before.push(view));
    }
    Ok(nlri)
}

/// The multiprotocol attribute that announces routes of a family.
#[derive(Debug)]
pub struct MPReachNLRI {
    /// The address family of the routes.
    pub afi: AFI,
    /// The subsequent address family of the routes.
    pub safi: SAFI,
    /// The next hop of the routes, as it stands on the wire.
    pub next_hop: Vec<u8>,
    /// The routes that are announced.
    pub announced_routes: Vec<NLRIEncoding>,
}

/// What an `MPReachNLRI` holds, as mathematical values.
pub struct MPReachView {
    /// The address family of the routes.
    pub afi: AFI,
    /// The subsequent address family of the routes.
    pub safi: SAFI,
    /// The next hop of the routes.
    pub next_hop: Seq<u8>,
    /// The routes that are announced.
    pub announced_routes: Seq<NLRIView>,
}

impl View for MPReachNLRI {
    type V = MPReachView;

    open spec fn view(&self) -> MPReachView {
        MPReachView {
            afi: self.afi,
            safi: self.safi,
            next_hop: self.next_hop@,
            announced_routes: nlri_views(self.announced_routes@),
        }
    }
}

impl Clone for MPReachNLRI {
    fn clone(&self) -> (r: Self)
        ensures
            r@ == self@,
    {
        MPReachNLRI {
            afi: self.afi,
            safi: self.safi,
            next_hop: self.next_hop.clone(),
            announced_routes: clone_routes(&self.announced_routes),
        }
    }
}

/// The multiprotocol attribute that withdraws routes of a family.
#[derive(Debug)]
pub struct MPUnreachNLRI {
    /// The address family of the routes.
    pub afi: AFI,
    /// The subsequent address family of the routes.
    pub safi: SAFI,
    /// The routes that are withdrawn.
    pub withdrawn_routes: Vec<NLRIEncoding>,
}

/// What an `MPUnreachNLRI` holds, as mathematical values.
pub struct MPUnreachView {
    /// The address family of the routes.
    pub afi: AFI,
    /// The subsequent address family of the routes.
    pub safi: SAFI,
    /// The routes that are withdrawn.
    pub withdrawn_routes: Seq<NLRIView>,
}

impl View for MPUnreachNLRI {
    type V = MPUnreachView;

    open spec fn view(&self) -> MPUnreachView {
        MPUnreachView {
            afi: self.afi,
            safi: self.safi,
            withdrawn_routes: nlri_views(self.withdrawn_routes@),
        }
    }
}

impl Clone for MPUnreachNLRI {
    fn clone(&self) -> (r: Self)
        ensures
            r@ == self@,
    {
        MPUnreachNLRI {
            afi: self.afi,
            safi: self.safi,
            withdrawn_routes: clone_routes(&self.withdrawn_routes),
        }
    }
}

/// The routes of a multiprotocol block: VPLS records for the L2VPN
/// family, routes by subsequent family for the IP families, and none for
/// a family whose routes this codec does not read.
pub open spec fn spec_parse_block(block: Seq<u8>, afi: AFI, safi: SAFI, add_path: bool) -> Result<
    Seq<NLRIView>,
    Error,
> {
    match afi {
        AFI::L2VPN => in_block(spec_parse_l2vpn(block, 0)),
        AFI::BGPLS => Err(Error::UnsupportedAfi(afi.code())),
        _ => in_block(
            nlri_from(block, 0, block.len() as int, afi, safi, add_path, Seq::empty()),
        ),
    }
}

/// What the body of an MP_REACH_NLRI attribute of `length` bytes gives,
/// read at `pos` of the attribute's window: family codes, a next hop after
/// its length, a reserved octet, and a block of routes that takes the
/// rest of `length`. A field that does not fit the window is refused as
/// `MalformedAttribute` where it would start, and a family code that is
/// not known after the code. Where the routes fail to read, the place is
/// after their block.
pub open spec fn spec_parse_mp_reach(data: Seq<u8>, pos: int, length: u16, add_path: bool) -> Parsed<
    MPReachView,
> {
    if !fits(data, pos, 2) {
        stop(Error::MalformedAttribute, pos)
    } else {
        match AFI::from_code(u16_at(data, pos)) {
            Err(e) => stop(e, pos + 2),
            Ok(afi) => if !fits(data, pos + 2, 1) {
                stop(Error::MalformedAttribute, pos + 2)
            } else {
                match SAFI::from_code(data[pos + 2]) {
                    Err(e) => stop(e, pos + 3),
                    Ok(safi) => if !fits(data, pos + 3, 1) {
                        stop(Error::MalformedAttribute, pos + 3)
                    } else {
                        let hop = data[pos + 3] as int;
                        let size = length - 5 - hop;
                        if !fits(data, pos + 4, hop + 1) {
                            stop(Error::MalformedAttribute, past(data, pos + 4, hop))
                        } else if size < 0 {
                            stop(Error::MalformedAttribute, pos + 5 + hop)
                        } else if !fits(data, pos + 5 + hop, size) {
                            stop(Error::MalformedAttribute, pos + 5 + hop)
                        } else {
                            match spec_parse_block(
                                bytes_at(data, pos + 5 + hop, size),
                                afi,
                                safi,
                                add_path,
                            ) {
                                Err(e) => stop(e, pos + 5 + hop + size),
                                Ok(routes) => done(
                                    MPReachView {
                                        afi,
                                        safi,
                                        next_hop: bytes_at(data, pos + 4, hop),
                                        announced_routes: routes,
                                    },
                                    pos + 5 + hop + size,
                                ),
                            }
                        }
                    },
                }
            },
        }
    }
}

/// What the body of an MP_UNREACH_NLRI attribute of `length` bytes gives,
/// read at `pos` of the attribute's window: family codes, and a block of
/// routes that takes the rest of `length`. A field that does not fit the
/// window is refused as `MalformedAttribute` where it would start, and a
/// family code that is not known after the code. Where the routes fail to
/// read, the place is after their block.
pub open spec fn spec_parse_mp_unreach(
    data: Seq<u8>,
    pos: int,
    length: u16,
    add_path: bool,
) -> Parsed<MPUnreachView> {
    if !fits(data, pos, 2) {
        stop(Error::MalformedAttribute, pos)
    } else {
        match AFI::from_code(u16_at(data, pos)) {
            Err(e) => stop(e, pos + 2),
            Ok(afi) => if !fits(data, pos + 2, 1) {
                stop(Error::MalformedAttribute, pos + 2)
            } else {
                match SAFI::from_code(data[pos + 2]) {
                    Err(e) => stop(e, pos + 3),
                    Ok(safi) => if length < 3 {
                        stop(Error::MalformedAttribute, pos + 3)
                    } else if !fits(data, pos + 3, length - 3) {
                        stop(Error::MalformedAttribute, pos + 3)
                    } else {
                        match in_block(
                            nlri_from(
                                bytes_at(data, pos + 3, length - 3),
                                0,
                                length - 3,
                                afi,
                                safi,
                                add_path,
                                Seq::empty(),
                            ),
                        ) {
                            Err(e) => stop(e, pos + length),
                            Ok(routes) => done(
                                MPUnreachView { afi, safi, withdrawn_routes: routes },
                                pos + length,
                            ),
                        }
                    },
                }
            },
        }
    }
}

impl MPReachView {
    /// The wire form of the attribute's body. A next hop longer than 255
    /// bytes has none, nor has a route without one.
    pub open spec fn encoding(self) -> Result<Seq<u8>, Error> {
        if self.next_hop.len() > 0xff {
            Err(Error::EncodeOverflow)
        } else {
            match routes_encoding(self.announced_routes, 0, Seq::empty()) {
                Err(e) => Err(e),
                Ok(routes) => Ok(
                    u16_be_bytes(self.afi.code()) + seq![
                        self.safi.code(),
                        self.next_hop.len() as u8,
                    ] + self.next_hop + seq![0u8] + routes,
                ),
            }
        }
    }
}

impl MPUnreachView {
    /// The wire form of the attribute's body.
    pub open spec fn encoding(self) -> Result<Seq<u8>, Error> {
        match routes_encoding(self.withdrawn_routes, 0, Seq::empty()) {
            Err(e) => Err(e),
            Ok(routes) => Ok(u16_be_bytes(self.afi.code()) + seq![self.safi.code()] + routes),
        }
    }
}

/// Reads the routes of a multiprotocol block.
fn parse_block(block: &[u8], afi: AFI, safi: SAFI, capabilities: &Capabilities) -> (r: Result<
    Vec<NLRIEncoding>,
    Error,
>)
    requires
        block@.len() <= u16::MAX,
    ensures
        match r {
            Ok(v) => spec_parse_block(block@, afi, safi, capabilities.EXTENDED_PATH_NLRI_SUPPORT)
                == Ok::<Seq<NLRIView>, Error>(nlri_views(v@)),
            Err(e) => spec_parse_block(block@, afi, safi, capabilities.EXTENDED_PATH_NLRI_SUPPORT)
                == Err::<Seq<NLRIView>, Error>(e),
        },
{
    let mut cursor = Cursor::new(block);
    match afi {
        AFI::L2VPN => parse_l2vpn(&mut cursor),
        AFI::BGPLS => Err(Error::UnsupportedAfi(afi.code())),
        _ => parse_nlri(afi, safi, capabilities, &mut cursor, block.len() as u16),
    }
}

impl MPReachNLRI {
    /// Reads the body of an MP_REACH_NLRI attribute of `length` bytes.
    /// Where that fails, the stream is left where reading stopped.
    pub fn parse(stream: &mut ReadCountingStream, length: u16, capabilities: &Capabilities) -> (r:
        Result<MPReachNLRI, Error>)
        ensures
            final(stream).data == old(stream).data,
            match r {
                Ok(m) => spec_parse_mp_reach(
                    old(stream).data@,
                    old(stream).at(),
                    length,
                    capabilities.EXTENDED_PATH_NLRI_SUPPORT,
                ) == done(m@, final(stream).at()),
                Err(e) => spec_parse_mp_reach(
                    old(stream).data@,
                    old(stream).at(),
                    length,
                    capabilities.EXTENDED_PATH_NLRI_SUPPORT,
                ) == stop::<MPReachView>(e, final(stream).at()),
            },
    {
        let afi = AFI::try_from(stream.read_u16()?)?;
        let safi = SAFI::try_from(stream.read_u8()?)?;
        let next_hop_length = stream.read_u8()?;
        let next_hop = to_vec(stream.read_exact(next_hop_length as usize)?);
        let _reserved = stream.read_u8()?;
        if length < 5 + next_hop_length as u16 {
            return Err(Error::MalformedAttribute);
        }
        let size: u16 = length - (5 + next_hop_length as u16);
        let block = stream.read_exact(size as usize)?;
        let announced_routes = parse_block(block, afi, safi, capabilities)?;
        Ok(MPReachNLRI { afi, safi, next_hop, announced_routes })
    }

    /// Appends the wire form of the attribute's body to `buf`.
    pub fn encode(&self, buf: &mut Vec<u8>) -> (r: Result<(), Error>)
        ensures
            appended(old(buf)@, final(buf)@, r, self@.encoding()),
    {
        if self.next_hop.len() > 0xff {
            return Err(Error::EncodeOverflow);
        }
        let routes = encode_routes(&self.announced_routes)?;
        push_u16(buf, self.afi.code());
        push_u8(buf, self.safi.code());
        push_u8(buf, self.next_hop.len() as u8);
        push_bytes(buf, self.next_hop.as_slice());
        push_u8(buf, 0u8);
        push_bytes(buf, routes.as_slice());
        assert(buf@ =~= old(buf)@ + (u16_be_bytes(self.afi.code()) + seq![
            self.safi.code(),
            self.next_hop@.len() as u8,
        ] + self.next_hop@ + seq![0u8] + routes@));
        Ok(())
    }
}

impl MPUnreachNLRI {
    /// Reads the body of an MP_UNREACH_NLRI attribute of `length` bytes.
    /// Where that fails, the stream is left where reading stopped.
    pub fn parse(stream: &mut ReadCountingStream, length: u16, capabilities: &Capabilities) -> (r:
        Result<MPUnreachNLRI, Error>)
        ensures
            final(stream).data == old(stream).data,
            match r {
                Ok(m) => spec_parse_mp_unreach(
                    old(stream).data@,
                    old(stream).at(),
                    length,
                    capabilities.EXTENDED_PATH_NLRI_SUPPORT,
                ) == done(m@, final(stream).at()),
                Err(e) => spec_parse_mp_unreach(
                    old(stream).data@,
                    old(stream).at(),
                    length,
                    capabilities.EXTENDED_PATH_NLRI_SUPPORT,
                ) == stop::<MPUnreachView>(e, final(stream).at()),
            },
    {
        let afi = AFI::try_from(stream.read_u16()?)?;
        let safi = SAFI::try_from(stream.read_u8()?)?;
        if length < 3 {
            return Err(Error::MalformedAttribute);
        }
        let size: u16 = length - 3;
        let block = stream.read_exact(size as usize)?;
        let mut cursor = Cursor::new(block);
        let withdrawn_routes = parse_nlri(afi, safi, capabilities, &mut cursor, size)?;
        Ok(MPUnreachNLRI { afi, safi, withdrawn_routes })
    }

    /// Appends the wire form of the attribute's body to `buf`.
    pub fn encode(&self, buf: &mut Vec<u8>) -> (r: Result<(), Error>)
        ensures
            appended(old(buf)@, final(buf)@, r, self@.encoding()),
    {
        let routes = encode_routes(&self.withdrawn_routes)?;
        push_u16(buf, self.afi.code());
        push_u8(buf, self.safi.code());
        push_bytes(buf, routes.as_slice());
        assert(buf@ =~= old(buf)@ + (u16_be_bytes(self.afi.code()) + seq![self.safi.code()]
            + routes@));
        Ok(())
    }
}

/// Whether none of the routes holds a bit beyond the length of its
/// prefix.
pub open spec fn routes_masked(routes: Seq<NLRIView>) -> bool {
    forall|i: int| 0 <= i < routes.len() ==> (#[trigger] routes[i]).masked()
}

/// The bytes that a plain route was read from are the bytes that it is
/// written as, where they hold no bit beyond the length of the prefix.
pub proof fn lemma_unicast_bytes_round_trip(data: Seq<u8>, pos: int, afi: AFI, add_path: bool)
    requires
        0 <= pos,
        spec_parse_unicast(data, pos, afi, add_path) matches Ok((route, _)) && route.masked(),
    ensures
        ({
            let (route, end) = spec_parse_unicast(data, pos, afi, add_path)->Ok_0;
            pos < end <= data.len() && route.encoding() == Ok::<Seq<u8>, Error>(
                data.subrange(pos, end),
            )
        }),
{
    let (route, end) = spec_parse_unicast(data, pos, afi, add_path)->Ok_0;
    match route {
        NLRIView::IP(p) => {
            lemma_prefix_bytes_round_trip(data, pos, afi);
        },
        NLRIView::IP_WITH_PATH_ID((p, id)) => {
            lemma_prefix_bytes_round_trip(data, pos + 4, afi);
            lemma_u32_bytes_round_trip(bytes_at(data, pos, 4));
            assert(data.subrange(pos, end) =~= bytes_at(data, pos, 4) + data.subrange(
                pos + 4,
                end,
            ));
        },
        _ => {},
    }
}

/// The plain routes that are read from `pos` on, after `acc`, are `acc`
/// and the routes read, and reading ends within the bytes.
pub proof fn lemma_routes_extend(
    data: Seq<u8>,
    pos: int,
    size: int,
    afi: AFI,
    safi: SAFI,
    add_path: bool,
    acc: Seq<NLRIView>,
)
    requires
        0 <= pos <= data.len(),
        safi.plain(),
        nlri_from(data, pos, size, afi, safi, add_path, acc) is Ok,
    ensures
        ({
            let (routes, end) = nlri_from(data, pos, size, afi, safi, add_path, acc)->Ok_0;
            &&& pos <= end <= data.len()
            &&& size <= end
            &&& acc.len() <= routes.len()
            &&& routes.subrange(0, acc.len() as int) == acc
        }),
    decreases
        (if pos < size {
            size - pos
        } else {
            0
        }),
{
    let whole = nlri_from(data, pos, size, afi, safi, add_path, acc);
    let (routes, end) = whole->Ok_0;
    let k = acc.len() as int;
    if pos >= size {
        assert(routes.subrange(0, k) =~= acc);
    } else {
        let (route, next) = spec_parse_unicast(data, pos, afi, add_path)->Ok_0;
        lemma_route_advance(data, pos, afi, safi, add_path);
        lemma_routes_extend(data, next, size, afi, safi, add_path, acc.push(route));
        assert(routes.subrange(0, k) =~= routes.subrange(0, k + 1).subrange(0, k));
    }
}

/// Writing the routes from `k` on is writing the route at `k` and then
/// the routes after it.
proof fn lemma_routes_encoding_step(routes: Seq<NLRIView>, k: int, out: Seq<u8>, bytes: Seq<u8>)
    requires
        0 <= k < routes.len(),
        routes[k].encoding() == Ok::<Seq<u8>, Error>(bytes),
    ensures
        routes_encoding(routes, k, out) == routes_encoding(routes, k + 1, out + bytes),
{
}

/// The bytes that plain routes were read from are the bytes that the
/// routes are written as, one after the other, where they hold no bit
/// beyond the length of a prefix: the routes from `pos` on, read after
/// `acc`, are written after `out` as `out` and the bytes from `pos` to the
/// place where reading ended.
pub proof fn lemma_routes_bytes_round_trip(
    data: Seq<u8>,
    pos: int,
    size: int,
    afi: AFI,
    safi: SAFI,
    add_path: bool,
    acc: Seq<NLRIView>,
    out: Seq<u8>,
)
    requires
        0 <= pos <= data.len(),
        safi.plain(),
        nlri_from(data, pos, size, afi, safi, add_path, acc) matches Ok((routes, _))
            && forall|i: int| acc.len() <= i < routes.len() ==> (#[trigger] routes[i]).masked(),
    ensures
        ({
            let (routes, end) = nlri_from(data, pos, size, afi, safi, add_path, acc)->Ok_0;
            pos <= end <= data.len() && size <= end && routes_encoding(routes, acc.len() as int, out) == Ok::<
                Seq<u8>,
                Error,
            >(out + data.subrange(pos, end))
        }),
    decreases
        (if pos < size {
            size - pos
        } else {
            0
        }),
{
    let whole = nlri_from(data, pos, size, afi, safi, add_path, acc);
    let (routes, end) = whole->Ok_0;
    let k = acc.len() as int;
    lemma_routes_extend(data, pos, size, afi, safi, add_path, acc);
    if pos >= size {
        lemma_joined(out, data, pos, pos, pos);
    } else {
        let step = spec_parse_unicast(data, pos, afi, add_path);
        assert(spec_parse_route(data, pos, afi, safi, add_path) == step);
        assert(step is Ok);
        let (route, next) = step->Ok_0;
        let more = acc.push(route);
        assert(whole == nlri_from(data, next, size, afi, safi, add_path, more));
        lemma_routes_extend(data, next, size, afi, safi, add_path, more);
        assert(routes.subrange(0, k + 1) == more);
        assert(routes[k] == routes.subrange(0, k + 1)[k]);
        assert(routes[k] == route);
        assert(route.masked());
        lemma_unicast_bytes_round_trip(data, pos, afi, add_path);
        let bytes = data.subrange(pos, next);
        assert(route.encoding() == Ok::<Seq<u8>, Error>(bytes));
        lemma_routes_bytes_round_trip(
            data,
            next,
            size,
            afi,
            safi,
            add_path,
            more,
            out + bytes,
        );
        lemma_routes_encoding_step(routes, k, out, bytes);
        lemma_joined(out, data, pos, next, end);
    }
}

} // verus!
