//! Path attributes: their kinds, their values, and their wire form.

use crate::endian::{
    lemma_u16_round_trip, push_bytes, push_u128, push_u16, push_u32, push_u64, push_u8,
    u128_be_bytes, u16_be_bytes, u32_be_bytes, u64_be_bytes,
};
use crate::error::{appended, done, in_block, stop, Error, Parsed};
use crate::open::Capabilities;
use crate::stream::{
    bytes_at, fits, past, past_fields, u128_at, u16_at, u32_at, u64_at, Cursor, ReadCountingStream,
};
use crate::update::aspath::{spec_parse_unknown_segments, ASPath, ASPathView};
use crate::update::nlri::{
    spec_parse_mp_reach, spec_parse_mp_unreach, MPReachNLRI, MPReachView, MPUnreachNLRI,
    MPUnreachView,
};
use crate::update::prefix::{copy_vec, to_vec};
use vstd::prelude::*;
use vstd::std_specs::vec::axiom_vec_index_decreases;

verus! {

/// The kind of a path attribute.
#[derive(Debug, Copy, Clone, Hash, PartialEq, Eq, Structural)]
#[allow(non_camel_case_types)]
pub enum Identifier {
    /// Type 1.
    ORIGIN,
    /// Type 2.
    AS_PATH,
    /// Type 3.
    NEXT_HOP,
    /// Type 4.
    MULTI_EXIT_DISC,
    /// Type 5.
    LOCAL_PREF,
    /// Type 6.
    ATOMIC_AGGREGATOR,
    /// Type 7.
    AGGREGATOR,
    /// Type 8.
    COMMUNITY,
    /// Type 9.
    ORIGINATOR_ID,
    /// Type 10.
    CLUSTER_LIST,
    /// Type 11.
    DPA,
    /// Type 12.
    ADVERTISER,
    /// Type 13.
    CLUSTER_ID,
    /// Type 14.
    MP_REACH_NLRI,
    /// Type 15.
    MP_UNREACH_NLRI,
    /// Type 16.
    EXTENDED_COMMUNITIES,
    /// Type 17.
    AS4_PATH,
    /// Type 18.
    AS4_AGGREGATOR,
    /// Type 19.
    SSA,
    /// Type 20.
    CONNECTOR,
    /// Type 21.
    AS_PATHLIMIT,
    /// Type 22.
    PMSI_TUNNEL,
    /// Type 23.
    TUNNEL_ENCAPSULATION,
    /// Type 24.
    TRAFFIC_ENGINEERING,
    /// Type 25.
    IPV6_SPECIFIC_EXTENDED_COMMUNITY,
    /// Type 26.
    AIGP,
    /// Type 27.
    PE_DISTINGUISHER_LABELS,
    /// Type 28.
    ENTROPY_LABEL_CAPABILITY,
    /// Type 29.
    BGP_LS,
    /// Type 32.
    LARGE_COMMUNITY,
    /// Type 33.
    BGPSEC_PATH,
    /// Type 34.
    BGP_PREFIX_SID,
    /// Type 128.
    ATTR_SET,
}

impl Identifier {
    /// The type code of the kind.
    pub open spec fn spec_code(self) -> u8 {
        match self {
            Identifier::ORIGIN => 1,
            Identifier::AS_PATH => 2,
            Identifier::NEXT_HOP => 3,
            Identifier::MULTI_EXIT_DISC => 4,
            Identifier::LOCAL_PREF => 5,
            Identifier::ATOMIC_AGGREGATOR => 6,
            Identifier::AGGREGATOR => 7,
            Identifier::COMMUNITY => 8,
            Identifier::ORIGINATOR_ID => 9,
            Identifier::CLUSTER_LIST => 10,
            Identifier::DPA => 11,
            Identifier::ADVERTISER => 12,
            Identifier::CLUSTER_ID => 13,
            Identifier::MP_REACH_NLRI => 14,
            Identifier::MP_UNREACH_NLRI => 15,
            Identifier::EXTENDED_COMMUNITIES => 16,
            Identifier::AS4_PATH => 17,
            Identifier::AS4_AGGREGATOR => 18,
            Identifier::SSA => 19,
            Identifier::CONNECTOR => 20,
            Identifier::AS_PATHLIMIT => 21,
            Identifier::PMSI_TUNNEL => 22,
            Identifier::TUNNEL_ENCAPSULATION => 23,
            Identifier::TRAFFIC_ENGINEERING => 24,
            Identifier::IPV6_SPECIFIC_EXTENDED_COMMUNITY => 25,
            Identifier::AIGP => 26,
            Identifier::PE_DISTINGUISHER_LABELS => 27,
            Identifier::ENTROPY_LABEL_CAPABILITY => 28,
            Identifier::BGP_LS => 29,
            Identifier::LARGE_COMMUNITY => 32,
            Identifier::BGPSEC_PATH => 33,
            Identifier::BGP_PREFIX_SID => 34,
            Identifier::ATTR_SET => 128,
        }
    }

    /// The type code of the kind.
    #[verifier::when_used_as_spec(spec_code)]
    pub fn code(self) -> (r: u8)
        ensures
            r == self.spec_code(),
    {
        match self {
            Identifier::ORIGIN => 1,
            Identifier::AS_PATH => 2,
            Identifier::NEXT_HOP => 3,
            Identifier::MULTI_EXIT_DISC => 4,
            Identifier::LOCAL_PREF => 5,
            Identifier::ATOMIC_AGGREGATOR => 6,
            Identifier::AGGREGATOR => 7,
            Identifier::COMMUNITY => 8,
            Identifier::ORIGINATOR_ID => 9,
            Identifier::CLUSTER_LIST => 10,
            Identifier::DPA => 11,
            Identifier::ADVERTISER => 12,
            Identifier::CLUSTER_ID => 13,
            Identifier::MP_REACH_NLRI => 14,
            Identifier::MP_UNREACH_NLRI => 15,
            Identifier::EXTENDED_COMMUNITIES => 16,
            Identifier::AS4_PATH => 17,
            Identifier::AS4_AGGREGATOR => 18,
            Identifier::SSA => 19,
            Identifier::CONNECTOR => 20,
            Identifier::AS_PATHLIMIT => 21,
            Identifier::PMSI_TUNNEL => 22,
            Identifier::TUNNEL_ENCAPSULATION => 23,
            Identifier::TRAFFIC_ENGINEERING => 24,
            Identifier::IPV6_SPECIFIC_EXTENDED_COMMUNITY => 25,
            Identifier::AIGP => 26,
            Identifier::PE_DISTINGUISHER_LABELS => 27,
            Identifier::ENTROPY_LABEL_CAPABILITY => 28,
            Identifier::BGP_LS => 29,
            Identifier::LARGE_COMMUNITY => 32,
            Identifier::BGPSEC_PATH => 33,
            Identifier::BGP_PREFIX_SID => 34,
            Identifier::ATTR_SET => 128,
        }
    }
}

/// An IPv4 address, as the 32-bit number that its four octets make, the
/// first octet most significant.
#[derive(Debug, Copy, Clone, Hash, PartialEq, Eq, Structural)]
pub struct Ipv4Addr {
    /// The address as a number.
    pub bits: u32,
}

/// An IPv6 address, as the 128-bit number that its sixteen octets make,
/// the first octet most significant.
#[derive(Debug, Copy, Clone, Hash, PartialEq, Eq, Structural)]
pub struct Ipv6Addr {
    /// The address as a number.
    pub bits: u128,
}

/// An address of either IP version.
#[derive(Debug, Copy, Clone, Hash, PartialEq, Eq, Structural)]
pub enum IpAddr {
    /// An IPv4 address.
    V4(Ipv4Addr),
    /// An IPv6 address.
    V6(Ipv6Addr),
}

/// How an announcement came to be.
#[derive(Debug, Copy, Clone, PartialEq, Eq, Structural)]
pub enum Origin {
    /// From an interior gateway protocol.
    IGP,
    /// From an exterior gateway protocol.
    EGP,
    /// By some other means.
    INCOMPLETE,
}

/// A path attribute: a piece of what is known of a route.
#[derive(Debug)]
#[allow(non_camel_case_types)]
pub enum PathAttribute {
    /// How the route came to be.
    ORIGIN(Origin),
    /// The path of ASes that the route has passed.
    AS_PATH(ASPath),
    /// The address to forward to.
    NEXT_HOP(IpAddr),
    /// A preference among several exits to the same neighbour AS.
    MULTI_EXIT_DISC(u32),
    /// A preference within the AS.
    LOCAL_PREF(u32),
    /// The route was aggregated and lost detail.
    ATOMIC_AGGREGATOR,
    /// The AS and the router that aggregated the route.
    AGGREGATOR((u32, Ipv4Addr)),
    /// Community tags.
    COMMUNITY(Vec<u32>),
    /// The router that originated the route within the AS.
    ORIGINATOR_ID(u32),
    /// The route reflection clusters that the route has passed.
    CLUSTER_LIST(Vec<u32>),
    /// The AS that sets the preference, and the preference.
    DPA((u16, u32)),
    /// Deprecated.
    ADVERTISER,
    /// Deprecated.
    CLUSTER_ID,
    /// Routes of another family that are announced.
    MP_REACH_NLRI(MPReachNLRI),
    /// Routes of another family that are withdrawn.
    MP_UNREACH_NLRI(MPUnreachNLRI),
    /// Extended community tags.
    EXTENDED_COMMUNITIES(Vec<u64>),
    /// The path of ASes in four-byte numbers.
    AS4_PATH(ASPath),
    /// The aggregator with a four-byte AS number.
    AS4_AGGREGATOR((u32, Ipv4Addr)),
    /// Deprecated.
    SSA,
    /// The address that the connector attribute names.
    CONNECTOR(Ipv4Addr),
    /// An upper bound on the path length, and the AS that set it.
    AS_PATHLIMIT((u8, u32)),
    /// Flags, label and tunnel identifier of a P-multicast service.
    PMSI_TUNNEL((u8, u32, Vec<u8>)),
    /// Tunnel type and value.
    TUNNEL_ENCAPSULATION((u16, Vec<u8>)),
    /// Traffic engineering.
    TRAFFIC_ENGINEERING,
    /// Transitive octet, sub-type, global and local administrator.
    IPV6_SPECIFIC_EXTENDED_COMMUNITY((u8, u8, Ipv6Addr, u16)),
    /// Type and value of an accumulated IGP metric.
    AIGP((u8, Vec<u8>)),
    /// PE distinguisher labels.
    PE_DISTINGUISHER_LABELS,
    /// The entropy label capability.
    ENTROPY_LABEL_CAPABILITY,
    /// Link state.
    BGP_LS,
    /// Large community tags.
    LARGE_COMMUNITY(Vec<(u32, u32, u32)>),
    /// A BGPsec path.
    BGPSEC_PATH,
    /// A prefix segment identifier.
    BGP_PREFIX_SID,
    /// The AS of origin and the attributes it set.
    ATTR_SET((u32, Vec<PathAttribute>)),
}

/// What a `PathAttribute` holds, as mathematical values.
#[allow(non_camel_case_types)]
pub enum PathAttributeView {
    /// How the route came to be.
    ORIGIN(Origin),
    /// The path of ASes that the route has passed.
    AS_PATH(ASPathView),
    /// The address to forward to.
    NEXT_HOP(IpAddr),
    /// A preference among several exits to the same neighbour AS.
    MULTI_EXIT_DISC(u32),
    /// A preference within the AS.
    LOCAL_PREF(u32),
    /// The route was aggregated and lost detail.
    ATOMIC_AGGREGATOR,
    /// The AS and the router that aggregated the route.
    AGGREGATOR((u32, Ipv4Addr)),
    /// Community tags.
    COMMUNITY(Seq<u32>),
    /// The router that originated the route within the AS.
    ORIGINATOR_ID(u32),
    /// The route reflection clusters that the route has passed.
    CLUSTER_LIST(Seq<u32>),
    /// The AS that sets the preference, and the preference.
    DPA((u16, u32)),
    /// Deprecated.
    ADVERTISER,
    /// Deprecated.
    CLUSTER_ID,
    /// Routes of another family that are announced.
    MP_REACH_NLRI(MPReachView),
    /// Routes of another family that are withdrawn.
    MP_UNREACH_NLRI(MPUnreachView),
    /// Extended community tags.
    EXTENDED_COMMUNITIES(Seq<u64>),
    /// The path of ASes in four-byte numbers.
    AS4_PATH(ASPathView),
    /// The aggregator with a four-byte AS number.
    AS4_AGGREGATOR((u32, Ipv4Addr)),
    /// Deprecated.
    SSA,
    /// The address that the connector attribute names.
    CONNECTOR(Ipv4Addr),
    /// An upper bound on the path length, and the AS that set it.
    AS_PATHLIMIT((u8, u32)),
    /// Flags, label and tunnel identifier of a P-multicast service.
    PMSI_TUNNEL((u8, u32, Seq<u8>)),
    /// Tunnel type and value.
    TUNNEL_ENCAPSULATION((u16, Seq<u8>)),
    /// Traffic engineering.
    TRAFFIC_ENGINEERING,
    /// Transitive octet, sub-type, global and local administrator.
    IPV6_SPECIFIC_EXTENDED_COMMUNITY((u8, u8, Ipv6Addr, u16)),
    /// Type and value of an accumulated IGP metric.
    AIGP((u8, Seq<u8>)),
    /// PE distinguisher labels.
    PE_DISTINGUISHER_LABELS,
    /// The entropy label capability.
    ENTROPY_LABEL_CAPABILITY,
    /// Link state.
    BGP_LS,
    /// Large community tags.
    LARGE_COMMUNITY(Seq<(u32, u32, u32)>),
    /// A BGPsec path.
    BGPSEC_PATH,
    /// A prefix segment identifier.
    BGP_PREFIX_SID,
    /// The AS of origin and the attributes it set.
    ATTR_SET((u32, Seq<PathAttributeView>)),
}

/// What an attribute holds, as mathematical values.
pub open spec fn attribute_view(attribute: &PathAttribute) -> PathAttributeView
    decreases attribute,
{
        match attribute {
            PathAttribute::ORIGIN(o) => PathAttributeView::ORIGIN(*o),
            PathAttribute::AS_PATH(p) => PathAttributeView::AS_PATH(p@),
            PathAttribute::NEXT_HOP(ip) => PathAttributeView::NEXT_HOP(*ip),
            PathAttribute::MULTI_EXIT_DISC(v) => PathAttributeView::MULTI_EXIT_DISC(*v),
            PathAttribute::LOCAL_PREF(v) => PathAttributeView::LOCAL_PREF(*v),
            PathAttribute::ATOMIC_AGGREGATOR => PathAttributeView::ATOMIC_AGGREGATOR,
            PathAttribute::AGGREGATOR(v) => PathAttributeView::AGGREGATOR(*v),
            PathAttribute::COMMUNITY(v) => PathAttributeView::COMMUNITY(v@),
            PathAttribute::ORIGINATOR_ID(v) => PathAttributeView::ORIGINATOR_ID(*v),
            PathAttribute::CLUSTER_LIST(v) => PathAttributeView::CLUSTER_LIST(v@),
            PathAttribute::DPA(v) => PathAttributeView::DPA(*v),
            PathAttribute::ADVERTISER => PathAttributeView::ADVERTISER,
            PathAttribute::CLUSTER_ID => PathAttributeView::CLUSTER_ID,
            PathAttribute::MP_REACH_NLRI(m) => PathAttributeView::MP_REACH_NLRI(m@),
            PathAttribute::MP_UNREACH_NLRI(m) => PathAttributeView::MP_UNREACH_NLRI(m@),
            PathAttribute::EXTENDED_COMMUNITIES(v) => PathAttributeView::EXTENDED_COMMUNITIES(v@),
            PathAttribute::AS4_PATH(p) => PathAttributeView::AS4_PATH(p@),
            PathAttribute::AS4_AGGREGATOR(v) => PathAttributeView::AS4_AGGREGATOR(*v),
            PathAttribute::SSA => PathAttributeView::SSA,
            PathAttribute::CONNECTOR(ip) => PathAttributeView::CONNECTOR(*ip),
            PathAttribute::AS_PATHLIMIT(v) => PathAttributeView::AS_PATHLIMIT(*v),
            PathAttribute::PMSI_TUNNEL((flags, label, id)) => PathAttributeView::PMSI_TUNNEL(
                (*flags, *label, id@),
            ),
            PathAttribute::TUNNEL_ENCAPSULATION((kind, value)) => {
                PathAttributeView::TUNNEL_ENCAPSULATION((*kind, value@))
            },
            PathAttribute::TRAFFIC_ENGINEERING => PathAttributeView::TRAFFIC_ENGINEERING,
            PathAttribute::IPV6_SPECIFIC_EXTENDED_COMMUNITY(v) => {
                PathAttributeView::IPV6_SPECIFIC_EXTENDED_COMMUNITY(*v)
            },
            PathAttribute::AIGP((kind, value)) => PathAttributeView::AIGP((*kind, value@)),
            PathAttribute::PE_DISTINGUISHER_LABELS => PathAttributeView::PE_DISTINGUISHER_LABELS,
            PathAttribute::ENTROPY_LABEL_CAPABILITY => PathAttributeView::ENTROPY_LABEL_CAPABILITY,
            PathAttribute::BGP_LS => PathAttributeView::BGP_LS,
            PathAttribute::LARGE_COMMUNITY(v) => PathAttributeView::LARGE_COMMUNITY(v@),
            PathAttribute::BGPSEC_PATH => PathAttributeView::BGPSEC_PATH,
            PathAttribute::BGP_PREFIX_SID => PathAttributeView::BGP_PREFIX_SID,
            PathAttribute::ATTR_SET((asn, attributes)) => PathAttributeView::ATTR_SET(
                (
                    *asn,
                    Seq::new(
                        attributes.len() as nat,
                        |i: int|
                            if 0 <= i < attributes.len() {
                                attribute_view(&attributes[i])
                            } else {
                                PathAttributeView::ATOMIC_AGGREGATOR
                            },
                    ),
                ),
            ),
        }
}

impl View for PathAttribute {
    type V = PathAttributeView;

    open spec fn view(&self) -> PathAttributeView {
        attribute_view(self)
    }
}

/// The views of a list of attributes.
pub open spec fn attribute_views(attributes: Seq<PathAttribute>) -> Seq<PathAttributeView> {
    attributes.map_values(|a: PathAttribute| a@)
}

impl Clone for PathAttribute {
    fn clone(&self) -> (r: Self)
        ensures
            r@ == self@,
        decreases self,
    {
        match self {
            PathAttribute::ORIGIN(o) => PathAttribute::ORIGIN(*o),
            PathAttribute::AS_PATH(p) => PathAttribute::AS_PATH(p.clone()),
            PathAttribute::NEXT_HOP(ip) => PathAttribute::NEXT_HOP(*ip),
            PathAttribute::MULTI_EXIT_DISC(v) => PathAttribute::MULTI_EXIT_DISC(*v),
            PathAttribute::LOCAL_PREF(v) => PathAttribute::LOCAL_PREF(*v),
            PathAttribute::ATOMIC_AGGREGATOR => PathAttribute::ATOMIC_AGGREGATOR,
            PathAttribute::AGGREGATOR(v) => PathAttribute::AGGREGATOR(*v),
            PathAttribute::COMMUNITY(v) => PathAttribute::COMMUNITY(copy_vec(v)),
            PathAttribute::ORIGINATOR_ID(v) => PathAttribute::ORIGINATOR_ID(*v),
            PathAttribute::CLUSTER_LIST(v) => PathAttribute::CLUSTER_LIST(copy_vec(v)),
            PathAttribute::DPA(v) => PathAttribute::DPA(*v),
            PathAttribute::ADVERTISER => PathAttribute::ADVERTISER,
            PathAttribute::CLUSTER_ID => PathAttribute::CLUSTER_ID,
            PathAttribute::MP_REACH_NLRI(m) => PathAttribute::MP_REACH_NLRI(m.clone()),
            PathAttribute::MP_UNREACH_NLRI(m) => PathAttribute::MP_UNREACH_NLRI(m.clone()),
            PathAttribute::EXTENDED_COMMUNITIES(v) => PathAttribute::EXTENDED_COMMUNITIES(
                copy_vec(v),
            ),
            PathAttribute::AS4_PATH(p) => PathAttribute::AS4_PATH(p.clone()),
            PathAttribute::AS4_AGGREGATOR(v) => PathAttribute::AS4_AGGREGATOR(*v),
            PathAttribute::SSA => PathAttribute::SSA,
            PathAttribute::CONNECTOR(ip) => PathAttribute::CONNECTOR(*ip),
            PathAttribute::AS_PATHLIMIT(v) => PathAttribute::AS_PATHLIMIT(*v),
            PathAttribute::PMSI_TUNNEL((flags, label, id)) => PathAttribute::PMSI_TUNNEL(
                (*flags, *label, copy_vec(id)),
            ),
            PathAttribute::TUNNEL_ENCAPSULATION((kind, value)) => {
                PathAttribute::TUNNEL_ENCAPSULATION((*kind, copy_vec(value)))
            },
            PathAttribute::TRAFFIC_ENGINEERING => PathAttribute::TRAFFIC_ENGINEERING,
            PathAttribute::IPV6_SPECIFIC_EXTENDED_COMMUNITY(v) => {
                PathAttribute::IPV6_SPECIFIC_EXTENDED_COMMUNITY(*v)
            },
            PathAttribute::AIGP((kind, value)) => PathAttribute::AIGP((*kind, copy_vec(value))),
            PathAttribute::PE_DISTINGUISHER_LABELS => PathAttribute::PE_DISTINGUISHER_LABELS,
            PathAttribute::ENTROPY_LABEL_CAPABILITY => PathAttribute::ENTROPY_LABEL_CAPABILITY,
            PathAttribute::BGP_LS => PathAttribute::BGP_LS,
            PathAttribute::LARGE_COMMUNITY(v) => PathAttribute::LARGE_COMMUNITY(copy_vec(v)),
            PathAttribute::BGPSEC_PATH => PathAttribute::BGPSEC_PATH,
            PathAttribute::BGP_PREFIX_SID => PathAttribute::BGP_PREFIX_SID,
            PathAttribute::ATTR_SET((asn, attributes)) => {
                let mut out: Vec<PathAttribute> = Vec::new();
                let mut i: usize = 0;
                while i < attributes.len()
                    invariant
                        i <= attributes.len(),
                        out@.len() == i,
                        forall|j: int| 0 <= j < i ==> out@[j]@ == attributes@[j]@,
                        *self == PathAttribute::ATTR_SET((*asn, *attributes)),
                    decreases attributes.len() - i,
                {
                    proof {
                        axiom_vec_index_decreases(*attributes, i as int);
                        let pair = self->ATTR_SET_0;
                        assert(decreases_to!(*self => pair));
                        assert(decreases_to!(pair => pair.1));
                        assert(decreases_to!(*self => attributes[i as int]));
                    }
                    out.push(attributes[i].clone());
                    i = i + 1;
                }
                let r = PathAttribute::ATTR_SET((*asn, out));
                assert(r@ =~= self@) by {
                    assert(r@->ATTR_SET_0.1 =~= self@->ATTR_SET_0.1);
                }
                r
            },
        }
    }
}

impl PathAttributeView {
    /// The kind of the attribute.
    pub open spec fn id(self) -> Identifier {
        match self {
            PathAttributeView::ORIGIN(_) => Identifier::ORIGIN,
            PathAttributeView::AS_PATH(_) => Identifier::AS_PATH,
            PathAttributeView::NEXT_HOP(_) => Identifier::NEXT_HOP,
            PathAttributeView::MULTI_EXIT_DISC(_) => Identifier::MULTI_EXIT_DISC,
            PathAttributeView::LOCAL_PREF(_) => Identifier::LOCAL_PREF,
            PathAttributeView::ATOMIC_AGGREGATOR => Identifier::ATOMIC_AGGREGATOR,
            PathAttributeView::AGGREGATOR(_) => Identifier::AGGREGATOR,
            PathAttributeView::COMMUNITY(_) => Identifier::COMMUNITY,
            PathAttributeView::ORIGINATOR_ID(_) => Identifier::ORIGINATOR_ID,
            PathAttributeView::CLUSTER_LIST(_) => Identifier::CLUSTER_LIST,
            PathAttributeView::DPA(_) => Identifier::DPA,
            PathAttributeView::ADVERTISER => Identifier::ADVERTISER,
            PathAttributeView::CLUSTER_ID => Identifier::CLUSTER_ID,
            PathAttributeView::MP_REACH_NLRI(_) => Identifier::MP_REACH_NLRI,
            PathAttributeView::MP_UNREACH_NLRI(_) => Identifier::MP_UNREACH_NLRI,
            PathAttributeView::EXTENDED_COMMUNITIES(_) => Identifier::EXTENDED_COMMUNITIES,
            PathAttributeView::AS4_PATH(_) => Identifier::AS4_PATH,
            PathAttributeView::AS4_AGGREGATOR(_) => Identifier::AS4_AGGREGATOR,
            PathAttributeView::SSA => Identifier::SSA,
            PathAttributeView::CONNECTOR(_) => Identifier::CONNECTOR,
            PathAttributeView::AS_PATHLIMIT(_) => Identifier::AS_PATHLIMIT,
            PathAttributeView::PMSI_TUNNEL(_) => Identifier::PMSI_TUNNEL,
            PathAttributeView::TUNNEL_ENCAPSULATION(_) => Identifier::TUNNEL_ENCAPSULATION,
            PathAttributeView::TRAFFIC_ENGINEERING => Identifier::TRAFFIC_ENGINEERING,
            PathAttributeView::IPV6_SPECIFIC_EXTENDED_COMMUNITY(_) => {
                Identifier::IPV6_SPECIFIC_EXTENDED_COMMUNITY
            },
            PathAttributeView::AIGP(_) => Identifier::AIGP,
            PathAttributeView::PE_DISTINGUISHER_LABELS => Identifier::PE_DISTINGUISHER_LABELS,
            PathAttributeView::ENTROPY_LABEL_CAPABILITY => Identifier::ENTROPY_LABEL_CAPABILITY,
            PathAttributeView::BGP_LS => Identifier::BGP_LS,
            PathAttributeView::LARGE_COMMUNITY(_) => Identifier::LARGE_COMMUNITY,
            PathAttributeView::BGPSEC_PATH => Identifier::BGPSEC_PATH,
            PathAttributeView::BGP_PREFIX_SID => Identifier::BGP_PREFIX_SID,
            PathAttributeView::ATTR_SET(_) => Identifier::ATTR_SET,
        }
    }
}

impl PathAttribute {
    /// The kind of the attribute.
    pub fn id(&self) -> (r: Identifier)
        ensures
            r == self@.id(),
    {
        match self {
            PathAttribute::ORIGIN(_) => Identifier::ORIGIN,
            PathAttribute::AS_PATH(_) => Identifier::AS_PATH,
            PathAttribute::NEXT_HOP(_) => Identifier::NEXT_HOP,
            PathAttribute::MULTI_EXIT_DISC(_) => Identifier::MULTI_EXIT_DISC,
            PathAttribute::LOCAL_PREF(_) => Identifier::LOCAL_PREF,
            PathAttribute::ATOMIC_AGGREGATOR => Identifier::ATOMIC_AGGREGATOR,
            PathAttribute::AGGREGATOR(_) => Identifier::AGGREGATOR,
            PathAttribute::COMMUNITY(_) => Identifier::COMMUNITY,
            PathAttribute::ORIGINATOR_ID(_) => Identifier::ORIGINATOR_ID,
            PathAttribute::CLUSTER_LIST(_) => Identifier::CLUSTER_LIST,
            PathAttribute::DPA(_) => Identifier::DPA,
            PathAttribute::ADVERTISER => Identifier::ADVERTISER,
            PathAttribute::CLUSTER_ID => Identifier::CLUSTER_ID,
            PathAttribute::MP_REACH_NLRI(_) => Identifier::MP_REACH_NLRI,
            PathAttribute::MP_UNREACH_NLRI(_) => Identifier::MP_UNREACH_NLRI,
            PathAttribute::EXTENDED_COMMUNITIES(_) => Identifier::EXTENDED_COMMUNITIES,
            PathAttribute::AS4_PATH(_) => Identifier::AS4_PATH,
            PathAttribute::AS4_AGGREGATOR(_) => Identifier::AS4_AGGREGATOR,
            PathAttribute::SSA => Identifier::SSA,
            PathAttribute::CONNECTOR(_) => Identifier::CONNECTOR,
            PathAttribute::AS_PATHLIMIT(_) => Identifier::AS_PATHLIMIT,
            PathAttribute::PMSI_TUNNEL(_) => Identifier::PMSI_TUNNEL,
            PathAttribute::TUNNEL_ENCAPSULATION(_) => Identifier::TUNNEL_ENCAPSULATION,
            PathAttribute::TRAFFIC_ENGINEERING => Identifier::TRAFFIC_ENGINEERING,
            PathAttribute::IPV6_SPECIFIC_EXTENDED_COMMUNITY(_) => {
                Identifier::IPV6_SPECIFIC_EXTENDED_COMMUNITY
            },
            PathAttribute::AIGP(_) => Identifier::AIGP,
            PathAttribute::PE_DISTINGUISHER_LABELS => Identifier::PE_DISTINGUISHER_LABELS,
            PathAttribute::ENTROPY_LABEL_CAPABILITY => Identifier::ENTROPY_LABEL_CAPABILITY,
            PathAttribute::BGP_LS => Identifier::BGP_LS,
            PathAttribute::LARGE_COMMUNITY(_) => Identifier::LARGE_COMMUNITY,
            PathAttribute::BGPSEC_PATH => Identifier::BGPSEC_PATH,
            PathAttribute::BGP_PREFIX_SID => Identifier::BGP_PREFIX_SID,
            PathAttribute::ATTR_SET(_) => Identifier::ATTR_SET,
        }
    }
}

/// What a decoder that reads an attribute from a stream owes: where
/// `expect` is a value and a place, the call gives that value and leaves
/// the stream at that place; where it is an error and a place, the call
/// fails with that error and leaves the stream at that place.
pub open spec fn attribute_read(
    r: Result<PathAttribute, Error>,
    end: int,
    expect: Parsed<PathAttributeView>,
) -> bool {
    match r {
        Ok(a) => expect == done(a@, end),
        Err(e) => expect == stop::<PathAttributeView>(e, end),
    }
}

/// The origin that an octet names.
pub open spec fn spec_origin(v: u8) -> Result<Origin, Error> {
    if v == 0 {
        Ok(Origin::IGP)
    } else if v == 1 {
        Ok(Origin::EGP)
    } else if v == 2 {
        Ok(Origin::INCOMPLETE)
    } else {
        Err(Error::UnknownOrigin(v))
    }
}

/// The origin read at `pos`, and the place after it. An octet that names
/// no origin is refused after the octet.
pub open spec fn spec_parse_origin(data: Seq<u8>, pos: int) -> Parsed<Origin> {
    if !fits(data, pos, 1) {
        stop(Error::MalformedAttribute, pos)
    } else {
        match spec_origin(data[pos]) {
            Err(e) => stop(e, pos + 1),
            Ok(o) => done(o, pos + 1),
        }
    }
}

impl Origin {
    /// The octet of the origin on the wire.
    pub open spec fn spec_code(self) -> u8 {
        match self {
            Origin::IGP => 0,
            Origin::EGP => 1,
            Origin::INCOMPLETE => 2,
        }
    }

    /// The octet of the origin on the wire.
    #[verifier::when_used_as_spec(spec_code)]
    pub fn code(self) -> (r: u8)
        ensures
            r == self.spec_code(),
    {
        match self {
            Origin::IGP => 0,
            Origin::EGP => 1,
            Origin::INCOMPLETE => 2,
        }
    }

    /// Reads the octet of an ORIGIN attribute. An octet that names no
    /// origin is read all the same.
    pub fn parse(stream: &mut ReadCountingStream) -> (r: Result<Origin, Error>)
        ensures
            final(stream).data == old(stream).data,
            match r {
                Ok(o) => spec_parse_origin(old(stream).data@, old(stream).at()) == done(
                    o,
                    final(stream).at(),
                ),
                Err(e) => spec_parse_origin(old(stream).data@, old(stream).at()) == stop::<Origin>(
                    e,
                    final(stream).at(),
                ),
            },
    {
        match stream.read_u8()? {
            0 => Ok(Origin::IGP),
            1 => Ok(Origin::EGP),
            2 => Ok(Origin::INCOMPLETE),
            x => Err(Error::UnknownOrigin(x)),
        }
    }

    /// The name of the origin.
    pub fn to_string(&self) -> (r: String)
        ensures
            r@ == match self {
                Origin::IGP => "IGP"@,
                Origin::EGP => "EGP"@,
                Origin::INCOMPLETE => "Incomplete"@,
            },
    {
        match self {
            Origin::IGP => "IGP".to_owned(),
            Origin::EGP => "EGP".to_owned(),
            Origin::INCOMPLETE => "Incomplete".to_owned(),
        }
    }
}

/// The 32-bit values, `count` of them, from `pos` on.
pub open spec fn u32s_at(data: Seq<u8>, pos: int, count: int) -> Seq<u32> {
    Seq::new(count as nat, |i: int| u32_at(data, pos + 4 * i))
}

/// The 64-bit values, `count` of them, from `pos` on.
pub open spec fn u64s_at(data: Seq<u8>, pos: int, count: int) -> Seq<u64> {
    Seq::new(count as nat, |i: int| u64_at(data, pos + 8 * i))
}

/// The triples of 32-bit values, `count` of them, from `pos` on.
pub open spec fn triples_at(data: Seq<u8>, pos: int, count: int) -> Seq<(u32, u32, u32)> {
    Seq::new(
        count as nat,
        |i: int|
            (
                u32_at(data, pos + 12 * i),
                u32_at(data, pos + 12 * i + 4),
                u32_at(data, pos + 12 * i + 8),
            ),
    )
}

/// Reads `count` 32-bit values one after the other. Where they are not
/// all there, the stream is left after the last one that is.
fn read_u32s(stream: &mut ReadCountingStream, count: u16) -> (r: Result<Vec<u32>, Error>)
    ensures
        final(stream).data == old(stream).data,
        match r {
            Ok(v) => (count == 0 || fits(old(stream).data@, old(stream).at(), count * 4)) && v@
                == u32s_at(old(stream).data@, old(stream).at(), count as int)
                && final(stream).at() == old(stream).at() + count * 4,
            Err(e) => count != 0 && !fits(old(stream).data@, old(stream).at(), count * 4) && e
                == Error::MalformedAttribute && final(stream).at() == past_fields(
                old(stream).data@,
                old(stream).at(),
                4,
            ),
        },
{
    let mut values: Vec<u32> = Vec::new();
    let mut i: u16 = 0;
    while i < count
        invariant
            stream.data == old(stream).data,
            i <= count,
            stream.at() == old(stream).at() + i * 4,
            i == 0 || fits(stream.data@, old(stream).at(), i * 4),
            values@ == u32s_at(stream.data@, old(stream).at(), i as int),
        decreases count - i,
    {
        let v = stream.read_u32()?;
        values.push(v);
        i = i + 1;
        assert(values@ =~= u32s_at(stream.data@, old(stream).at(), i as int));
    }
    Ok(values)
}

/// Reads `count` 64-bit values one after the other. Where they are not
/// all there, the stream is left after the last one that is.
fn read_u64s(stream: &mut ReadCountingStream, count: u16) -> (r: Result<Vec<u64>, Error>)
    ensures
        final(stream).data == old(stream).data,
        match r {
            Ok(v) => (count == 0 || fits(old(stream).data@, old(stream).at(), count * 8)) && v@
                == u64s_at(old(stream).data@, old(stream).at(), count as int)
                && final(stream).at() == old(stream).at() + count * 8,
            Err(e) => count != 0 && !fits(old(stream).data@, old(stream).at(), count * 8) && e
                == Error::MalformedAttribute && final(stream).at() == past_fields(
                old(stream).data@,
                old(stream).at(),
                8,
            ),
        },
{
    let mut values: Vec<u64> = Vec::new();
    let mut i: u16 = 0;
    while i < count
        invariant
            stream.data == old(stream).data,
            i <= count,
            stream.at() == old(stream).at() + i * 8,
            i == 0 || fits(stream.data@, old(stream).at(), i * 8),
            values@ == u64s_at(stream.data@, old(stream).at(), i as int),
        decreases count - i,
    {
        let v = stream.read_u64()?;
        values.push(v);
        i = i + 1;
        assert(values@ =~= u64s_at(stream.data@, old(stream).at(), i as int));
    }
    Ok(values)
}

/// Reads `count` triples of 32-bit values one after the other. Where
/// they are not all there, the stream is left after the last 32-bit value
/// that is.
fn read_triples(stream: &mut ReadCountingStream, count: u16) -> (r: Result<
    Vec<(u32, u32, u32)>,
    Error,
>)
    ensures
        final(stream).data == old(stream).data,
        match r {
            Ok(v) => (count == 0 || fits(old(stream).data@, old(stream).at(), count * 12)) && v@
                == triples_at(old(stream).data@, old(stream).at(), count as int)
                && final(stream).at() == old(stream).at() + count * 12,
            Err(e) => count != 0 && !fits(old(stream).data@, old(stream).at(), count * 12) && e
                == Error::MalformedAttribute && final(stream).at() == past_fields(
                old(stream).data@,
                old(stream).at(),
                4,
            ),
        },
{
    let mut values: Vec<(u32, u32, u32)> = Vec::new();
    let mut i: u16 = 0;
    while i < count
        invariant
            stream.data == old(stream).data,
            i <= count,
            stream.at() == old(stream).at() + i * 12,
            i == 0 || fits(stream.data@, old(stream).at(), i * 12),
            values@ == triples_at(stream.data@, old(stream).at(), i as int),
        decreases count - i,
    {
        let admin = stream.read_u32()?;
        let part1 = stream.read_u32()?;
        let part2 = stream.read_u32()?;
        values.push((admin, part1, part2));
        i = i + 1;
        assert(values@ =~= triples_at(stream.data@, old(stream).at(), i as int));
    }
    Ok(values)
}

/// What the body of an attribute that holds plain numbers gives, read
/// at `pos` of the attribute's window, and the place after it: type codes
/// 1, 3 to 7, 9, 11, 18, 21 and 25. `length` is the length that the attribute
/// declares; it tells a four-byte next hop from a sixteen-byte one, and
/// for both kinds of aggregator a two-byte AS, where it is six, from a
/// four-byte one. A value that does not fit
/// the window is refused as `MalformedAttribute` after the last of its
/// fields that is whole; an ORIGIN octet that names no origin, after the
/// octet.
#[verifier::opaque]
pub open spec fn spec_parse_numbers(data: Seq<u8>, pos: int, code: u8, length: u16) -> Parsed<PathAttributeView> {
    if code == 1 {
        match spec_parse_origin(data, pos) {
            Err(e) => Err(e),
            Ok((o, end)) => done(PathAttributeView::ORIGIN(o), end),
        }
    } else if code == 3 {
        if length == 4 {
            if !fits(data, pos, 4) {
                stop(Error::MalformedAttribute, pos)
            } else {
                Ok(
                    (
                        PathAttributeView::NEXT_HOP(IpAddr::V4(Ipv4Addr { bits: u32_at(data, pos) })),
                        pos + 4,
                    ),
                )
            }
        } else {
            if !fits(data, pos, 16) {
                stop(Error::MalformedAttribute, pos)
            } else {
                Ok(
                    (
                        PathAttributeView::NEXT_HOP(
                            IpAddr::V6(Ipv6Addr { bits: u128_at(data, pos) }),
                        ),
                        pos + 16,
                    ),
                )
            }
        }
    } else if code == 4 || code == 5 || code == 9 {
        if !fits(data, pos, 4) {
            stop(Error::MalformedAttribute, pos)
        } else {
            Ok(
                (
                    if code == 4 {
                        PathAttributeView::MULTI_EXIT_DISC(u32_at(data, pos))
                    } else if code == 5 {
                        PathAttributeView::LOCAL_PREF(u32_at(data, pos))
                    } else {
                        PathAttributeView::ORIGINATOR_ID(u32_at(data, pos))
                    },
                    pos + 4,
                ),
            )
        }
    } else if code == 6 {
        Ok((PathAttributeView::ATOMIC_AGGREGATOR, pos))
    } else if code == 7 {
        if length == 6 {
            if !fits(data, pos, 6) {
                stop(Error::MalformedAttribute, past(data, pos, 2))
            } else {
                Ok(
                    (
                        PathAttributeView::AGGREGATOR(
                            (u16_at(data, pos) as u32, Ipv4Addr { bits: u32_at(data, pos + 2) }),
                        ),
                        pos + 6,
                    ),
                )
            }
        } else {
            if !fits(data, pos, 8) {
                stop(Error::MalformedAttribute, past(data, pos, 4))
            } else {
                Ok(
                    (
                        PathAttributeView::AGGREGATOR(
                            (u32_at(data, pos), Ipv4Addr { bits: u32_at(data, pos + 4) }),
                        ),
                        pos + 8,
                    ),
                )
            }
        }
    } else if code == 11 {
        if !fits(data, pos, 6) {
            stop(Error::MalformedAttribute, past(data, pos, 2))
        } else {
            Ok((PathAttributeView::DPA((u16_at(data, pos), u32_at(data, pos + 2))), pos + 6))
        }
    } else if code == 18 {
        if length == 6 {
            if !fits(data, pos, 6) {
                stop(Error::MalformedAttribute, past(data, pos, 2))
            } else {
                Ok(
                    (
                        PathAttributeView::AS4_AGGREGATOR(
                            (u16_at(data, pos) as u32, Ipv4Addr { bits: u32_at(data, pos + 2) }),
                        ),
                        pos + 6,
                    ),
                )
            }
        } else {
            if !fits(data, pos, 8) {
                stop(Error::MalformedAttribute, past(data, pos, 4))
            } else {
                Ok(
                    (
                        PathAttributeView::AS4_AGGREGATOR(
                            (u32_at(data, pos), Ipv4Addr { bits: u32_at(data, pos + 4) }),
                        ),
                        pos + 8,
                    ),
                )
            }
        }
    } else if code == 21 {
        if !fits(data, pos, 5) {
            stop(Error::MalformedAttribute, past(data, pos, 1))
        } else {
            Ok((PathAttributeView::AS_PATHLIMIT((data[pos], u32_at(data, pos + 1))), pos + 5))
        }
    } else {
        if !fits(data, pos, 20) {
            stop(Error::MalformedAttribute, past(data, past(data, past(data, pos, 1), 1), 16))
        } else {
            Ok(
                (
                    PathAttributeView::IPV6_SPECIFIC_EXTENDED_COMMUNITY(
                        (
                            data[pos],
                            data[pos + 1],
                            Ipv6Addr { bits: u128_at(data, pos + 2) },
                            u16_at(data, pos + 18),
                        ),
                    ),
                    pos + 20,
                ),
            )
        }
    }
}

/// What the body of an attribute that holds a list of numbers gives, read
/// at `pos` of the attribute's window, and the place after it: type codes
/// 8, 10, 16 and 32. The list has as many whole entries as the declared
/// `length` holds. A list that does not fit the window is refused as
/// `MalformedAttribute` after the last of its numbers that is whole.
#[verifier::opaque]
pub open spec fn spec_parse_lists(data: Seq<u8>, pos: int, code: u8, length: u16) -> Parsed<PathAttributeView> {
    if code == 8 || code == 10 {
        let count = length as int / 4;
        if count != 0 && !fits(data, pos, 4 * count) {
            stop(Error::MalformedAttribute, past_fields(data, pos, 4))
        } else {
            Ok(
                (
                    if code == 8 {
                        PathAttributeView::COMMUNITY(u32s_at(data, pos, count))
                    } else {
                        PathAttributeView::CLUSTER_LIST(u32s_at(data, pos, count))
                    },
                    pos + 4 * count,
                ),
            )
        }
    } else if code == 16 {
        let count = length as int / 8;
        if count != 0 && !fits(data, pos, 8 * count) {
            stop(Error::MalformedAttribute, past_fields(data, pos, 8))
        } else {
            Ok((PathAttributeView::EXTENDED_COMMUNITIES(u64s_at(data, pos, count)), pos + 8 * count))
        }
    } else {
        let count = length as int / 12;
        if count != 0 && !fits(data, pos, 12 * count) {
            stop(Error::MalformedAttribute, past_fields(data, pos, 4))
        } else {
            Ok((PathAttributeView::LARGE_COMMUNITY(triples_at(data, pos, count)), pos + 12 * count))
        }
    }
}

/// What the body of an attribute that holds raw bytes gives, read at
/// `pos` of the attribute's window, and the place after it: type codes 20,
/// 22, 23, 26 and 28, and every code that this codec does not decode, which
/// is refused as `UnknownAttribute` after its bytes. The connector holds
/// its address after ten bytes, and one that is shorter is refused after
/// its bytes; a PMSI tunnel holds flags, a label of four bytes, and as
/// its identifier the rest of the declared length, and one whose length
/// is below five is refused after the label; an AIGP value has an inner length that counts its own three
/// header bytes, and one below three is refused after that length. Fixed
/// fields that do not fit the window are refused as `MalformedAttribute`
/// after the last of them that is whole, and bytes of a declared length
/// that do not fit it, after the fields before them.
#[verifier::opaque]
pub open spec fn spec_parse_raw(data: Seq<u8>, pos: int, code: u8, length: u16) -> Parsed<PathAttributeView> {
    if code == 20 {
        if !fits(data, pos, length as int) {
            stop(Error::MalformedAttribute, pos)
        } else if length < 14 {
            stop(Error::UnexpectedEof, pos + length)
        } else {
            Ok(
                (
                    PathAttributeView::CONNECTOR(Ipv4Addr { bits: u32_at(data, pos + 10) }),
                    pos + length,
                ),
            )
        }
    } else if code == 22 {
        if !fits(data, pos, 5) {
            stop(Error::MalformedAttribute, past(data, pos, 1))
        } else if length < 5 || !fits(data, pos + 5, length - 5) {
            stop(Error::MalformedAttribute, pos + 5)
        } else {
            Ok(
                (
                    PathAttributeView::PMSI_TUNNEL(
                        (data[pos], u32_at(data, pos + 1), bytes_at(data, pos + 5, length - 5)),
                    ),
                    pos + length,
                ),
            )
        }
    } else if code == 23 {
        if !fits(data, pos, 4) {
            stop(Error::MalformedAttribute, past(data, pos, 2))
        } else if !fits(data, pos + 4, u16_at(data, pos + 2) as int) {
            stop(Error::MalformedAttribute, pos + 4)
        } else {
            Ok(
                (
                    PathAttributeView::TUNNEL_ENCAPSULATION(
                        (
                            u16_at(data, pos),
                            bytes_at(data, pos + 4, u16_at(data, pos + 2) as int),
                        ),
                    ),
                    pos + 4 + u16_at(data, pos + 2),
                ),
            )
        }
    } else if code == 26 {
        if !fits(data, pos, 3) {
            stop(Error::MalformedAttribute, past(data, pos, 1))
        } else if u16_at(data, pos + 1) < 3 {
            stop(Error::MalformedAigp, pos + 3)
        } else if !fits(data, pos + 3, u16_at(data, pos + 1) - 3) {
            stop(Error::MalformedAttribute, pos + 3)
        } else {
            Ok(
                (
                    PathAttributeView::AIGP(
                        (data[pos], bytes_at(data, pos + 3, u16_at(data, pos + 1) - 3)),
                    ),
                    pos + u16_at(data, pos + 1),
                ),
            )
        }
    } else if code == 28 {
        if !fits(data, pos, length as int) {
            stop(Error::MalformedAttribute, pos)
        } else {
            Ok((PathAttributeView::ENTROPY_LABEL_CAPABILITY, pos + length))
        }
    } else {
        if !fits(data, pos, length as int) {
            stop(Error::MalformedAttribute, pos)
        } else {
            stop(Error::UnknownAttribute(code), pos + length)
        }
    }
}

/// Reads the body of an attribute that holds plain numbers.
fn parse_numbers(stream: &mut ReadCountingStream, code: u8, length: u16) -> (r: Result<
    PathAttribute,
    Error,
>)
    ensures
        final(stream).data == old(stream).data,
        attribute_read(
            r,
            final(stream).at(),
            spec_parse_numbers(old(stream).data@, old(stream).at(), code, length),
        ),
{
    proof {
        reveal(spec_parse_numbers);
    }
    if code == 1 {
        Ok(PathAttribute::ORIGIN(Origin::parse(stream)?))
    } else if code == 3 {
        let ip = if length == 4 {
            IpAddr::V4(Ipv4Addr { bits: stream.read_u32()? })
        } else {
            IpAddr::V6(Ipv6Addr { bits: stream.read_u128()? })
        };
        Ok(PathAttribute::NEXT_HOP(ip))
    } else if code == 4 {
        Ok(PathAttribute::MULTI_EXIT_DISC(stream.read_u32()?))
    } else if code == 5 {
        Ok(PathAttribute::LOCAL_PREF(stream.read_u32()?))
    } else if code == 9 {
        Ok(PathAttribute::ORIGINATOR_ID(stream.read_u32()?))
    } else if code == 6 {
        Ok(PathAttribute::ATOMIC_AGGREGATOR)
    } else if code == 7 {
        parse_aggregator(stream, length)
    } else if code == 11 {
        let asn = stream.read_u16()?;
        let value = stream.read_u32()?;
        Ok(PathAttribute::DPA((asn, value)))
    } else if code == 18 {
        let asn = if length == 6 {
            stream.read_u16()? as u32
        } else {
            stream.read_u32()?
        };
        let ip = Ipv4Addr { bits: stream.read_u32()? };
        Ok(PathAttribute::AS4_AGGREGATOR((asn, ip)))
    } else if code == 21 {
        let limit = stream.read_u8()?;
        let asn = stream.read_u32()?;
        Ok(PathAttribute::AS_PATHLIMIT((limit, asn)))
    } else {
        parse_ipv6_community(stream)
    }
}

/// Reads the body of an AGGREGATOR attribute: an AS number of two bytes
/// where the attribute declares six bytes and of four where it does not,
/// then an IPv4 address.
fn parse_aggregator(stream: &mut ReadCountingStream, length: u16) -> (r: Result<
    PathAttribute,
    Error,
>)
    ensures
        final(stream).data == old(stream).data,
        attribute_read(
            r,
            final(stream).at(),
            spec_parse_numbers(old(stream).data@, old(stream).at(), 7, length),
        ),
{
    proof {
        reveal(spec_parse_numbers);
    }
    let asn = if length == 6 {
        stream.read_u16()? as u32
    } else {
        stream.read_u32()?
    };
    let ip = Ipv4Addr { bits: stream.read_u32()? };
    Ok(PathAttribute::AGGREGATOR((asn, ip)))
}

/// Reads the body of an IPv6-specific extended community.
fn parse_ipv6_community(stream: &mut ReadCountingStream) -> (r: Result<PathAttribute, Error>)
    ensures
        final(stream).data == old(stream).data,
        attribute_read(
            r,
            final(stream).at(),
            spec_parse_numbers(old(stream).data@, old(stream).at(), 25, 0),
        ),
{
    proof {
        reveal(spec_parse_numbers);
    }
    let transitive = stream.read_u8()?;
    let subtype = stream.read_u8()?;
    let global_admin = Ipv6Addr { bits: stream.read_u128()? };
    let local_admin = stream.read_u16()?;
    Ok(
        PathAttribute::IPV6_SPECIFIC_EXTENDED_COMMUNITY(
            (transitive, subtype, global_admin, local_admin),
        ),
    )
}

/// Reads the body of an attribute that holds a list of numbers.
fn parse_lists(stream: &mut ReadCountingStream, code: u8, length: u16) -> (r: Result<
    PathAttribute,
    Error,
>)
    ensures
        final(stream).data == old(stream).data,
        attribute_read(
            r,
            final(stream).at(),
            spec_parse_lists(old(stream).data@, old(stream).at(), code, length),
        ),
{
    proof {
        reveal(spec_parse_lists);
    }
    if code == 8 {
        Ok(PathAttribute::COMMUNITY(read_u32s(stream, length / 4)?))
    } else if code == 10 {
        Ok(PathAttribute::CLUSTER_LIST(read_u32s(stream, length / 4)?))
    } else if code == 16 {
        Ok(PathAttribute::EXTENDED_COMMUNITIES(read_u64s(stream, length / 8)?))
    } else {
        Ok(PathAttribute::LARGE_COMMUNITY(read_triples(stream, length / 12)?))
    }
}

/// Reads the body of a CONNECTOR attribute.
fn parse_connector(stream: &mut ReadCountingStream, length: u16) -> (r: Result<
    PathAttribute,
    Error,
>)
    ensures
        final(stream).data == old(stream).data,
        attribute_read(
            r,
            final(stream).at(),
            spec_parse_raw(old(stream).data@, old(stream).at(), 20, length),
        ),
{
    proof {
        reveal(spec_parse_raw);
    }
    let buf = stream.read_exact(length as usize)?;
    let mut cur = Cursor::new(buf);
    if cur.remaining() < 14 {
        return Err(Error::UnexpectedEof);
    }
    let _ = cur.read_u16()?;
    let _ = cur.read_u64()?;
    let ip = Ipv4Addr { bits: cur.read_u32()? };
    assert(bytes_at(buf@, 10, 4) =~= bytes_at(old(stream).data@, old(stream).at() + 10, 4));
    Ok(PathAttribute::CONNECTOR(ip))
}

/// Reads the body of an attribute that holds raw bytes.
fn parse_raw(stream: &mut ReadCountingStream, code: u8, length: u16) -> (r: Result<
    PathAttribute,
    Error,
>)
    ensures
        final(stream).data == old(stream).data,
        attribute_read(
            r,
            final(stream).at(),
            spec_parse_raw(old(stream).data@, old(stream).at(), code, length),
        ),
{
    proof {
        reveal(spec_parse_raw);
    }
    if code == 20 {
        parse_connector(stream, length)
    } else if code == 22 {
        let flags = stream.read_u8()?;
        let label = stream.read_u32()?;
        if length < 5 {
            return Err(Error::MalformedAttribute);
        }
        let identifier = to_vec(stream.read_exact((length - 5) as usize)?);
        Ok(PathAttribute::PMSI_TUNNEL((flags, label, identifier)))
    } else if code == 23 {
        let tunnel_type = stream.read_u16()?;
        let length = stream.read_u16()?;
        let value = to_vec(stream.read_exact(length as usize)?);
        Ok(PathAttribute::TUNNEL_ENCAPSULATION((tunnel_type, value)))
    } else if code == 26 {
        let aigp_type = stream.read_u8()?;
        let length = stream.read_u16()?;
        if length < 3 {
            Err(Error::MalformedAigp)
        } else {
            let value = to_vec(stream.read_exact((length - 3) as usize)?);
            Ok(PathAttribute::AIGP((aigp_type, value)))
        }
    } else if code == 28 {
        let _ = stream.read_exact(length as usize)?;
        Ok(PathAttribute::ENTROPY_LABEL_CAPABILITY)
    } else {
        let _ = stream.read_exact(length as usize)?;
        Err(Error::UnknownAttribute(code))
    }
}

/// The frame of a path attribute: what stands before its body.
pub struct AttributeFrame {
    /// The flags octet.
    pub flags: u8,
    /// The type code.
    pub code: u8,
    /// The length of the body in bytes.
    pub length: u16,
    /// The place where the body starts.
    pub body: int,
}

/// Whether the flags of an attribute say that its length takes two bytes.
pub open spec fn spec_is_extended(flags: u8) -> bool {
    flags & 0x10 != 0
}

/// The frame of the attribute at `pos`: flags, type code, and a length of
/// one byte, or of two where the flags say so.
pub open spec fn spec_attribute_frame(data: Seq<u8>, pos: int) -> Result<AttributeFrame, Error> {
    if !fits(data, pos, 2) {
        Err(Error::UnexpectedEof)
    } else if spec_is_extended(data[pos]) {
        if !fits(data, pos + 2, 2) {
            Err(Error::UnexpectedEof)
        } else {
            Ok(
                AttributeFrame {
                    flags: data[pos],
                    code: data[pos + 1],
                    length: u16_at(data, pos + 2),
                    body: pos + 4,
                },
            )
        }
    } else {
        if !fits(data, pos + 2, 1) {
            Err(Error::UnexpectedEof)
        } else {
            Ok(
                AttributeFrame {
                    flags: data[pos],
                    code: data[pos + 1],
                    length: data[pos + 2] as u16,
                    body: pos + 3,
                },
            )
        }
    }
}

/// What the body of an attribute of type `code` and declared length
/// `length` gives, read at `pos` of the attribute's window, and the place
/// after it; where the body does not decode, the error and the place
/// where reading stopped.
pub open spec fn spec_parse_limited(
    data: Seq<u8>,
    pos: int,
    add_path: bool,
    code: u8,
    length: u16,
) -> Parsed<PathAttributeView>
    decreases data.len(), 1int,
{
    if code == 2 || code == 17 {
        match spec_parse_unknown_segments(data, pos, length) {
            Err(e) => Err(e),
            Ok((segments, end)) => done(
                if code == 2 {
                    PathAttributeView::AS_PATH(ASPathView { segments })
                } else {
                    PathAttributeView::AS4_PATH(ASPathView { segments })
                },
                end,
            ),
        }
    } else if code == 14 {
        match spec_parse_mp_reach(data, pos, length, add_path) {
            Err(e) => Err(e),
            Ok((reach, end)) => done(PathAttributeView::MP_REACH_NLRI(reach), end),
        }
    } else if code == 15 {
        match spec_parse_mp_unreach(data, pos, length, add_path) {
            Err(e) => Err(e),
            Ok((unreach, end)) => done(PathAttributeView::MP_UNREACH_NLRI(unreach), end),
        }
    } else if code == 128 {
        spec_parse_attr_set(data, pos, add_path, length)
    } else if code == 1 || (3 <= code <= 7) || code == 9 || code == 11 || code == 18 || code == 21
        || code == 25 {
        spec_parse_numbers(data, pos, code, length)
    } else if code == 8 || code == 10 || code == 16 || code == 32 {
        spec_parse_lists(data, pos, code, length)
    } else {
        spec_parse_raw(data, pos, code, length)
    }
}

/// What the body of an attribute set of `length` bytes gives, read at
/// `pos` of the attribute's window, and the place after it: the AS of
/// origin, and the attributes that fill the rest of `length`. A body
/// without room for the AS of origin is refused as `MalformedAttribute`
/// where it starts, and one whose attributes do not fit the window, after
/// the AS of origin.
pub open spec fn spec_parse_attr_set(data: Seq<u8>, pos: int, add_path: bool, length: u16) -> Parsed<
    PathAttributeView,
>
    decreases data.len(), 0int,
{
    if !fits(data, pos, 4) || length < 4 {
        stop(Error::MalformedAttribute, pos)
    } else if !fits(data, pos + 4, length - 4) {
        stop(Error::MalformedAttribute, pos + 4)
    } else {
        done(
            PathAttributeView::ATTR_SET(
                (
                    u32_at(data, pos),
                    attributes_from(bytes_at(data, pos + 4, length - 4), 0, add_path, Seq::empty()),
                ),
            ),
            pos + length,
        )
    }
}

/// The attributes of an attribute set, read from `pos` to the end of
/// `data`, after `acc`. An attribute whose body does not decode is left
/// out; one whose frame or body is cut short ends the list.
pub open spec fn attributes_from(
    data: Seq<u8>,
    pos: int,
    add_path: bool,
    acc: Seq<PathAttributeView>,
) -> Seq<PathAttributeView>
    decreases
        data.len(),
        (if pos < data.len() {
            data.len() - pos
        } else {
            0
        }),
{
    if pos >= data.len() {
        acc
    } else {
        match spec_attribute_frame(data, pos) {
            Err(_) => acc,
            Ok(frame) => if !fits(data, frame.body, frame.length as int) {
                acc
            } else {
                match spec_parse_limited(
                    bytes_at(data, frame.body, frame.length as int),
                    0,
                    add_path,
                    frame.code,
                    frame.length,
                ) {
                    Err(_) => attributes_from(data, frame.body + frame.length, add_path, acc),
                    Ok((attribute, _)) => attributes_from(
                        data,
                        frame.body + frame.length,
                        add_path,
                        acc.push(attribute),
                    ),
                }
            },
        }
    }
}

/// Where reading the frame at `pos` stops when the bytes end within it:
/// before the flags, the type code or the length, whichever is the first
/// that is not whole.
pub open spec fn spec_frame_stop(data: Seq<u8>, pos: int) -> int {
    if !fits(data, pos, 1) {
        pos
    } else if !fits(data, pos + 1, 1) {
        pos + 1
    } else {
        pos + 2
    }
}

/// Whether a whole attribute stands at `pos`: its frame, and after it the
/// bytes that the frame declares.
pub open spec fn attribute_framed(data: Seq<u8>, pos: int) -> bool {
    spec_attribute_frame(data, pos) matches Ok(frame) && fits(
        data,
        frame.body,
        frame.length as int,
    )
}

/// What reading the attribute at `pos` gives, and the place after it. The
/// body is decoded within the bytes that the frame declares, and the
/// place after the attribute is the end of those bytes whatever the
/// decoder read, also where it failed. Where the frame is cut short the
/// attribute is refused with `UnexpectedEof`, at the place where the
/// frame stops; where the frame declares more bytes than follow it, with
/// `MalformedMessage`, at the place after the frame.
pub open spec fn spec_parse_attribute(data: Seq<u8>, pos: int, add_path: bool) -> (
    Result<PathAttributeView, Error>,
    int,
) {
    match spec_attribute_frame(data, pos) {
        Err(e) => (Err(e), spec_frame_stop(data, pos)),
        Ok(frame) => if !fits(data, frame.body, frame.length as int) {
            (Err(Error::MalformedMessage), frame.body)
        } else {
            (
                in_block(
                    spec_parse_limited(
                        bytes_at(data, frame.body, frame.length as int),
                        0,
                        add_path,
                        frame.code,
                        frame.length,
                    ),
                ),
                frame.body + frame.length,
            )
        },
    }
}

/// Reading an attribute fails where no whole attribute stands at the
/// place; where one does, it moves the place forward and not beyond the
/// bytes.
pub proof fn lemma_attribute_advance(data: Seq<u8>, pos: int, add_path: bool)
    ensures
        !attribute_framed(data, pos) ==> spec_parse_attribute(data, pos, add_path).0 is Err,
        attribute_framed(data, pos) ==> pos < spec_parse_attribute(data, pos, add_path).1
            <= data.len(),
{
}

/// What a call that reads a whole attribute owes: the value or the error
/// of `expect`, and the stream at the place of `expect`.
pub open spec fn attribute_parsed(
    r: Result<PathAttribute, Error>,
    end: int,
    expect: (Result<PathAttributeView, Error>, int),
) -> bool {
    match r {
        Ok(a) => expect == (Ok::<PathAttributeView, Error>(a@), end),
        Err(e) => expect == (Err::<PathAttributeView, Error>(e), end),
    }
}

/// Reads the frame of an attribute: flags, type code and length. Where
/// the bytes end within the frame, the stream is left before the first
/// of the three that is not whole.
fn read_frame(stream: &mut Cursor) -> (r: Result<(u8, u8, u16), Error>)
    ensures
        final(stream).data == old(stream).data,
        match r {
            Ok((flags, code, length)) => spec_attribute_frame(old(stream).data@, old(stream).at())
                == Ok::<AttributeFrame, Error>(
                AttributeFrame { flags, code, length, body: final(stream).at() },
            ),
            Err(e) => spec_attribute_frame(old(stream).data@, old(stream).at()) == Err::<
                AttributeFrame,
                Error,
            >(e) && final(stream).at() == spec_frame_stop(old(stream).data@, old(stream).at()),
        },
{
    let flags = stream.read_u8()?;
    let code = stream.read_u8()?;
    let length: u16 = if flags & 0x10 == 0 {
        stream.read_u8()? as u16
    } else {
        stream.read_u16()?
    };
    Ok((flags, code, length))
}

/// Reads one path attribute, and tells a failure of the frame from one
/// of the body. Where no whole attribute stands at the stream's place,
/// the call itself fails, as `PathAttribute::parse` does. Where one
/// does, the call gives what the decoder of the body gave, and leaves
/// the stream after the attribute.
pub fn read_attribute(stream: &mut Cursor, capabilities: &Capabilities) -> (r: Result<
    Result<PathAttribute, Error>,
    Error,
>)
    ensures
        final(stream).data == old(stream).data,
        match r {
            Ok(body) => attribute_framed(old(stream).data@, old(stream).at()) && attribute_parsed(
                body,
                final(stream).at(),
                spec_parse_attribute(
                    old(stream).data@,
                    old(stream).at(),
                    capabilities.EXTENDED_PATH_NLRI_SUPPORT,
                ),
            ),
            Err(e) => !attribute_framed(old(stream).data@, old(stream).at())
                && spec_parse_attribute(
                old(stream).data@,
                old(stream).at(),
                capabilities.EXTENDED_PATH_NLRI_SUPPORT,
            ) == (Err::<PathAttributeView, Error>(e), final(stream).at()),
        },
    decreases old(stream).data@.len(), 0int,
{
    let (flags, code, length) = read_frame(stream)?;
    let mut count_stream = match ReadCountingStream::new(stream, length as usize) {
        Ok(s) => s,
        Err(_) => {
            return Err(Error::MalformedMessage);
        },
    };
    Ok(PathAttribute::parse_limited(&mut count_stream, capabilities, flags, code, length))
}

/// The attribute set of an AS of origin and its attributes.
fn attr_set(asn: u32, attributes: Vec<PathAttribute>) -> (r: PathAttribute)
    ensures
        r@ == PathAttributeView::ATTR_SET((asn, attribute_views(attributes@))),
{
    let ghost views = attribute_views(attributes@);
    let ghost items = attributes@;
    let r = PathAttribute::ATTR_SET((asn, attributes));
    assert(r@->ATTR_SET_0.1 =~= views);
    r
}

/// Reads the body of an attribute set: the AS of origin, then attributes
/// up to the end of the body.
fn parse_attr_set(stream: &mut ReadCountingStream, capabilities: &Capabilities, length: u16) -> (r:
    Result<PathAttribute, Error>)
    ensures
        final(stream).data == old(stream).data,
        attribute_read(
            r,
            final(stream).at(),
            spec_parse_attr_set(
                old(stream).data@,
                old(stream).at(),
                capabilities.EXTENDED_PATH_NLRI_SUPPORT,
                length,
            ),
        ),
    decreases old(stream).data@.len(), 0int,
{
    let ghost add_path = capabilities.EXTENDED_PATH_NLRI_SUPPORT;
    if stream.remaining() < 4 || length < 4 {
        return Err(Error::MalformedAttribute);
    }
    let asn = stream.read_u32()?;
    let block = stream.read_exact((length - 4) as usize)?;
    let mut cursor = Cursor::new(block);
    let mut attributes: Vec<PathAttribute> = Vec::new();
    assert(attribute_views(attributes@) =~= Seq::empty());
    let mut cut_short = false;
    while !cut_short && cursor.position() < block.len()
        invariant
            cursor.data == block,
            block@.len() < old(stream).data@.len(),
            add_path == capabilities.EXTENDED_PATH_NLRI_SUPPORT,
            !cut_short ==> attributes_from(block@, 0, add_path, Seq::empty()) == attributes_from(
                block@,
                cursor.at(),
                add_path,
                attribute_views(attributes@),
            ),
            cut_short ==> attributes_from(block@, 0, add_path, Seq::empty()) == attribute_views(
                attributes@,
            ),
        decreases
            (if cut_short {
                0
            } else if cursor.pos < block@.len() {
                block@.len() - cursor.pos + 1
            } else {
                1
            }),
    {
        let ghost before = attribute_views(attributes@);
        match read_attribute(&mut cursor, capabilities) {
            Ok(Ok(x)) => {
                let ghost view = x@;
                attributes.push(x);
                assert(attribute_views(attributes@) =~= before.push(view));
            },
            Ok(Err(_)) => {},
            Err(_) => {
                cut_short = true;
            },
        }
    }
    Ok(attr_set(asn, attributes))
}

impl PathAttribute {
    /// Reads one path attribute: its frame, then its body within the bytes
    /// that the frame declares. Whatever the decoder of the body reads,
    /// and also where it fails, the stream is left at the end of those
    /// bytes. Where the frame is cut short the call fails with
    /// `UnexpectedEof` and leaves the stream where the frame stops; where
    /// the frame declares more bytes than the stream holds, it fails with
    /// `MalformedMessage` and leaves the stream after the frame.
    pub fn parse(stream: &mut Cursor, capabilities: &Capabilities) -> (r: Result<
        PathAttribute,
        Error,
    >)
        ensures
            final(stream).data == old(stream).data,
            attribute_parsed(
                r,
                final(stream).at(),
                spec_parse_attribute(
                    old(stream).data@,
                    old(stream).at(),
                    capabilities.EXTENDED_PATH_NLRI_SUPPORT,
                ),
            ),
    {
        match read_attribute(stream, capabilities) {
            Ok(r) => r,
            Err(e) => Err(e),
        }
    }

    /// Reads the body of an attribute of type `code` and declared length
    /// `length` from a stream that is held to the attribute's bytes.
    /// Where that fails, the stream is left where reading stopped.
    pub fn parse_limited(
        stream: &mut ReadCountingStream,
        capabilities: &Capabilities,
        _flags: u8,
        code: u8,
        length: u16,
    ) -> (r: Result<PathAttribute, Error>)
        ensures
            final(stream).data == old(stream).data,
            attribute_read(
                r,
                final(stream).at(),
                spec_parse_limited(
                    old(stream).data@,
                    old(stream).at(),
                    capabilities.EXTENDED_PATH_NLRI_SUPPORT,
                    code,
                    length,
                ),
            ),
        decreases old(stream).data@.len(), 1int,
    {
        if code == 2 {
            Ok(PathAttribute::AS_PATH(ASPath::parse(stream, length, capabilities)?))
        } else if code == 17 {
            Ok(PathAttribute::AS4_PATH(ASPath::parse(stream, length, capabilities)?))
        } else if code == 14 {
            Ok(PathAttribute::MP_REACH_NLRI(MPReachNLRI::parse(stream, length, capabilities)?))
        } else if code == 15 {
            Ok(PathAttribute::MP_UNREACH_NLRI(MPUnreachNLRI::parse(stream, length, capabilities)?))
        } else if code == 128 {
            parse_attr_set(stream, capabilities, length)
        } else if code == 1 || (3 <= code && code <= 7) || code == 9 || code == 11 || code == 18
            || code == 21 || code == 25 {
            parse_numbers(stream, code, length)
        } else if code == 8 || code == 10 || code == 16 || code == 32 {
            parse_lists(stream, code, length)
        } else {
            parse_raw(stream, code, length)
        }
    }
}

/// The wire form of the 32-bit values from `i` on, after `acc`.
pub open spec fn u32s_encoding(values: Seq<u32>, i: int, acc: Seq<u8>) -> Seq<u8>
    decreases values.len() - i,
{
    if i < 0 || i >= values.len() {
        acc
    } else {
        u32s_encoding(values, i + 1, acc + u32_be_bytes(values[i]))
    }
}

/// The wire form of the 64-bit values from `i` on, after `acc`.
pub open spec fn u64s_encoding(values: Seq<u64>, i: int, acc: Seq<u8>) -> Seq<u8>
    decreases values.len() - i,
{
    if i < 0 || i >= values.len() {
        acc
    } else {
        u64s_encoding(values, i + 1, acc + u64_be_bytes(values[i]))
    }
}

impl PathAttributeView {
    /// The flags that an attribute of this kind carries when it is
    /// written, before the extended-length bit: 0x40 for well-known kinds,
    /// 0x80 for optional ones, 0xc0 for optional transitive ones. A kind
    /// that this codec does not write has none.
    pub open spec fn default_flags(self) -> Option<u8> {
        match self {
            PathAttributeView::ORIGIN(_) => Some(0x40u8),
            PathAttributeView::AS_PATH(_) => Some(0x40u8),
            PathAttributeView::NEXT_HOP(_) => Some(0x40u8),
            PathAttributeView::LOCAL_PREF(_) => Some(0x40u8),
            PathAttributeView::MULTI_EXIT_DISC(_) => Some(0x80u8),
            PathAttributeView::MP_REACH_NLRI(_) => Some(0x80u8),
            PathAttributeView::MP_UNREACH_NLRI(_) => Some(0x80u8),
            PathAttributeView::CLUSTER_LIST(_) => Some(0x80u8),
            PathAttributeView::ORIGINATOR_ID(_) => Some(0x80u8),
            PathAttributeView::COMMUNITY(_) => Some(0xc0u8),
            PathAttributeView::EXTENDED_COMMUNITIES(_) => Some(0xc0u8),
            PathAttributeView::AS4_PATH(_) => Some(0xc0u8),
            PathAttributeView::AGGREGATOR(_) => Some(0xc0u8),
            _ => None,
        }
    }

    /// The body of the attribute on the wire. The aggregator's AS is
    /// written in two bytes where it fits them, and in four where it does
    /// not. A kind that this codec does not write has no body.
    pub open spec fn body(self) -> Result<Seq<u8>, Error> {
        match self {
            PathAttributeView::ORIGIN(o) => Ok(seq![o.spec_code()]),
            PathAttributeView::AS_PATH(p) => p.encoding(),
            PathAttributeView::AS4_PATH(p) => p.encoding(),
            PathAttributeView::NEXT_HOP(ip) => match ip {
                IpAddr::V4(a) => Ok(u32_be_bytes(a.bits)),
                IpAddr::V6(a) => Ok(u128_be_bytes(a.bits)),
            },
            PathAttributeView::LOCAL_PREF(v) => Ok(u32_be_bytes(v)),
            PathAttributeView::MULTI_EXIT_DISC(v) => Ok(u32_be_bytes(v)),
            PathAttributeView::ORIGINATOR_ID(v) => Ok(u32_be_bytes(v)),
            PathAttributeView::MP_REACH_NLRI(m) => m.encoding(),
            PathAttributeView::MP_UNREACH_NLRI(m) => m.encoding(),
            PathAttributeView::CLUSTER_LIST(v) => Ok(u32s_encoding(v, 0, Seq::empty())),
            PathAttributeView::COMMUNITY(v) => Ok(u32s_encoding(v, 0, Seq::empty())),
            PathAttributeView::EXTENDED_COMMUNITIES(v) => Ok(u64s_encoding(v, 0, Seq::empty())),
            PathAttributeView::AGGREGATOR((asn, ip)) => if asn <= 0xffff {
                Ok(u16_be_bytes(asn as u16) + u32_be_bytes(ip.bits))
            } else {
                Ok(u32_be_bytes(asn) + u32_be_bytes(ip.bits))
            },
            _ => Err(Error::UnsupportedEncoding),
        }
    }

    /// The wire form of the attribute: flags, type code, the length of the
    /// body and the body. The length takes two bytes, and the flags carry
    /// the extended-length bit, exactly where the body is longer than 255
    /// bytes. A body longer than 65535 bytes has no wire form.
    pub open spec fn encoding(self) -> Result<Seq<u8>, Error> {
        match self.body() {
            Err(e) => Err(e),
            Ok(body) => match self.default_flags() {
                None => Err(Error::UnsupportedEncoding),
                Some(flags) => if body.len() > 0xffff {
                    Err(Error::EncodeOverflow)
                } else if body.len() > 0xff {
                    Ok(
                        seq![flags | 0x10, self.id().spec_code()] + u16_be_bytes(body.len() as u16)
                            + body,
                    )
                } else {
                    Ok(seq![flags, self.id().spec_code(), body.len() as u8] + body)
                },
            },
        }
    }
}

/// The wire form of the attributes from `i` on, after `acc`; the error of
/// the first attribute that has none.
pub open spec fn attributes_encoding(attributes: Seq<PathAttributeView>, i: int, acc: Seq<u8>) -> Result<
    Seq<u8>,
    Error,
>
    decreases attributes.len() - i,
{
    if i < 0 || i >= attributes.len() {
        Ok(acc)
    } else {
        match attributes[i].encoding() {
            Err(e) => Err(e),
            Ok(bytes) => attributes_encoding(attributes, i + 1, acc + bytes),
        }
    }
}

/// Writes 32-bit values one after the other.
fn encode_u32s(values: &Vec<u32>) -> (r: Vec<u8>)
    ensures
        r@ == u32s_encoding(values@, 0, Seq::empty()),
{
    let mut out: Vec<u8> = Vec::new();
    let mut i: usize = 0;
    while i < values.len()
        invariant
            i <= values.len(),
            u32s_encoding(values@, 0, Seq::empty()) == u32s_encoding(values@, i as int, out@),
        decreases values.len() - i,
    {
        push_u32(&mut out, values[i]);
        i = i + 1;
    }
    out
}

/// Writes 64-bit values one after the other.
fn encode_u64s(values: &Vec<u64>) -> (r: Vec<u8>)
    ensures
        r@ == u64s_encoding(values@, 0, Seq::empty()),
{
    let mut out: Vec<u8> = Vec::new();
    let mut i: usize = 0;
    while i < values.len()
        invariant
            i <= values.len(),
            u64s_encoding(values@, 0, Seq::empty()) == u64s_encoding(values@, i as int, out@),
        decreases values.len() - i,
    {
        push_u64(&mut out, values[i]);
        i = i + 1;
    }
    out
}

impl PathAttribute {
    /// The flags of the attribute's kind before the extended-length bit.
    fn default_flags(&self) -> (r: Option<u8>)
        ensures
            r == self@.default_flags(),
    {
        match self {
            PathAttribute::ORIGIN(_) => Some(0x40u8),
            PathAttribute::AS_PATH(_) => Some(0x40u8),
            PathAttribute::NEXT_HOP(_) => Some(0x40u8),
            PathAttribute::LOCAL_PREF(_) => Some(0x40u8),
            PathAttribute::MULTI_EXIT_DISC(_) => Some(0x80u8),
            PathAttribute::MP_REACH_NLRI(_) => Some(0x80u8),
            PathAttribute::MP_UNREACH_NLRI(_) => Some(0x80u8),
            PathAttribute::CLUSTER_LIST(_) => Some(0x80u8),
            PathAttribute::ORIGINATOR_ID(_) => Some(0x80u8),
            PathAttribute::COMMUNITY(_) => Some(0xc0u8),
            PathAttribute::EXTENDED_COMMUNITIES(_) => Some(0xc0u8),
            PathAttribute::AS4_PATH(_) => Some(0xc0u8),
            PathAttribute::AGGREGATOR(_) => Some(0xc0u8),
            _ => None,
        }
    }

    /// The body of the attribute on the wire.
    fn encode_body(&self) -> (r: Result<Vec<u8>, Error>)
        ensures
            match r {
                Ok(v) => self@.body() == Ok::<Seq<u8>, Error>(v@),
                Err(e) => self@.body() == Err::<Seq<u8>, Error>(e),
            },
    {
        let mut bytes: Vec<u8> = Vec::new();
        match self {
            PathAttribute::ORIGIN(origin) => {
                push_u8(&mut bytes, origin.code());
            },
            PathAttribute::AS_PATH(as_path) => {
                as_path.encode(&mut bytes)?;
            },
            PathAttribute::AS4_PATH(as_path) => {
                as_path.encode(&mut bytes)?;
            },
            PathAttribute::NEXT_HOP(next_hop) => {
                match next_hop {
                    IpAddr::V4(addr) => push_u32(&mut bytes, addr.bits),
                    IpAddr::V6(addr) => push_u128(&mut bytes, addr.bits),
                }
            },
            PathAttribute::MULTI_EXIT_DISC(med) => {
                push_u32(&mut bytes, *med);
            },
            PathAttribute::LOCAL_PREF(pref) => {
                push_u32(&mut bytes, *pref);
            },
            PathAttribute::ORIGINATOR_ID(origin_id) => {
                push_u32(&mut bytes, *origin_id);
            },
            PathAttribute::MP_REACH_NLRI(mp_reach) => {
                mp_reach.encode(&mut bytes)?;
            },
            PathAttribute::MP_UNREACH_NLRI(mp_unreach) => {
                mp_unreach.encode(&mut bytes)?;
            },
            PathAttribute::COMMUNITY(communities) => {
                return Ok(encode_u32s(communities));
            },
            PathAttribute::CLUSTER_LIST(clusters) => {
                return Ok(encode_u32s(clusters));
            },
            PathAttribute::EXTENDED_COMMUNITIES(communities) => {
                return Ok(encode_u64s(communities));
            },
            PathAttribute::AGGREGATOR((asn, ip)) => {
                if *asn <= 0xffff {
                    push_u16(&mut bytes, *asn as u16);
                } else {
                    push_u32(&mut bytes, *asn);
                }
                push_u32(&mut bytes, ip.bits);
            },
            _ => {
                return Err(Error::UnsupportedEncoding);
            },
        }
        Ok(bytes)
    }

    /// Appends the wire form of the attribute to `buf`.
    #[verifier::rlimit(50)]
    pub fn encode(&self, buf: &mut Vec<u8>) -> (r: Result<(), Error>)
        ensures
            appended(old(buf)@, final(buf)@, r, self@.encoding()),
    {
        let bytes = self.encode_body()?;
        let flags = match self.default_flags() {
            Some(flags) => flags,
            None => {
                return Err(Error::UnsupportedEncoding);
            },
        };
        if bytes.len() > 0xffff {
            return Err(Error::EncodeOverflow);
        }
        let identifier = self.id();
        if bytes.len() > 0xff {
            push_u8(buf, flags | 0x10);
            push_u8(buf, identifier.code());
            push_u16(buf, bytes.len() as u16);
            push_bytes(buf, bytes.as_slice());
            assert(buf@ =~= old(buf)@ + (seq![flags | 0x10, identifier.spec_code()] + u16_be_bytes(
                bytes@.len() as u16,
            ) + bytes@));
        } else {
            push_u8(buf, flags);
            push_u8(buf, identifier.code());
            push_u8(buf, bytes.len() as u8);
            push_bytes(buf, bytes.as_slice());
            assert(buf@ =~= old(buf)@ + (seq![flags, identifier.spec_code(), bytes@.len() as u8]
                + bytes@));
        }
        Ok(())
    }
}

/// Writes attributes one after the other, after the bytes of `onto`.
pub fn encode_attributes(attributes: &Vec<PathAttribute>, onto: Vec<u8>) -> (r: Result<
    Vec<u8>,
    Error,
>)
    ensures
        match r {
            Ok(v) => attributes_encoding(attribute_views(attributes@), 0, onto@) == Ok::<
                Seq<u8>,
                Error,
            >(v@),
            Err(e) => attributes_encoding(attribute_views(attributes@), 0, onto@) == Err::<
                Seq<u8>,
                Error,
            >(e),
        },
{
    let ghost start = onto@;
    let mut out = onto;
    let mut i: usize = 0;
    while i < attributes.len()
        invariant
            i <= attributes.len(),
            start == onto@,
            attributes_encoding(attribute_views(attributes@), 0, start) == attributes_encoding(
                attribute_views(attributes@),
                i as int,
                out@,
            ),
        decreases attributes.len() - i,
    {
        assert(attribute_views(attributes@)[i as int] == attributes@[i as int]@);
        attributes[i].encode(&mut out)?;
        i = i + 1;
    }
    Ok(out)
}

/// An attribute whose frame declares more bytes than follow it is
/// refused as `MalformedMessage` after its frame.
pub proof fn lemma_attribute_length_bound(
    head: Seq<u8>,
    tail: Seq<u8>,
    pos: int,
    add_path: bool,
)
    requires
        spec_attribute_frame(head, pos) matches Ok(frame) && head.len() == frame.body && tail.len()
            < frame.length,
    ensures
        spec_parse_attribute(head + tail, pos, add_path) == (
            Err::<PathAttributeView, Error>(Error::MalformedMessage),
            head.len() as int,
        ),
{
    let data = head + tail;
    assert(data[pos] == head[pos]);
    assert(data[pos + 1] == head[pos + 1]);
    if spec_is_extended(head[pos]) {
        assert(bytes_at(data, pos + 2, 2) =~= bytes_at(head, pos + 2, 2));
    } else {
        assert(data[pos + 2] == head[pos + 2]);
    }
}

/// An AIGP attribute whose inner length is below three is refused as
/// `MalformedAigp` after the length, whatever bytes follow it.
pub proof fn lemma_aigp_length_bound(
    head: Seq<u8>,
    tail: Seq<u8>,
    pos: int,
    length: u16,
    add_path: bool,
)
    requires
        0 <= pos,
        head.len() == pos + 3,
        u16_at(head, pos + 1) < 3,
    ensures
        spec_parse_limited(head + tail, pos, add_path, 26, length) == stop::<PathAttributeView>(
            Error::MalformedAigp,
            pos + 3,
        ),
{
    reveal(spec_parse_raw);
    assert(bytes_at(head + tail, pos + 1, 2) =~= bytes_at(head, pos + 1, 2));
}

/// The frame of an attribute that was written reads back as it was
/// written: the flags of the attribute's kind, with the extended-length
/// bit exactly where the body is longer than 255 bytes; the type code;
/// and the length of the body, after which the body follows whole.
pub proof fn lemma_attribute_frame_round_trip(a: PathAttributeView)
    requires
        a.encoding() is Ok,
    ensures
        ({
            let bytes = a.encoding()->Ok_0;
            let body = a.body()->Ok_0;
            let flags = a.default_flags()->Some_0;
            let wide = body.len() > 0xff;
            &&& spec_attribute_frame(bytes, 0) == Ok::<AttributeFrame, Error>(
                AttributeFrame {
                    flags: if wide {
                        flags | 0x10
                    } else {
                        flags
                    },
                    code: a.id().spec_code(),
                    length: body.len() as u16,
                    body: if wide {
                        4
                    } else {
                        3
                    },
                },
            )
            &&& bytes.len() == body.len() + (if wide {
                4int
            } else {
                3int
            })
            &&& bytes.subrange(bytes.len() - body.len(), bytes.len() as int) == body
        }),
{
    let bytes = a.encoding()->Ok_0;
    let body = a.body()->Ok_0;
    let flags = a.default_flags()->Some_0;
    assert(flags == 0x40 || flags == 0x80 || flags == 0xc0);
    assert(0x40u8 & 0x10 == 0 && 0x80u8 & 0x10 == 0 && 0xc0u8 & 0x10 == 0) by (bit_vector);
    assert((0x40u8 | 0x10) & 0x10 != 0 && (0x80u8 | 0x10) & 0x10 != 0 && (0xc0u8 | 0x10) & 0x10
        != 0) by (bit_vector);
    if body.len() > 0xff {
        lemma_u16_round_trip(body.len() as u16);
        assert(bytes_at(bytes, 2, 2) =~= u16_be_bytes(body.len() as u16));
        assert(bytes.subrange(bytes.len() - body.len(), bytes.len() as int) =~= body);
    } else {
        assert(bytes[2] == body.len() as u8);
        assert(bytes.subrange(bytes.len() - body.len(), bytes.len() as int) =~= body);
    }
}

} // verus!
