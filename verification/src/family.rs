//! Address families and subsequent address families.

use crate::error::Error;
use vstd::prelude::*;
use vstd::std_specs::convert::TryFromSpecImpl;

verus! {

/// An address family identifier.
#[derive(Debug, Copy, Clone, Eq, PartialEq, Hash, Structural)]
pub enum AFI {
    /// Internet Protocol version 4 (32 bits).
    IPV4,
    /// Internet Protocol version 6 (128 bits).
    IPV6,
    /// Layer-2 VPN.
    L2VPN,
    /// BGP link state.
    BGPLS,
}

impl AFI {
    /// The 16-bit code of the family on the wire.
    pub open spec fn spec_code(self) -> u16 {
        match self {
            AFI::IPV4 => 0x0001,
            AFI::IPV6 => 0x0002,
            AFI::L2VPN => 0x0019,
            AFI::BGPLS => 0x4004,
        }
    }

    /// The 16-bit code of the family on the wire.
    #[verifier::when_used_as_spec(spec_code)]
    pub fn code(self) -> (r: u16)
        ensures
            r == self.spec_code(),
    {
        match self {
            AFI::IPV4 => 0x0001,
            AFI::IPV6 => 0x0002,
            AFI::L2VPN => 0x0019,
            AFI::BGPLS => 0x4004,
        }
    }

    /// The family that a code names, or `UnsupportedAfi` with the code.
    pub open spec fn from_code(v: u16) -> Result<AFI, Error> {
        if v == 0x0001 {
            Ok(AFI::IPV4)
        } else if v == 0x0002 {
            Ok(AFI::IPV6)
        } else if v == 0x0019 {
            Ok(AFI::L2VPN)
        } else if v == 0x4004 {
            Ok(AFI::BGPLS)
        } else {
            Err(Error::UnsupportedAfi(v))
        }
    }

    /// The longest prefix of the family in bits; none for a family that
    /// carries no IP prefixes.
    pub open spec fn spec_max_prefix_bits(self) -> Option<u8> {
        match self {
            AFI::IPV4 => Some(32u8),
            AFI::IPV6 => Some(128u8),
            _ => None,
        }
    }

    /// The longest prefix of the family in bits; none for a family that
    /// carries no IP prefixes.
    #[verifier::when_used_as_spec(spec_max_prefix_bits)]
    pub fn max_prefix_bits(self) -> (r: Option<u8>)
        ensures
            r == self.spec_max_prefix_bits(),
    {
        match self {
            AFI::IPV4 => Some(32u8),
            AFI::IPV6 => Some(128u8),
            _ => None,
        }
    }

    /// A zeroed address of the family: 4 bytes for IPv4, 16 for IPv6, and
    /// no bytes for a family that carries no IP prefixes.
    pub fn empty_buffer(&self) -> (r: Vec<u8>)
        ensures
            r@ == Seq::new(
                match self {
                    AFI::IPV4 => 4nat,
                    AFI::IPV6 => 16nat,
                    _ => 0nat,
                },
                |i: int| 0u8,
            ),
    {
        match self {
            AFI::IPV4 => vec![0u8; 4],
            AFI::IPV6 => vec![0u8; 16],
            _ => Vec::new(),
        }
    }

    /// The name of the family.
    pub fn to_string(&self) -> (r: String)
        ensures
            r@ == match self {
                AFI::IPV4 => "IPv4"@,
                AFI::IPV6 => "IPv6"@,
                AFI::L2VPN => "L2VPN"@,
                AFI::BGPLS => "BGPLS"@,
            },
    {
        match self {
            AFI::IPV4 => "IPv4".to_owned(),
            AFI::IPV6 => "IPv6".to_owned(),
            AFI::L2VPN => "L2VPN".to_owned(),
            AFI::BGPLS => "BGPLS".to_owned(),
        }
    }
}

impl TryFrom<u16> for AFI {
    type Error = Error;

    fn try_from(v: u16) -> (r: Result<Self, Error>) {
        match v {
            0x0001 => Ok(AFI::IPV4),
            0x0002 => Ok(AFI::IPV6),
            0x0019 => Ok(AFI::L2VPN),
            0x4004 => Ok(AFI::BGPLS),
            _ => Err(Error::UnsupportedAfi(v)),
        }
    }
}

impl TryFromSpecImpl<u16> for AFI {
    open spec fn obeys_try_from_spec() -> bool {
        true
    }

    open spec fn try_from_spec(v: u16) -> Result<Self, Error> {
        AFI::from_code(v)
    }
}

/// Decoding the code of a family gives the family back.
pub proof fn lemma_afi_code_round_trip(afi: AFI)
    ensures
        AFI::from_code(afi.spec_code()) == Ok::<AFI, Error>(afi),
{
}

/// A code that decodes to a family is the code of that family.
pub proof fn lemma_afi_from_code_exact(v: u16)
    ensures
        AFI::from_code(v) matches Ok(a) ==> a.spec_code() == v,
        AFI::from_code(v) matches Err(e) ==> e == Error::UnsupportedAfi(v),
{
}

/// A subsequent address family identifier.
#[derive(Debug, Copy, Clone, Eq, PartialEq, Hash, Structural)]
pub enum SAFI {
    /// Unicast forwarding.
    Unicast,
    /// Multicast forwarding.
    Multicast,
    /// MPLS labels.
    Mpls,
    /// Multicast VPN.
    MulticastVpn,
    /// Virtual private LAN service.
    Vpls,
    /// Ethernet VPN.
    Evpn,
    /// BGP link state.
    BgpLs,
    /// BGP link state VPN.
    BgpLsVpn,
    /// Route target constraints.
    Rtc,
    /// MPLS-labeled VPN addresses.
    MplsVpn,
    /// Flow specification rules.
    Flowspec,
    /// Flow specification rules for VPNs.
    FlowspecVPN,
}

impl SAFI {
    /// Whether the routes of the subsequent family are plain prefixes:
    /// neither labeled routes nor flow specifications.
    pub open spec fn plain(self) -> bool {
        !(self is Mpls || self is MplsVpn || self is Flowspec || self is FlowspecVPN)
    }

    /// The 8-bit code of the family on the wire.
    pub open spec fn spec_code(self) -> u8 {
        match self {
            SAFI::Unicast => 1,
            SAFI::Multicast => 2,
            SAFI::Mpls => 4,
            SAFI::MulticastVpn => 5,
            SAFI::Vpls => 65,
            SAFI::Evpn => 70,
            SAFI::BgpLs => 71,
            SAFI::BgpLsVpn => 72,
            SAFI::MplsVpn => 128,
            SAFI::Rtc => 132,
            SAFI::Flowspec => 133,
            SAFI::FlowspecVPN => 134,
        }
    }

    /// The 8-bit code of the family on the wire.
    #[verifier::when_used_as_spec(spec_code)]
    pub fn code(self) -> (r: u8)
        ensures
            r == self.spec_code(),
    {
        match self {
            SAFI::Unicast => 1,
            SAFI::Multicast => 2,
            SAFI::Mpls => 4,
            SAFI::MulticastVpn => 5,
            SAFI::Vpls => 65,
            SAFI::Evpn => 70,
            SAFI::BgpLs => 71,
            SAFI::BgpLsVpn => 72,
            SAFI::MplsVpn => 128,
            SAFI::Rtc => 132,
            SAFI::Flowspec => 133,
            SAFI::FlowspecVPN => 134,
        }
    }

    /// The family that a code names, or `UnsupportedSafi` with the code.
    pub open spec fn from_code(v: u8) -> Result<SAFI, Error> {
        if v == 1 {
            Ok(SAFI::Unicast)
        } else if v == 2 {
            Ok(SAFI::Multicast)
        } else if v == 4 {
            Ok(SAFI::Mpls)
        } else if v == 5 {
            Ok(SAFI::MulticastVpn)
        } else if v == 65 {
            Ok(SAFI::Vpls)
        } else if v == 70 {
            Ok(SAFI::Evpn)
        } else if v == 71 {
            Ok(SAFI::BgpLs)
        } else if v == 72 {
            Ok(SAFI::BgpLsVpn)
        } else if v == 128 {
            Ok(SAFI::MplsVpn)
        } else if v == 132 {
            Ok(SAFI::Rtc)
        } else if v == 133 {
            Ok(SAFI::Flowspec)
        } else if v == 134 {
            Ok(SAFI::FlowspecVPN)
        } else {
            Err(Error::UnsupportedSafi(v))
        }
    }

    /// The name of the family.
    pub fn to_string(&self) -> (r: String)
        ensures
            r@ == match self {
                SAFI::Unicast => "Unicast"@,
                SAFI::Multicast => "Multicast"@,
                SAFI::Mpls => "MPLS"@,
                SAFI::MulticastVpn => "Multicast VPN"@,
                SAFI::Vpls => "VPLS"@,
                SAFI::Evpn => "EVPN"@,
                SAFI::BgpLs => "BGPLS"@,
                SAFI::BgpLsVpn => "BGPLSVPN"@,
                SAFI::Rtc => "RTC"@,
                SAFI::MplsVpn => "MPLS VPN"@,
                SAFI::Flowspec => "Flowspec"@,
                SAFI::FlowspecVPN => "Flowspec VPN"@,
            },
    {
        match self {
            SAFI::Unicast => "Unicast".to_owned(),
            SAFI::Multicast => "Multicast".to_owned(),
            SAFI::Mpls => "MPLS".to_owned(),
            SAFI::MulticastVpn => "Multicast VPN".to_owned(),
            SAFI::Vpls => "VPLS".to_owned(),
            SAFI::Evpn => "EVPN".to_owned(),
            SAFI::BgpLs => "BGPLS".to_owned(),
            SAFI::BgpLsVpn => "BGPLSVPN".to_owned(),
            SAFI::Rtc => "RTC".to_owned(),
            SAFI::MplsVpn => "MPLS VPN".to_owned(),
            SAFI::Flowspec => "Flowspec".to_owned(),
            SAFI::FlowspecVPN => "Flowspec VPN".to_owned(),
        }
    }
}

impl TryFrom<u8> for SAFI {
    type Error = Error;

    fn try_from(v: u8) -> (r: Result<Self, Error>) {
        match v {
            1 => Ok(SAFI::Unicast),
            2 => Ok(SAFI::Multicast),
            4 => Ok(SAFI::Mpls),
            5 => Ok(SAFI::MulticastVpn),
            65 => Ok(SAFI::Vpls),
            70 => Ok(SAFI::Evpn),
            71 => Ok(SAFI::BgpLs),
            72 => Ok(SAFI::BgpLsVpn),
            128 => Ok(SAFI::MplsVpn),
            132 => Ok(SAFI::Rtc),
            133 => Ok(SAFI::Flowspec),
            134 => Ok(SAFI::FlowspecVPN),
            _ => Err(Error::UnsupportedSafi(v)),
        }
    }
}

impl TryFromSpecImpl<u8> for SAFI {
    open spec fn obeys_try_from_spec() -> bool {
        true
    }

    open spec fn try_from_spec(v: u8) -> Result<Self, Error> {
        SAFI::from_code(v)
    }
}

/// Decoding the code of a subsequent family gives the family back.
pub proof fn lemma_safi_code_round_trip(safi: SAFI)
    ensures
        SAFI::from_code(safi.spec_code()) == Ok::<SAFI, Error>(safi),
{
}

/// A code that decodes to a subsequent family is the code of that family.
pub proof fn lemma_safi_from_code_exact(v: u8)
    ensures
        SAFI::from_code(v) matches Ok(a) ==> a.spec_code() == v,
        SAFI::from_code(v) matches Err(e) ==> e == Error::UnsupportedSafi(v),
{
}

} // verus!
