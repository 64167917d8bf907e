//! The OPEN message, its optional parameters and capabilities, and the
//! session descriptor derived from them.

pub mod roundtrip;

use crate::collection::{
    add_once, assoc_map, common, common_keys, contains, insert_once, lemma_add_once, put_entry,
    unique_keys,
};
use crate::endian::{push_bytes, push_u16, push_u32, push_u8, u16_be_bytes, u32_be_bytes};
use crate::error::{appended, done, stop, Error, Parsed};
use crate::family::{AFI, SAFI};
use crate::stream::{bytes_at, fits, u16_at, u32_at, Cursor};
use crate::update::prefix::{copy_vec, to_vec};
use vstd::prelude::*;
use vstd::std_specs::convert::TryFromSpecImpl;

verus! {

/// The direction in which a peer offers additional paths or route filters.
#[derive(Debug, Copy, Clone, Eq, Hash, PartialEq, Structural)]
pub enum AddPathDirection {
    /// The peer can receive.
    ReceivePaths,
    /// The peer can send.
    SendPaths,
    /// The peer can send and receive.
    SendReceivePaths,
}

impl AddPathDirection {
    /// The octet of the direction on the wire.
    pub open spec fn spec_code(self) -> u8 {
        match self {
            AddPathDirection::ReceivePaths => 1,
            AddPathDirection::SendPaths => 2,
            AddPathDirection::SendReceivePaths => 3,
        }
    }

    /// The octet of the direction on the wire.
    #[verifier::when_used_as_spec(spec_code)]
    pub fn code(self) -> (r: u8)
        ensures
            r == self.spec_code(),
    {
        match self {
            AddPathDirection::ReceivePaths => 1,
            AddPathDirection::SendPaths => 2,
            AddPathDirection::SendReceivePaths => 3,
        }
    }

    /// The direction that an octet names, or `InvalidAddPathDirection`
    /// with the octet.
    pub open spec fn from_code(v: u8) -> Result<AddPathDirection, Error> {
        if v == 1 {
            Ok(AddPathDirection::ReceivePaths)
        } else if v == 2 {
            Ok(AddPathDirection::SendPaths)
        } else if v == 3 {
            Ok(AddPathDirection::SendReceivePaths)
        } else {
            Err(Error::InvalidAddPathDirection(v))
        }
    }
}

impl TryFrom<u8> for AddPathDirection {
    type Error = Error;

    fn try_from(value: u8) -> (r: Result<Self, Error>) {
        match value {
            1 => Ok(AddPathDirection::ReceivePaths),
            2 => Ok(AddPathDirection::SendPaths),
            3 => Ok(AddPathDirection::SendReceivePaths),
            _ => Err(Error::InvalidAddPathDirection(value)),
        }
    }
}

impl TryFromSpecImpl<u8> for AddPathDirection {
    open spec fn obeys_try_from_spec() -> bool {
        true
    }

    open spec fn try_from_spec(v: u8) -> Result<Self, Error> {
        AddPathDirection::from_code(v)
    }
}

/// An outbound route filter that a peer offers: family, filter type and
/// direction.
pub type OrfEntry = (AFI, SAFI, u8, AddPathDirection);

/// The number of labels that a peer offers for a family.
pub type LabelEntry = (AFI, SAFI, u8);

/// The direction of additional paths that a peer offers for a family.
pub type AddPathEntry = (AFI, SAFI, AddPathDirection);

/// A capability that an OPEN message announces. The set-valued
/// capabilities hold their entries in the order of the wire, each once.
#[derive(Debug, PartialEq, Eq)]
pub enum OpenCapability {
    /// Code 1: multiprotocol extensions for a family.
    MultiProtocol((AFI, SAFI)),
    /// Code 2: route refresh.
    RouteRefresh,
    /// Code 3: outbound route filtering.
    OutboundRouteFiltering(Vec<OrfEntry>),
    /// Code 8: multiple labels.
    MultipleLabels(Vec<LabelEntry>),
    /// Code 65: four-octet AS numbers, with the AS number of the speaker.
    FourByteASN(u32),
    /// Code 69: additional paths.
    AddPath(Vec<AddPathEntry>),
    /// Any other capability, as it stands on the wire.
    Unknown {
        /// The code of the capability.
        cap_code: u8,
        /// The length that the capability declares.
        cap_length: u8,
        /// The value of the capability.
        value: Vec<u8>,
    },
}

/// What an `OpenCapability` holds, as mathematical values.
pub enum OpenCapabilityView {
    /// Code 1: multiprotocol extensions for a family.
    MultiProtocol((AFI, SAFI)),
    /// Code 2: route refresh.
    RouteRefresh,
    /// Code 3: outbound route filtering.
    OutboundRouteFiltering(Seq<OrfEntry>),
    /// Code 8: multiple labels.
    MultipleLabels(Seq<LabelEntry>),
    /// Code 65: four-octet AS numbers, with the AS number of the speaker.
    FourByteASN(u32),
    /// Code 69: additional paths.
    AddPath(Seq<AddPathEntry>),
    /// Any other capability, as it stands on the wire.
    Unknown {
        /// The code of the capability.
        cap_code: u8,
        /// The length that the capability declares.
        cap_length: u8,
        /// The value of the capability.
        value: Seq<u8>,
    },
}

impl View for OpenCapability {
    type V = OpenCapabilityView;

    open spec fn view(&self) -> OpenCapabilityView {
        match self {
            OpenCapability::MultiProtocol(f) => OpenCapabilityView::MultiProtocol(*f),
            OpenCapability::RouteRefresh => OpenCapabilityView::RouteRefresh,
            OpenCapability::OutboundRouteFiltering(v) => OpenCapabilityView::OutboundRouteFiltering(
                v@,
            ),
            OpenCapability::MultipleLabels(v) => OpenCapabilityView::MultipleLabels(v@),
            OpenCapability::FourByteASN(asn) => OpenCapabilityView::FourByteASN(*asn),
            OpenCapability::AddPath(v) => OpenCapabilityView::AddPath(v@),
            OpenCapability::Unknown { cap_code, cap_length, value } => OpenCapabilityView::Unknown {
                cap_code: *cap_code,
                cap_length: *cap_length,
                value: value@,
            },
        }
    }
}

impl Clone for OpenCapability {
    fn clone(&self) -> (r: Self)
        ensures
            r@ == self@,
    {
        match self {
            OpenCapability::MultiProtocol(f) => OpenCapability::MultiProtocol(*f),
            OpenCapability::RouteRefresh => OpenCapability::RouteRefresh,
            OpenCapability::OutboundRouteFiltering(v) => OpenCapability::OutboundRouteFiltering(
                copy_vec(v),
            ),
            OpenCapability::MultipleLabels(v) => OpenCapability::MultipleLabels(copy_vec(v)),
            OpenCapability::FourByteASN(asn) => OpenCapability::FourByteASN(*asn),
            OpenCapability::AddPath(v) => OpenCapability::AddPath(copy_vec(v)),
            OpenCapability::Unknown { cap_code, cap_length, value } => OpenCapability::Unknown {
                cap_code: *cap_code,
                cap_length: *cap_length,
                value: copy_vec(value),
            },
        }
    }
}

/// Whether the length that a capability of code `code` declares is one
/// that its layout allows.
pub open spec fn valid_capability_length(code: u8, length: u8) -> bool {
    if code == 1 || code == 65 {
        length == 4
    } else if code == 2 {
        length == 0
    } else if code == 3 {
        length >= 5 && (length - 5) % 2 == 0
    } else if code == 8 || code == 69 {
        length % 4 == 0
    } else {
        true
    }
}

/// The outbound route filters of family (`afi`, `safi`) that stand in
/// `value` from `pos` on, `count` of them, after `acc`: each a filter type
/// and a direction.
pub open spec fn orf_entries_from(
    value: Seq<u8>,
    pos: int,
    count: int,
    afi: AFI,
    safi: SAFI,
    acc: Seq<OrfEntry>,
) -> Result<Seq<OrfEntry>, Error>
    decreases count,
{
    if count <= 0 {
        Ok(acc)
    } else {
        match AddPathDirection::from_code(value[pos + 1]) {
            Err(e) => Err(e),
            Ok(direction) => orf_entries_from(
                value,
                pos + 2,
                count - 1,
                afi,
                safi,
                add_once(acc, (afi, safi, value[pos], direction)),
            ),
        }
    }
}

/// The label counts that stand in `value` from `pos` on, after `acc`: each
/// a family and a count.
pub open spec fn label_entries_from(value: Seq<u8>, pos: int, acc: Seq<LabelEntry>) -> Result<
    Seq<LabelEntry>,
    Error,
>
    decreases value.len() - pos,
{
    if !fits(value, pos, 4) {
        Ok(acc)
    } else {
        match AFI::from_code(u16_at(value, pos)) {
            Err(e) => Err(e),
            Ok(afi) => match SAFI::from_code(value[pos + 2]) {
                Err(e) => Err(e),
                Ok(safi) => label_entries_from(
                    value,
                    pos + 4,
                    add_once(acc, (afi, safi, value[pos + 3])),
                ),
            },
        }
    }
}

/// The additional-path offers that stand in `value` from `pos` on, after
/// `acc`: each a family and a direction.
pub open spec fn add_path_entries_from(value: Seq<u8>, pos: int, acc: Seq<AddPathEntry>) -> Result<
    Seq<AddPathEntry>,
    Error,
>
    decreases value.len() - pos,
{
    if !fits(value, pos, 4) {
        Ok(acc)
    } else {
        match AFI::from_code(u16_at(value, pos)) {
            Err(e) => Err(e),
            Ok(afi) => match SAFI::from_code(value[pos + 2]) {
                Err(e) => Err(e),
                Ok(safi) => match AddPathDirection::from_code(value[pos + 3]) {
                    Err(e) => Err(e),
                    Ok(direction) => add_path_entries_from(
                        value,
                        pos + 4,
                        add_once(acc, (afi, safi, direction)),
                    ),
                },
            },
        }
    }
}

/// The family that stands at the start of a capability's value: a family
/// code, a reserved octet, and a subsequent family code.
pub open spec fn family_at(value: Seq<u8>) -> Result<(AFI, SAFI), Error>
    recommends
        value.len() >= 4,
{
    match AFI::from_code(u16_at(value, 0)) {
        Err(e) => Err(e),
        Ok(afi) => match SAFI::from_code(value[3]) {
            Err(e) => Err(e),
            Ok(safi) => Ok((afi, safi)),
        },
    }
}

/// The capability of code `code` that the value `value` encodes, where
/// the length of the value is one that the layout of the code allows.
pub open spec fn capability_of(code: u8, value: Seq<u8>) -> Result<OpenCapabilityView, Error>
    recommends
        value.len() <= 0xff,
        valid_capability_length(code, value.len() as u8),
{
    if code == 1 {
        match family_at(value) {
            Err(e) => Err(e),
            Ok(family) => Ok(OpenCapabilityView::MultiProtocol(family)),
        }
    } else if code == 2 {
        Ok(OpenCapabilityView::RouteRefresh)
    } else if code == 3 {
        match family_at(value) {
            Err(e) => Err(e),
            Ok(family) => if 5 + 2 * value[4] != value.len() {
                Err(Error::InvalidCapabilityLength(code))
            } else {
                match orf_entries_from(
                    value,
                    5,
                    value[4] as int,
                    family.0,
                    family.1,
                    Seq::empty(),
                ) {
                    Err(e) => Err(e),
                    Ok(entries) => Ok(OpenCapabilityView::OutboundRouteFiltering(entries)),
                }
            },
        }
    } else if code == 8 {
        match label_entries_from(value, 0, Seq::empty()) {
            Err(e) => Err(e),
            Ok(entries) => Ok(OpenCapabilityView::MultipleLabels(entries)),
        }
    } else if code == 65 {
        Ok(OpenCapabilityView::FourByteASN(u32_at(value, 0)))
    } else if code == 69 {
        match add_path_entries_from(value, 0, Seq::empty()) {
            Err(e) => Err(e),
            Ok(entries) => Ok(OpenCapabilityView::AddPath(entries)),
        }
    } else {
        Ok(
            OpenCapabilityView::Unknown {
                cap_code: code,
                cap_length: value.len() as u8,
                value,
            },
        )
    }
}

/// The capability read at `pos`, and the place after it: a code, a
/// length, and a value of that many bytes. A length that the layout of
/// the code forbids is refused after the length, before the value is
/// read; a value that does not decode, after the value.
pub open spec fn spec_parse_capability(data: Seq<u8>, pos: int) -> Parsed<OpenCapabilityView> {
    if !fits(data, pos, 1) {
        stop(Error::UnexpectedEof, pos)
    } else if !fits(data, pos + 1, 1) {
        stop(Error::UnexpectedEof, pos + 1)
    } else if !valid_capability_length(data[pos], data[pos + 1]) {
        stop(Error::InvalidCapabilityLength(data[pos]), pos + 2)
    } else if !fits(data, pos + 2, data[pos + 1] as int) {
        stop(Error::UnexpectedEof, pos + 2)
    } else {
        match capability_of(data[pos], bytes_at(data, pos + 2, data[pos + 1] as int)) {
            Err(e) => stop(e, pos + 2 + data[pos + 1]),
            Ok(capability) => done(capability, pos + 2 + data[pos + 1]),
        }
    }
}

/// Reads the family at the start of a capability's value.
fn parse_family(value: &[u8]) -> (r: Result<(AFI, SAFI), Error>)
    requires
        value@.len() >= 4,
    ensures
        r == family_at(value@),
{
    let mut cur = Cursor::new(value);
    let afi = AFI::try_from(cur.read_u16()?)?;
    let safi = SAFI::try_from(value[3])?;
    Ok((afi, safi))
}

/// Reads the filters of an outbound route filtering capability.
fn parse_orf_entries(value: &[u8], afi: AFI, safi: SAFI) -> (r: Result<Vec<OrfEntry>, Error>)
    requires
        value@.len() >= 5,
        5 + 2 * value@[4] == value@.len(),
    ensures
        match r {
            Ok(v) => orf_entries_from(value@, 5, value@[4] as int, afi, safi, Seq::empty())
                == Ok::<Seq<OrfEntry>, Error>(v@) && v@.no_duplicates(),
            Err(e) => orf_entries_from(value@, 5, value@[4] as int, afi, safi, Seq::empty())
                == Err::<Seq<OrfEntry>, Error>(e),
        },
{
    let count = value[4];
    let mut types: Vec<OrfEntry> = Vec::new();
    let mut i: u8 = 0;
    while i < count
        invariant
            i <= count,
            count == value@[4],
            5 + 2 * count == value@.len(),
            types@.no_duplicates(),
            orf_entries_from(value@, 5, count as int, afi, safi, Seq::empty()) == orf_entries_from(
                value@,
                5 + 2 * i,
                count - i,
                afi,
                safi,
                types@,
            ),
        decreases count - i,
    {
        let at: usize = 5 + 2 * (i as usize);
        let direction = AddPathDirection::try_from(value[at + 1])?;
        let entry = (afi, safi, value[at], direction);
        proof {
            lemma_add_once(types@, entry);
        }
        if !contains(&types, entry) {
            types.push(entry);
        }
        i = i + 1;
    }
    Ok(types)
}

/// Reads the entries of a multiple labels capability.
fn parse_label_entries(value: &[u8]) -> (r: Result<Vec<LabelEntry>, Error>)
    requires
        value@.len() % 4 == 0,
    ensures
        match r {
            Ok(v) => label_entries_from(value@, 0, Seq::empty()) == Ok::<Seq<LabelEntry>, Error>(v@)
                && v@.no_duplicates(),
            Err(e) => label_entries_from(value@, 0, Seq::empty()) == Err::<Seq<LabelEntry>, Error>(
                e,
            ),
        },
{
    let mut cursor = Cursor::new(value);
    let mut set: Vec<LabelEntry> = Vec::new();
    while cursor.remaining() >= 4
        invariant
            cursor.data == value,
            set@.no_duplicates(),
            label_entries_from(value@, 0, Seq::empty()) == label_entries_from(
                value@,
                cursor.at(),
                set@,
            ),
        decreases cursor.spec_remaining(),
    {
        let afi = AFI::try_from(cursor.read_u16()?)?;
        let safi = SAFI::try_from(cursor.read_u8()?)?;
        let count = cursor.read_u8()?;
        let entry = (afi, safi, count);
        proof {
            lemma_add_once(set@, entry);
        }
        if !contains(&set, entry) {
            set.push(entry);
        }
    }
    Ok(set)
}

/// Reads the entries of an additional paths capability.
fn parse_add_path_entries(value: &[u8]) -> (r: Result<Vec<AddPathEntry>, Error>)
    requires
        value@.len() % 4 == 0,
    ensures
        match r {
            Ok(v) => add_path_entries_from(value@, 0, Seq::empty()) == Ok::<
                Seq<AddPathEntry>,
                Error,
            >(v@) && v@.no_duplicates(),
            Err(e) => add_path_entries_from(value@, 0, Seq::empty()) == Err::<
                Seq<AddPathEntry>,
                Error,
            >(e),
        },
{
    let mut cursor = Cursor::new(value);
    let mut add_paths: Vec<AddPathEntry> = Vec::new();
    while cursor.remaining() >= 4
        invariant
            cursor.data == value,
            add_paths@.no_duplicates(),
            add_path_entries_from(value@, 0, Seq::empty()) == add_path_entries_from(
                value@,
                cursor.at(),
                add_paths@,
            ),
        decreases cursor.spec_remaining(),
    {
        let afi = AFI::try_from(cursor.read_u16()?)?;
        let safi = SAFI::try_from(cursor.read_u8()?)?;
        let direction = AddPathDirection::try_from(cursor.read_u8()?)?;
        let entry = (afi, safi, direction);
        proof {
            lemma_add_once(add_paths@, entry);
        }
        if !contains(&add_paths, entry) {
            add_paths.push(entry);
        }
    }
    Ok(add_paths)
}

impl OpenCapabilityView {
    /// Whether the set-valued capabilities hold each entry once.
    pub open spec fn wf(self) -> bool {
        match self {
            OpenCapabilityView::OutboundRouteFiltering(v) => v.no_duplicates(),
            OpenCapabilityView::MultipleLabels(v) => v.no_duplicates(),
            OpenCapabilityView::AddPath(v) => v.no_duplicates(),
            _ => true,
        }
    }
}

/// Decodes the value of a capability of code `code`.
fn decode_capability(code: u8, value: &[u8]) -> (r: Result<OpenCapability, Error>)
    requires
        value@.len() <= 0xff,
        valid_capability_length(code, value@.len() as u8),
    ensures
        match r {
            Ok(c) => capability_of(code, value@) == Ok::<OpenCapabilityView, Error>(c@) && c@.wf(),
            Err(e) => capability_of(code, value@) == Err::<OpenCapabilityView, Error>(e),
        },
{
    if code == 1 {
        Ok(OpenCapability::MultiProtocol(parse_family(value)?))
    } else if code == 2 {
        Ok(OpenCapability::RouteRefresh)
    } else if code == 3 {
        let (afi, safi) = parse_family(value)?;
        if 5 + 2 * (value[4] as usize) != value.len() {
            return Err(Error::InvalidCapabilityLength(code));
        }
        Ok(OpenCapability::OutboundRouteFiltering(parse_orf_entries(value, afi, safi)?))
    } else if code == 8 {
        Ok(OpenCapability::MultipleLabels(parse_label_entries(value)?))
    } else if code == 65 {
        let mut cur = Cursor::new(value);
        Ok(OpenCapability::FourByteASN(cur.read_u32()?))
    } else if code == 69 {
        Ok(OpenCapability::AddPath(parse_add_path_entries(value)?))
    } else {
        Ok(
            OpenCapability::Unknown {
                cap_code: code,
                cap_length: value.len() as u8,
                value: to_vec(value),
            },
        )
    }
}

/// Whether the length that a capability of code `code` declares is one
/// that its layout allows.
fn check_capability_length(code: u8, length: u8) -> (r: bool)
    ensures
        r == valid_capability_length(code, length),
{
    if code == 1 || code == 65 {
        length == 4
    } else if code == 2 {
        length == 0
    } else if code == 3 {
        length >= 5 && (length - 5) % 2 == 0
    } else if code == 8 || code == 69 {
        length % 4 == 0
    } else {
        true
    }
}

impl OpenCapability {
    /// Reads one capability, and says how many bytes it took. Where that
    /// fails, the stream is left where reading stopped.
    pub fn parse(stream: &mut Cursor) -> (r: Result<(u16, OpenCapability), Error>)
        ensures
            final(stream).data == old(stream).data,
            match r {
                Ok((n, c)) => spec_parse_capability(old(stream).data@, old(stream).at()) == done(
                    c@,
                    final(stream).at(),
                ) && final(stream).at() == old(stream).at() + n && n >= 2 && c@.wf(),
                Err(e) => spec_parse_capability(old(stream).data@, old(stream).at()) == stop::<
                    OpenCapabilityView,
                >(e, final(stream).at()),
            },
    {
        let cap_code = stream.read_u8()?;
        let cap_length = stream.read_u8()?;
        if !check_capability_length(cap_code, cap_length) {
            return Err(Error::InvalidCapabilityLength(cap_code));
        }
        let value = stream.read_exact(cap_length as usize)?;
        let capability = decode_capability(cap_code, value)?;
        Ok((2 + (cap_length as u16), capability))
    }
}

/// The wire form of the filters from `i` on, after `acc`: for each its
/// type and its direction.
pub open spec fn orf_encoding(entries: Seq<OrfEntry>, i: int, acc: Seq<u8>) -> Seq<u8>
    decreases entries.len() - i,
{
    if i < 0 || i >= entries.len() {
        acc
    } else {
        orf_encoding(entries, i + 1, acc + seq![entries[i].2, entries[i].3.spec_code()])
    }
}

/// The wire form of the label counts from `i` on, after `acc`.
pub open spec fn label_encoding(entries: Seq<LabelEntry>, i: int, acc: Seq<u8>) -> Seq<u8>
    decreases entries.len() - i,
{
    if i < 0 || i >= entries.len() {
        acc
    } else {
        label_encoding(
            entries,
            i + 1,
            acc + u16_be_bytes(entries[i].0.spec_code()) + seq![
                entries[i].1.spec_code(),
                entries[i].2,
            ],
        )
    }
}

/// The wire form of the additional-path offers from `i` on, after `acc`.
pub open spec fn add_path_encoding(entries: Seq<AddPathEntry>, i: int, acc: Seq<u8>) -> Seq<u8>
    decreases entries.len() - i,
{
    if i < 0 || i >= entries.len() {
        acc
    } else {
        add_path_encoding(
            entries,
            i + 1,
            acc + u16_be_bytes(entries[i].0.spec_code()) + seq![
                entries[i].1.spec_code(),
                entries[i].2.spec_code(),
            ],
        )
    }
}

impl OpenCapabilityView {
    /// The wire form of the capability: its code, the length of its value
    /// and the value. The filters of an outbound route filtering
    /// capability are written under the family of the first of them, so a
    /// capability without filters has no wire form. A value longer than
    /// 255 bytes is refused as `CapabilityTooLong`. An unknown capability
    /// is written with the length of its value, whatever length it holds.
    pub open spec fn encoding(self) -> Result<Seq<u8>, Error> {
        match self {
            OpenCapabilityView::MultiProtocol((afi, safi)) => Ok(
                seq![1u8, 4u8] + u16_be_bytes(afi.spec_code()) + seq![0u8, safi.spec_code()],
            ),
            OpenCapabilityView::RouteRefresh => Ok(seq![2u8, 0u8]),
            OpenCapabilityView::OutboundRouteFiltering(orfs) => if orfs.len() == 0 {
                Err(Error::UnsupportedEncoding)
            } else if 5 + 2 * orfs.len() > 0xff {
                Err(Error::CapabilityTooLong)
            } else {
                Ok(
                    orf_encoding(
                        orfs,
                        0,
                        seq![3u8, (5 + 2 * orfs.len()) as u8] + u16_be_bytes(orfs[0].0.spec_code())
                            + seq![0u8, orfs[0].1.spec_code(), orfs.len() as u8],
                    ),
                )
            },
            OpenCapabilityView::MultipleLabels(labels) => if 4 * labels.len() > 0xff {
                Err(Error::CapabilityTooLong)
            } else {
                Ok(label_encoding(labels, 0, seq![8u8, (4 * labels.len()) as u8]))
            },
            OpenCapabilityView::FourByteASN(asn) => Ok(seq![65u8, 4u8] + u32_be_bytes(asn)),
            OpenCapabilityView::AddPath(paths) => if 4 * paths.len() > 0xff {
                Err(Error::CapabilityTooLong)
            } else {
                Ok(add_path_encoding(paths, 0, seq![69u8, (4 * paths.len()) as u8]))
            },
            OpenCapabilityView::Unknown { cap_code, cap_length, value } => if value.len() > 0xff {
                Err(Error::CapabilityTooLong)
            } else {
                Ok(seq![cap_code, value.len() as u8] + value)
            },
        }
    }
}

/// The views of a list of capabilities.
pub open spec fn capability_views(capabilities: Seq<OpenCapability>) -> Seq<OpenCapabilityView> {
    capabilities.map_values(|c: OpenCapability| c@)
}

/// The wire form of the capabilities from `i` on, after `acc`; the error
/// of the first capability that has none.
pub open spec fn capabilities_encoding(
    capabilities: Seq<OpenCapabilityView>,
    i: int,
    acc: Seq<u8>,
) -> Result<Seq<u8>, Error>
    decreases capabilities.len() - i,
{
    if i < 0 || i >= capabilities.len() {
        Ok(acc)
    } else {
        match capabilities[i].encoding() {
            Err(e) => Err(e),
            Ok(bytes) => capabilities_encoding(capabilities, i + 1, acc + bytes),
        }
    }
}

impl OpenCapability {
    /// The wire form of the capability.
    fn encode_to_vec(&self) -> (r: Result<Vec<u8>, Error>)
        ensures
            match r {
                Ok(v) => self@.encoding() == Ok::<Seq<u8>, Error>(v@),
                Err(e) => self@.encoding() == Err::<Seq<u8>, Error>(e),
            },
    {
        let mut cap_buf: Vec<u8> = Vec::new();
        match self {
            OpenCapability::MultiProtocol((afi, safi)) => {
                push_u8(&mut cap_buf, 1);
                push_u8(&mut cap_buf, 4);
                push_u16(&mut cap_buf, afi.code());
                push_u8(&mut cap_buf, 0);
                push_u8(&mut cap_buf, safi.code());
                assert(cap_buf@ =~= seq![1u8, 4u8] + u16_be_bytes(afi.spec_code()) + seq![
                    0u8,
                    safi.spec_code(),
                ]);
            },
            OpenCapability::RouteRefresh => {
                push_u8(&mut cap_buf, 2);
                push_u8(&mut cap_buf, 0);
                assert(cap_buf@ =~= seq![2u8, 0u8]);
            },
            OpenCapability::OutboundRouteFiltering(orfs) => {
                let n = orfs.len();
                if n == 0 {
                    return Err(Error::UnsupportedEncoding);
                }
                if n > 125 {
                    return Err(Error::CapabilityTooLong);
                }
                push_u8(&mut cap_buf, 3);
                push_u8(&mut cap_buf, (5 + 2 * n) as u8);
                push_u16(&mut cap_buf, orfs[0].0.code());
                push_u8(&mut cap_buf, 0);
                push_u8(&mut cap_buf, orfs[0].1.code());
                push_u8(&mut cap_buf, n as u8);
                assert(cap_buf@ =~= seq![3u8, (5 + 2 * n) as u8] + u16_be_bytes(
                    orfs@[0].0.spec_code(),
                ) + seq![0u8, orfs@[0].1.spec_code(), n as u8]);
                let ghost start = cap_buf@;
                let mut i: usize = 0;
                while i < n
                    invariant
                        i <= n,
                        n == orfs@.len(),
                        orf_encoding(orfs@, 0, start) == orf_encoding(orfs@, i as int, cap_buf@),
                    decreases n - i,
                {
                    let ghost before = cap_buf@;
                    push_u8(&mut cap_buf, orfs[i].2);
                    push_u8(&mut cap_buf, orfs[i].3.code());
                    assert(cap_buf@ =~= before + seq![
                        orfs@[i as int].2,
                        orfs@[i as int].3.spec_code(),
                    ]);
                    i = i + 1;
                }
            },
            OpenCapability::MultipleLabels(labels) => {
                let n = labels.len();
                if n > 63 {
                    return Err(Error::CapabilityTooLong);
                }
                push_u8(&mut cap_buf, 8);
                push_u8(&mut cap_buf, (4 * n) as u8);
                assert(cap_buf@ =~= seq![8u8, (4 * n) as u8]);
                let ghost start = cap_buf@;
                let mut i: usize = 0;
                while i < n
                    invariant
                        i <= n,
                        n == labels@.len(),
                        label_encoding(labels@, 0, start) == label_encoding(
                            labels@,
                            i as int,
                            cap_buf@,
                        ),
                    decreases n - i,
                {
                    let ghost before = cap_buf@;
                    push_u16(&mut cap_buf, labels[i].0.code());
                    push_u8(&mut cap_buf, labels[i].1.code());
                    push_u8(&mut cap_buf, labels[i].2);
                    assert(cap_buf@ =~= before + u16_be_bytes(labels@[i as int].0.spec_code())
                        + seq![labels@[i as int].1.spec_code(), labels@[i as int].2]);
                    i = i + 1;
                }
            },
            OpenCapability::FourByteASN(asn) => {
                push_u8(&mut cap_buf, 65);
                push_u8(&mut cap_buf, 4);
                push_u32(&mut cap_buf, *asn);
                assert(cap_buf@ =~= seq![65u8, 4u8] + u32_be_bytes(*asn));
            },
            OpenCapability::AddPath(add_paths) => {
                let n = add_paths.len();
                if n > 63 {
                    return Err(Error::CapabilityTooLong);
                }
                push_u8(&mut cap_buf, 69);
                push_u8(&mut cap_buf, (4 * n) as u8);
                assert(cap_buf@ =~= seq![69u8, (4 * n) as u8]);
                let ghost start = cap_buf@;
                let mut i: usize = 0;
                while i < n
                    invariant
                        i <= n,
                        n == add_paths@.len(),
                        add_path_encoding(add_paths@, 0, start) == add_path_encoding(
                            add_paths@,
                            i as int,
                            cap_buf@,
                        ),
                    decreases n - i,
                {
                    let ghost before = cap_buf@;
                    push_u16(&mut cap_buf, add_paths[i].0.code());
                    push_u8(&mut cap_buf, add_paths[i].1.code());
                    push_u8(&mut cap_buf, add_paths[i].2.code());
                    assert(cap_buf@ =~= before + u16_be_bytes(add_paths@[i as int].0.spec_code())
                        + seq![
                        add_paths@[i as int].1.spec_code(),
                        add_paths@[i as int].2.spec_code(),
                    ]);
                    i = i + 1;
                }
            },
            OpenCapability::Unknown { cap_code, cap_length: _, value } => {
                if value.len() > 0xff {
                    return Err(Error::CapabilityTooLong);
                }
                push_u8(&mut cap_buf, *cap_code);
                push_u8(&mut cap_buf, value.len() as u8);
                push_bytes(&mut cap_buf, value.as_slice());
                assert(cap_buf@ =~= seq![*cap_code, value@.len() as u8] + value@);
            },
        }
        Ok(cap_buf)
    }

    /// Appends the wire form of the capability to `buf`.
    pub fn encode(&self, buf: &mut Vec<u8>) -> (r: Result<(), Error>)
        ensures
            appended(old(buf)@, final(buf)@, r, self@.encoding()),
    {
        let bytes = self.encode_to_vec()?;
        push_bytes(buf, bytes.as_slice());
        Ok(())
    }
}

/// A parameter of the optional parameters of an OPEN message.
#[derive(Debug, PartialEq, Eq)]
pub enum OpenParameter {
    /// Type 2: the capabilities that the sender announces.
    Capabilities(Vec<OpenCapability>),
    /// Any other parameter, as it stands on the wire.
    Unknown {
        /// The type of the parameter.
        param_type: u8,
        /// The length that the parameter declares.
        param_length: u8,
        /// The value of the parameter.
        value: Vec<u8>,
    },
}

/// What an `OpenParameter` holds, as mathematical values.
pub enum OpenParameterView {
    /// Type 2: the capabilities that the sender announces.
    Capabilities(Seq<OpenCapabilityView>),
    /// Any other parameter, as it stands on the wire.
    Unknown {
        /// The type of the parameter.
        param_type: u8,
        /// The length that the parameter declares.
        param_length: u8,
        /// The value of the parameter.
        value: Seq<u8>,
    },
}

impl View for OpenParameter {
    type V = OpenParameterView;

    open spec fn view(&self) -> OpenParameterView {
        match self {
            OpenParameter::Capabilities(caps) => OpenParameterView::Capabilities(
                capability_views(caps@),
            ),
            OpenParameter::Unknown { param_type, param_length, value } => {
                OpenParameterView::Unknown {
                    param_type: *param_type,
                    param_length: *param_length,
                    value: value@,
                }
            },
        }
    }
}

impl Clone for OpenParameter {
    fn clone(&self) -> (r: Self)
        ensures
            r@ == self@,
    {
        match self {
            OpenParameter::Capabilities(caps) => {
                let mut out: Vec<OpenCapability> = Vec::new();
                let mut i: usize = 0;
                while i < caps.len()
                    invariant
                        i <= caps.len(),
                        out@.len() == i,
                        forall|j: int| 0 <= j < i ==> out@[j]@ == caps@[j]@,
                    decreases caps.len() - i,
                {
                    out.push(caps[i].clone());
                    i = i + 1;
                }
                assert(capability_views(out@) =~= capability_views(caps@));
                OpenParameter::Capabilities(out)
            },
            OpenParameter::Unknown { param_type, param_length, value } => OpenParameter::Unknown {
                param_type: *param_type,
                param_length: *param_length,
                value: copy_vec(value),
            },
        }
    }
}

/// The views of a list of parameters.
pub open spec fn parameter_views(parameters: Seq<OpenParameter>) -> Seq<OpenParameterView> {
    parameters.map_values(|p: OpenParameter| p@)
}

/// The capabilities read from `pos` to the end of a capabilities
/// parameter's `body`, after `acc`. A capability that does not fit the
/// body is refused as `InvalidParameterLength`.
pub open spec fn capabilities_from(body: Seq<u8>, pos: int, acc: Seq<OpenCapabilityView>) -> Result<
    Seq<OpenCapabilityView>,
    Error,
>
    decreases
        (if pos < body.len() {
            body.len() - pos
        } else {
            0
        }),
{
    if pos >= body.len() {
        Ok(acc)
    } else {
        match spec_parse_capability(body, pos) {
            Err((e, _)) => if e == Error::UnexpectedEof {
                Err(Error::InvalidParameterLength)
            } else {
                Err(e)
            },
            Ok((capability, next)) => capabilities_from(body, next, acc.push(capability)),
        }
    }
}

/// The parameter read at `pos`, and the place after it: a type, a length,
/// and a value of that many bytes, which for type 2 is a list of
/// capabilities. Where the capabilities fail to read, the place is after
/// the value.
pub open spec fn spec_parse_parameter(data: Seq<u8>, pos: int) -> Parsed<OpenParameterView> {
    if !fits(data, pos, 1) {
        stop(Error::UnexpectedEof, pos)
    } else if !fits(data, pos + 1, 1) {
        stop(Error::UnexpectedEof, pos + 1)
    } else if !fits(data, pos + 2, data[pos + 1] as int) {
        stop(Error::UnexpectedEof, pos + 2)
    } else if data[pos] == 2 {
        match capabilities_from(bytes_at(data, pos + 2, data[pos + 1] as int), 0, Seq::empty()) {
            Err(e) => stop(e, pos + 2 + data[pos + 1]),
            Ok(capabilities) => done(
                OpenParameterView::Capabilities(capabilities),
                pos + 2 + data[pos + 1],
            ),
        }
    } else {
        done(
            OpenParameterView::Unknown {
                param_type: data[pos],
                param_length: data[pos + 1],
                value: bytes_at(data, pos + 2, data[pos + 1] as int),
            },
            pos + 2 + data[pos + 1],
        )
    }
}

impl OpenParameterView {
    /// The wire form of the parameter: its type, the length of its value
    /// and the value. Capabilities that take more than 255 bytes are
    /// refused as `CapabilityTooLong`. An unknown parameter is written
    /// with the length of its value, whatever length it holds, and one
    /// whose value takes more than 255 bytes is refused as
    /// `ParameterTooLong`.
    pub open spec fn encoding(self) -> Result<Seq<u8>, Error> {
        match self {
            OpenParameterView::Capabilities(caps) => match capabilities_encoding(
                caps,
                0,
                Seq::empty(),
            ) {
                Err(e) => Err(e),
                Ok(bytes) => if bytes.len() > 0xff {
                    Err(Error::CapabilityTooLong)
                } else {
                    Ok(seq![2u8, bytes.len() as u8] + bytes)
                },
            },
            OpenParameterView::Unknown { param_type, param_length, value } => if value.len()
                > 0xff {
                Err(Error::ParameterTooLong)
            } else {
                Ok(seq![param_type, value.len() as u8] + value)
            },
        }
    }

    /// Whether the capabilities of the parameter hold each entry once.
    pub open spec fn wf(self) -> bool {
        match self {
            OpenParameterView::Capabilities(caps) => forall|i: int|
                0 <= i < caps.len() ==> (#[trigger] caps[i]).wf(),
            _ => true,
        }
    }
}

/// Reads the capabilities that fill `body`.
fn parse_capabilities(body: &[u8]) -> (r: Result<Vec<OpenCapability>, Error>)
    ensures
        match r {
            Ok(v) => capabilities_from(body@, 0, Seq::empty()) == Ok::<
                Seq<OpenCapabilityView>,
                Error,
            >(capability_views(v@)) && (forall|i: int|
                0 <= i < v@.len() ==> (#[trigger] capability_views(v@)[i]).wf()),
            Err(e) => capabilities_from(body@, 0, Seq::empty()) == Err::<
                Seq<OpenCapabilityView>,
                Error,
            >(e),
        },
{
    let mut cursor = Cursor::new(body);
    let mut capabilities: Vec<OpenCapability> = Vec::new();
    assert(capability_views(capabilities@) =~= Seq::empty());
    while cursor.position() < body.len()
        invariant
            cursor.data == body,
            forall|i: int|
                0 <= i < capabilities@.len() ==> (#[trigger] capability_views(
                    capabilities@,
                )[i]).wf(),
            capabilities_from(body@, 0, Seq::empty()) == capabilities_from(
                body@,
                cursor.at(),
                capability_views(capabilities@),
            ),
        decreases
            (if cursor.pos < body@.len() {
                body@.len() - cursor.pos
            } else {
                0
            }),
    {
        let ghost before = capability_views(capabilities@);
        match OpenCapability::parse(&mut cursor) {
            Ok((_cap_length, cap)) => {
                let ghost view = cap@;
                capabilities.push(cap);
                assert(capability_views(capabilities@) =~= before.push(view));
            },
            Err(e) => {
                if e.is_eof() {
                    return Err(Error::InvalidParameterLength);
                }
                return Err(e);
            },
        }
    }
    Ok(capabilities)
}

/// Writes capabilities one after the other.
fn encode_capabilities(capabilities: &Vec<OpenCapability>) -> (r: Result<Vec<u8>, Error>)
    ensures
        match r {
            Ok(v) => capabilities_encoding(capability_views(capabilities@), 0, Seq::empty())
                == Ok::<Seq<u8>, Error>(v@),
            Err(e) => capabilities_encoding(capability_views(capabilities@), 0, Seq::empty())
                == Err::<Seq<u8>, Error>(e),
        },
{
    let mut out: Vec<u8> = Vec::new();
    let mut i: usize = 0;
    while i < capabilities.len()
        invariant
            i <= capabilities.len(),
            capabilities_encoding(capability_views(capabilities@), 0, Seq::empty())
                == capabilities_encoding(capability_views(capabilities@), i as int, out@),
        decreases capabilities.len() - i,
    {
        assert(capability_views(capabilities@)[i as int] == capabilities@[i as int]@);
        capabilities[i].encode(&mut out)?;
        i = i + 1;
    }
    Ok(out)
}

impl OpenParameter {
    /// Reads one parameter, and says how many bytes it took. Where that
    /// fails, the stream is left where reading stopped.
    pub fn parse(stream: &mut Cursor) -> (r: Result<(u16, OpenParameter), Error>)
        ensures
            final(stream).data == old(stream).data,
            match r {
                Ok((n, p)) => spec_parse_parameter(old(stream).data@, old(stream).at()) == done(
                    p@,
                    final(stream).at(),
                ) && final(stream).at() == old(stream).at() + n && n >= 2 && p@.wf(),
                Err(e) => spec_parse_parameter(old(stream).data@, old(stream).at()) == stop::<
                    OpenParameterView,
                >(e, final(stream).at()),
            },
    {
        let param_type = stream.read_u8()?;
        let param_length = stream.read_u8()?;
        let body = stream.read_exact(param_length as usize)?;
        let parameter = if param_type == 2 {
            OpenParameter::Capabilities(parse_capabilities(body)?)
        } else {
            OpenParameter::Unknown { param_type, param_length, value: to_vec(body) }
        };
        Ok((2 + (param_length as u16), parameter))
    }

    /// Appends the wire form of the parameter to `buf`.
    pub fn encode(&self, buf: &mut Vec<u8>) -> (r: Result<(), Error>)
        ensures
            appended(old(buf)@, final(buf)@, r, self@.encoding()),
    {
        match self {
            OpenParameter::Capabilities(caps) => {
                let cap_buf = encode_capabilities(caps)?;
                if cap_buf.len() > 0xff {
                    return Err(Error::CapabilityTooLong);
                }
                push_u8(buf, 2);
                push_u8(buf, cap_buf.len() as u8);
                push_bytes(buf, cap_buf.as_slice());
                assert(buf@ =~= old(buf)@ + (seq![2u8, cap_buf@.len() as u8] + cap_buf@));
                Ok(())
            },
            OpenParameter::Unknown { param_type, param_length: _, value } => {
                if value.len() > 0xff {
                    return Err(Error::ParameterTooLong);
                }
                push_u8(buf, *param_type);
                push_u8(buf, value.len() as u8);
                push_bytes(buf, value.as_slice());
                assert(buf@ =~= old(buf)@ + (seq![*param_type, value@.len() as u8] + value@));
                Ok(())
            },
        }
    }
}

/// An OPEN message.
#[derive(Debug)]
pub struct Open {
    /// The version of the protocol; 4 today.
    pub version: u8,
    /// The AS number of the sender.
    pub peer_asn: u16,
    /// The hold time that the sender proposes, in seconds.
    pub hold_timer: u16,
    /// The BGP identifier of the sender.
    pub identifier: u32,
    /// The optional parameters.
    pub parameters: Vec<OpenParameter>,
}

/// What an `Open` holds, as mathematical values.
pub struct OpenView {
    /// The version of the protocol.
    pub version: u8,
    /// The AS number of the sender.
    pub peer_asn: u16,
    /// The hold time that the sender proposes, in seconds.
    pub hold_timer: u16,
    /// The BGP identifier of the sender.
    pub identifier: u32,
    /// The optional parameters.
    pub parameters: Seq<OpenParameterView>,
}

impl View for Open {
    type V = OpenView;

    open spec fn view(&self) -> OpenView {
        OpenView {
            version: self.version,
            peer_asn: self.peer_asn,
            hold_timer: self.hold_timer,
            identifier: self.identifier,
            parameters: parameter_views(self.parameters@),
        }
    }
}

impl Clone for Open {
    fn clone(&self) -> (r: Self)
        ensures
            r@ == self@,
    {
        let mut out: Vec<OpenParameter> = Vec::new();
        let mut i: usize = 0;
        while i < self.parameters.len()
            invariant
                i <= self.parameters.len(),
                out@.len() == i,
                forall|j: int| 0 <= j < i ==> out@[j]@ == self.parameters@[j]@,
            decreases self.parameters.len() - i,
        {
            out.push(self.parameters[i].clone());
            i = i + 1;
        }
        assert(parameter_views(out@) =~= parameter_views(self.parameters@));
        Open {
            version: self.version,
            peer_asn: self.peer_asn,
            hold_timer: self.hold_timer,
            identifier: self.identifier,
            parameters: out,
        }
    }
}

/// The parameters read from `pos` to the end of the parameters' `block`,
/// after `acc`. A parameter that does not fit the block is refused as
/// `InvalidParameterLength`.
pub open spec fn parameters_from(block: Seq<u8>, pos: int, acc: Seq<OpenParameterView>) -> Result<
    Seq<OpenParameterView>,
    Error,
>
    decreases
        (if pos < block.len() {
            block.len() - pos
        } else {
            0
        }),
{
    if pos >= block.len() {
        Ok(acc)
    } else {
        match spec_parse_parameter(block, pos) {
            Err((e, _)) => if e == Error::UnexpectedEof {
                Err(Error::InvalidParameterLength)
            } else {
                Err(e)
            },
            Ok((parameter, next)) => parameters_from(block, next, acc.push(parameter)),
        }
    }
}

/// What the body of an OPEN gives, read at `pos`: version, AS number,
/// hold time, identifier, and the parameters, which fill exactly the
/// bytes that their length declares. Where the bytes end within the five
/// fields before the parameters, the place is after the last field that
/// is whole. Where the message holds fewer bytes than the length of the
/// parameters declares, it is refused as `InvalidParameterLength` after
/// that length; where a parameter runs over them, or fails to read in
/// another way, after the parameters.
#[verifier::opaque]
pub open spec fn spec_parse_open(data: Seq<u8>, pos: int) -> Parsed<OpenView> {
    if !fits(data, pos, 1) {
        stop(Error::UnexpectedEof, pos)
    } else if !fits(data, pos + 1, 2) {
        stop(Error::UnexpectedEof, pos + 1)
    } else if !fits(data, pos + 3, 2) {
        stop(Error::UnexpectedEof, pos + 3)
    } else if !fits(data, pos + 5, 4) {
        stop(Error::UnexpectedEof, pos + 5)
    } else if !fits(data, pos + 9, 1) {
        stop(Error::UnexpectedEof, pos + 9)
    } else if !fits(data, pos + 10, data[pos + 9] as int) {
        stop(Error::InvalidParameterLength, pos + 10)
    } else {
        match parameters_from(bytes_at(data, pos + 10, data[pos + 9] as int), 0, Seq::empty()) {
            Err(e) => stop(e, pos + 10 + data[pos + 9]),
            Ok(parameters) => done(
                OpenView {
                    version: data[pos],
                    peer_asn: u16_at(data, pos + 1),
                    hold_timer: u16_at(data, pos + 3),
                    identifier: u32_at(data, pos + 5),
                    parameters,
                },
                pos + 10 + data[pos + 9],
            ),
        }
    }
}

/// The wire form of the parameters from `i` on, after `acc`; the error of
/// the first parameter that has none.
pub open spec fn parameters_encoding(parameters: Seq<OpenParameterView>, i: int, acc: Seq<u8>) -> Result<
    Seq<u8>,
    Error,
>
    decreases parameters.len() - i,
{
    if i < 0 || i >= parameters.len() {
        Ok(acc)
    } else {
        match parameters[i].encoding() {
            Err(e) => Err(e),
            Ok(bytes) => parameters_encoding(parameters, i + 1, acc + bytes),
        }
    }
}

impl OpenView {
    /// The wire form of the message's body. Parameters that take more
    /// than 255 bytes are refused as `ParameterTooLong`.
    pub open spec fn encoding(self) -> Result<Seq<u8>, Error> {
        match parameters_encoding(self.parameters, 0, Seq::empty()) {
            Err(e) => Err(e),
            Ok(bytes) => if bytes.len() > 0xff {
                Err(Error::ParameterTooLong)
            } else {
                Ok(
                    seq![self.version] + u16_be_bytes(self.peer_asn) + u16_be_bytes(self.hold_timer)
                        + u32_be_bytes(self.identifier) + seq![bytes.len() as u8] + bytes,
                )
            },
        }
    }
}

/// Reads the parameters that fill `block`.
fn parse_parameters(block: &[u8]) -> (r: Result<Vec<OpenParameter>, Error>)
    ensures
        match r {
            Ok(v) => parameters_from(block@, 0, Seq::empty()) == Ok::<
                Seq<OpenParameterView>,
                Error,
            >(parameter_views(v@)),
            Err(e) => parameters_from(block@, 0, Seq::empty()) == Err::<
                Seq<OpenParameterView>,
                Error,
            >(e),
        },
{
    let mut cursor = Cursor::new(block);
    let mut parameters: Vec<OpenParameter> = Vec::new();
    assert(parameter_views(parameters@) =~= Seq::empty());
    while cursor.position() < block.len()
        invariant
            cursor.data == block,
            parameters_from(block@, 0, Seq::empty()) == parameters_from(
                block@,
                cursor.at(),
                parameter_views(parameters@),
            ),
        decreases
            (if cursor.pos < block@.len() {
                block@.len() - cursor.pos
            } else {
                0
            }),
    {
        let ghost before = parameter_views(parameters@);
        match OpenParameter::parse(&mut cursor) {
            Ok((_bytes_read, parameter)) => {
                let ghost view = parameter@;
                parameters.push(parameter);
                assert(parameter_views(parameters@) =~= before.push(view));
            },
            Err(e) => {
                if e.is_eof() {
                    return Err(Error::InvalidParameterLength);
                }
                return Err(e);
            },
        }
    }
    Ok(parameters)
}

/// Writes parameters one after the other.
fn encode_parameters(parameters: &Vec<OpenParameter>) -> (r: Result<Vec<u8>, Error>)
    ensures
        match r {
            Ok(v) => parameters_encoding(parameter_views(parameters@), 0, Seq::empty()) == Ok::<
                Seq<u8>,
                Error,
            >(v@),
            Err(e) => parameters_encoding(parameter_views(parameters@), 0, Seq::empty()) == Err::<
                Seq<u8>,
                Error,
            >(e),
        },
{
    let mut out: Vec<u8> = Vec::new();
    let mut i: usize = 0;
    while i < parameters.len()
        invariant
            i <= parameters.len(),
            parameters_encoding(parameter_views(parameters@), 0, Seq::empty())
                == parameters_encoding(parameter_views(parameters@), i as int, out@),
        decreases parameters.len() - i,
    {
        assert(parameter_views(parameters@)[i as int] == parameters@[i as int]@);
        parameters[i].encode(&mut out)?;
        i = i + 1;
    }
    Ok(out)
}

impl Open {
    /// Reads the body of an OPEN message. Where that fails, the stream is
    /// left where reading stopped.
    pub fn parse(stream: &mut Cursor) -> (r: Result<Open, Error>)
        ensures
            final(stream).data == old(stream).data,
            match r {
                Ok(o) => spec_parse_open(old(stream).data@, old(stream).at()) == done(
                    o@,
                    final(stream).at(),
                ),
                Err(e) => spec_parse_open(old(stream).data@, old(stream).at()) == stop::<OpenView>(
                    e,
                    final(stream).at(),
                ),
            },
    {
        proof {
            reveal(spec_parse_open);
        }
        let version = stream.read_u8()?;
        let peer_asn = stream.read_u16()?;
        let hold_timer = stream.read_u16()?;
        let identifier = stream.read_u32()?;
        let length = stream.read_u8()?;
        let block = match stream.read_exact(length as usize) {
            Ok(block) => block,
            Err(_) => {
                return Err(Error::InvalidParameterLength);
            },
        };
        let parameters = parse_parameters(block)?;
        Ok(Open { version, peer_asn, hold_timer, identifier, parameters })
    }

    /// Appends the wire form of the message's body to `buf`.
    pub fn encode(&self, buf: &mut Vec<u8>) -> (r: Result<(), Error>)
        ensures
            appended(old(buf)@, final(buf)@, r, self@.encoding()),
    {
        let parameter_buf = encode_parameters(&self.parameters)?;
        if parameter_buf.len() > 0xff {
            return Err(Error::ParameterTooLong);
        }
        push_u8(buf, self.version);
        push_u16(buf, self.peer_asn);
        push_u16(buf, self.hold_timer);
        push_u32(buf, self.identifier);
        push_u8(buf, parameter_buf.len() as u8);
        push_bytes(buf, parameter_buf.as_slice());
        assert(buf@ =~= old(buf)@ + (seq![self.version] + u16_be_bytes(self.peer_asn)
            + u16_be_bytes(self.hold_timer) + u32_be_bytes(self.identifier) + seq![
            parameter_buf@.len() as u8,
        ] + parameter_buf@));
        Ok(())
    }
}

/// What a session has negotiated, as far as it decides how messages are
/// read. The set-valued fields hold each entry once, and the map-valued
/// fields hold each key once.
#[allow(non_snake_case)]
#[derive(Debug)]
pub struct Capabilities {
    /// The families for which multiprotocol extensions are offered.
    pub MP_BGP_SUPPORT: Vec<(AFI, SAFI)>,
    /// Whether route refresh is offered.
    pub ROUTE_REFRESH_SUPPORT: bool,
    /// The outbound route filters offered: family, filter type, direction.
    pub OUTBOUND_ROUTE_FILTERING_SUPPORT: Vec<OrfEntry>,
    /// The next-hop family offered for each family.
    pub EXTENDED_NEXT_HOP_ENCODING: Vec<((AFI, SAFI), AFI)>,
    /// Whether BGPsec is offered.
    pub BGPSEC_SUPPORT: bool,
    /// The number of labels offered for each family.
    pub MULTIPLE_LABELS_SUPPORT: Vec<((AFI, SAFI), u8)>,
    /// The families for which graceful restart is offered.
    pub GRACEFUL_RESTART_SUPPORT: Vec<(AFI, SAFI)>,
    /// Whether four-octet AS numbers are offered.
    pub FOUR_OCTET_ASN_SUPPORT: bool,
    /// The direction of additional paths offered for each family.
    pub ADD_PATH_SUPPORT: Vec<((AFI, SAFI), AddPathDirection)>,
    /// Whether NLRI carries path identifiers.
    pub EXTENDED_PATH_NLRI_SUPPORT: bool,
    /// Whether enhanced route refresh is offered.
    pub ENHANCED_ROUTE_REFRESH_SUPPORT: bool,
    /// Whether long-lived graceful restart is offered.
    pub LONG_LIVED_GRACEFUL_RESTART: bool,
}

/// What a `Capabilities` holds, as mathematical values: sets and maps in
/// the place of lists.
#[allow(non_snake_case)]
pub struct CapabilitiesView {
    /// The families for which multiprotocol extensions are offered.
    pub MP_BGP_SUPPORT: Set<(AFI, SAFI)>,
    /// Whether route refresh is offered.
    pub ROUTE_REFRESH_SUPPORT: bool,
    /// The outbound route filters offered.
    pub OUTBOUND_ROUTE_FILTERING_SUPPORT: Set<OrfEntry>,
    /// The next-hop family offered for each family.
    pub EXTENDED_NEXT_HOP_ENCODING: Map<(AFI, SAFI), AFI>,
    /// Whether BGPsec is offered.
    pub BGPSEC_SUPPORT: bool,
    /// The number of labels offered for each family.
    pub MULTIPLE_LABELS_SUPPORT: Map<(AFI, SAFI), u8>,
    /// The families for which graceful restart is offered.
    pub GRACEFUL_RESTART_SUPPORT: Set<(AFI, SAFI)>,
    /// Whether four-octet AS numbers are offered.
    pub FOUR_OCTET_ASN_SUPPORT: bool,
    /// The direction of additional paths offered for each family.
    pub ADD_PATH_SUPPORT: Map<(AFI, SAFI), AddPathDirection>,
    /// Whether NLRI carries path identifiers.
    pub EXTENDED_PATH_NLRI_SUPPORT: bool,
    /// Whether enhanced route refresh is offered.
    pub ENHANCED_ROUTE_REFRESH_SUPPORT: bool,
    /// Whether long-lived graceful restart is offered.
    pub LONG_LIVED_GRACEFUL_RESTART: bool,
}

impl View for Capabilities {
    type V = CapabilitiesView;

    open spec fn view(&self) -> CapabilitiesView {
        CapabilitiesView {
            MP_BGP_SUPPORT: self.MP_BGP_SUPPORT@.to_set(),
            ROUTE_REFRESH_SUPPORT: self.ROUTE_REFRESH_SUPPORT,
            OUTBOUND_ROUTE_FILTERING_SUPPORT: self.OUTBOUND_ROUTE_FILTERING_SUPPORT@.to_set(),
            EXTENDED_NEXT_HOP_ENCODING: assoc_map(self.EXTENDED_NEXT_HOP_ENCODING@),
            BGPSEC_SUPPORT: self.BGPSEC_SUPPORT,
            MULTIPLE_LABELS_SUPPORT: assoc_map(self.MULTIPLE_LABELS_SUPPORT@),
            GRACEFUL_RESTART_SUPPORT: self.GRACEFUL_RESTART_SUPPORT@.to_set(),
            FOUR_OCTET_ASN_SUPPORT: self.FOUR_OCTET_ASN_SUPPORT,
            ADD_PATH_SUPPORT: assoc_map(self.ADD_PATH_SUPPORT@),
            EXTENDED_PATH_NLRI_SUPPORT: self.EXTENDED_PATH_NLRI_SUPPORT,
            ENHANCED_ROUTE_REFRESH_SUPPORT: self.ENHANCED_ROUTE_REFRESH_SUPPORT,
            LONG_LIVED_GRACEFUL_RESTART: self.LONG_LIVED_GRACEFUL_RESTART,
        }
    }
}

/// The map `map` with the label counts from `i` on.
pub open spec fn labels_into(map: Map<(AFI, SAFI), u8>, labels: Seq<LabelEntry>, i: int) -> Map<
    (AFI, SAFI),
    u8,
>
    decreases labels.len() - i,
{
    if i < 0 || i >= labels.len() {
        map
    } else {
        labels_into(map.insert((labels[i].0, labels[i].1), labels[i].2), labels, i + 1)
    }
}

/// The map `map` with the additional-path offers from `i` on.
pub open spec fn paths_into(
    map: Map<(AFI, SAFI), AddPathDirection>,
    paths: Seq<AddPathEntry>,
    i: int,
) -> Map<(AFI, SAFI), AddPathDirection>
    decreases paths.len() - i,
{
    if i < 0 || i >= paths.len() {
        map
    } else {
        paths_into(map.insert((paths[i].0, paths[i].1), paths[i].2), paths, i + 1)
    }
}

impl CapabilitiesView {
    /// The descriptor of a session that has negotiated nothing.
    pub open spec fn empty() -> CapabilitiesView {
        CapabilitiesView {
            MP_BGP_SUPPORT: Set::empty(),
            ROUTE_REFRESH_SUPPORT: false,
            OUTBOUND_ROUTE_FILTERING_SUPPORT: Set::empty(),
            EXTENDED_NEXT_HOP_ENCODING: Map::empty(),
            BGPSEC_SUPPORT: false,
            MULTIPLE_LABELS_SUPPORT: Map::empty(),
            GRACEFUL_RESTART_SUPPORT: Set::empty(),
            FOUR_OCTET_ASN_SUPPORT: false,
            ADD_PATH_SUPPORT: Map::empty(),
            EXTENDED_PATH_NLRI_SUPPORT: false,
            ENHANCED_ROUTE_REFRESH_SUPPORT: false,
            LONG_LIVED_GRACEFUL_RESTART: false,
        }
    }

    /// The descriptor with what one capability adds to it. A family of
    /// multiprotocol extensions joins the set of families; the filters of
    /// an outbound route filtering capability take the place of the ones
    /// held; label counts and additional-path offers join their maps,
    /// where a later entry of a family takes the place of an earlier one;
    /// an additional-path capability that offers anything turns on path
    /// identifiers in NLRI. An unknown capability adds nothing.
    pub open spec fn with_capability(self, capability: OpenCapabilityView) -> CapabilitiesView {
        match capability {
            OpenCapabilityView::MultiProtocol(family) => CapabilitiesView {
                MP_BGP_SUPPORT: self.MP_BGP_SUPPORT.insert(family),
                ..self
            },
            OpenCapabilityView::RouteRefresh => CapabilitiesView {
                ROUTE_REFRESH_SUPPORT: true,
                ..self
            },
            OpenCapabilityView::OutboundRouteFiltering(families) => CapabilitiesView {
                OUTBOUND_ROUTE_FILTERING_SUPPORT: families.to_set(),
                ..self
            },
            OpenCapabilityView::MultipleLabels(labels) => CapabilitiesView {
                MULTIPLE_LABELS_SUPPORT: labels_into(self.MULTIPLE_LABELS_SUPPORT, labels, 0),
                ..self
            },
            OpenCapabilityView::FourByteASN(_) => CapabilitiesView {
                FOUR_OCTET_ASN_SUPPORT: true,
                ..self
            },
            OpenCapabilityView::AddPath(paths) => CapabilitiesView {
                EXTENDED_PATH_NLRI_SUPPORT: self.EXTENDED_PATH_NLRI_SUPPORT || paths.len() > 0,
                ADD_PATH_SUPPORT: paths_into(self.ADD_PATH_SUPPORT, paths, 0),
                ..self
            },
            OpenCapabilityView::Unknown { .. } => self,
        }
    }

    /// The descriptor with what the capabilities from `i` on add to it.
    pub open spec fn with_capabilities(
        self,
        capabilities: Seq<OpenCapabilityView>,
        i: int,
    ) -> CapabilitiesView
        decreases capabilities.len() - i,
    {
        if i < 0 || i >= capabilities.len() {
            self
        } else {
            self.with_capability(capabilities[i]).with_capabilities(capabilities, i + 1)
        }
    }

    /// The descriptor with what the parameters from `i` on add to it.
    /// Only parameters of capabilities add anything.
    pub open spec fn with_parameters(self, parameters: Seq<OpenParameterView>, i: int) -> CapabilitiesView
        decreases parameters.len() - i,
    {
        if i < 0 || i >= parameters.len() {
            self
        } else {
            match parameters[i] {
                OpenParameterView::Capabilities(caps) => self.with_capabilities(
                    caps,
                    0,
                ).with_parameters(parameters, i + 1),
                _ => self.with_parameters(parameters, i + 1),
            }
        }
    }
}

impl Default for Capabilities {
    fn default() -> (r: Self)
        ensures
            r@ == CapabilitiesView::empty(),
            r.wf(),
    {
        let r = Capabilities {
            MP_BGP_SUPPORT: Vec::new(),
            ROUTE_REFRESH_SUPPORT: false,
            OUTBOUND_ROUTE_FILTERING_SUPPORT: Vec::new(),
            EXTENDED_NEXT_HOP_ENCODING: Vec::new(),
            BGPSEC_SUPPORT: false,
            MULTIPLE_LABELS_SUPPORT: Vec::new(),
            GRACEFUL_RESTART_SUPPORT: Vec::new(),
            FOUR_OCTET_ASN_SUPPORT: false,
            ADD_PATH_SUPPORT: Vec::new(),
            EXTENDED_PATH_NLRI_SUPPORT: false,
            ENHANCED_ROUTE_REFRESH_SUPPORT: false,
            LONG_LIVED_GRACEFUL_RESTART: false,
        };
        assert(r.MP_BGP_SUPPORT@.to_set() =~= Set::empty());
        assert(r.OUTBOUND_ROUTE_FILTERING_SUPPORT@.to_set() =~= Set::empty());
        assert(r.GRACEFUL_RESTART_SUPPORT@.to_set() =~= Set::empty());
        r
    }
}

impl Clone for Capabilities {
    fn clone(&self) -> (r: Self)
        ensures
            r@ == self@,
            r.wf() == self.wf(),
    {
        Capabilities {
            MP_BGP_SUPPORT: copy_vec(&self.MP_BGP_SUPPORT),
            ROUTE_REFRESH_SUPPORT: self.ROUTE_REFRESH_SUPPORT,
            OUTBOUND_ROUTE_FILTERING_SUPPORT: copy_vec(&self.OUTBOUND_ROUTE_FILTERING_SUPPORT),
            EXTENDED_NEXT_HOP_ENCODING: copy_vec(&self.EXTENDED_NEXT_HOP_ENCODING),
            BGPSEC_SUPPORT: self.BGPSEC_SUPPORT,
            MULTIPLE_LABELS_SUPPORT: copy_vec(&self.MULTIPLE_LABELS_SUPPORT),
            GRACEFUL_RESTART_SUPPORT: copy_vec(&self.GRACEFUL_RESTART_SUPPORT),
            FOUR_OCTET_ASN_SUPPORT: self.FOUR_OCTET_ASN_SUPPORT,
            ADD_PATH_SUPPORT: copy_vec(&self.ADD_PATH_SUPPORT),
            EXTENDED_PATH_NLRI_SUPPORT: self.EXTENDED_PATH_NLRI_SUPPORT,
            ENHANCED_ROUTE_REFRESH_SUPPORT: self.ENHANCED_ROUTE_REFRESH_SUPPORT,
            LONG_LIVED_GRACEFUL_RESTART: self.LONG_LIVED_GRACEFUL_RESTART,
        }
    }
}

/// The filters of `families`, each once.
fn unique_orfs(families: &Vec<OrfEntry>) -> (r: Vec<OrfEntry>)
    ensures
        r@.no_duplicates(),
        r@.to_set() == families@.to_set(),
{
    let mut out: Vec<OrfEntry> = Vec::new();
    let mut i: usize = 0;
    assert(out@.to_set() =~= families@.subrange(0, 0).to_set());
    while i < families.len()
        invariant
            i <= families.len(),
            out@.no_duplicates(),
            out@.to_set() == families@.subrange(0, i as int).to_set(),
        decreases families.len() - i,
    {
        let entry = families[i];
        proof {
            lemma_add_once(out@, entry);
            families@.subrange(0, i as int).lemma_push_to_set_commute(entry);
            assert(families@.subrange(0, i + 1) =~= families@.subrange(0, i as int).push(entry));
        }
        if !contains(&out, entry) {
            out.push(entry);
        }
        i = i + 1;
    }
    assert(families@.subrange(0, i as int) =~= families@);
    out
}

/// The descriptor that the given fields make.
pub open spec fn descriptor(
    families: Seq<(AFI, SAFI)>,
    route_refresh: bool,
    orfs: Seq<OrfEntry>,
    labels: Seq<((AFI, SAFI), u8)>,
    four_octet: bool,
    add_paths: Seq<((AFI, SAFI), AddPathDirection)>,
    extended: bool,
) -> CapabilitiesView {
    CapabilitiesView {
        MP_BGP_SUPPORT: families.to_set(),
        ROUTE_REFRESH_SUPPORT: route_refresh,
        OUTBOUND_ROUTE_FILTERING_SUPPORT: orfs.to_set(),
        EXTENDED_NEXT_HOP_ENCODING: Map::empty(),
        BGPSEC_SUPPORT: false,
        MULTIPLE_LABELS_SUPPORT: assoc_map(labels),
        GRACEFUL_RESTART_SUPPORT: Set::empty(),
        FOUR_OCTET_ASN_SUPPORT: four_octet,
        ADD_PATH_SUPPORT: assoc_map(add_paths),
        EXTENDED_PATH_NLRI_SUPPORT: extended,
        ENHANCED_ROUTE_REFRESH_SUPPORT: false,
        LONG_LIVED_GRACEFUL_RESTART: false,
    }
}

impl Capabilities {
    /// Whether the set-valued fields hold each entry once and the
    /// map-valued fields each key once.
    pub open spec fn wf(&self) -> bool {
        &&& self.MP_BGP_SUPPORT@.no_duplicates()
        &&& self.OUTBOUND_ROUTE_FILTERING_SUPPORT@.no_duplicates()
        &&& unique_keys(self.EXTENDED_NEXT_HOP_ENCODING@)
        &&& unique_keys(self.MULTIPLE_LABELS_SUPPORT@)
        &&& self.GRACEFUL_RESTART_SUPPORT@.no_duplicates()
        &&& unique_keys(self.ADD_PATH_SUPPORT@)
    }

    /// The descriptor that the parameters of an OPEN message make. It
    /// reads NLRI with path identifiers exactly where it holds an offer of
    /// additional paths.
    pub fn from_parameters(parameters: Vec<OpenParameter>) -> (r: Self)
        ensures
            r@ == CapabilitiesView::empty().with_parameters(parameter_views(parameters@), 0),
            r.wf(),
            r.EXTENDED_PATH_NLRI_SUPPORT == (r.ADD_PATH_SUPPORT@.len() > 0),
    {
        let ghost params = parameter_views(parameters@);
        let mut families: Vec<(AFI, SAFI)> = Vec::new();
        let mut route_refresh = false;
        let mut orfs: Vec<OrfEntry> = Vec::new();
        let mut labels: Vec<((AFI, SAFI), u8)> = Vec::new();
        let mut four_octet = false;
        let mut add_paths: Vec<((AFI, SAFI), AddPathDirection)> = Vec::new();
        let mut extended = false;
        assert(families@.to_set() =~= Set::empty());
        assert(orfs@.to_set() =~= Set::empty());
        let mut i: usize = 0;
        while i < parameters.len()
            invariant
                i <= parameters.len(),
                params == parameter_views(parameters@),
                families@.no_duplicates(),
                orfs@.no_duplicates(),
                unique_keys(labels@),
                unique_keys(add_paths@),
                extended == (add_paths@.len() > 0),
                CapabilitiesView::empty().with_parameters(params, 0) == descriptor(
                    families@,
                    route_refresh,
                    orfs@,
                    labels@,
                    four_octet,
                    add_paths@,
                    extended,
                ).with_parameters(params, i as int),
            decreases parameters.len() - i,
        {
            assert(params[i as int] == parameters@[i as int]@);
            if let OpenParameter::Capabilities(caps) = &parameters[i] {
                let ghost views = capability_views(caps@);
                let ghost goal = descriptor(
                    families@,
                    route_refresh,
                    orfs@,
                    labels@,
                    four_octet,
                    add_paths@,
                    extended,
                ).with_capabilities(views, 0);
                let mut j: usize = 0;
                while j < caps.len()
                    invariant
                        j <= caps.len(),
                        views == capability_views(caps@),
                        families@.no_duplicates(),
                        orfs@.no_duplicates(),
                        unique_keys(labels@),
                        unique_keys(add_paths@),
                        extended == (add_paths@.len() > 0),
                        goal == descriptor(
                            families@,
                            route_refresh,
                            orfs@,
                            labels@,
                            four_octet,
                            add_paths@,
                            extended,
                        ).with_capabilities(views, j as int),
                    decreases caps.len() - j,
                {
                    assert(views[j as int] == caps@[j as int]@);
                    match &caps[j] {
                        OpenCapability::MultiProtocol(family) => {
                            proof {
                                lemma_add_once(families@, *family);
                            }
                            insert_once(&mut families, *family);
                        },
                        OpenCapability::RouteRefresh => {
                            route_refresh = true;
                        },
                        OpenCapability::OutboundRouteFiltering(entries) => {
                            orfs = unique_orfs(entries);
                        },
                        OpenCapability::MultipleLabels(multi_labels) => {
                            let ghost start = assoc_map(labels@);
                            let mut k: usize = 0;
                            while k < multi_labels.len()
                                invariant
                                    k <= multi_labels.len(),
                                    unique_keys(labels@),
                                    labels_into(start, multi_labels@, 0) == labels_into(
                                        assoc_map(labels@),
                                        multi_labels@,
                                        k as int,
                                    ),
                                decreases multi_labels.len() - k,
                            {
                                let (afi, safi, count) = multi_labels[k];
                                put_entry(&mut labels, (afi, safi), count);
                                k = k + 1;
                            }
                        },
                        OpenCapability::FourByteASN(_) => {
                            four_octet = true;
                        },
                        OpenCapability::AddPath(paths) => {
                            extended = extended || paths.len() > 0;
                            let ghost start = assoc_map(add_paths@);
                            let ghost held = add_paths@.len();
                            let mut k: usize = 0;
                            while k < paths.len()
                                invariant
                                    k <= paths.len(),
                                    unique_keys(add_paths@),
                                    k == 0 ==> add_paths@.len() == held,
                                    k > 0 ==> add_paths@.len() > 0,
                                    paths_into(start, paths@, 0) == paths_into(
                                        assoc_map(add_paths@),
                                        paths@,
                                        k as int,
                                    ),
                                decreases paths.len() - k,
                            {
                                let (afi, safi, direction) = paths[k];
                                put_entry(&mut add_paths, (afi, safi), direction);
                                k = k + 1;
                            }
                        },
                        OpenCapability::Unknown { .. } => {},
                    }
                    j = j + 1;
                }
            }
            i = i + 1;
        }
        let r = Capabilities {
            MP_BGP_SUPPORT: families,
            ROUTE_REFRESH_SUPPORT: route_refresh,
            OUTBOUND_ROUTE_FILTERING_SUPPORT: orfs,
            EXTENDED_NEXT_HOP_ENCODING: Vec::new(),
            BGPSEC_SUPPORT: false,
            MULTIPLE_LABELS_SUPPORT: labels,
            GRACEFUL_RESTART_SUPPORT: Vec::new(),
            FOUR_OCTET_ASN_SUPPORT: four_octet,
            ADD_PATH_SUPPORT: add_paths,
            EXTENDED_PATH_NLRI_SUPPORT: extended,
            ENHANCED_ROUTE_REFRESH_SUPPORT: false,
            LONG_LIVED_GRACEFUL_RESTART: false,
        };
        assert(r.GRACEFUL_RESTART_SUPPORT@.to_set() =~= Set::empty());
        assert(descriptor(Seq::empty(), false, Seq::empty(), Seq::empty(), false, Seq::empty(), false)
            == CapabilitiesView::empty()) by {
            assert(Seq::<(AFI, SAFI)>::empty().to_set() =~= Set::empty());
            assert(Seq::<OrfEntry>::empty().to_set() =~= Set::empty());
        }
        r
    }
}

impl CapabilitiesView {
    /// What two descriptors have in common: the entries that both sets
    /// hold, the switches that both have on, and of each map the keys
    /// that both hold, with the values of the first.
    pub open spec fn intersection(self, other: CapabilitiesView) -> CapabilitiesView {
        CapabilitiesView {
            MP_BGP_SUPPORT: self.MP_BGP_SUPPORT.intersect(other.MP_BGP_SUPPORT),
            ROUTE_REFRESH_SUPPORT: self.ROUTE_REFRESH_SUPPORT && other.ROUTE_REFRESH_SUPPORT,
            OUTBOUND_ROUTE_FILTERING_SUPPORT: self.OUTBOUND_ROUTE_FILTERING_SUPPORT.intersect(
                other.OUTBOUND_ROUTE_FILTERING_SUPPORT,
            ),
            EXTENDED_NEXT_HOP_ENCODING: self.EXTENDED_NEXT_HOP_ENCODING.restrict(
                other.EXTENDED_NEXT_HOP_ENCODING.dom(),
            ),
            BGPSEC_SUPPORT: self.BGPSEC_SUPPORT && other.BGPSEC_SUPPORT,
            MULTIPLE_LABELS_SUPPORT: self.MULTIPLE_LABELS_SUPPORT.restrict(
                other.MULTIPLE_LABELS_SUPPORT.dom(),
            ),
            GRACEFUL_RESTART_SUPPORT: self.GRACEFUL_RESTART_SUPPORT.intersect(
                other.GRACEFUL_RESTART_SUPPORT,
            ),
            FOUR_OCTET_ASN_SUPPORT: self.FOUR_OCTET_ASN_SUPPORT && other.FOUR_OCTET_ASN_SUPPORT,
            ADD_PATH_SUPPORT: self.ADD_PATH_SUPPORT.restrict(other.ADD_PATH_SUPPORT.dom()),
            EXTENDED_PATH_NLRI_SUPPORT: self.EXTENDED_PATH_NLRI_SUPPORT
                && other.EXTENDED_PATH_NLRI_SUPPORT,
            ENHANCED_ROUTE_REFRESH_SUPPORT: self.ENHANCED_ROUTE_REFRESH_SUPPORT
                && other.ENHANCED_ROUTE_REFRESH_SUPPORT,
            LONG_LIVED_GRACEFUL_RESTART: self.LONG_LIVED_GRACEFUL_RESTART
                && other.LONG_LIVED_GRACEFUL_RESTART,
        }
    }
}

impl Capabilities {
    /// What a session can use of two descriptors, its own and its peer's.
    pub fn intersection(&self, other: &Capabilities) -> (r: Capabilities)
        requires
            self.wf(),
        ensures
            r.wf(),
            r@ == self@.intersection(other@),
    {
        Capabilities {
            MP_BGP_SUPPORT: common(&self.MP_BGP_SUPPORT, &other.MP_BGP_SUPPORT),
            ROUTE_REFRESH_SUPPORT: self.ROUTE_REFRESH_SUPPORT && other.ROUTE_REFRESH_SUPPORT,
            OUTBOUND_ROUTE_FILTERING_SUPPORT: common(
                &self.OUTBOUND_ROUTE_FILTERING_SUPPORT,
                &other.OUTBOUND_ROUTE_FILTERING_SUPPORT,
            ),
            EXTENDED_NEXT_HOP_ENCODING: common_keys(
                &self.EXTENDED_NEXT_HOP_ENCODING,
                &other.EXTENDED_NEXT_HOP_ENCODING,
            ),
            BGPSEC_SUPPORT: self.BGPSEC_SUPPORT && other.BGPSEC_SUPPORT,
            MULTIPLE_LABELS_SUPPORT: common_keys(
                &self.MULTIPLE_LABELS_SUPPORT,
                &other.MULTIPLE_LABELS_SUPPORT,
            ),
            GRACEFUL_RESTART_SUPPORT: common(
                &self.GRACEFUL_RESTART_SUPPORT,
                &other.GRACEFUL_RESTART_SUPPORT,
            ),
            FOUR_OCTET_ASN_SUPPORT: self.FOUR_OCTET_ASN_SUPPORT && other.FOUR_OCTET_ASN_SUPPORT,
            ADD_PATH_SUPPORT: common_keys(&self.ADD_PATH_SUPPORT, &other.ADD_PATH_SUPPORT),
            EXTENDED_PATH_NLRI_SUPPORT: self.EXTENDED_PATH_NLRI_SUPPORT
                && other.EXTENDED_PATH_NLRI_SUPPORT,
            ENHANCED_ROUTE_REFRESH_SUPPORT: self.ENHANCED_ROUTE_REFRESH_SUPPORT
                && other.ENHANCED_ROUTE_REFRESH_SUPPORT,
            LONG_LIVED_GRACEFUL_RESTART: self.LONG_LIVED_GRACEFUL_RESTART
                && other.LONG_LIVED_GRACEFUL_RESTART,
        }
    }
}

/// A way to a session's descriptor, held or borrowed.
pub trait CapabilitiesRef {
    /// The descriptor.
    spec fn spec_ref(&self) -> &Capabilities;

    /// The descriptor.
    fn get_ref(&self) -> (r: &Capabilities)
        ensures
            r == self.spec_ref(),
    ;
}

impl CapabilitiesRef for Capabilities {
    open spec fn spec_ref(&self) -> &Capabilities {
        self
    }

    fn get_ref(&self) -> (r: &Capabilities) {
        self
    }
}

impl<'a> CapabilitiesRef for &'a Capabilities {
    open spec fn spec_ref(&self) -> &Capabilities {
        *self
    }

    fn get_ref(&self) -> (r: &Capabilities) {
        self
    }
}

} // verus!
