//! Flow specification filters: the operators of their value lists, the
//! filter components, and their wire form.

use crate::endian::{push_bytes, push_u16, push_u32, push_u8, u16_be_bytes, u32_be_bytes};
use crate::error::{appended, done, stop, Error, Parsed};
use crate::family::AFI;
use crate::stream::{bytes_at, fits, u16_at, u32_at, Cursor};
use crate::text::{decimal, push_decimal};
use crate::update::prefix::{copy_vec, to_vec, Prefix, PrefixView};
use crate::util::prefix_octets;
use vstd::prelude::*;
use vstd::string::StringExecFns;

verus! {

/// Whether the end-of-list bit of an operator octet is set: the pair that
/// it leads is the last of its list.
pub open spec fn spec_is_end_of_list(b: u8) -> bool {
    b & 0x80 != 0
}

/// Whether the end-of-list bit of an operator octet is set.
#[verifier::when_used_as_spec(spec_is_end_of_list)]
pub fn is_end_of_list(b: u8) -> (r: bool)
    ensures
        r == spec_is_end_of_list(b),
{
    b & 0x80 != 0
}

/// The width in bytes of the value that follows an operator octet: two to
/// the power of the selector in bits 4 and 5.
pub open spec fn spec_find_length(b: u8) -> u8 {
    1u8 << ((b & 0x30) >> 4)
}

/// The width in bytes of the value that follows an operator octet: one of
/// 1, 2, 4 and 8.
#[verifier::when_used_as_spec(spec_find_length)]
pub fn find_length(b: u8) -> (r: u8)
    ensures
        r == spec_find_length(b),
        r == 1 || r == 2 || r == 4 || r == 8,
{
    let selector: u8 = (b & 0x30) >> 4;
    assert(selector == (b & 0x30) >> 4 ==> selector < 4) by (bit_vector);
    assert(selector < 4 ==> (1u8 << selector == 1 || 1u8 << selector == 2 || 1u8 << selector == 4
        || 1u8 << selector == 8)) by (bit_vector);
    1u8 << selector
}

/// The operator of a numeric comparison, as the octet that leads an
/// {operator, value} pair.
#[derive(Debug, Clone, Copy, PartialEq, Eq, Hash, Structural)]
pub struct NumericOperator {
    /// The operator octet.
    pub bits: u8,
}

impl NumericOperator {
    /// The value equals the data.
    pub const EQ: u8 = 0x01;

    /// The data is greater than the value.
    pub const GT: u8 = 0x02;

    /// The data is less than the value.
    pub const LT: u8 = 0x04;

    /// The value takes two bytes.
    pub const V2: u8 = 0x10;

    /// The value takes four bytes.
    pub const V4: u8 = 0x20;

    /// The value takes eight bytes.
    pub const V8: u8 = 0x30;

    /// The pair must hold together with the one before it.
    pub const AND: u8 = 0x40;

    /// The pair is the last of its list.
    pub const EOL: u8 = 0x80;

    /// The operator with the given octet.
    pub fn new(bits: u8) -> (r: Self)
        ensures
            r.bits == bits,
    {
        NumericOperator { bits }
    }

    /// The operator octet.
    pub fn bits(&self) -> (r: u8)
        ensures
            r == self.bits,
    {
        self.bits
    }

    /// Whether every bit of `mask` is set in the operator.
    pub fn contains(&self, mask: u8) -> (r: bool)
        ensures
            r == (self.bits & mask == mask),
    {
        self.bits & mask == mask
    }

    /// Sets the end-of-list bit.
    pub fn set_eol(&mut self)
        ensures
            final(self).bits == old(self).bits | 0x80,
    {
        self.bits = self.bits | 0x80;
    }

    /// Clears the end-of-list bit.
    pub fn unset_eol(&mut self)
        ensures
            final(self).bits == old(self).bits & 0x7f,
    {
        self.bits = self.bits & 0x7f;
    }

    /// The operator octet `bits` with the width selector for a value of
    /// `length` bytes.
    pub open spec fn with_length(bits: u8, length: u8) -> u8 {
        if length == 1 {
            bits & 0xcf
        } else if length == 2 {
            (bits & 0xcf) | 0x10
        } else if length == 4 {
            (bits & 0xcf) | 0x20
        } else {
            bits | 0x30
        }
    }

    /// Sets the width of the value in bytes.
    pub fn set_length(&mut self, length: u8)
        requires
            length == 1 || length == 2 || length == 4 || length == 8,
        ensures
            final(self).bits == Self::with_length(old(self).bits, length),
    {
        if length == 1 {
            self.bits = self.bits & 0xcf;
        } else if length == 2 {
            self.bits = (self.bits & 0xcf) | 0x10;
        } else if length == 4 {
            self.bits = (self.bits & 0xcf) | 0x20;
        } else {
            self.bits = self.bits | 0x30;
        }
    }
}

/// After the width of an operator is set, the width read from its octet is
/// the one that was set, and the other bits are as before.
pub proof fn lemma_numeric_length_round_trip(bits: u8, length: u8)
    requires
        length == 1 || length == 2 || length == 4 || length == 8,
    ensures
        spec_find_length(NumericOperator::with_length(bits, length)) == length,
        NumericOperator::with_length(bits, length) & 0xcf == bits & 0xcf,
{
    assert(1u8 << (((bits & 0xcf) & 0x30) >> 4) == 1) by (bit_vector);
    assert(1u8 << ((((bits & 0xcf) | 0x10) & 0x30) >> 4) == 2) by (bit_vector);
    assert(1u8 << ((((bits & 0xcf) | 0x20) & 0x30) >> 4) == 4) by (bit_vector);
    assert(1u8 << (((bits | 0x30) & 0x30) >> 4) == 8) by (bit_vector);
    assert((bits & 0xcf) & 0xcf == bits & 0xcf) by (bit_vector);
    assert(((bits & 0xcf) | 0x10) & 0xcf == bits & 0xcf) by (bit_vector);
    assert(((bits & 0xcf) | 0x20) & 0xcf == bits & 0xcf) by (bit_vector);
    assert((bits | 0x30) & 0xcf == bits & 0xcf) by (bit_vector);
}

/// Setting the end-of-list bit makes an octet the last of its list, and
/// clearing it makes it not the last; neither touches another bit.
pub proof fn lemma_eol_bit(bits: u8)
    ensures
        spec_is_end_of_list(bits | 0x80),
        !spec_is_end_of_list(bits & 0x7f),
        (bits | 0x80) & 0x7f == bits & 0x7f,
        (bits & 0x7f) & 0x7f == bits & 0x7f,
{
    assert((bits | 0x80) & 0x80 != 0) by (bit_vector);
    assert((bits & 0x7f) & 0x80 == 0) by (bit_vector);
    assert((bits | 0x80) & 0x7f == bits & 0x7f) by (bit_vector);
    assert((bits & 0x7f) & 0x7f == bits & 0x7f) by (bit_vector);
}

/// The operator of a bitmask match, as the octet that leads an
/// {operator, value} pair.
#[derive(Debug, Clone, Copy, PartialEq, Eq, Hash, Structural)]
pub struct BinaryOperator {
    /// The operator octet.
    pub bits: u8,
}

impl BinaryOperator {
    /// The data, masked by the value, equals the value.
    pub const MATCH: u8 = 0x01;

    /// The match is negated.
    pub const NOT: u8 = 0x02;

    /// The value takes two bytes.
    pub const V2: u8 = 0x10;

    /// The pair must hold together with the one before it.
    pub const AND: u8 = 0x40;

    /// The pair is the last of its list.
    pub const EOL: u8 = 0x80;

    /// The operator with the given octet.
    pub fn new(bits: u8) -> (r: Self)
        ensures
            r.bits == bits,
    {
        BinaryOperator { bits }
    }

    /// The operator octet.
    pub fn bits(&self) -> (r: u8)
        ensures
            r == self.bits,
    {
        self.bits
    }

    /// Whether every bit of `mask` is set in the operator.
    pub fn contains(&self, mask: u8) -> (r: bool)
        ensures
            r == (self.bits & mask == mask),
    {
        self.bits & mask == mask
    }

    /// Sets the end-of-list bit.
    pub fn set_eol(&mut self)
        ensures
            final(self).bits == old(self).bits | 0x80,
    {
        self.bits = self.bits | 0x80;
    }

    /// Clears the end-of-list bit.
    pub fn unset_eol(&mut self)
        ensures
            final(self).bits == old(self).bits & 0x7f,
    {
        self.bits = self.bits & 0x7f;
    }

    /// The operator octet `bits` with the width flag for a value of
    /// `length` bytes.
    pub open spec fn with_length(bits: u8, length: u8) -> u8 {
        if length == 1 {
            bits & 0xef
        } else {
            bits | 0x10
        }
    }

    /// Sets the width of the value in bytes.
    pub fn set_length(&mut self, length: u8)
        requires
            length == 1 || length == 2,
        ensures
            final(self).bits == Self::with_length(old(self).bits, length),
    {
        if length == 1 {
            self.bits = self.bits & 0xef;
        } else {
            self.bits = self.bits | 0x10;
        }
    }
}

/// After the width of a bitmask operator is set, the width flag of its
/// octet says so, and the other bits are as before.
pub proof fn lemma_binary_length_round_trip(bits: u8, length: u8)
    requires
        length == 1 || length == 2,
    ensures
        BinaryOperator::with_length(bits, length) & 0x10 == (if length == 2 {
            0x10u8
        } else {
            0u8
        }),
        BinaryOperator::with_length(bits, length) & 0xef == bits & 0xef,
{
    assert((bits & 0xef) & 0x10 == 0) by (bit_vector);
    assert((bits | 0x10) & 0x10 == 0x10) by (bit_vector);
    assert((bits & 0xef) & 0xef == bits & 0xef) by (bit_vector);
    assert((bits | 0x10) & 0xef == bits & 0xef) by (bit_vector);
}

/// The operator of a fragment match, as the octet that leads an
/// {operator, value} pair.
#[derive(Debug, Clone, Copy, PartialEq, Eq, Hash, Structural)]
pub struct FragmentOperator {
    /// The operator octet.
    pub bits: u8,
}

impl FragmentOperator {
    /// Do not fragment.
    pub const DF: u8 = 0x01;

    /// Is a fragment.
    pub const IF: u8 = 0x02;

    /// First fragment.
    pub const FF: u8 = 0x04;

    /// Last fragment.
    pub const LF: u8 = 0x08;

    /// The pair is the last of its list.
    pub const EOL: u8 = 0x80;

    /// The operator with the given octet.
    pub fn new(bits: u8) -> (r: Self)
        ensures
            r.bits == bits,
    {
        FragmentOperator { bits }
    }

    /// The operator octet.
    pub fn bits(&self) -> (r: u8)
        ensures
            r == self.bits,
    {
        self.bits
    }

    /// Whether every bit of `mask` is set in the operator.
    pub fn contains(&self, mask: u8) -> (r: bool)
        ensures
            r == (self.bits & mask == mask),
    {
        self.bits & mask == mask
    }

    /// Sets the end-of-list bit.
    pub fn set_eol(&mut self)
        ensures
            final(self).bits == old(self).bits | 0x80,
    {
        self.bits = self.bits | 0x80;
    }

    /// Clears the end-of-list bit.
    pub fn unset_eol(&mut self)
        ensures
            final(self).bits == old(self).bits & 0x7f,
    {
        self.bits = self.bits & 0x7f;
    }
}

/// One component of a flow specification.
#[derive(Debug, PartialEq, Eq)]
pub enum FlowspecFilter {
    /// The destination prefix to match (type 1).
    DestinationPrefix(Prefix),
    /// The source prefix to match (type 2).
    SourcePrefix(Prefix),
    /// Pairs that match the IP protocol octet (type 3).
    IpProtocol(Vec<(NumericOperator, u32)>),
    /// Pairs that match the source or the destination port (type 4).
    Port(Vec<(NumericOperator, u32)>),
    /// Pairs that match the destination port (type 5).
    DestinationPort(Vec<(NumericOperator, u32)>),
    /// Pairs that match the source port (type 6).
    SourcePort(Vec<(NumericOperator, u32)>),
    /// Pairs that match the type of an ICMP packet (type 7).
    IcmpType(Vec<(NumericOperator, u8)>),
    /// Pairs that match the code of an ICMP packet (type 8).
    IcmpCode(Vec<(NumericOperator, u8)>),
    /// Pairs that match the flags of a TCP header (type 9).
    TcpFlags(Vec<(BinaryOperator, u16)>),
    /// Pairs that match the length of the packet (type 10).
    PacketLength(Vec<(NumericOperator, u32)>),
    /// Pairs that match the DSCP field (type 11).
    DSCP(Vec<(NumericOperator, u8)>),
    /// Pairs that match the fragment state (type 12).
    Fragment(Vec<(FragmentOperator, u8)>),
}

/// What a `FlowspecFilter` holds, as mathematical values.
pub enum FlowspecFilterView {
    /// The destination prefix to match (type 1).
    DestinationPrefix(PrefixView),
    /// The source prefix to match (type 2).
    SourcePrefix(PrefixView),
    /// Pairs that match the IP protocol octet (type 3).
    IpProtocol(Seq<(NumericOperator, u32)>),
    /// Pairs that match the source or the destination port (type 4).
    Port(Seq<(NumericOperator, u32)>),
    /// Pairs that match the destination port (type 5).
    DestinationPort(Seq<(NumericOperator, u32)>),
    /// Pairs that match the source port (type 6).
    SourcePort(Seq<(NumericOperator, u32)>),
    /// Pairs that match the type of an ICMP packet (type 7).
    IcmpType(Seq<(NumericOperator, u8)>),
    /// Pairs that match the code of an ICMP packet (type 8).
    IcmpCode(Seq<(NumericOperator, u8)>),
    /// Pairs that match the flags of a TCP header (type 9).
    TcpFlags(Seq<(BinaryOperator, u16)>),
    /// Pairs that match the length of the packet (type 10).
    PacketLength(Seq<(NumericOperator, u32)>),
    /// Pairs that match the DSCP field (type 11).
    DSCP(Seq<(NumericOperator, u8)>),
    /// Pairs that match the fragment state (type 12).
    Fragment(Seq<(FragmentOperator, u8)>),
}

impl View for FlowspecFilter {
    type V = FlowspecFilterView;

    open spec fn view(&self) -> FlowspecFilterView {
        match self {
            FlowspecFilter::DestinationPrefix(p) => FlowspecFilterView::DestinationPrefix(p@),
            FlowspecFilter::SourcePrefix(p) => FlowspecFilterView::SourcePrefix(p@),
            FlowspecFilter::IpProtocol(v) => FlowspecFilterView::IpProtocol(v@),
            FlowspecFilter::Port(v) => FlowspecFilterView::Port(v@),
            FlowspecFilter::DestinationPort(v) => FlowspecFilterView::DestinationPort(v@),
            FlowspecFilter::SourcePort(v) => FlowspecFilterView::SourcePort(v@),
            FlowspecFilter::IcmpType(v) => FlowspecFilterView::IcmpType(v@),
            FlowspecFilter::IcmpCode(v) => FlowspecFilterView::IcmpCode(v@),
            FlowspecFilter::TcpFlags(v) => FlowspecFilterView::TcpFlags(v@),
            FlowspecFilter::PacketLength(v) => FlowspecFilterView::PacketLength(v@),
            FlowspecFilter::DSCP(v) => FlowspecFilterView::DSCP(v@),
            FlowspecFilter::Fragment(v) => FlowspecFilterView::Fragment(v@),
        }
    }
}

impl Clone for FlowspecFilter {
    fn clone(&self) -> (r: Self)
        ensures
            r@ == self@,
    {
        match self {
            FlowspecFilter::DestinationPrefix(p) => FlowspecFilter::DestinationPrefix(p.clone()),
            FlowspecFilter::SourcePrefix(p) => FlowspecFilter::SourcePrefix(p.clone()),
            FlowspecFilter::IpProtocol(v) => FlowspecFilter::IpProtocol(copy_vec(v)),
            FlowspecFilter::Port(v) => FlowspecFilter::Port(copy_vec(v)),
            FlowspecFilter::DestinationPort(v) => FlowspecFilter::DestinationPort(copy_vec(v)),
            FlowspecFilter::SourcePort(v) => FlowspecFilter::SourcePort(copy_vec(v)),
            FlowspecFilter::IcmpType(v) => FlowspecFilter::IcmpType(copy_vec(v)),
            FlowspecFilter::IcmpCode(v) => FlowspecFilter::IcmpCode(copy_vec(v)),
            FlowspecFilter::TcpFlags(v) => FlowspecFilter::TcpFlags(copy_vec(v)),
            FlowspecFilter::PacketLength(v) => FlowspecFilter::PacketLength(copy_vec(v)),
            FlowspecFilter::DSCP(v) => FlowspecFilter::DSCP(copy_vec(v)),
            FlowspecFilter::Fragment(v) => FlowspecFilter::Fragment(copy_vec(v)),
        }
    }
}

impl FlowspecFilterView {
    /// The type code of the component.
    pub open spec fn code(self) -> u8 {
        match self {
            FlowspecFilterView::DestinationPrefix(_) => 1,
            FlowspecFilterView::SourcePrefix(_) => 2,
            FlowspecFilterView::IpProtocol(_) => 3,
            FlowspecFilterView::Port(_) => 4,
            FlowspecFilterView::DestinationPort(_) => 5,
            FlowspecFilterView::SourcePort(_) => 6,
            FlowspecFilterView::IcmpType(_) => 7,
            FlowspecFilterView::IcmpCode(_) => 8,
            FlowspecFilterView::TcpFlags(_) => 9,
            FlowspecFilterView::PacketLength(_) => 10,
            FlowspecFilterView::DSCP(_) => 11,
            FlowspecFilterView::Fragment(_) => 12,
        }
    }

    /// The bytes that follow the type code.
    pub open spec fn body(self) -> Result<Seq<u8>, Error> {
        match self {
            FlowspecFilterView::DestinationPrefix(p) => prefix_body(p),
            FlowspecFilterView::SourcePrefix(p) => prefix_body(p),
            FlowspecFilterView::IpProtocol(v) => Ok(wide_pairs_encoding(v, 0, Seq::empty())),
            FlowspecFilterView::Port(v) => Ok(wide_pairs_encoding(v, 0, Seq::empty())),
            FlowspecFilterView::DestinationPort(v) => Ok(
                wide_pairs_encoding(v, 0, Seq::empty()),
            ),
            FlowspecFilterView::SourcePort(v) => Ok(wide_pairs_encoding(v, 0, Seq::empty())),
            FlowspecFilterView::IcmpType(v) => Ok(narrow_pairs_encoding(v, 0, Seq::empty())),
            FlowspecFilterView::IcmpCode(v) => Ok(narrow_pairs_encoding(v, 0, Seq::empty())),
            FlowspecFilterView::TcpFlags(v) => Ok(binary_pairs_encoding(v, 0, Seq::empty())),
            FlowspecFilterView::PacketLength(v) => Ok(wide_pairs_encoding(v, 0, Seq::empty())),
            FlowspecFilterView::DSCP(v) => Ok(narrow_pairs_encoding(v, 0, Seq::empty())),
            FlowspecFilterView::Fragment(v) => Ok(fragment_pairs_encoding(v, 0, Seq::empty())),
        }
    }

    /// The wire form of the component: its type code, then its body. A
    /// prefix that lacks octets that its length covers has none.
    pub open spec fn encoding(self) -> Result<Seq<u8>, Error> {
        match self.body() {
            Ok(body) => Ok(seq![self.code()] + body),
            Err(e) => Err(e),
        }
    }
}

/// The body of a prefix component: the length in bits, an offset octet of
/// zero where the family is IPv6, and the octets that the length covers,
/// without the bits beyond the length.
pub open spec fn prefix_body(p: PrefixView) -> Result<Seq<u8>, Error> {
    if !p.wf() {
        Err(Error::UnsupportedEncoding)
    } else if p.protocol == AFI::IPV6 {
        Ok(seq![p.length, 0u8] + p.wire_octets())
    } else {
        Ok(seq![p.length] + p.wire_octets())
    }
}

/// The operator octet `bits` with the end-of-list bit set if `last`, and
/// cleared if not.
pub open spec fn with_eol(bits: u8, last: bool) -> u8 {
    if last {
        bits | 0x80
    } else {
        bits & 0x7f
    }
}

/// The wire form of one numeric pair whose value takes the fewest of one,
/// two and four bytes that hold it.
pub open spec fn wide_pair_encoding(pair: (NumericOperator, u32), last: bool) -> Seq<u8> {
    let bits = with_eol(pair.0.bits, last);
    if pair.1 <= 0xff {
        seq![NumericOperator::with_length(bits, 1), pair.1 as u8]
    } else if pair.1 <= 0xffff {
        seq![NumericOperator::with_length(bits, 2)] + u16_be_bytes(pair.1 as u16)
    } else {
        seq![NumericOperator::with_length(bits, 4)] + u32_be_bytes(pair.1)
    }
}

/// The wire form of the numeric pairs from `i` on, after `acc`. The last
/// pair of the list, and no other, carries the end-of-list bit.
pub open spec fn wide_pairs_encoding(
    values: Seq<(NumericOperator, u32)>,
    i: int,
    acc: Seq<u8>,
) -> Seq<u8>
    decreases values.len() - i,
{
    if i < 0 || i >= values.len() {
        acc
    } else {
        wide_pairs_encoding(
            values,
            i + 1,
            acc + wide_pair_encoding(values[i], i + 1 == values.len()),
        )
    }
}

/// The wire form of one numeric pair with a one-byte value.
pub open spec fn narrow_pair_encoding(pair: (NumericOperator, u8), last: bool) -> Seq<u8> {
    seq![NumericOperator::with_length(with_eol(pair.0.bits, last), 1), pair.1]
}

/// The wire form of the one-byte numeric pairs from `i` on, after `acc`.
pub open spec fn narrow_pairs_encoding(
    values: Seq<(NumericOperator, u8)>,
    i: int,
    acc: Seq<u8>,
) -> Seq<u8>
    decreases values.len() - i,
{
    if i < 0 || i >= values.len() {
        acc
    } else {
        narrow_pairs_encoding(
            values,
            i + 1,
            acc + narrow_pair_encoding(values[i], i + 1 == values.len()),
        )
    }
}

/// The wire form of one bitmask pair whose value takes one byte if it
/// fits, and two if not.
pub open spec fn binary_pair_encoding(pair: (BinaryOperator, u16), last: bool) -> Seq<u8> {
    let bits = with_eol(pair.0.bits, last);
    if pair.1 <= 0xff {
        seq![BinaryOperator::with_length(bits, 1), pair.1 as u8]
    } else {
        seq![BinaryOperator::with_length(bits, 2)] + u16_be_bytes(pair.1)
    }
}

/// The wire form of the bitmask pairs from `i` on, after `acc`.
pub open spec fn binary_pairs_encoding(
    values: Seq<(BinaryOperator, u16)>,
    i: int,
    acc: Seq<u8>,
) -> Seq<u8>
    decreases values.len() - i,
{
    if i < 0 || i >= values.len() {
        acc
    } else {
        binary_pairs_encoding(
            values,
            i + 1,
            acc + binary_pair_encoding(values[i], i + 1 == values.len()),
        )
    }
}

/// The wire form of one fragment pair.
pub open spec fn fragment_pair_encoding(pair: (FragmentOperator, u8), last: bool) -> Seq<u8> {
    seq![with_eol(pair.0.bits, last), pair.1]
}

/// The wire form of the fragment pairs from `i` on, after `acc`.
pub open spec fn fragment_pairs_encoding(
    values: Seq<(FragmentOperator, u8)>,
    i: int,
    acc: Seq<u8>,
) -> Seq<u8>
    decreases values.len() - i,
{
    if i < 0 || i >= values.len() {
        acc
    } else {
        fragment_pairs_encoding(
            values,
            i + 1,
            acc + fragment_pair_encoding(values[i], i + 1 == values.len()),
        )
    }
}

/// The pairs read from `pos` on, after `acc`, each an operator octet and a
/// value of the width that the octet selects, up to and with the first
/// pair that carries the end-of-list bit; and the place after them. A
/// width of eight bytes is refused after the operator octet.
pub open spec fn wide_pairs_from(data: Seq<u8>, pos: int, acc: Seq<(u8, u32)>) -> Parsed<
    Seq<(u8, u32)>,
>
    decreases data.len() - pos,
{
    if !fits(data, pos, 1) {
        stop(Error::UnexpectedEof, pos)
    } else {
        let op = data[pos];
        let width = spec_find_length(op);
        if width == 1 {
            if !fits(data, pos + 1, 1) {
                stop(Error::UnexpectedEof, pos + 1)
            } else if spec_is_end_of_list(op) {
                done(acc.push((op, data[pos + 1] as u32)), pos + 2)
            } else {
                wide_pairs_from(data, pos + 2, acc.push((op, data[pos + 1] as u32)))
            }
        } else if width == 2 {
            if !fits(data, pos + 1, 2) {
                stop(Error::UnexpectedEof, pos + 1)
            } else if spec_is_end_of_list(op) {
                done(acc.push((op, u16_at(data, pos + 1) as u32)), pos + 3)
            } else {
                wide_pairs_from(data, pos + 3, acc.push((op, u16_at(data, pos + 1) as u32)))
            }
        } else if width == 4 {
            if !fits(data, pos + 1, 4) {
                stop(Error::UnexpectedEof, pos + 1)
            } else if spec_is_end_of_list(op) {
                done(acc.push((op, u32_at(data, pos + 1))), pos + 5)
            } else {
                wide_pairs_from(data, pos + 5, acc.push((op, u32_at(data, pos + 1))))
            }
        } else {
            stop(Error::MalformedNlri, pos + 1)
        }
    }
}

/// The pairs read from `pos` on, after `acc`, each an operator octet and a
/// one-byte value, up to and with the first pair that carries the
/// end-of-list bit; and the place after them.
pub open spec fn narrow_pairs_from(data: Seq<u8>, pos: int, acc: Seq<(u8, u8)>) -> Parsed<
    Seq<(u8, u8)>,
>
    decreases data.len() - pos,
{
    if !fits(data, pos, 2) {
        stop(Error::UnexpectedEof, pos)
    } else if spec_is_end_of_list(data[pos]) {
        done(acc.push((data[pos], data[pos + 1])), pos + 2)
    } else {
        narrow_pairs_from(data, pos + 2, acc.push((data[pos], data[pos + 1])))
    }
}

/// Raw pairs as numeric pairs: each octet becomes the operator it encodes.
pub open spec fn spec_into_num_op<T>(values: Seq<(u8, T)>) -> Seq<(NumericOperator, T)> {
    Seq::new(values.len(), |i: int| (NumericOperator { bits: values[i].0 }, values[i].1))
}

/// Raw pairs as bitmask pairs: each octet becomes the operator it
/// encodes, and each value keeps its low sixteen bits.
pub open spec fn spec_into_binary_op(values: Seq<(u8, u32)>) -> Seq<(BinaryOperator, u16)> {
    Seq::new(values.len(), |i: int| (BinaryOperator { bits: values[i].0 }, values[i].1 as u16))
}

/// Raw pairs as fragment pairs: each octet becomes the operator it encodes.
pub open spec fn spec_into_fragment_op(values: Seq<(u8, u8)>) -> Seq<(FragmentOperator, u8)> {
    Seq::new(values.len(), |i: int| (FragmentOperator { bits: values[i].0 }, values[i].1))
}

/// The prefix of a prefix component of family `afi`, read at `pos`, and
/// the place after it: a length in bits, an offset octet where the family
/// is IPv6, and the octets that the length covers.
pub open spec fn filter_prefix_at(data: Seq<u8>, pos: int, afi: AFI) -> Parsed<PrefixView> {
    let skip: int = if afi == AFI::IPV6 {
        2
    } else {
        1
    };
    if !fits(data, pos, skip) {
        stop(Error::UnexpectedEof, pos)
    } else {
        let length = data[pos];
        let octets = prefix_octets(length as int);
        if !fits(data, pos + skip, octets) {
            stop(Error::UnexpectedEof, pos + skip)
        } else {
            done(
                PrefixView { protocol: afi, length, prefix: bytes_at(data, pos + skip, octets) },
                pos + skip + octets,
            )
        }
    }
}

/// The component of family `afi` read at `pos`, and the place after it: a
/// type code, then a prefix or a list of pairs as the code says. A type
/// code outside 1 to 12 is refused after the code.
pub open spec fn spec_parse_filter(data: Seq<u8>, pos: int, afi: AFI) -> Parsed<
    FlowspecFilterView,
> {
    if !fits(data, pos, 1) {
        stop(Error::UnexpectedEof, pos)
    } else {
        let code = data[pos];
        if code == 1 || code == 2 {
            match filter_prefix_at(data, pos + 1, afi) {
                Err(e) => Err(e),
                Ok((prefix, end)) => done(
                    if code == 1 {
                        FlowspecFilterView::DestinationPrefix(prefix)
                    } else {
                        FlowspecFilterView::SourcePrefix(prefix)
                    },
                    end,
                ),
            }
        } else if 3 <= code <= 6 || 9 <= code <= 10 {
            match wide_pairs_from(data, pos + 1, Seq::empty()) {
                Err(e) => Err(e),
                Ok((values, end)) => done(
                    if code == 3 {
                        FlowspecFilterView::IpProtocol(spec_into_num_op(values))
                    } else if code == 4 {
                        FlowspecFilterView::Port(spec_into_num_op(values))
                    } else if code == 5 {
                        FlowspecFilterView::DestinationPort(spec_into_num_op(values))
                    } else if code == 6 {
                        FlowspecFilterView::SourcePort(spec_into_num_op(values))
                    } else if code == 9 {
                        FlowspecFilterView::TcpFlags(spec_into_binary_op(values))
                    } else {
                        FlowspecFilterView::PacketLength(spec_into_num_op(values))
                    },
                    end,
                ),
            }
        } else if 7 <= code <= 8 || 11 <= code <= 12 {
            match narrow_pairs_from(data, pos + 1, Seq::empty()) {
                Err(e) => Err(e),
                Ok((values, end)) => done(
                    if code == 7 {
                        FlowspecFilterView::IcmpType(spec_into_num_op(values))
                    } else if code == 8 {
                        FlowspecFilterView::IcmpCode(spec_into_num_op(values))
                    } else if code == 11 {
                        FlowspecFilterView::DSCP(spec_into_num_op(values))
                    } else {
                        FlowspecFilterView::Fragment(spec_into_fragment_op(values))
                    },
                    end,
                ),
            }
        } else {
            stop(Error::UnsupportedFlowspecFilter(code), pos + 1)
        }
    }
}

/// Turns raw pairs into numeric pairs.
pub fn into_num_op<T: Copy>(values: Vec<(u8, T)>) -> (r: Vec<(NumericOperator, T)>)
    ensures
        r@ == spec_into_num_op(values@),
{
    let mut out: Vec<(NumericOperator, T)> = Vec::new();
    let mut i: usize = 0;
    while i < values.len()
        invariant
            i <= values.len(),
            out@ == spec_into_num_op(values@.subrange(0, i as int)),
        decreases values.len() - i,
    {
        let pair = values[i];
        out.push((NumericOperator { bits: pair.0 }, pair.1));
        i = i + 1;
        assert(out@ =~= spec_into_num_op(values@.subrange(0, i as int)));
    }
    assert(values@.subrange(0, i as int) =~= values@);
    out
}

/// Turns raw pairs into bitmask pairs, keeping the low sixteen bits of
/// each value.
fn into_binary_op(values: Vec<(u8, u32)>) -> (r: Vec<(BinaryOperator, u16)>)
    ensures
        r@ == spec_into_binary_op(values@),
{
    let mut out: Vec<(BinaryOperator, u16)> = Vec::new();
    let mut i: usize = 0;
    while i < values.len()
        invariant
            i <= values.len(),
            out@ == spec_into_binary_op(values@.subrange(0, i as int)),
        decreases values.len() - i,
    {
        let pair = values[i];
        out.push((BinaryOperator { bits: pair.0 }, #[verifier::truncate] (pair.1 as u16)));
        i = i + 1;
        assert(out@ =~= spec_into_binary_op(values@.subrange(0, i as int)));
    }
    assert(values@.subrange(0, i as int) =~= values@);
    out
}

/// Turns raw pairs into fragment pairs.
fn into_fragment_op(values: Vec<(u8, u8)>) -> (r: Vec<(FragmentOperator, u8)>)
    ensures
        r@ == spec_into_fragment_op(values@),
{
    let mut out: Vec<(FragmentOperator, u8)> = Vec::new();
    let mut i: usize = 0;
    while i < values.len()
        invariant
            i <= values.len(),
            out@ == spec_into_fragment_op(values@.subrange(0, i as int)),
        decreases values.len() - i,
    {
        let pair = values[i];
        out.push((FragmentOperator { bits: pair.0 }, pair.1));
        i = i + 1;
        assert(out@ =~= spec_into_fragment_op(values@.subrange(0, i as int)));
    }
    assert(values@.subrange(0, i as int) =~= values@);
    out
}

/// Reads pairs of an operator octet and a value of the width it selects,
/// up to and with the first that carries the end-of-list bit.
fn parse_wide_pairs(stream: &mut Cursor) -> (r: Result<Vec<(u8, u32)>, Error>)
    ensures
        final(stream).data == old(stream).data,
        match r {
            Ok(v) => wide_pairs_from(old(stream).data@, old(stream).at(), Seq::empty()) == done(
                v@,
                final(stream).at(),
            ),
            Err(e) => wide_pairs_from(old(stream).data@, old(stream).at(), Seq::empty())
                == stop::<Seq<(u8, u32)>>(e, final(stream).at()),
        },
{
    let mut values: Vec<(u8, u32)> = Vec::new();
    let ghost data = stream.data@;
    let ghost start = stream.pos as int;
    loop
        invariant
            stream.data == old(stream).data,
            data == stream.data@,
            start == old(stream).pos,
            wide_pairs_from(data, start, Seq::empty()) == wide_pairs_from(
                data,
                stream.pos as int,
                values@,
            ),
        decreases data.len() - stream.pos,
    {
        let operator = stream.read_u8()?;
        let length = find_length(operator);
        let value: u32 = if length == 1 {
            stream.read_u8()? as u32
        } else if length == 2 {
            stream.read_u16()? as u32
        } else if length == 4 {
            stream.read_u32()?
        } else {
            return Err(Error::MalformedNlri);
        };
        values.push((operator, value));
        if is_end_of_list(operator) {
            return Ok(values);
        }
    }
}

/// Reads pairs of an operator octet and a one-byte value, up to and with
/// the first that carries the end-of-list bit.
fn parse_narrow_pairs(stream: &mut Cursor) -> (r: Result<Vec<(u8, u8)>, Error>)
    ensures
        final(stream).data == old(stream).data,
        match r {
            Ok(v) => narrow_pairs_from(old(stream).data@, old(stream).at(), Seq::empty()) == done(
                v@,
                final(stream).at(),
            ),
            Err(e) => narrow_pairs_from(old(stream).data@, old(stream).at(), Seq::empty())
                == stop::<Seq<(u8, u8)>>(e, final(stream).at()),
        },
{
    let mut values: Vec<(u8, u8)> = Vec::new();
    let ghost data = stream.data@;
    let ghost start = stream.pos as int;
    loop
        invariant
            stream.data == old(stream).data,
            data == stream.data@,
            start == old(stream).pos,
            narrow_pairs_from(data, start, Seq::empty()) == narrow_pairs_from(
                data,
                stream.pos as int,
                values@,
            ),
        decreases data.len() - stream.pos,
    {
        let pair = stream.read_exact(2)?;
        let operator = pair[0];
        let value = pair[1];
        values.push((operator, value));
        if is_end_of_list(operator) {
            return Ok(values);
        }
    }
}

/// Reads the prefix of a prefix component of family `afi`.
fn parse_filter_prefix(stream: &mut Cursor, afi: AFI) -> (r: Result<Prefix, Error>)
    ensures
        final(stream).data == old(stream).data,
        match r {
            Ok(p) => filter_prefix_at(old(stream).data@, old(stream).at(), afi) == done(
                p@,
                final(stream).at(),
            ),
            Err(e) => filter_prefix_at(old(stream).data@, old(stream).at(), afi) == stop::<
                PrefixView,
            >(e, final(stream).at()),
        },
{
    let head = stream.read_exact(
        if afi == AFI::IPV6 {
            2
        } else {
            1
        },
    )?;
    let prefix_length = head[0];
    let octets = stream.read_exact((prefix_length as usize + 7) / 8)?;
    Ok(Prefix::new(afi, prefix_length, to_vec(octets)))
}

impl FlowspecFilter {
    /// The type code of the component.
    pub fn code(&self) -> (r: u8)
        ensures
            r == self@.code(),
    {
        match self {
            FlowspecFilter::DestinationPrefix(_) => 1,
            FlowspecFilter::SourcePrefix(_) => 2,
            FlowspecFilter::IpProtocol(_) => 3,
            FlowspecFilter::Port(_) => 4,
            FlowspecFilter::DestinationPort(_) => 5,
            FlowspecFilter::SourcePort(_) => 6,
            FlowspecFilter::IcmpType(_) => 7,
            FlowspecFilter::IcmpCode(_) => 8,
            FlowspecFilter::TcpFlags(_) => 9,
            FlowspecFilter::PacketLength(_) => 10,
            FlowspecFilter::DSCP(_) => 11,
            FlowspecFilter::Fragment(_) => 12,
        }
    }

    /// Reads one component of a flow specification of family `afi`. Where
    /// that fails, the stream is left where reading stopped.
    pub fn parse(stream: &mut Cursor, afi: AFI) -> (r: Result<Self, Error>)
        ensures
            final(stream).data == old(stream).data,
            match r {
                Ok(f) => spec_parse_filter(old(stream).data@, old(stream).at(), afi) == done(
                    f@,
                    final(stream).at(),
                ),
                Err(e) => spec_parse_filter(old(stream).data@, old(stream).at(), afi) == stop::<
                    FlowspecFilterView,
                >(e, final(stream).at()),
            },
    {
        let filter_type = stream.read_u8()?;
        let filter = if filter_type == 1 || filter_type == 2 {
            let prefix = parse_filter_prefix(stream, afi)?;
            if filter_type == 1 {
                FlowspecFilter::DestinationPrefix(prefix)
            } else {
                FlowspecFilter::SourcePrefix(prefix)
            }
        } else if (3 <= filter_type && filter_type <= 6) || (9 <= filter_type && filter_type
            <= 10) {
            let values = parse_wide_pairs(stream)?;
            if filter_type == 3 {
                FlowspecFilter::IpProtocol(into_num_op(values))
            } else if filter_type == 4 {
                FlowspecFilter::Port(into_num_op(values))
            } else if filter_type == 5 {
                FlowspecFilter::DestinationPort(into_num_op(values))
            } else if filter_type == 6 {
                FlowspecFilter::SourcePort(into_num_op(values))
            } else if filter_type == 9 {
                FlowspecFilter::TcpFlags(into_binary_op(values))
            } else {
                FlowspecFilter::PacketLength(into_num_op(values))
            }
        } else if (7 <= filter_type && filter_type <= 8) || (11 <= filter_type && filter_type
            <= 12) {
            let values = parse_narrow_pairs(stream)?;
            if filter_type == 7 {
                FlowspecFilter::IcmpType(into_num_op(values))
            } else if filter_type == 8 {
                FlowspecFilter::IcmpCode(into_num_op(values))
            } else if filter_type == 11 {
                FlowspecFilter::DSCP(into_num_op(values))
            } else {
                FlowspecFilter::Fragment(into_fragment_op(values))
            }
        } else {
            return Err(Error::UnsupportedFlowspecFilter(filter_type));
        };
        Ok(filter)
    }
}

/// Writes numeric pairs, each value in the fewest of one, two and four
/// bytes that hold it.
fn encode_wide_pairs(values: &Vec<(NumericOperator, u32)>) -> (r: Vec<u8>)
    ensures
        r@ == wide_pairs_encoding(values@, 0, Seq::empty()),
{
    let mut out: Vec<u8> = Vec::new();
    let mut i: usize = 0;
    while i < values.len()
        invariant
            i <= values.len(),
            wide_pairs_encoding(values@, 0, Seq::empty()) == wide_pairs_encoding(
                values@,
                i as int,
                out@,
            ),
        decreases values.len() - i,
    {
        let ghost before = out@;
        let (mut oper, value) = values[i];
        if i + 1 == values.len() {
            oper.set_eol();
        } else {
            oper.unset_eol();
        }
        if value <= 0xff {
            oper.set_length(1);
            push_u8(&mut out, oper.bits());
            push_u8(&mut out, value as u8);
        } else if value <= 0xffff {
            oper.set_length(2);
            push_u8(&mut out, oper.bits());
            push_u16(&mut out, value as u16);
        } else {
            oper.set_length(4);
            push_u8(&mut out, oper.bits());
            push_u32(&mut out, value);
        }
        assert(out@ =~= before + wide_pair_encoding(values@[i as int], i + 1 == values.len()));
        i = i + 1;
    }
    out
}

/// Writes numeric pairs with one-byte values.
fn encode_narrow_pairs(values: &Vec<(NumericOperator, u8)>) -> (r: Vec<u8>)
    ensures
        r@ == narrow_pairs_encoding(values@, 0, Seq::empty()),
{
    let mut out: Vec<u8> = Vec::new();
    let mut i: usize = 0;
    while i < values.len()
        invariant
            i <= values.len(),
            narrow_pairs_encoding(values@, 0, Seq::empty()) == narrow_pairs_encoding(
                values@,
                i as int,
                out@,
            ),
        decreases values.len() - i,
    {
        let ghost before = out@;
        let (mut oper, value) = values[i];
        if i + 1 == values.len() {
            oper.set_eol();
        } else {
            oper.unset_eol();
        }
        oper.set_length(1);
        push_u8(&mut out, oper.bits());
        push_u8(&mut out, value);
        assert(out@ =~= before + narrow_pair_encoding(values@[i as int], i + 1 == values.len()));
        i = i + 1;
    }
    out
}

/// Writes bitmask pairs, each value in one byte if it fits and in two if
/// not.
fn encode_binary_pairs(values: &Vec<(BinaryOperator, u16)>) -> (r: Vec<u8>)
    ensures
        r@ == binary_pairs_encoding(values@, 0, Seq::empty()),
{
    let mut out: Vec<u8> = Vec::new();
    let mut i: usize = 0;
    while i < values.len()
        invariant
            i <= values.len(),
            binary_pairs_encoding(values@, 0, Seq::empty()) == binary_pairs_encoding(
                values@,
                i as int,
                out@,
            ),
        decreases values.len() - i,
    {
        let ghost before = out@;
        let (mut oper, value) = values[i];
        if i + 1 == values.len() {
            oper.set_eol();
        } else {
            oper.unset_eol();
        }
        if value <= 0xff {
            oper.set_length(1);
            push_u8(&mut out, oper.bits());
            push_u8(&mut out, value as u8);
        } else {
            oper.set_length(2);
            push_u8(&mut out, oper.bits());
            push_u16(&mut out, value);
        }
        assert(out@ =~= before + binary_pair_encoding(values@[i as int], i + 1 == values.len()));
        i = i + 1;
    }
    out
}

/// Writes fragment pairs.
fn encode_fragment_pairs(values: &Vec<(FragmentOperator, u8)>) -> (r: Vec<u8>)
    ensures
        r@ == fragment_pairs_encoding(values@, 0, Seq::empty()),
{
    let mut out: Vec<u8> = Vec::new();
    let mut i: usize = 0;
    while i < values.len()
        invariant
            i <= values.len(),
            fragment_pairs_encoding(values@, 0, Seq::empty()) == fragment_pairs_encoding(
                values@,
                i as int,
                out@,
            ),
        decreases values.len() - i,
    {
        let ghost before = out@;
        let (mut oper, value) = values[i];
        if i + 1 == values.len() {
            oper.set_eol();
        } else {
            oper.unset_eol();
        }
        push_u8(&mut out, oper.bits());
        push_u8(&mut out, value);
        assert(out@ =~= before + fragment_pair_encoding(values@[i as int], i + 1 == values.len()));
        i = i + 1;
    }
    out
}

/// Writes the body of a prefix component.
fn encode_filter_prefix(prefix: &Prefix) -> (r: Result<Vec<u8>, Error>)
    ensures
        match r {
            Ok(v) => prefix_body(prefix@) == Ok::<Seq<u8>, Error>(v@),
            Err(e) => prefix_body(prefix@) == Err::<Seq<u8>, Error>(e),
        },
{
    if !prefix.is_wf() {
        return Err(Error::UnsupportedEncoding);
    }
    let mut out: Vec<u8> = Vec::new();
    push_u8(&mut out, prefix.length);
    if prefix.protocol == AFI::IPV6 {
        push_u8(&mut out, 0);
    }
    let octets = prefix.wire_octets();
    push_bytes(&mut out, octets.as_slice());
    proof {
        let p = prefix@;
        if p.protocol == AFI::IPV6 {
            assert(out@ =~= seq![p.length, 0u8] + p.wire_octets());
        } else {
            assert(out@ =~= seq![p.length] + p.wire_octets());
        }
    }
    Ok(out)
}

impl FlowspecFilter {
    /// The bytes that follow the type code.
    fn encode_body(&self) -> (r: Result<Vec<u8>, Error>)
        ensures
            match r {
                Ok(v) => self@.body() == Ok::<Seq<u8>, Error>(v@),
                Err(e) => self@.body() == Err::<Seq<u8>, Error>(e),
            },
    {
        match self {
            FlowspecFilter::DestinationPrefix(p) => encode_filter_prefix(p),
            FlowspecFilter::SourcePrefix(p) => encode_filter_prefix(p),
            FlowspecFilter::IpProtocol(v) => Ok(encode_wide_pairs(v)),
            FlowspecFilter::Port(v) => Ok(encode_wide_pairs(v)),
            FlowspecFilter::DestinationPort(v) => Ok(encode_wide_pairs(v)),
            FlowspecFilter::SourcePort(v) => Ok(encode_wide_pairs(v)),
            FlowspecFilter::IcmpType(v) => Ok(encode_narrow_pairs(v)),
            FlowspecFilter::IcmpCode(v) => Ok(encode_narrow_pairs(v)),
            FlowspecFilter::TcpFlags(v) => Ok(encode_binary_pairs(v)),
            FlowspecFilter::PacketLength(v) => Ok(encode_wide_pairs(v)),
            FlowspecFilter::DSCP(v) => Ok(encode_narrow_pairs(v)),
            FlowspecFilter::Fragment(v) => Ok(encode_fragment_pairs(v)),
        }
    }

    /// Appends the wire form of the component to `buf`: its type code, then
    /// a prefix or value pairs, the last pair marked as the end of the
    /// list.
    pub fn encode(&self, buf: &mut Vec<u8>) -> (r: Result<(), Error>)
        ensures
            appended(old(buf)@, final(buf)@, r, self@.encoding()),
    {
        let body = self.encode_body()?;
        push_u8(buf, self.code());
        push_bytes(buf, body.as_slice());
        assert(buf@ =~= old(buf)@ + (seq![self@.code()] + body@));
        Ok(())
    }
}

/// A list of width-selected pairs that was read ends after the place it
/// started at, and within the bytes.
pub proof fn lemma_wide_pairs_advance(data: Seq<u8>, pos: int, acc: Seq<(u8, u32)>)
    ensures
        wide_pairs_from(data, pos, acc) matches Ok((_, end)) ==> pos < end <= data.len(),
    decreases data.len() - pos,
{
    if fits(data, pos, 1) {
        let op = data[pos];
        let width = spec_find_length(op);
        if width == 1 && fits(data, pos + 1, 1) && !spec_is_end_of_list(op) {
            lemma_wide_pairs_advance(data, pos + 2, acc.push((op, data[pos + 1] as u32)));
        } else if width == 2 && fits(data, pos + 1, 2) && !spec_is_end_of_list(op) {
            lemma_wide_pairs_advance(data, pos + 3, acc.push((op, u16_at(data, pos + 1) as u32)));
        } else if width == 4 && fits(data, pos + 1, 4) && !spec_is_end_of_list(op) {
            lemma_wide_pairs_advance(data, pos + 5, acc.push((op, u32_at(data, pos + 1))));
        }
    }
}

/// A list of one-byte pairs that was read ends after the place it started
/// at, and within the bytes.
pub proof fn lemma_narrow_pairs_advance(data: Seq<u8>, pos: int, acc: Seq<(u8, u8)>)
    ensures
        narrow_pairs_from(data, pos, acc) matches Ok((_, end)) ==> pos < end <= data.len(),
    decreases data.len() - pos,
{
    if fits(data, pos, 2) && !spec_is_end_of_list(data[pos]) {
        lemma_narrow_pairs_advance(data, pos + 2, acc.push((data[pos], data[pos + 1])));
    }
}

/// A component that was read ends after the place it started at, and
/// within the bytes.
pub proof fn lemma_filter_advance(data: Seq<u8>, pos: int, afi: AFI)
    ensures
        spec_parse_filter(data, pos, afi) matches Ok((_, end)) ==> pos < end <= data.len(),
{
    lemma_wide_pairs_advance(data, pos + 1, Seq::empty());
    lemma_narrow_pairs_advance(data, pos + 1, Seq::empty());
}

/// An operator that can be shown to people.
pub trait OperatorText: Copy {
    /// The sign of the operator.
    spec fn text(&self) -> Seq<char>;

    /// The sign of the operator.
    fn to_string(&self) -> (r: String)
        ensures
            r@ == self.text(),
    ;
}

/// A value that can be shown to people in decimal.
pub trait DecimalValue: Copy {
    /// The value as a number.
    spec fn number(&self) -> nat;

    /// The value as a number.
    fn to_u32(&self) -> (r: u32)
        ensures
            r == self.number(),
    ;
}

impl DecimalValue for u8 {
    open spec fn number(&self) -> nat {
        *self as nat
    }

    fn to_u32(&self) -> (r: u32) {
        *self as u32
    }
}

impl DecimalValue for u16 {
    open spec fn number(&self) -> nat {
        *self as nat
    }

    fn to_u32(&self) -> (r: u32) {
        *self as u32
    }
}

impl DecimalValue for u32 {
    open spec fn number(&self) -> nat {
        *self as nat
    }

    fn to_u32(&self) -> (r: u32) {
        *self
    }
}

impl OperatorText for NumericOperator {
    /// `&& ` where the pair must hold together with the one before it;
    /// then `<` for less, or else `>` for greater; then `=` for equal.
    open spec fn text(&self) -> Seq<char> {
        (if self.bits & 0x40 == 0x40 {
            seq!['&', '&', ' ']
        } else {
            Seq::empty()
        }) + (if self.bits & 0x04 == 0x04 {
            seq!['<']
        } else if self.bits & 0x02 == 0x02 {
            seq!['>']
        } else {
            Seq::empty()
        }) + (if self.bits & 0x01 == 0x01 {
            seq!['=']
        } else {
            Seq::empty()
        })
    }

    fn to_string(&self) -> (r: String) {
        proof {
            reveal_strlit("&& ");
            reveal_strlit("<");
            reveal_strlit(">");
            reveal_strlit("=");
        }
        let mut out = String::new();
        if self.contains(NumericOperator::AND) {
            out.append("&& ");
        }
        if self.contains(NumericOperator::LT) {
            out.append("<");
        } else if self.contains(NumericOperator::GT) {
            out.append(">");
        }
        if self.contains(NumericOperator::EQ) {
            out.append("=");
        }
        assert(out@ =~= self.text());
        out
    }
}

impl OperatorText for BinaryOperator {
    /// `&& ` where the pair must hold together with the one before it;
    /// then `=` for a match, or else `!` for a negated one.
    open spec fn text(&self) -> Seq<char> {
        (if self.bits & 0x40 == 0x40 {
            seq!['&', '&', ' ']
        } else {
            Seq::empty()
        }) + (if self.bits & 0x01 == 0x01 {
            seq!['=']
        } else if self.bits & 0x02 == 0x02 {
            seq!['!']
        } else {
            Seq::empty()
        })
    }

    fn to_string(&self) -> (r: String) {
        proof {
            reveal_strlit("&& ");
            reveal_strlit("=");
            reveal_strlit("!");
        }
        let mut out = String::new();
        if self.contains(BinaryOperator::AND) {
            out.append("&& ");
        }
        if self.contains(BinaryOperator::MATCH) {
            out.append("=");
        } else if self.contains(BinaryOperator::NOT) {
            out.append("!");
        }
        assert(out@ =~= self.text());
        out
    }
}

impl OperatorText for FragmentOperator {
    /// The name of the first fragment flag that is set, in the order
    /// do-not-fragment, is-a-fragment, first, last.
    open spec fn text(&self) -> Seq<char> {
        if self.bits & 0x01 == 0x01 {
            "Do-Not-Frag "@
        } else if self.bits & 0x02 == 0x02 {
            "Is Frag"@
        } else if self.bits & 0x04 == 0x04 {
            "First "@
        } else if self.bits & 0x08 == 0x08 {
            "Last "@
        } else {
            Seq::empty()
        }
    }

    fn to_string(&self) -> (r: String) {
        let mut out = String::new();
        if self.contains(FragmentOperator::DF) {
            out.append("Do-Not-Frag ");
        } else if self.contains(FragmentOperator::IF) {
            out.append("Is Frag");
        } else if self.contains(FragmentOperator::FF) {
            out.append("First ");
        } else if self.contains(FragmentOperator::LF) {
            out.append("Last ");
        }
        assert(out@ =~= self.text());
        out
    }
}

/// The pairs from `i` on as text, after `acc`: for each the sign of its
/// operator and its value in decimal, with a comma and a blank between
/// the pairs.
pub open spec fn pairs_text<O: OperatorText, T: DecimalValue>(
    values: Seq<(O, T)>,
    i: int,
    acc: Seq<char>,
) -> Seq<char>
    decreases values.len() - i,
{
    if i < 0 || i >= values.len() {
        acc
    } else if i == 0 {
        pairs_text(values, i + 1, acc + values[i].0.text() + decimal(values[i].1.number()))
    } else {
        pairs_text(
            values,
            i + 1,
            acc + seq![',', ' '] + values[i].0.text() + decimal(values[i].1.number()),
        )
    }
}

/// A list of pairs as text: a name, a blank, and the pairs.
pub open spec fn spec_value_display<O: OperatorText, T: DecimalValue>(
    name: Seq<char>,
    values: Seq<(O, T)>,
) -> Seq<char> {
    pairs_text(values, 0, name + seq![' '])
}

/// A list of pairs as text: a name, a blank, and the pairs.
pub fn value_display<O: OperatorText, T: DecimalValue>(name: &str, value: &Vec<(O, T)>) -> (r:
    String)
    ensures
        r@ == spec_value_display(name@, value@),
{
    proof {
        reveal_strlit(" ");
        reveal_strlit(", ");
    }
    let mut out = String::from_str(name);
    out.append(" ");
    assert(out@ =~= name@ + seq![' ']);
    let mut i: usize = 0;
    while i < value.len()
        invariant
            i <= value.len(),
            spec_value_display(name@, value@) == pairs_text(value@, i as int, out@),
        decreases value.len() - i,
    {
        let ghost before = out@;
        if i != 0 {
            proof {
                reveal_strlit(", ");
            }
            out.append(", ");
            assert(out@ =~= before + seq![',', ' ']);
        }
        let op = value[i].0.to_string();
        out.append(op.as_str());
        push_decimal(&mut out, value[i].1.to_u32());
        i = i + 1;
    }
    out
}

impl FlowspecFilterView {
    /// The component as text: a name, and the prefix in CIDR notation or
    /// the pairs.
    pub open spec fn text(self) -> Seq<char> {
        match self {
            FlowspecFilterView::DestinationPrefix(p) => "Dst "@ + p.text(),
            FlowspecFilterView::SourcePrefix(p) => "Src "@ + p.text(),
            FlowspecFilterView::IpProtocol(v) => spec_value_display("Protocol"@, v),
            FlowspecFilterView::DestinationPort(v) => spec_value_display("DstPort"@, v),
            FlowspecFilterView::SourcePort(v) => spec_value_display("SrcPort"@, v),
            FlowspecFilterView::Port(v) => spec_value_display("Port"@, v),
            FlowspecFilterView::PacketLength(v) => spec_value_display("Packet Length"@, v),
            FlowspecFilterView::IcmpCode(v) => spec_value_display("Icmp Code"@, v),
            FlowspecFilterView::IcmpType(v) => spec_value_display("Icmp type"@, v),
            FlowspecFilterView::DSCP(v) => spec_value_display("DSCP"@, v),
            FlowspecFilterView::TcpFlags(v) => spec_value_display("TCP Flags"@, v),
            FlowspecFilterView::Fragment(v) => spec_value_display("Fragment"@, v),
        }
    }

    /// Whether the prefix of a prefix component is of an IP family.
    pub open spec fn has_address(self) -> bool {
        match self {
            FlowspecFilterView::DestinationPrefix(p) => p.protocol.max_prefix_bits() is Some,
            FlowspecFilterView::SourcePrefix(p) => p.protocol.max_prefix_bits() is Some,
            _ => true,
        }
    }
}

/// A name before the text of a prefix.
fn named_prefix(name: &str, prefix: &Prefix) -> (r: String)
    requires
        prefix.protocol.max_prefix_bits() is Some,
    ensures
        r@ == name@ + prefix@.text(),
{
    let mut out = String::from_str(name);
    let text = prefix.to_string();
    out.append(text.as_str());
    out
}

impl FlowspecFilter {
    /// The component as text.
    pub fn to_string(&self) -> (r: String)
        requires
            self@.has_address(),
        ensures
            r@ == self@.text(),
    {
        match self {
            FlowspecFilter::DestinationPrefix(prefix) => named_prefix("Dst ", prefix),
            FlowspecFilter::SourcePrefix(prefix) => named_prefix("Src ", prefix),
            FlowspecFilter::IpProtocol(values) => value_display("Protocol", values),
            FlowspecFilter::DestinationPort(values) => value_display("DstPort", values),
            FlowspecFilter::SourcePort(values) => value_display("SrcPort", values),
            FlowspecFilter::Port(values) => value_display("Port", values),
            FlowspecFilter::PacketLength(values) => value_display("Packet Length", values),
            FlowspecFilter::IcmpCode(values) => value_display("Icmp Code", values),
            FlowspecFilter::IcmpType(values) => value_display("Icmp type", values),
            FlowspecFilter::DSCP(values) => value_display("DSCP", values),
            FlowspecFilter::TcpFlags(values) => value_display("TCP Flags", values),
            FlowspecFilter::Fragment(values) => value_display("Fragment", values),
        }
    }
}

} // verus!
