//! Address prefixes and their wire form.

use crate::error::{done, stop, Error, Parsed};
use crate::family::AFI;
use crate::stream::{bytes_at, fits, Cursor};
use crate::text::{canonical_v6, decimal, dotted, push_canonical_v6, push_decimal, push_dotted};
use crate::util::{
    clear_trailing_bits, lemma_clear_trailing_bits, prefix_octets, spec_clear_trailing_bits,
    spec_has_trailing_bits,
};
use vstd::prelude::*;
use vstd::slice::slice_subrange;
use vstd::string::StringExecFns;

verus! {

/// A prefix of an address family: a length in bits and the octets that
/// hold them, most significant first.
#[derive(Debug, PartialEq, Eq)]
pub struct Prefix {
    /// The address family of the prefix.
    pub protocol: AFI,
    /// The length of the prefix in bits.
    pub length: u8,
    /// The octets of the prefix.
    pub prefix: Vec<u8>,
}

/// What a `Prefix` holds, as mathematical values.
pub struct PrefixView {
    /// The address family of the prefix.
    pub protocol: AFI,
    /// The length of the prefix in bits.
    pub length: u8,
    /// The octets of the prefix.
    pub prefix: Seq<u8>,
}

impl View for Prefix {
    type V = PrefixView;

    open spec fn view(&self) -> PrefixView {
        PrefixView { protocol: self.protocol, length: self.length, prefix: self.prefix@ }
    }
}

impl Clone for Prefix {
    fn clone(&self) -> (r: Self)
        ensures
            r@ == self@,
    {
        Prefix { protocol: self.protocol, length: self.length, prefix: self.prefix.clone() }
    }
}

impl PrefixView {
    /// The number of octets that the length in bits covers.
    pub open spec fn octet_length(self) -> int {
        prefix_octets(self.length as int)
    }

    /// Whether the prefix holds every octet that its length covers.
    pub open spec fn wf(self) -> bool {
        self.prefix.len() >= self.octet_length()
    }

    /// The octets that the length covers, each of them whole: the bits of
    /// the last octet that lie beyond the length are as the prefix holds
    /// them.
    pub open spec fn covered_octets(self) -> Seq<u8>
        recommends
            self.wf(),
    {
        self.prefix.subrange(0, self.octet_length())
    }

    /// Whether no bit is set beyond the length in the last octet that the
    /// length covers.
    pub open spec fn masked(self) -> bool
        recommends
            self.wf(),
    {
        self.octet_length() == 0 || !spec_has_trailing_bits(
            self.prefix[self.octet_length() - 1],
            self.length,
        )
    }

    /// The octets that the prefix is written as: the octets that the
    /// length covers, with the bits beyond the length cleared in the last
    /// of them.
    pub open spec fn wire_octets(self) -> Seq<u8>
        recommends
            self.wf(),
    {
        Seq::new(
            self.octet_length() as nat,
            |i: int|
                if i == self.octet_length() - 1 {
                    spec_clear_trailing_bits(self.prefix[i], self.length)
                } else {
                    self.prefix[i]
                },
        )
    }

    /// The wire form of the prefix: its length in bits, then the octets
    /// that the length covers, without the bits beyond the length.
    pub open spec fn encoding(self) -> Seq<u8>
        recommends
            self.wf(),
    {
        seq![self.length] + self.wire_octets()
    }

    /// The prefix in CIDR notation: its address in the text form of its
    /// family, a slash, and its length in decimal.
    pub open spec fn text(self) -> Seq<char>
        recommends
            self.protocol.max_prefix_bits() is Some,
    {
        (if self.protocol == AFI::IPV4 {
            dotted(self.address(4))
        } else {
            canonical_v6(self.address(16))
        }) + seq!['/'] + decimal(self.length as nat)
    }

    /// The prefix with the octets that its length covers and no others,
    /// and with no bit set beyond its length.
    pub open spec fn canonical(self) -> PrefixView
        recommends
            self.wf(),
    {
        PrefixView { protocol: self.protocol, length: self.length, prefix: self.wire_octets() }
    }

    /// The address that the prefix stands for: its octets, cut or filled up
    /// with zero octets to `size` octets.
    pub open spec fn address(self, size: int) -> Seq<u8> {
        Seq::new(
            size as nat,
            |i: int|
                if i < self.prefix.len() {
                    self.prefix[i]
                } else {
                    0u8
                },
        )
    }
}

/// What reading a prefix of `protocol` at `pos` gives: the prefix and the
/// place after it. The length octet comes first; a family without IP
/// prefixes is refused, and so is a length above the family's maximum,
/// both after the length octet and before any octet of the prefix.
pub open spec fn spec_parse_prefix(data: Seq<u8>, pos: int, protocol: AFI) -> Parsed<PrefixView> {
    if !fits(data, pos, 1) {
        stop(Error::UnexpectedEof, pos)
    } else {
        match protocol.max_prefix_bits() {
            None => stop(Error::UnsupportedAfi(protocol.code()), pos + 1),
            Some(max) => {
                let length = data[pos];
                let octets = prefix_octets(length as int);
                if length > max {
                    stop(Error::MalformedNlri, pos + 1)
                } else if !fits(data, pos + 1, octets) {
                    stop(Error::UnexpectedEof, pos + 1)
                } else {
                    done(
                        PrefixView { protocol, length, prefix: bytes_at(data, pos + 1, octets) },
                        pos + 1 + octets,
                    )
                }
            },
        }
    }
}

/// Copies a slice into a vector of its own.
pub fn to_vec(bytes: &[u8]) -> (r: Vec<u8>)
    ensures
        r@ == bytes@,
{
    let mut out: Vec<u8> = Vec::new();
    out.extend_from_slice(bytes);
    assert(out@ =~= bytes@);
    out
}

/// Copies a list of plain values.
pub fn copy_vec<T: Copy>(values: &Vec<T>) -> (r: Vec<T>)
    ensures
        r@ == values@,
{
    let mut out: Vec<T> = Vec::new();
    let mut i: usize = 0;
    while i < values.len()
        invariant
            i <= values.len(),
            out@ == values@.subrange(0, i as int),
        decreases values.len() - i,
    {
        out.push(values[i]);
        i = i + 1;
        assert(out@ =~= values@.subrange(0, i as int));
    }
    assert(out@ =~= values@);
    out
}

impl Prefix {
    /// A prefix of the given family, length in bits and octets.
    pub fn new(protocol: AFI, length: u8, prefix: Vec<u8>) -> (r: Self)
        ensures
            r.protocol == protocol,
            r.length == length,
            r.prefix == prefix,
    {
        Prefix { protocol, length, prefix }
    }

    /// The number of octets that the length in bits covers.
    pub fn octet_length(&self) -> (r: usize)
        ensures
            r == self@.octet_length(),
    {
        (self.length as usize + 7) / 8
    }

    /// Whether the prefix holds every octet that its length covers.
    pub fn is_wf(&self) -> (r: bool)
        ensures
            r == self@.wf(),
    {
        self.prefix.len() >= self.octet_length()
    }

    /// The octets that the length covers, each of them whole.
    pub fn masked_octets(&self) -> (r: &[u8])
        requires
            self@.wf(),
        ensures
            r@ == self@.covered_octets(),
    {
        slice_subrange(self.prefix.as_slice(), 0, self.octet_length())
    }

    /// The octets that the prefix is written as: those that the length
    /// covers, with the bits beyond the length cleared in the last.
    pub fn wire_octets(&self) -> (r: Vec<u8>)
        requires
            self@.wf(),
        ensures
            r@ == self@.wire_octets(),
    {
        let n = self.octet_length();
        let mut out: Vec<u8> = Vec::new();
        let mut i: usize = 0;
        while i < n
            invariant
                i <= n,
                n == self@.octet_length(),
                n <= self.prefix@.len(),
                out@ == self@.wire_octets().subrange(0, i as int),
            decreases n - i,
        {
            let b: u8 = if i + 1 == n {
                clear_trailing_bits(self.prefix[i], self.length)
            } else {
                self.prefix[i]
            };
            out.push(b);
            i = i + 1;
            assert(out@ =~= self@.wire_octets().subrange(0, i as int));
        }
        assert(out@ =~= self@.wire_octets());
        out
    }

    /// The address that the prefix stands for: 4 octets for IPv4 and 16
    /// for IPv6, the octets of the prefix first and zero octets after
    /// them. A family without IP prefixes has no address.
    pub fn address(&self) -> (r: Option<Vec<u8>>)
        ensures
            match r {
                Some(a) => self.protocol.max_prefix_bits() matches Some(bits) && a@
                    == self@.address(bits as int / 8),
                None => self.protocol.max_prefix_bits() is None,
            },
    {
        let size: usize = match self.protocol.max_prefix_bits() {
            Some(bits) => bits as usize / 8,
            None => {
                return None;
            },
        };
        let mut out: Vec<u8> = Vec::new();
        let mut i: usize = 0;
        while i < size
            invariant
                i <= size,
                out@ == self@.address(i as int),
            decreases size - i,
        {
            let b: u8 = if i < self.prefix.len() {
                self.prefix[i]
            } else {
                0u8
            };
            out.push(b);
            i = i + 1;
            assert(out@ =~= self@.address(i as int));
        }
        Some(out)
    }

    /// The prefix in CIDR notation: an IPv4 address in dotted decimal or an
    /// IPv6 address in its canonical text, a slash, and the length.
    pub fn to_string(&self) -> (r: String)
        requires
            self.protocol.max_prefix_bits() is Some,
        ensures
            r@ == self@.text(),
    {
        let address = match self.address() {
            Some(a) => a,
            None => Vec::new(),
        };
        let mut out = String::new();
        if self.protocol == AFI::IPV4 {
            push_dotted(&mut out, address.as_slice());
        } else {
            push_canonical_v6(&mut out, address.as_slice());
        }
        proof {
            reveal_strlit("/");
        }
        out.append("/");
        push_decimal(&mut out, self.length as u32);
        assert(out@ =~= self@.text());
        out
    }

    /// Reads a prefix of `protocol`: a length octet, then the octets that
    /// the length covers. Where the length is refused, or the octets are
    /// not all there, the stream is left after the length octet.
    pub fn parse(stream: &mut Cursor, protocol: AFI) -> (r: Result<Prefix, Error>)
        ensures
            final(stream).data == old(stream).data,
            match r {
                Ok(p) => spec_parse_prefix(old(stream).data@, old(stream).at(), protocol) == done(
                    p@,
                    final(stream).at(),
                ),
                Err(e) => spec_parse_prefix(old(stream).data@, old(stream).at(), protocol)
                    == stop::<PrefixView>(e, final(stream).at()),
            },
    {
        let length = stream.read_u8()?;
        let max = match protocol.max_prefix_bits() {
            Some(max) => max,
            None => {
                return Err(Error::UnsupportedAfi(protocol.code()));
            },
        };
        if length > max {
            return Err(Error::MalformedNlri);
        }
        let octets = stream.read_exact((length as usize + 7) / 8)?;
        Ok(Prefix { protocol, length, prefix: to_vec(octets) })
    }
}

/// A prefix that was written and read again has the octets that its
/// length covers and no others, with every bit of them that lies within
/// the length as it was and every bit beyond the length zero; so the
/// address it stands for is zero beyond the length.
pub proof fn lemma_prefix_round_trip(p: PrefixView, max: u8)
    requires
        p.wf(),
        p.protocol.max_prefix_bits() == Some(max),
        p.length <= max,
    ensures
        p.encoding() == seq![p.length] + p.wire_octets(),
        p.encoding().len() == 1 + prefix_octets(p.length as int),
        spec_parse_prefix(p.encoding(), 0, p.protocol) == done(
            p.canonical(),
            p.encoding().len() as int,
        ),
        p.canonical().wf(),
        p.canonical().masked(),
        p.canonical().prefix.len() == prefix_octets(p.length as int),
        forall|i: int|
            0 <= i < prefix_octets(p.length as int) - 1 ==> (#[trigger] p.canonical().prefix[i])
                == p.prefix[i],
        p.length > 0 ==> p.canonical().prefix[prefix_octets(p.length as int) - 1]
            == spec_clear_trailing_bits(p.prefix[prefix_octets(p.length as int) - 1], p.length),
        p.masked() ==> p.canonical().prefix == p.covered_octets(),
        forall|i: int|
            prefix_octets(p.length as int) <= i < max / 8 ==> (#[trigger] p.canonical().address(
                max as int / 8,
            )[i]) == 0,
{
    let enc = p.encoding();
    let octets = prefix_octets(p.length as int);
    assert(enc[0] == p.length);
    assert(bytes_at(enc, 1, octets) =~= p.wire_octets());
    if octets > 0 {
        lemma_clear_trailing_bits(p.prefix[octets - 1], p.length);
    }
    if p.masked() {
        assert(p.wire_octets() =~= p.covered_octets());
    }
}

/// A prefix whose length exceeds the longest of its family is refused as
/// `MalformedNlri` after the length octet, whatever bytes follow it.
pub proof fn lemma_prefix_length_bound(
    head: Seq<u8>,
    tail: Seq<u8>,
    pos: int,
    protocol: AFI,
    max: u8,
)
    requires
        0 <= pos,
        head.len() == pos + 1,
        protocol.max_prefix_bits() == Some(max),
        head[pos] > max,
    ensures
        spec_parse_prefix(head + tail, pos, protocol) == stop::<PrefixView>(
            Error::MalformedNlri,
            pos + 1,
        ),
{
    assert((head + tail)[pos] == head[pos]);
}

/// The bytes that a prefix was read from are the bytes that it is
/// written as, where they hold no bit beyond the length: the length
/// octet and the octets that it covers, unchanged.
pub proof fn lemma_prefix_bytes_round_trip(data: Seq<u8>, pos: int, protocol: AFI)
    requires
        0 <= pos,
        spec_parse_prefix(data, pos, protocol) matches Ok((p, _)) && p.masked(),
    ensures
        ({
            let (p, end) = spec_parse_prefix(data, pos, protocol)->Ok_0;
            p.wf() && pos < end <= data.len() && p.encoding() == data.subrange(pos, end)
        }),
{
    let (p, end) = spec_parse_prefix(data, pos, protocol)->Ok_0;
    let octets = p.octet_length();
    if octets > 0 {
        lemma_clear_trailing_bits(p.prefix[octets - 1], p.length);
    }
    assert(p.wire_octets() =~= p.covered_octets());
    assert(p.encoding() =~= data.subrange(pos, end));
}

} // verus!
