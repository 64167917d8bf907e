//! What an OPEN that was read is written as, where its capabilities are
//! of the kinds that keep every byte they were read from.

use crate::endian::{
    lemma_u16_bytes_round_trip, lemma_u32_bytes_round_trip, u16_be_bytes, u32_be_bytes,
};
use crate::error::Error;
use crate::family::{lemma_afi_from_code_exact, lemma_safi_from_code_exact};
use crate::open::{
    capabilities_encoding, capabilities_from, parameters_encoding, parameters_from,
    spec_parse_capability, spec_parse_open, spec_parse_parameter, OpenCapabilityView,
    OpenParameterView,
};
use crate::stream::{bytes_at, fits, lemma_joined, u16_at, u32_at};
use vstd::prelude::*;

verus! {

/// Whether the capability at `pos` is of a kind that is written as it
/// was read: route refresh, four-byte AS numbers, a multiprotocol family
/// under a reserved octet of zero, or a code that is kept as bytes.
pub open spec fn capability_kept(data: Seq<u8>, pos: int) -> bool {
    fits(data, pos, 2) && (data[pos] == 2 || data[pos] == 65 || (data[pos] == 1 && fits(
        data,
        pos + 2,
        4,
    ) && data[pos + 4] == 0) || !(data[pos] == 1 || data[pos] == 3 || data[pos] == 8 || data[pos]
        == 69))
}

/// The bytes that a capability of such a kind was read from are the
/// bytes that it is written as.
pub proof fn lemma_capability_bytes_round_trip(data: Seq<u8>, pos: int)
    requires
        0 <= pos,
        spec_parse_capability(data, pos) is Ok,
        capability_kept(data, pos),
    ensures
        ({
            let (c, end) = spec_parse_capability(data, pos)->Ok_0;
            pos < end <= data.len() && c.encoding() == Ok::<Seq<u8>, Error>(
                data.subrange(pos, end),
            )
        }),
{
    let (c, end) = spec_parse_capability(data, pos)->Ok_0;
    let code = data[pos];
    let value = bytes_at(data, pos + 2, data[pos + 1] as int);
    if code == 1 {
        lemma_afi_from_code_exact(u16_at(value, 0));
        lemma_safi_from_code_exact(value[3]);
        lemma_u16_bytes_round_trip(bytes_at(value, 0, 2));
        assert(c.encoding()->Ok_0 =~= data.subrange(pos, end));
    } else if code == 2 {
        assert(c.encoding()->Ok_0 =~= data.subrange(pos, end));
    } else if code == 65 {
        lemma_u32_bytes_round_trip(bytes_at(value, 0, 4));
        assert(c.encoding()->Ok_0 =~= data.subrange(pos, end));
    } else {
        assert(c.encoding()->Ok_0 =~= data.subrange(pos, end));
    }
}

/// Whether every capability from `pos` to the end of `body` is of a kind
/// that is written as it was read.
pub open spec fn capabilities_kept(body: Seq<u8>, pos: int) -> bool
    decreases
        (if pos < body.len() {
            body.len() - pos
        } else {
            0
        }),
{
    pos >= body.len() || (capability_kept(body, pos) && match spec_parse_capability(body, pos) {
        Ok((_, next)) => next > pos && capabilities_kept(body, next),
        Err(_) => true,
    })
}

/// The capabilities that are read from `pos` on, after `acc`, are `acc`
/// and the capabilities read.
proof fn lemma_capabilities_extend(body: Seq<u8>, pos: int, acc: Seq<OpenCapabilityView>)
    requires
        0 <= pos <= body.len(),
        capabilities_from(body, pos, acc) is Ok,
    ensures
        ({
            let caps = capabilities_from(body, pos, acc)->Ok_0;
            acc.len() <= caps.len() && caps.subrange(0, acc.len() as int) == acc
        }),
    decreases body.len() - pos,
{
    let caps = capabilities_from(body, pos, acc)->Ok_0;
    let k = acc.len() as int;
    if pos >= body.len() {
        assert(caps.subrange(0, k) =~= acc);
    } else {
        let (c, next) = spec_parse_capability(body, pos)->Ok_0;
        lemma_capabilities_extend(body, next, acc.push(c));
        assert(caps.subrange(0, k) =~= caps.subrange(0, k + 1).subrange(0, k));
    }
}

/// Writing the capabilities from `k` on is writing the capability at `k`
/// and then the capabilities after it.
proof fn lemma_capabilities_encoding_step(
    caps: Seq<OpenCapabilityView>,
    k: int,
    out: Seq<u8>,
    bytes: Seq<u8>,
)
    requires
        0 <= k < caps.len(),
        caps[k].encoding() == Ok::<Seq<u8>, Error>(bytes),
    ensures
        capabilities_encoding(caps, k, out) == capabilities_encoding(caps, k + 1, out + bytes),
{
}

/// The bytes that capabilities of such kinds were read from are the
/// bytes that they are written as, one after the other.
pub proof fn lemma_capabilities_bytes_round_trip(
    body: Seq<u8>,
    pos: int,
    acc: Seq<OpenCapabilityView>,
    out: Seq<u8>,
)
    requires
        0 <= pos <= body.len(),
        capabilities_from(body, pos, acc) is Ok,
        capabilities_kept(body, pos),
    ensures
        capabilities_encoding(
            capabilities_from(body, pos, acc)->Ok_0,
            acc.len() as int,
            out,
        ) == Ok::<Seq<u8>, Error>(out + body.subrange(pos, body.len() as int)),
    decreases body.len() - pos,
{
    let whole = capabilities_from(body, pos, acc);
    let caps = whole->Ok_0;
    let k = acc.len() as int;
    lemma_capabilities_extend(body, pos, acc);
    if pos >= body.len() {
        lemma_joined(out, body, pos, pos, pos);
    } else {
        let step = spec_parse_capability(body, pos);
        assert(step is Ok);
        let (c, next) = step->Ok_0;
        let more = acc.push(c);
        assert(whole == capabilities_from(body, next, more));
        lemma_capability_bytes_round_trip(body, pos);
        let bytes = body.subrange(pos, next);
        assert(c.encoding() == Ok::<Seq<u8>, Error>(bytes));
        lemma_capabilities_extend(body, next, more);
        lemma_capabilities_bytes_round_trip(body, next, more, out + bytes);
        assert(caps.subrange(0, k + 1) == more);
        assert(caps[k] == caps.subrange(0, k + 1)[k]);
        assert(caps[k] == c);
        lemma_capabilities_encoding_step(caps, k, out, bytes);
        lemma_joined(out, body, pos, next, body.len() as int);
    }
}

/// Whether the parameter at `pos` is written as it was read: one of
/// another type than capabilities, or capabilities of such kinds.
pub open spec fn parameter_kept(block: Seq<u8>, pos: int) -> bool {
    fits(block, pos, 2) && (block[pos] != 2 || (fits(block, pos + 2, block[pos + 1] as int)
        && capabilities_kept(bytes_at(block, pos + 2, block[pos + 1] as int), 0)))
}

/// The bytes that such a parameter was read from are the bytes that it
/// is written as.
pub proof fn lemma_parameter_bytes_round_trip(block: Seq<u8>, pos: int)
    requires
        0 <= pos,
        spec_parse_parameter(block, pos) is Ok,
        parameter_kept(block, pos),
    ensures
        ({
            let (p, end) = spec_parse_parameter(block, pos)->Ok_0;
            pos < end <= block.len() && p.encoding() == Ok::<Seq<u8>, Error>(
                block.subrange(pos, end),
            )
        }),
{
    let (p, end) = spec_parse_parameter(block, pos)->Ok_0;
    let value = bytes_at(block, pos + 2, block[pos + 1] as int);
    if block[pos] == 2 {
        lemma_capabilities_bytes_round_trip(value, 0, Seq::empty(), Seq::empty());
        assert(Seq::<u8>::empty() + value.subrange(0, value.len() as int) =~= value);
        assert(p.encoding()->Ok_0 =~= block.subrange(pos, end));
    } else {
        assert(p.encoding()->Ok_0 =~= block.subrange(pos, end));
    }
}

/// Whether every parameter from `pos` to the end of `block` is written
/// as it was read.
pub open spec fn parameters_kept(block: Seq<u8>, pos: int) -> bool
    decreases
        (if pos < block.len() {
            block.len() - pos
        } else {
            0
        }),
{
    pos >= block.len() || (parameter_kept(block, pos) && match spec_parse_parameter(block, pos) {
        Ok((_, next)) => next > pos && parameters_kept(block, next),
        Err(_) => true,
    })
}

/// The parameters that are read from `pos` on, after `acc`, are `acc`
/// and the parameters read.
proof fn lemma_parameters_extend(block: Seq<u8>, pos: int, acc: Seq<OpenParameterView>)
    requires
        0 <= pos <= block.len(),
        parameters_from(block, pos, acc) is Ok,
    ensures
        ({
            let parameters = parameters_from(block, pos, acc)->Ok_0;
            acc.len() <= parameters.len() && parameters.subrange(0, acc.len() as int) == acc
        }),
    decreases block.len() - pos,
{
    let parameters = parameters_from(block, pos, acc)->Ok_0;
    let k = acc.len() as int;
    if pos >= block.len() {
        assert(parameters.subrange(0, k) =~= acc);
    } else {
        let (p, next) = spec_parse_parameter(block, pos)->Ok_0;
        lemma_parameters_extend(block, next, acc.push(p));
        assert(parameters.subrange(0, k) =~= parameters.subrange(0, k + 1).subrange(0, k));
    }
}

/// Writing the parameters from `k` on is writing the parameter at `k`
/// and then the parameters after it.
proof fn lemma_parameters_encoding_step(
    parameters: Seq<OpenParameterView>,
    k: int,
    out: Seq<u8>,
    bytes: Seq<u8>,
)
    requires
        0 <= k < parameters.len(),
        parameters[k].encoding() == Ok::<Seq<u8>, Error>(bytes),
    ensures
        parameters_encoding(parameters, k, out) == parameters_encoding(
            parameters,
            k + 1,
            out + bytes,
        ),
{
}

/// The bytes that such parameters were read from are the bytes that they
/// are written as, one after the other.
pub proof fn lemma_parameters_bytes_round_trip(
    block: Seq<u8>,
    pos: int,
    acc: Seq<OpenParameterView>,
    out: Seq<u8>,
)
    requires
        0 <= pos <= block.len(),
        parameters_from(block, pos, acc) is Ok,
        parameters_kept(block, pos),
    ensures
        parameters_encoding(parameters_from(block, pos, acc)->Ok_0, acc.len() as int, out) == Ok::<
            Seq<u8>,
            Error,
        >(out + block.subrange(pos, block.len() as int)),
    decreases block.len() - pos,
{
    let whole = parameters_from(block, pos, acc);
    let parameters = whole->Ok_0;
    let k = acc.len() as int;
    lemma_parameters_extend(block, pos, acc);
    if pos >= block.len() {
        lemma_joined(out, block, pos, pos, pos);
    } else {
        let step = spec_parse_parameter(block, pos);
        assert(step is Ok);
        let (p, next) = step->Ok_0;
        let more = acc.push(p);
        assert(whole == parameters_from(block, next, more));
        lemma_parameter_bytes_round_trip(block, pos);
        let bytes = block.subrange(pos, next);
        assert(p.encoding() == Ok::<Seq<u8>, Error>(bytes));
        lemma_parameters_extend(block, next, more);
        lemma_parameters_bytes_round_trip(block, next, more, out + bytes);
        assert(parameters.subrange(0, k + 1) == more);
        assert(parameters[k] == parameters.subrange(0, k + 1)[k]);
        assert(parameters[k] == p);
        lemma_parameters_encoding_step(parameters, k, out, bytes);
        lemma_joined(out, block, pos, next, block.len() as int);
    }
}

/// The fields of an OPEN that was read: each was read from its own
/// bytes, and the parameters from the block that their length declares.
proof fn lemma_open_fields(data: Seq<u8>, pos: int)
    requires
        0 <= pos,
        spec_parse_open(data, pos) is Ok,
    ensures
        ({
            let (o, end) = spec_parse_open(data, pos)->Ok_0;
            &&& fits(data, pos, 10)
            &&& end == pos + 10 + data[pos + 9]
            &&& end <= data.len()
            &&& o.version == data[pos]
            &&& o.peer_asn == u16_at(data, pos + 1)
            &&& o.hold_timer == u16_at(data, pos + 3)
            &&& o.identifier == u32_at(data, pos + 5)
            &&& parameters_from(
                bytes_at(data, pos + 10, data[pos + 9] as int),
                0,
                Seq::empty(),
            ) == Ok::<Seq<OpenParameterView>, Error>(o.parameters)
        }),
{
    reveal(spec_parse_open);
}

/// The ten bytes before the parameters of an OPEN are its version, AS
/// number, hold time, identifier and the length of its parameters.
proof fn lemma_open_joined(data: Seq<u8>, pos: int)
    requires
        0 <= pos,
        fits(data, pos, 10),
        pos + 10 + data[pos + 9] <= data.len(),
    ensures
        seq![data[pos]] + u16_be_bytes(u16_at(data, pos + 1)) + u16_be_bytes(u16_at(data, pos + 3))
            + u32_be_bytes(u32_at(data, pos + 5)) + seq![data[pos + 9]] + bytes_at(
            data,
            pos + 10,
            data[pos + 9] as int,
        ) == data.subrange(pos, pos + 10 + data[pos + 9]),
{
    lemma_u16_bytes_round_trip(bytes_at(data, pos + 1, 2));
    lemma_u16_bytes_round_trip(bytes_at(data, pos + 3, 2));
    lemma_u32_bytes_round_trip(bytes_at(data, pos + 5, 4));
    assert(seq![data[pos]] + bytes_at(data, pos + 1, 2) + bytes_at(data, pos + 3, 2) + bytes_at(
        data,
        pos + 5,
        4,
    ) + seq![data[pos + 9]] + bytes_at(data, pos + 10, data[pos + 9] as int) =~= data.subrange(
        pos,
        pos + 10 + data[pos + 9],
    ));
}

/// The body of an OPEN that was read is written as the bytes it was read
/// from, where each of its parameters is written as it was read.
pub proof fn lemma_open_bytes_round_trip(data: Seq<u8>, pos: int)
    requires
        0 <= pos,
        spec_parse_open(data, pos) is Ok,
        fits(data, pos, 10),
        parameters_kept(bytes_at(data, pos + 10, data[pos + 9] as int), 0),
    ensures
        ({
            let (o, end) = spec_parse_open(data, pos)->Ok_0;
            pos + 10 <= end <= data.len() && o.encoding() == Ok::<Seq<u8>, Error>(
                data.subrange(pos, end),
            )
        }),
{
    let (o, end) = spec_parse_open(data, pos)->Ok_0;
    let block = bytes_at(data, pos + 10, data[pos + 9] as int);
    lemma_open_fields(data, pos);
    lemma_parameters_bytes_round_trip(block, 0, Seq::empty(), Seq::empty());
    assert(Seq::<u8>::empty() + block.subrange(0, block.len() as int) =~= block);
    assert(parameters_encoding(o.parameters, 0, Seq::empty()) == Ok::<Seq<u8>, Error>(block));
    assert(block.len() as u8 == data[pos + 9]);
    lemma_open_joined(data, pos);
}

} // verus!
