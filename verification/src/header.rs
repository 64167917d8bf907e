//! The header that stands before every message.

use crate::endian::{
    lemma_u16_bytes_round_trip, lemma_u16_round_trip, push_bytes, push_u16, push_u8, u16_be_bytes,
};
use crate::error::{done, stop, Error, Parsed};
use crate::stream::{bytes_at, fits, u16_at, Cursor};
use vstd::prelude::*;

verus! {

/// The header of a message: a marker, the length of the whole message
/// with the header, and the code of the message's kind.
#[derive(Clone, Copy, Debug)]
pub struct Header {
    /// The marker; all ones on a live session, kept as it was read.
    pub marker: [u8; 16],
    /// The length of the message in bytes, header included.
    pub length: u16,
    /// The code of the message's kind.
    pub record_type: u8,
}

/// What a `Header` holds, as mathematical values.
pub struct HeaderView {
    /// The sixteen bytes of the marker.
    pub marker: Seq<u8>,
    /// The length of the message in bytes, header included.
    pub length: u16,
    /// The code of the message's kind.
    pub record_type: u8,
}

impl View for Header {
    type V = HeaderView;

    open spec fn view(&self) -> HeaderView {
        HeaderView { marker: self.marker@, length: self.length, record_type: self.record_type }
    }
}

impl HeaderView {
    /// The nineteen bytes of the header on the wire.
    pub open spec fn encoding(self) -> Seq<u8> {
        self.marker + u16_be_bytes(self.length) + seq![self.record_type]
    }
}

/// The header read at `pos`, and the place after it: sixteen bytes of
/// marker, the length, and the type code. Where the bytes end within the
/// header, the place is after the last of the three that is whole.
pub open spec fn spec_parse_header(data: Seq<u8>, pos: int) -> Parsed<HeaderView> {
    if !fits(data, pos, 16) {
        stop(Error::UnexpectedEof, pos)
    } else if !fits(data, pos + 16, 2) {
        stop(Error::UnexpectedEof, pos + 16)
    } else if !fits(data, pos + 18, 1) {
        stop(Error::UnexpectedEof, pos + 18)
    } else {
        done(
            HeaderView {
                marker: bytes_at(data, pos, 16),
                length: u16_at(data, pos + 16),
                record_type: data[pos + 18],
            },
            pos + 19,
        )
    }
}

/// Copies sixteen bytes into an array.
fn marker_of(bytes: &[u8]) -> (r: [u8; 16])
    requires
        bytes@.len() == 16,
    ensures
        r@ == bytes@,
{
    let mut marker = [0u8; 16];
    let mut i: usize = 0;
    while i < 16
        invariant
            i <= 16,
            bytes@.len() == 16,
            forall|j: int| 0 <= j < i ==> marker@[j] == bytes@[j],
        decreases 16 - i,
    {
        marker[i] = bytes[i];
        i = i + 1;
    }
    assert(marker@ =~= bytes@);
    marker
}

impl Header {
    /// Reads the nineteen bytes of a header. The marker is not examined.
    /// Where the bytes end within the header, the stream is left after
    /// the last field that was read whole.
    pub fn parse(stream: &mut Cursor) -> (r: Result<Header, Error>)
        ensures
            final(stream).data == old(stream).data,
            match r {
                Ok(h) => spec_parse_header(old(stream).data@, old(stream).at()) == done(
                    h@,
                    final(stream).at(),
                ),
                Err(e) => spec_parse_header(old(stream).data@, old(stream).at()) == stop::<
                    HeaderView,
                >(e, final(stream).at()),
            },
    {
        let marker = marker_of(stream.read_exact(16)?);
        let length = stream.read_u16()?;
        let record_type = stream.read_u8()?;
        Ok(Header { marker, length, record_type })
    }

    /// Appends the nineteen bytes of the header to `buf`.
    pub fn encode(&self, buf: &mut Vec<u8>) -> (r: Result<(), Error>)
        ensures
            r == Ok::<(), Error>(()),
            final(buf)@ == old(buf)@ + self@.encoding(),
    {
        push_bytes(buf, self.marker.as_slice());
        push_u16(buf, self.length);
        push_u8(buf, self.record_type);
        assert(buf@ =~= old(buf)@ + self@.encoding());
        Ok(())
    }
}

/// A header that is written and read again is the same header.
pub proof fn lemma_header_round_trip(h: HeaderView)
    requires
        h.marker.len() == 16,
    ensures
        h.encoding().len() == 19,
        spec_parse_header(h.encoding(), 0) == done(h, 19),
{
    let enc = h.encoding();
    lemma_u16_round_trip(h.length);
    assert(bytes_at(enc, 0, 16) =~= h.marker);
    assert(bytes_at(enc, 16, 2) =~= u16_be_bytes(h.length));
    assert(enc[18] == h.record_type);
}

/// Nineteen bytes that are read as a header and written again are the
/// same nineteen bytes, whatever the marker, the length and the type.
pub proof fn lemma_header_bytes_round_trip(data: Seq<u8>)
    requires
        data.len() == 19,
    ensures
        spec_parse_header(data, 0) matches Ok((h, end)) && end == 19 && h.encoding() == data,
{
    let h = spec_parse_header(data, 0)->Ok_0.0;
    lemma_u16_bytes_round_trip(bytes_at(data, 16, 2));
    assert(h.encoding() =~= data);
}

} // verus!
