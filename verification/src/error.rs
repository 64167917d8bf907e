//! The failures that decoding and encoding can report.

use vstd::prelude::*;

verus! {

/// Every way in which a decode or an encode can fail.
#[derive(Debug, Clone, Copy, PartialEq, Eq, Structural)]
pub enum Error {
    /// The byte source ended in the middle of a field.
    UnexpectedEof,
    /// A length declared on the wire exceeds what holds it: a section of an
    /// UPDATE its message, a path attribute the bytes that follow its frame.
    MalformedMessage,
    /// A path attribute's decoder asked for more bytes than the attribute declares.
    MalformedAttribute,
    /// No ASN width lets the segment walk of an AS_PATH end at its declared length,
    /// or a segment carries a type other than AS_SET or AS_SEQUENCE.
    MalformedAsPath,
    /// An NLRI record that cannot be: a prefix longer than its family allows, a
    /// labeled route whose length does not cover its label, a flow
    /// specification value of eight bytes.
    MalformedNlri,
    /// An AIGP attribute whose inner length is below its own three header bytes.
    MalformedAigp,
    /// The address family code is not one of the known ones.
    UnsupportedAfi(u16),
    /// The subsequent address family code is not one of the known ones.
    UnsupportedSafi(u8),
    /// The type code of a path attribute is not one this codec decodes.
    UnknownAttribute(u8),
    /// The ORIGIN attribute holds a value other than 0, 1 or 2.
    UnknownOrigin(u8),
    /// The header's type code names no message kind.
    UnknownMessageType(u8),
    /// The direction octet of an ADD-PATH or ORF entry is not 1, 2 or 3.
    InvalidAddPathDirection(u8),
    /// A capability of the given code declares a length that its layout forbids.
    InvalidCapabilityLength(u8),
    /// The parameters or capabilities read do not add up to the declared length.
    InvalidParameterLength,
    /// The type code of a flow specification component is outside 1 to 12.
    UnsupportedFlowspecFilter(u8),
    /// A capability does not fit the one-byte length of its frame.
    CapabilityTooLong,
    /// The parameters do not fit the one-byte length of their frame.
    ParameterTooLong,
    /// The message would be longer than 4096 bytes.
    MessageTooLarge,
    /// A value is too long for the length field that counts it.
    EncodeOverflow,
    /// The value has no wire form in this codec.
    UnsupportedEncoding,
}

impl Error {
    /// Whether the error reports malformed input, as opposed to input that
    /// ended early, an unknown code, or a value that cannot be encoded.
    pub open spec fn spec_is_malformed(self) -> bool {
        self == Error::MalformedMessage || self == Error::MalformedAttribute
            || self == Error::MalformedAsPath || self == Error::MalformedNlri
            || self == Error::MalformedAigp
    }

    /// Whether the error reports that the byte source ended early.
    pub fn is_eof(self) -> (r: bool)
        ensures
            r == (self == Error::UnexpectedEof),
    {
        match self {
            Error::UnexpectedEof => true,
            _ => false,
        }
    }

    /// Whether the error reports malformed input.
    #[verifier::when_used_as_spec(spec_is_malformed)]
    pub fn is_malformed(self) -> (r: bool)
        ensures
            r == self.spec_is_malformed(),
    {
        match self {
            Error::MalformedMessage => true,
            Error::MalformedAttribute => true,
            Error::MalformedAsPath => true,
            Error::MalformedNlri => true,
            Error::MalformedAigp => true,
            _ => false,
        }
    }
}

/// What a reader gives: a value and the place after it, or an error and
/// the place where reading stopped.
pub type Parsed<V> = Result<(V, int), (Error, int)>;

/// A value that was read, and the place after it.
pub open spec fn done<V>(value: V, end: int) -> Parsed<V> {
    Ok((value, end))
}

/// An error that ended a read, and the place where reading stopped.
pub open spec fn stop<V>(error: Error, at: int) -> Parsed<V> {
    Err((error, at))
}

/// What a reader gives within a block of bytes of its own, where the
/// places do not matter to whoever reads the block: the value, or the
/// error.
pub open spec fn in_block<V>(r: Parsed<V>) -> Result<V, Error> {
    match r {
        Ok((value, _)) => Ok(value),
        Err((error, _)) => Err(error),
    }
}

/// What an encoder that appends to a buffer owes: where `expect` is a run
/// of bytes, the call succeeds and the buffer grows by exactly them; where
/// it is an error, the call fails with it and the buffer is untouched.
pub open spec fn appended(
    before: Seq<u8>,
    after: Seq<u8>,
    r: Result<(), Error>,
    expect: Result<Seq<u8>, Error>,
) -> bool {
    match expect {
        Ok(bytes) => r == Ok::<(), Error>(()) && after == before + bytes,
        Err(e) => r == Err::<(), Error>(e) && after == before,
    }
}

} // verus!
