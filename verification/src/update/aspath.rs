//! The AS_PATH attribute: segments of AS numbers, and the choice between
//! two-byte and four-byte numbers when nothing else decides it.

use crate::endian::{push_bytes, push_u16, push_u32, push_u8, u16_be_bytes, u32_be_bytes};
use crate::error::{appended, done, in_block, stop, Error, Parsed};
use crate::open::Capabilities;
use crate::stream::{fits, past_fields, u16_at, u32_at, Cursor, ReadCountingStream};
use vstd::prelude::*;

verus! {

/// One segment of an AS_PATH.
#[derive(Debug, PartialEq, Eq)]
#[allow(non_camel_case_types)]
pub enum Segment {
    /// AS numbers in the order in which the route passed them.
    AS_SEQUENCE(Vec<u32>),
    /// AS numbers in no order.
    AS_SET(Vec<u32>),
}

/// What a `Segment` holds, as mathematical values.
#[allow(non_camel_case_types)]
pub enum SegmentView {
    /// AS numbers in the order in which the route passed them.
    AS_SEQUENCE(Seq<u32>),
    /// AS numbers in no order.
    AS_SET(Seq<u32>),
}

impl View for Segment {
    type V = SegmentView;

    open spec fn view(&self) -> SegmentView {
        match self {
            Segment::AS_SEQUENCE(asns) => SegmentView::AS_SEQUENCE(asns@),
            Segment::AS_SET(asns) => SegmentView::AS_SET(asns@),
        }
    }
}

impl Clone for Segment {
    fn clone(&self) -> (r: Self)
        ensures
            r@ == self@,
    {
        match self {
            Segment::AS_SEQUENCE(asns) => Segment::AS_SEQUENCE(asns.clone()),
            Segment::AS_SET(asns) => Segment::AS_SET(asns.clone()),
        }
    }
}

impl SegmentView {
    /// The AS numbers of the segment.
    pub open spec fn asns(self) -> Seq<u32> {
        match self {
            SegmentView::AS_SEQUENCE(asns) => asns,
            SegmentView::AS_SET(asns) => asns,
        }
    }

    /// The type octet of the segment: 1 for a set, 2 for a sequence.
    pub open spec fn type_code(self) -> u8 {
        match self {
            SegmentView::AS_SEQUENCE(_) => 2,
            SegmentView::AS_SET(_) => 1,
        }
    }

    /// Whether an AS number of the segment does not fit two bytes.
    pub open spec fn has_4_byte_asns(self) -> bool {
        exists|i: int| 0 <= i < self.asns().len() && #[trigger] self.asns()[i] > 0xffff
    }
}

/// The views of a list of segments.
pub open spec fn segment_views(segments: Seq<Segment>) -> Seq<SegmentView> {
    segments.map_values(|s: Segment| s@)
}

/// The path that an announcement has travelled.
#[derive(Debug)]
pub struct ASPath {
    /// The segments of the path, in their order on the wire.
    pub segments: Vec<Segment>,
}

/// What an `ASPath` holds, as mathematical values.
pub struct ASPathView {
    /// The segments of the path, in their order on the wire.
    pub segments: Seq<SegmentView>,
}

impl View for ASPath {
    type V = ASPathView;

    open spec fn view(&self) -> ASPathView {
        ASPathView { segments: segment_views(self.segments@) }
    }
}

impl Clone for ASPath {
    fn clone(&self) -> (r: Self)
        ensures
            r@ == self@,
    {
        let mut out: Vec<Segment> = Vec::new();
        let mut i: usize = 0;
        while i < self.segments.len()
            invariant
                i <= self.segments.len(),
                out@.len() == i,
                forall|j: int| 0 <= j < i ==> out@[j]@ == self.segments@[j]@,
            decreases self.segments.len() - i,
        {
            out.push(self.segments[i].clone());
            i = i + 1;
        }
        assert(segment_views(out@) =~= segment_views(self.segments@));
        ASPath { segments: out }
    }
}

/// The AS numbers of the segments from `i` on, after `acc`, where they are
/// all sequences; nothing where one of them is a set.
pub open spec fn sequence_from(segments: Seq<SegmentView>, i: int, acc: Seq<u32>) -> Option<
    Seq<u32>,
>
    decreases segments.len() - i,
{
    if i < 0 || i >= segments.len() {
        Some(acc)
    } else {
        match segments[i] {
            SegmentView::AS_SEQUENCE(asns) => sequence_from(segments, i + 1, acc + asns),
            SegmentView::AS_SET(_) => None,
        }
    }
}

/// The wire form of the AS numbers from `i` on, after `acc`, each in four
/// bytes if `wide` and in two if not.
pub open spec fn asns_encoding(asns: Seq<u32>, i: int, wide: bool, acc: Seq<u8>) -> Seq<u8>
    decreases asns.len() - i,
{
    if i < 0 || i >= asns.len() {
        acc
    } else {
        asns_encoding(
            asns,
            i + 1,
            wide,
            acc + (if wide {
                u32_be_bytes(asns[i])
            } else {
                u16_be_bytes(asns[i] as u16)
            }),
        )
    }
}

/// The wire form of the segments from `i` on, after `acc`: for each its
/// type, the count of its AS numbers in one byte, and the numbers. A
/// segment of more than 255 numbers has none.
pub open spec fn segments_encoding(
    segments: Seq<SegmentView>,
    i: int,
    wide: bool,
    acc: Seq<u8>,
) -> Result<Seq<u8>, Error>
    decreases segments.len() - i,
{
    if i < 0 || i >= segments.len() {
        Ok(acc)
    } else if segments[i].asns().len() > 0xff {
        Err(Error::EncodeOverflow)
    } else {
        segments_encoding(
            segments,
            i + 1,
            wide,
            asns_encoding(
                segments[i].asns(),
                0,
                wide,
                acc + seq![segments[i].type_code(), segments[i].asns().len() as u8],
            ),
        )
    }
}

impl ASPathView {
    /// The AS that originated the announcement: the last number of the
    /// last segment, where that segment is a sequence and not empty.
    pub open spec fn origin(self) -> Option<u32> {
        if self.segments.len() == 0 {
            None
        } else {
            match self.segments.last() {
                SegmentView::AS_SEQUENCE(asns) => if asns.len() == 0 {
                    None
                } else {
                    Some(asns.last())
                },
                SegmentView::AS_SET(_) => None,
            }
        }
    }

    /// Whether an AS number of the path does not fit two bytes.
    pub open spec fn has_4_byte_asns(self) -> bool {
        exists|i: int| 0 <= i < self.segments.len() && (#[trigger] self.segments[i]).has_4_byte_asns()
    }

    /// The path as one run of AS numbers, where it holds no set.
    pub open spec fn sequence(self) -> Option<Seq<u32>> {
        sequence_from(self.segments, 0, Seq::empty())
    }

    /// The wire form of the path. Every number takes four bytes where one
    /// of them needs it, and two where none does.
    pub open spec fn encoding(self) -> Result<Seq<u8>, Error> {
        segments_encoding(self.segments, 0, self.has_4_byte_asns(), Seq::empty())
    }
}

/// The bytes that `count` AS numbers take: four each where `width` is
/// four, and two each where it is not.
pub open spec fn asn_bytes(count: int, width: int) -> int {
    if width == 4 {
        4 * count
    } else {
        2 * count
    }
}

/// Whether the segment headers from `pos` on, each a type and a count of
/// AS numbers of `width` bytes, lead exactly to the end of `data`, with
/// no type other than 1 and 2 after the first segment.
pub open spec fn segment_walk(data: Seq<u8>, pos: int, width: int, first: bool) -> bool
    decreases
        (if pos <= data.len() {
            data.len() - pos
        } else {
            0
        }),
{
    if pos == data.len() {
        true
    } else if !fits(data, pos, 2) {
        false
    } else if !first && data[pos] != 1 && data[pos] != 2 {
        false
    } else {
        segment_walk(data, pos + 2 + asn_bytes(data[pos + 1] as int, width), width, false)
    }
}

/// The width in bytes of the AS numbers in a segment stream: four where
/// the four-byte walk closes, two where only the two-byte walk does, and
/// none where neither does.
pub open spec fn spec_asn_width(data: Seq<u8>) -> Option<u8> {
    if segment_walk(data, 0, 4, true) {
        Some(4u8)
    } else if segment_walk(data, 0, 2, true) {
        Some(2u8)
    } else {
        None
    }
}

/// The AS numbers of `width` bytes each, `count` of them, from `pos` on.
pub open spec fn asns_at(data: Seq<u8>, pos: int, count: int, width: int) -> Seq<u32> {
    Seq::new(
        count as nat,
        |i: int|
            if width == 4 {
                u32_at(data, pos + 4 * i)
            } else {
                u16_at(data, pos + 2 * i) as u32
            },
    )
}

/// The segments read from `pos` on while `size` bytes are owed, after
/// `acc`, and the place after them. Each segment is a type, a count, and
/// that many AS numbers of `width` bytes. A segment whose numbers are not
/// all there is refused after the last of them that is whole; a type
/// other than 1 and 2, and a segment that takes more than the bytes owed,
/// after its numbers.
pub open spec fn segments_from(
    data: Seq<u8>,
    pos: int,
    size: int,
    width: int,
    acc: Seq<SegmentView>,
) -> Parsed<Seq<SegmentView>>
    decreases size,
{
    if size <= 0 {
        done(acc, pos)
    } else if !fits(data, pos, 2) {
        stop(Error::UnexpectedEof, pos)
    } else {
        let count = data[pos + 1] as int;
        let asns = asns_at(data, pos + 2, count, width);
        if !fits(data, pos + 2, asn_bytes(count, width)) {
            stop(Error::UnexpectedEof, past_fields(data, pos + 2, width))
        } else if data[pos] != 1 && data[pos] != 2 {
            stop(Error::MalformedAsPath, pos + 2 + asn_bytes(count, width))
        } else if 2 + asn_bytes(count, width) > size {
            stop(Error::MalformedAsPath, pos + 2 + asn_bytes(count, width))
        } else {
            segments_from(
                data,
                pos + 2 + asn_bytes(count, width),
                size - 2 - asn_bytes(count, width),
                width,
                acc.push(
                    if data[pos] == 1 {
                        SegmentView::AS_SET(asns)
                    } else {
                        SegmentView::AS_SEQUENCE(asns)
                    },
                ),
            )
        }
    }
}

/// What a segment stream of `length` bytes gives, read at `pos` of the
/// attribute's window: the segments under the width that
/// `spec_asn_width` finds, and `MalformedAsPath` where it finds none. A
/// stream that does not fit the window is refused where it starts; any
/// other failure leaves the place after the stream.
pub open spec fn spec_parse_unknown_segments(data: Seq<u8>, pos: int, length: u16) -> Parsed<
    Seq<SegmentView>,
> {
    if !fits(data, pos, length as int) {
        stop(Error::MalformedAttribute, pos)
    } else {
        let block = data.subrange(pos, pos + length);
        match spec_asn_width(block) {
            None => stop(Error::MalformedAsPath, pos + length),
            Some(width) => match in_block(
                segments_from(block, 0, length as int, width as int, Seq::empty()),
            ) {
                Err(e) => stop(e, pos + length),
                Ok(segments) => done(segments, pos + length),
            },
        }
    }
}

/// Whether the segment walk of `data` under AS numbers of `width` bytes
/// closes.
fn walk_closes(data: &[u8], width: usize) -> (r: bool)
    requires
        width == 2 || width == 4,
    ensures
        r == segment_walk(data@, 0, width as int, true),
{
    let mut pos: usize = 0;
    let mut first = true;
    let len = data.len();
    while pos < len
        invariant
            len == data@.len(),
            pos <= len,
            width == 2 || width == 4,
            segment_walk(data@, 0, width as int, true) == segment_walk(
                data@,
                pos as int,
                width as int,
                first,
            ),
        decreases len - pos,
    {
        if len - pos < 2 {
            return false;
        }
        let segment_type = data[pos];
        let segment_len = data[pos + 1];
        if !first && segment_type != 1 && segment_type != 2 {
            return false;
        }
        let step: usize = 2 + segment_len as usize * width;
        if step > len - pos {
            proof {
                let next = pos + 2 + asn_bytes(data@[pos + 1] as int, width as int);
                assert(next > len);
                assert(!segment_walk(data@, next, width as int, false));
            }
            return false;
        }
        pos = pos + step;
        first = false;
    }
    true
}

/// Reads `count` AS numbers of two bytes each, one after the other.
/// Where they are not all there, the stream is left after the last one
/// that is.
fn parse_u16_asns(stream: &mut Cursor, count: u8) -> (r: Result<Vec<u32>, Error>)
    ensures
        final(stream).data == old(stream).data,
        match r {
            Ok(v) => (count == 0 || fits(old(stream).data@, old(stream).at(), count * 2))
                && v@ == asns_at(old(stream).data@, old(stream).at(), count as int, 2)
                && final(stream).at() == old(stream).at() + count * 2,
            Err(e) => !fits(old(stream).data@, old(stream).at(), count * 2) && e
                == Error::UnexpectedEof && final(stream).at() == past_fields(
                old(stream).data@,
                old(stream).at(),
                2,
            ),
        },
{
    let mut elements: Vec<u32> = Vec::new();
    let mut i: u8 = 0;
    while i < count
        invariant
            stream.data == old(stream).data,
            i <= count,
            stream.at() == old(stream).at() + i * 2,
            i == 0 || fits(stream.data@, old(stream).at(), i * 2),
            elements@ == asns_at(stream.data@, old(stream).at(), i as int, 2),
        decreases count - i,
    {
        let asn = stream.read_u16()?;
        elements.push(asn as u32);
        i = i + 1;
        assert(elements@ =~= asns_at(stream.data@, old(stream).at(), i as int, 2));
    }
    Ok(elements)
}

/// Reads `count` AS numbers of four bytes each, one after the other.
/// Where they are not all there, the stream is left after the last one
/// that is.
fn parse_u32_asns(stream: &mut Cursor, count: u8) -> (r: Result<Vec<u32>, Error>)
    ensures
        final(stream).data == old(stream).data,
        match r {
            Ok(v) => (count == 0 || fits(old(stream).data@, old(stream).at(), count * 4))
                && v@ == asns_at(old(stream).data@, old(stream).at(), count as int, 4)
                && final(stream).at() == old(stream).at() + count * 4,
            Err(e) => !fits(old(stream).data@, old(stream).at(), count * 4) && e
                == Error::UnexpectedEof && final(stream).at() == past_fields(
                old(stream).data@,
                old(stream).at(),
                4,
            ),
        },
{
    let mut elements: Vec<u32> = Vec::new();
    let mut i: u8 = 0;
    while i < count
        invariant
            stream.data == old(stream).data,
            i <= count,
            stream.at() == old(stream).at() + i * 4,
            i == 0 || fits(stream.data@, old(stream).at(), i * 4),
            elements@ == asns_at(stream.data@, old(stream).at(), i as int, 4),
        decreases count - i,
    {
        let asn = stream.read_u32()?;
        elements.push(asn);
        i = i + 1;
        assert(elements@ =~= asns_at(stream.data@, old(stream).at(), i as int, 4));
    }
    Ok(elements)
}

/// Reads segments of AS numbers of `width` bytes until `length` bytes are
/// used up.
fn parse_segments(stream: &mut Cursor, length: u16, width: u8) -> (r: Result<Vec<Segment>, Error>)
    requires
        width == 2 || width == 4,
    ensures
        final(stream).data == old(stream).data,
        match r {
            Ok(v) => segments_from(
                old(stream).data@,
                old(stream).at(),
                length as int,
                width as int,
                Seq::empty(),
            ) == done(segment_views(v@), final(stream).at()),
            Err(e) => segments_from(
                old(stream).data@,
                old(stream).at(),
                length as int,
                width as int,
                Seq::empty(),
            ) == stop::<Seq<SegmentView>>(e, final(stream).at()),
        },
{
    let mut segments: Vec<Segment> = Vec::new();
    let mut size: u16 = length;
    let ghost data = stream.data@;
    let ghost start = stream.at();
    assert(segment_views(segments@) =~= Seq::empty());
    while size != 0
        invariant
            stream.data == old(stream).data,
            data == stream.data@,
            start == old(stream).at(),
            width == 2 || width == 4,
            segments_from(data, start, length as int, width as int, Seq::empty()) == segments_from(
                data,
                stream.at(),
                size as int,
                width as int,
                segment_views(segments@),
            ),
        decreases size,
    {
        let ghost before = segment_views(segments@);
        let ghost pos = stream.at();
        let head = stream.read_exact(2)?;
        let segment_type = head[0];
        let segment_length = head[1];
        let elements = if width == 2 {
            parse_u16_asns(stream, segment_length)?
        } else {
            parse_u32_asns(stream, segment_length)?
        };
        if segment_type != 1 && segment_type != 2 {
            return Err(Error::MalformedAsPath);
        }
        let need: u16 = 2 + segment_length as u16 * width as u16;
        if need > size {
            return Err(Error::MalformedAsPath);
        }
        let segment = if segment_type == 1 {
            Segment::AS_SET(elements)
        } else {
            Segment::AS_SEQUENCE(elements)
        };
        let ghost view = segment@;
        segments.push(segment);
        size = size - need;
        assert(segment_views(segments@) =~= before.push(view));
    }
    Ok(segments)
}

impl Segment {
    /// Whether an AS number of the segment does not fit two bytes.
    pub fn has_4_byte_asns(&self) -> (r: bool)
        ensures
            r == self@.has_4_byte_asns(),
    {
        let asns = match self {
            Segment::AS_SEQUENCE(asns) => asns,
            Segment::AS_SET(asns) => asns,
        };
        let mut i: usize = 0;
        while i < asns.len()
            invariant
                i <= asns.len(),
                asns@ == self@.asns(),
                forall|j: int| 0 <= j < i ==> asns@[j] <= 0xffff,
            decreases asns.len() - i,
        {
            if asns[i] > 0xffff {
                return true;
            }
            i = i + 1;
        }
        false
    }

    /// Reads a segment stream of `length` bytes whose AS numbers may take
    /// two bytes or four: the width is the one under which the segment
    /// headers lead exactly to the end of the stream, and four where both
    /// do. Where the stream does not fit what is left to read, nothing is
    /// read; where it is refused for what it holds, all of it is.
    pub fn parse_unknown_segments(stream: &mut ReadCountingStream, length: u16) -> (r: Result<
        Vec<Segment>,
        Error,
    >)
        ensures
            final(stream).data == old(stream).data,
            match r {
                Ok(v) => spec_parse_unknown_segments(old(stream).data@, old(stream).at(), length)
                    == done(segment_views(v@), final(stream).at()),
                Err(e) => spec_parse_unknown_segments(old(stream).data@, old(stream).at(), length)
                    == stop::<Seq<SegmentView>>(e, final(stream).at()),
            },
    {
        let buf = stream.read_exact(length as usize)?;
        let mut cur = Cursor::new(buf);
        if walk_closes(buf, 4) {
            Segment::parse_u32_segments(&mut cur, length)
        } else if walk_closes(buf, 2) {
            Segment::parse_u16_segments(&mut cur, length)
        } else {
            Err(Error::MalformedAsPath)
        }
    }

    /// Reads segments of two-byte AS numbers until `length` bytes are used
    /// up. Where that fails, the stream is left where reading stopped.
    pub fn parse_u16_segments(stream: &mut Cursor, length: u16) -> (r: Result<Vec<Segment>, Error>)
        ensures
            final(stream).data == old(stream).data,
            match r {
                Ok(v) => segments_from(
                    old(stream).data@,
                    old(stream).at(),
                    length as int,
                    2,
                    Seq::empty(),
                ) == done(segment_views(v@), final(stream).at()),
                Err(e) => segments_from(
                    old(stream).data@,
                    old(stream).at(),
                    length as int,
                    2,
                    Seq::empty(),
                ) == stop::<Seq<SegmentView>>(e, final(stream).at()),
            },
    {
        parse_segments(stream, length, 2)
    }

    /// Reads segments of four-byte AS numbers until `length` bytes are
    /// used up. Where that fails, the stream is left where reading
    /// stopped.
    pub fn parse_u32_segments(stream: &mut Cursor, length: u16) -> (r: Result<Vec<Segment>, Error>)
        ensures
            final(stream).data == old(stream).data,
            match r {
                Ok(v) => segments_from(
                    old(stream).data@,
                    old(stream).at(),
                    length as int,
                    4,
                    Seq::empty(),
                ) == done(segment_views(v@), final(stream).at()),
                Err(e) => segments_from(
                    old(stream).data@,
                    old(stream).at(),
                    length as int,
                    4,
                    Seq::empty(),
                ) == stop::<Seq<SegmentView>>(e, final(stream).at()),
            },
    {
        parse_segments(stream, length, 4)
    }
}

/// Writes AS numbers, each in four bytes if `wide` and in two if not.
fn encode_asns(buf: &mut Vec<u8>, asns: &Vec<u32>, wide: bool)
    ensures
        final(buf)@ == asns_encoding(asns@, 0, wide, old(buf)@),
{
    let mut i: usize = 0;
    while i < asns.len()
        invariant
            i <= asns.len(),
            asns_encoding(asns@, 0, wide, old(buf)@) == asns_encoding(asns@, i as int, wide, buf@),
        decreases asns.len() - i,
    {
        if wide {
            push_u32(buf, asns[i]);
        } else {
            push_u16(buf, #[verifier::truncate] (asns[i] as u16));
        }
        i = i + 1;
    }
}

impl ASPath {
    /// Reads an AS_PATH of `length` bytes. The capabilities do not decide
    /// the width of the AS numbers: the segment stream itself does. Where
    /// the path does not fit what is left to read, nothing is read; where
    /// it is refused for what it holds, all of it is.
    pub fn parse(stream: &mut ReadCountingStream, length: u16, _capabilities: &Capabilities) -> (r:
        Result<ASPath, Error>)
        ensures
            final(stream).data == old(stream).data,
            match r {
                Ok(p) => spec_parse_unknown_segments(old(stream).data@, old(stream).at(), length)
                    == done(p@.segments, final(stream).at()),
                Err(e) => spec_parse_unknown_segments(old(stream).data@, old(stream).at(), length)
                    == stop::<Seq<SegmentView>>(e, final(stream).at()),
            },
    {
        let segments = Segment::parse_unknown_segments(stream, length)?;
        Ok(ASPath { segments })
    }

    /// The AS that originated the announcement; none where the path ends
    /// in a set, or holds nothing.
    pub fn origin(&self) -> (r: Option<u32>)
        ensures
            r == self@.origin(),
    {
        let n = self.segments.len();
        if n == 0 {
            return None;
        }
        assert(self@.segments.last() == self.segments@[n - 1]@);
        match &self.segments[n - 1] {
            Segment::AS_SEQUENCE(x) => {
                if x.len() == 0 {
                    None
                } else {
                    Some(x[x.len() - 1])
                }
            },
            Segment::AS_SET(_) => None,
        }
    }

    /// Whether an AS number of the path does not fit two bytes.
    pub fn has_4_byte_asns(&self) -> (r: bool)
        ensures
            r == self@.has_4_byte_asns(),
    {
        let mut i: usize = 0;
        while i < self.segments.len()
            invariant
                i <= self.segments.len(),
                forall|j: int| 0 <= j < i ==> !(#[trigger] self@.segments[j]).has_4_byte_asns(),
            decreases self.segments.len() - i,
        {
            assert(self@.segments[i as int] == self.segments@[i as int]@);
            if self.segments[i].has_4_byte_asns() {
                return true;
            }
            i = i + 1;
        }
        false
    }

    /// The path as one run of AS numbers; none where it holds a set.
    pub fn sequence(&self) -> (r: Option<Vec<u32>>)
        ensures
            match r {
                Some(v) => self@.sequence() == Some(v@),
                None => self@.sequence() is None,
            },
    {
        let mut sequence: Vec<u32> = Vec::new();
        let mut i: usize = 0;
        while i < self.segments.len()
            invariant
                i <= self.segments.len(),
                self@.sequence() == sequence_from(self@.segments, i as int, sequence@),
            decreases self.segments.len() - i,
        {
            assert(self@.segments[i as int] == self.segments@[i as int]@);
            match &self.segments[i] {
                Segment::AS_SEQUENCE(x) => {
                    let ghost before = sequence@;
                    let mut j: usize = 0;
                    while j < x.len()
                        invariant
                            j <= x.len(),
                            sequence@ == before + x@.subrange(0, j as int),
                        decreases x.len() - j,
                    {
                        sequence.push(x[j]);
                        j = j + 1;
                        assert(sequence@ =~= before + x@.subrange(0, j as int));
                    }
                    assert(x@.subrange(0, j as int) =~= x@);
                },
                Segment::AS_SET(_) => {
                    return None;
                },
            }
            i = i + 1;
        }
        Some(sequence)
    }

    /// Appends the wire form of the path to `buf`.
    pub fn encode(&self, buf: &mut Vec<u8>) -> (r: Result<(), Error>)
        ensures
            appended(old(buf)@, final(buf)@, r, self@.encoding()),
    {
        let wide = self.has_4_byte_asns();
        let mut out: Vec<u8> = Vec::new();
        let mut i: usize = 0;
        while i < self.segments.len()
            invariant
                i <= self.segments.len(),
                wide == self@.has_4_byte_asns(),
                self@.encoding() == segments_encoding(self@.segments, i as int, wide, out@),
            decreases self.segments.len() - i,
        {
            assert(self@.segments[i as int] == self.segments@[i as int]@);
            let (path_type, seq) = match &self.segments[i] {
                Segment::AS_SET(set) => (1u8, set),
                Segment::AS_SEQUENCE(seq) => (2u8, seq),
            };
            if seq.len() > 0xff {
                return Err(Error::EncodeOverflow);
            }
            let ghost before = out@;
            push_u8(&mut out, path_type);
            push_u8(&mut out, seq.len() as u8);
            assert(out@ =~= before + seq![path_type, seq@.len() as u8]);
            encode_asns(&mut out, seq, wide);
            i = i + 1;
        }
        push_bytes(buf, out.as_slice());
        Ok(())
    }
}

/// The width of the AS numbers follows the walks: four bytes where only
/// the four-byte walk of the segment headers closes, two where only the
/// two-byte walk does, four where both do, and none where neither does.
pub proof fn lemma_asn_width_choice(data: Seq<u8>)
    ensures
        segment_walk(data, 0, 4, true) && !segment_walk(data, 0, 2, true) ==> spec_asn_width(data)
            == Some(4u8),
        segment_walk(data, 0, 2, true) && !segment_walk(data, 0, 4, true) ==> spec_asn_width(data)
            == Some(2u8),
        segment_walk(data, 0, 2, true) && segment_walk(data, 0, 4, true) ==> spec_asn_width(data)
            == Some(4u8),
        !segment_walk(data, 0, 2, true) && !segment_walk(data, 0, 4, true) ==> spec_asn_width(data)
            is None,
{
}

} // verus!
