//! Whole messages: the kinds, the ROUTE-REFRESH message, and the reader
//! that takes messages off a run of bytes.

use crate::endian::{push_bytes, push_u16, push_u8, u16_be_bytes};
use crate::error::{appended, done, stop, Error, Parsed};
use crate::endian::{lemma_u16_bytes_round_trip, lemma_u16_round_trip};
use crate::family::{
    lemma_afi_code_round_trip, lemma_afi_from_code_exact, lemma_safi_code_round_trip,
    lemma_safi_from_code_exact, AFI, SAFI,
};
use crate::header::{spec_parse_header, Header, HeaderView};
use crate::notification::{spec_parse_notification, Notification, NotificationView};
use crate::open::roundtrip::{lemma_open_bytes_round_trip, parameters_kept};
use crate::open::{
    spec_parse_open, Capabilities, CapabilitiesRef, CapabilitiesView, Open, OpenView,
};
use crate::stream::{bytes_at, fits, u16_at, Cursor};
use crate::update::nlri::routes_masked;
use crate::update::roundtrip::{all_ipv4, lemma_update_round_trip};
use crate::update::written::attributes_kept;
use crate::update::{spec_parse_update, Update, UpdateView};
use vstd::prelude::*;

verus! {

/// A ROUTE-REFRESH message.
#[derive(Clone, Copy, Debug)]
pub struct RouteRefresh {
    /// The address family that is asked for.
    pub afi: AFI,
    /// The subsequent address family that is asked for.
    pub safi: SAFI,
    /// The subtype of the request; zero from older senders.
    pub subtype: u8,
}

impl RouteRefresh {
    /// The four bytes of the message's body: family, subtype, subsequent
    /// family.
    pub open spec fn encoding(self) -> Seq<u8> {
        u16_be_bytes(self.afi.spec_code()) + seq![self.subtype, self.safi.spec_code()]
    }

    /// Reads the body of a ROUTE-REFRESH message. Where that fails, the
    /// stream is left where reading stopped.
    pub fn parse(stream: &mut Cursor) -> (r: Result<RouteRefresh, Error>)
        ensures
            final(stream).data == old(stream).data,
            match r {
                Ok(m) => spec_parse_route_refresh(old(stream).data@, old(stream).at()) == done(
                    m,
                    final(stream).at(),
                ),
                Err(e) => spec_parse_route_refresh(old(stream).data@, old(stream).at()) == stop::<
                    RouteRefresh,
                >(e, final(stream).at()),
            },
    {
        let afi = AFI::try_from(stream.read_u16()?)?;
        let subtype = stream.read_u8()?;
        let safi = SAFI::try_from(stream.read_u8()?)?;
        Ok(RouteRefresh { afi, safi, subtype })
    }

    /// Appends the body of the message to `buf`.
    pub fn encode(&self, buf: &mut Vec<u8>) -> (r: Result<(), Error>)
        ensures
            r == Ok::<(), Error>(()),
            final(buf)@ == old(buf)@ + self.encoding(),
    {
        push_u16(buf, self.afi.code());
        push_u8(buf, self.subtype);
        push_u8(buf, self.safi.code());
        assert(buf@ =~= old(buf)@ + self.encoding());
        Ok(())
    }
}

/// What the body of a ROUTE-REFRESH gives, read at `pos`: a family code,
/// a subtype, and a subsequent family code. A code that names no family
/// is refused after the code, before the bytes after it are asked for.
pub open spec fn spec_parse_route_refresh(data: Seq<u8>, pos: int) -> Parsed<RouteRefresh> {
    if !fits(data, pos, 2) {
        stop(Error::UnexpectedEof, pos)
    } else {
        match AFI::from_code(u16_at(data, pos)) {
            Err(e) => stop(e, pos + 2),
            Ok(afi) => if !fits(data, pos + 2, 1) {
                stop(Error::UnexpectedEof, pos + 2)
            } else if !fits(data, pos + 3, 1) {
                stop(Error::UnexpectedEof, pos + 3)
            } else {
                match SAFI::from_code(data[pos + 3]) {
                    Err(e) => stop(e, pos + 4),
                    Ok(safi) => done(RouteRefresh { afi, safi, subtype: data[pos + 2] }, pos + 4),
                }
            },
        }
    }
}

/// A message.
#[derive(Debug)]
pub enum Message {
    /// An OPEN message.
    Open(Open),
    /// An UPDATE message.
    Update(Update),
    /// A NOTIFICATION message.
    Notification(Notification),
    /// A KEEPALIVE message.
    KeepAlive,
    /// A ROUTE-REFRESH message.
    RouteRefresh(RouteRefresh),
}

/// What a `Message` holds, as mathematical values.
pub enum MessageView {
    /// An OPEN message.
    Open(OpenView),
    /// An UPDATE message.
    Update(UpdateView),
    /// A NOTIFICATION message.
    Notification(NotificationView),
    /// A KEEPALIVE message.
    KeepAlive,
    /// A ROUTE-REFRESH message.
    RouteRefresh(RouteRefresh),
}

impl View for Message {
    type V = MessageView;

    open spec fn view(&self) -> MessageView {
        match self {
            Message::Open(m) => MessageView::Open(m@),
            Message::Update(m) => MessageView::Update(m@),
            Message::Notification(m) => MessageView::Notification(m@),
            Message::KeepAlive => MessageView::KeepAlive,
            Message::RouteRefresh(m) => MessageView::RouteRefresh(*m),
        }
    }
}

impl Clone for Message {
    fn clone(&self) -> (r: Self)
        ensures
            r@ == self@,
    {
        match self {
            Message::Open(m) => Message::Open(m.clone()),
            Message::Update(m) => Message::Update(m.clone()),
            Message::Notification(m) => Message::Notification(m.clone()),
            Message::KeepAlive => Message::KeepAlive,
            Message::RouteRefresh(m) => Message::RouteRefresh(*m),
        }
    }
}

/// The marker of a message that this codec writes: sixteen bytes of ones.
pub open spec fn ones_marker() -> Seq<u8> {
    Seq::new(16, |i: int| 0xffu8)
}

impl MessageView {
    /// The type code of the message's kind.
    pub open spec fn record_type(self) -> u8 {
        match self {
            MessageView::Open(_) => 1,
            MessageView::Update(_) => 2,
            MessageView::Notification(_) => 3,
            MessageView::KeepAlive => 4,
            MessageView::RouteRefresh(_) => 5,
        }
    }

    /// The wire form of the message's body, without the header.
    pub open spec fn body(self) -> Result<Seq<u8>, Error> {
        match self {
            MessageView::Open(m) => m.encoding(),
            MessageView::Update(m) => m.encoding(),
            MessageView::Notification(m) => Ok(m.encoding()),
            MessageView::KeepAlive => Ok(Seq::empty()),
            MessageView::RouteRefresh(m) => Ok(m.encoding()),
        }
    }

    /// The wire form of the message: a header with a marker of ones, the
    /// length of header and body, and the type code; then the body. A
    /// message of more than 4096 bytes is refused as `MessageTooLarge`.
    pub open spec fn encoding(self) -> Result<Seq<u8>, Error> {
        match self.body() {
            Err(e) => Err(e),
            Ok(body) => if body.len() + 19 > 4096 {
                Err(Error::MessageTooLarge)
            } else {
                Ok(
                    ones_marker() + u16_be_bytes((body.len() + 19) as u16) + seq![
                        self.record_type(),
                    ] + body,
                )
            },
        }
    }
}

impl Message {
    /// Appends the body of the message, without the header, to `buf`.
    pub fn encode_noheader(&self, buf: &mut Vec<u8>) -> (r: Result<(), Error>)
        ensures
            appended(old(buf)@, final(buf)@, r, self@.body()),
    {
        match self {
            Message::Open(open) => open.encode(buf),
            Message::Update(update) => update.encode(buf),
            Message::Notification(notification) => notification.encode(buf),
            Message::KeepAlive => {
                assert(buf@ =~= old(buf)@ + Seq::<u8>::empty());
                Ok(())
            },
            Message::RouteRefresh(refresh) => refresh.encode(buf),
        }
    }

    /// Appends the message, header and body, to `buf`.
    pub fn encode(&self, buf: &mut Vec<u8>) -> (r: Result<(), Error>)
        ensures
            appended(old(buf)@, final(buf)@, r, self@.encoding()),
    {
        let mut message_buf: Vec<u8> = Vec::new();
        self.encode_noheader(&mut message_buf)?;
        assert(message_buf@ =~= self@.body()->Ok_0);
        let message_length = message_buf.len();
        if message_length > 4096 - 19 {
            return Err(Error::MessageTooLarge);
        }
        let header = Header {
            marker: [0xff;16],
            length: (message_length + 19) as u16,
            record_type: match self {
                Message::Open(_) => 1,
                Message::Update(_) => 2,
                Message::Notification(_) => 3,
                Message::KeepAlive => 4,
                Message::RouteRefresh(_) => 5,
            },
        };
        assert(header.marker@ =~= ones_marker());
        let _ = header.encode(buf);
        push_bytes(buf, message_buf.as_slice());
        assert(buf@ =~= old(buf)@ + (ones_marker() + u16_be_bytes((message_buf@.len() + 19) as u16)
            + seq![self@.record_type()] + message_buf@));
        Ok(())
    }
}

/// What reading one message gives, at `pos`: the header, and after it the
/// body of the kind that the type code of the header names. A type code
/// other than 1 to 5 is refused as `UnknownMessageType` after the header.
/// Where header or body fail to read, the place is where that reading
/// stopped.
pub open spec fn spec_read(data: Seq<u8>, pos: int, add_path: bool) -> Parsed<
    (HeaderView, MessageView),
> {
    match spec_parse_header(data, pos) {
        Err(e) => Err(e),
        Ok((header, at)) => if header.record_type == 1 {
            match spec_parse_open(data, at) {
                Err(e) => Err(e),
                Ok((m, end)) => done((header, MessageView::Open(m)), end),
            }
        } else if header.record_type == 2 {
            match spec_parse_update(data, at, header.length, add_path) {
                Err(e) => Err(e),
                Ok((m, end)) => done((header, MessageView::Update(m)), end),
            }
        } else if header.record_type == 3 {
            match spec_parse_notification(data, at, header.length) {
                Err(e) => Err(e),
                Ok((m, end)) => done((header, MessageView::Notification(m)), end),
            }
        } else if header.record_type == 4 {
            done((header, MessageView::KeepAlive), at)
        } else if header.record_type == 5 {
            match spec_parse_route_refresh(data, at) {
                Err(e) => Err(e),
                Ok((m, end)) => done((header, MessageView::RouteRefresh(m)), end),
            }
        } else {
            stop(Error::UnknownMessageType(header.record_type), at)
        }
    }
}

/// A reader of messages from a run of bytes.
pub struct Reader<'a, C: CapabilitiesRef> {
    /// The bytes that the messages are read from, and the place in them.
    pub stream: Cursor<'a>,
    /// The descriptor of the session, which decides how UPDATE messages
    /// are read.
    pub capabilities: C,
}

impl<'a, C: CapabilitiesRef> Reader<'a, C> {
    /// Reads the next message: its header, and its body. Where that
    /// fails, the stream is left where reading stopped.
    pub fn read(&mut self) -> (r: Result<(Header, Message), Error>)
        ensures
            final(self).stream.data == old(self).stream.data,
            final(self).capabilities == old(self).capabilities,
            match r {
                Ok((h, m)) => spec_read(
                    old(self).stream.data@,
                    old(self).stream.at(),
                    old(self).capabilities.spec_ref().EXTENDED_PATH_NLRI_SUPPORT,
                ) == done((h@, m@), final(self).stream.at()),
                Err(e) => spec_read(
                    old(self).stream.data@,
                    old(self).stream.at(),
                    old(self).capabilities.spec_ref().EXTENDED_PATH_NLRI_SUPPORT,
                ) == stop::<(HeaderView, MessageView)>(e, final(self).stream.at()),
            },
    {
        let header = Header::parse(&mut self.stream)?;
        if header.record_type == 1 {
            let m = Open::parse(&mut self.stream)?;
            Ok((header, Message::Open(m)))
        } else if header.record_type == 2 {
            let m = Update::parse(&header, &mut self.stream, self.capabilities.get_ref())?;
            Ok((header, Message::Update(m)))
        } else if header.record_type == 3 {
            let m = Notification::parse(&header, &mut self.stream)?;
            Ok((header, Message::Notification(m)))
        } else if header.record_type == 4 {
            Ok((header, Message::KeepAlive))
        } else if header.record_type == 5 {
            let m = RouteRefresh::parse(&mut self.stream)?;
            Ok((header, Message::RouteRefresh(m)))
        } else {
            Err(Error::UnknownMessageType(header.record_type))
        }
    }
}

impl<'a> Reader<'a, Capabilities> {
    /// A reader at the start of `stream`, for a session that has
    /// negotiated nothing.
    pub fn new(stream: Cursor<'a>) -> (r: Self)
        ensures
            r.stream == stream,
            r.capabilities@ == CapabilitiesView::empty(),
            r.capabilities.wf(),
    {
        Reader { stream, capabilities: Capabilities::default() }
    }
}

/// A ROUTE-REFRESH body that is written and read again is the same
/// message.
pub proof fn lemma_route_refresh_round_trip(m: RouteRefresh)
    ensures
        m.encoding().len() == 4,
        spec_parse_route_refresh(m.encoding(), 0) == done(m, 4),
{
    let bytes = m.encoding();
    lemma_u16_round_trip(m.afi.spec_code());
    lemma_afi_code_round_trip(m.afi);
    lemma_safi_code_round_trip(m.safi);
    assert(bytes_at(bytes, 0, 2) =~= u16_be_bytes(m.afi.spec_code()));
    assert(bytes[2] == m.subtype);
    assert(bytes[3] == m.safi.spec_code());
}

/// A NOTIFICATION body that is written and read again, under a header
/// that counts the body and its own nineteen bytes, is the same message.
pub proof fn lemma_notification_round_trip(m: NotificationView, length: u16)
    requires
        length == m.encoding().len() + 19,
    ensures
        spec_parse_notification(m.encoding(), 0, length) == done(m, m.encoding().len() as int),
{
    let bytes = m.encoding();
    assert(bytes[0] == m.major_err_code);
    assert(bytes[1] == m.minor_err_code);
    assert(bytes_at(bytes, 2, bytes.len() - 2) =~= m.data);
}

/// A message whose header is the first nineteen bytes of `wire`, with a
/// marker of ones and a length that counts all of `wire`, and whose body
/// is written as the rest of `wire`, is written as `wire`.
proof fn lemma_framed(wire: Seq<u8>, header: HeaderView, message: MessageView)
    requires
        19 <= wire.len() <= 4096,
        header.encoding() == wire.subrange(0, 19),
        header.marker == ones_marker(),
        header.length == wire.len(),
        header.record_type == message.record_type(),
        message.body() == Ok::<Seq<u8>, Error>(wire.subrange(19, wire.len() as int)),
    ensures
        message.encoding() == Ok::<Seq<u8>, Error>(wire),
{
    let body = wire.subrange(19, wire.len() as int);
    assert(body.len() + 19 == wire.len());
    assert((body.len() + 19) as u16 == header.length);
    assert(wire =~= wire.subrange(0, 19) + body);
    assert(message.encoding()->Ok_0 =~= header.encoding() + body);
}

/// The header that is read at the start of `wire` is written as the
/// first nineteen bytes of `wire`.
proof fn lemma_header_wire(wire: Seq<u8>)
    requires
        spec_parse_header(wire, 0) is Ok,
    ensures
        wire.len() >= 19,
        spec_parse_header(wire, 0)->Ok_0.1 == 19,
        spec_parse_header(wire, 0)->Ok_0.0.encoding() == wire.subrange(0, 19),
{
    let header = spec_parse_header(wire, 0)->Ok_0.0;
    lemma_u16_bytes_round_trip(bytes_at(wire, 16, 2));
    assert(header.encoding() =~= wire.subrange(0, 19));
}

/// The ROUTE-REFRESH body that is read at 19 of `wire` and ends with it
/// is written as the bytes of `wire` from 19 on.
proof fn lemma_route_refresh_wire(wire: Seq<u8>)
    requires
        spec_parse_route_refresh(wire, 19) matches Ok((m, end)) && end == wire.len(),
    ensures
        spec_parse_route_refresh(wire, 19)->Ok_0.0.encoding() == wire.subrange(
            19,
            wire.len() as int,
        ),
{
    let m = spec_parse_route_refresh(wire, 19)->Ok_0.0;
    lemma_afi_from_code_exact(u16_at(wire, 19));
    lemma_safi_from_code_exact(wire[22]);
    lemma_u16_bytes_round_trip(bytes_at(wire, 19, 2));
    assert(wire.len() == 23);
    assert(m.encoding() =~= wire.subrange(19, 23));
}

/// The NOTIFICATION body that is read at 19 of `wire`, under a header
/// that counts all of `wire`, is written as the bytes of `wire` from 19
/// on.
proof fn lemma_notification_wire(wire: Seq<u8>, length: u16)
    requires
        length == wire.len(),
        spec_parse_notification(wire, 19, length) is Ok,
    ensures
        spec_parse_notification(wire, 19, length)->Ok_0.0.encoding() == wire.subrange(
            19,
            wire.len() as int,
        ),
{
    let m = spec_parse_notification(wire, 19, length)->Ok_0.0;
    assert(m.encoding() =~= wire.subrange(19, wire.len() as int));
}

/// A KEEPALIVE, NOTIFICATION or ROUTE-REFRESH message that is read from
/// the whole of `wire`, under a marker of ones and a length that counts
/// all of `wire`, is written as `wire` again, up to the largest message
/// that is written.
proof fn lemma_plain_wire_round_trip(wire: Seq<u8>, add_path: bool)
    requires
        wire.len() <= 4096,
        spec_read(wire, 0, add_path) matches Ok(((header, message), end)) && header.marker
            == ones_marker() && header.length == wire.len() && end == wire.len() && (message
            is KeepAlive || message is Notification || message is RouteRefresh),
    ensures
        spec_read(wire, 0, add_path)->Ok_0.0.1.encoding() == Ok::<Seq<u8>, Error>(wire),
{
    let header = spec_parse_header(wire, 0)->Ok_0.0;
    let message = spec_read(wire, 0, add_path)->Ok_0.0.1;
    lemma_header_wire(wire);
    if header.record_type == 3 {
        lemma_notification_wire(wire, header.length);
    } else if header.record_type == 5 {
        lemma_route_refresh_wire(wire);
    } else {
        assert(header.record_type == 4);
        assert(wire.subrange(19, wire.len() as int) =~= Seq::<u8>::empty());
    }
    lemma_framed(wire, header, message);
}

/// Whether the attributes of the UPDATE message `wire` are each written
/// as they were read.
pub open spec fn update_attributes_kept(wire: Seq<u8>, add_path: bool) -> bool {
    attributes_kept(
        bytes_at(wire, 23 + u16_at(wire, 19), u16_at(wire, 21 + u16_at(wire, 19)) as int),
        0,
        add_path,
    )
}

/// An UPDATE message that is read from the whole of `wire`, under a
/// marker of ones and a length that counts all of `wire`, is written as
/// `wire` again, up to the largest message that is written, where each of
/// its attributes is written as it was read, no prefix holds a bit beyond
/// its length, and the withdrawn routes that were read hold no path
/// identifiers.
proof fn lemma_update_wire_round_trip(wire: Seq<u8>, add_path: bool)
    requires
        wire.len() <= 4096,
        spec_read(wire, 0, add_path) matches Ok(((header, MessageView::Update(u)), end))
            && header.marker == ones_marker() && header.length == wire.len() && end == wire.len()
            && all_ipv4(u.withdrawn_routes) && routes_masked(u.withdrawn_routes) && routes_masked(
            u.announced_routes,
        ),
        update_attributes_kept(wire, add_path),
    ensures
        spec_read(wire, 0, add_path)->Ok_0.0.1.encoding() == Ok::<Seq<u8>, Error>(wire),
{
    let header = spec_parse_header(wire, 0)->Ok_0.0;
    let message = spec_read(wire, 0, add_path)->Ok_0.0.1;
    lemma_header_wire(wire);
    lemma_update_round_trip(wire, 19, header.length, add_path);
    lemma_framed(wire, header, message);
}

/// An OPEN message that is read from the whole of `wire`, under a marker
/// of ones and a length that counts all of `wire`, is written as `wire`
/// again, where each of its parameters is written as it was read.
proof fn lemma_open_wire_round_trip(wire: Seq<u8>, add_path: bool)
    requires
        wire.len() <= 4096,
        spec_read(wire, 0, add_path) matches Ok(((header, MessageView::Open(o)), end))
            && header.marker == ones_marker() && header.length == wire.len() && end == wire.len(),
        fits(wire, 19, 10),
        parameters_kept(bytes_at(wire, 29, wire[28] as int), 0),
    ensures
        spec_read(wire, 0, add_path)->Ok_0.0.1.encoding() == Ok::<Seq<u8>, Error>(wire),
{
    let header = spec_parse_header(wire, 0)->Ok_0.0;
    let message = spec_read(wire, 0, add_path)->Ok_0.0.1;
    lemma_header_wire(wire);
    lemma_open_bytes_round_trip(wire, 19);
    lemma_framed(wire, header, message);
}

/// Whether `wire` holds nothing that reading `message` from it drops or
/// changes. This is so of every KEEPALIVE, NOTIFICATION and
/// ROUTE-REFRESH; of an OPEN whose parameters are each written as they
/// were read; and of an UPDATE whose attributes are of the kinds that are
/// written, under the flags of their kind and the shortest form of their
/// length, with AS numbers in the width that they are written in, whose
/// prefixes hold no bit beyond their length, and whose withdrawn routes
/// were read without path identifiers.
pub open spec fn written_as_read(wire: Seq<u8>, message: MessageView, add_path: bool) -> bool {
    match message {
        MessageView::Open(_) => fits(wire, 19, 10) && parameters_kept(
            bytes_at(wire, 29, wire[28] as int),
            0,
        ),
        MessageView::Update(u) => all_ipv4(u.withdrawn_routes) && routes_masked(
            u.withdrawn_routes,
        ) && routes_masked(u.announced_routes) && update_attributes_kept(wire, add_path),
        _ => true,
    }
}

/// A message that is read from the whole of `wire`, under a marker of
/// ones and a length that counts all of `wire`, is written as `wire`
/// again, byte for byte, where `wire` is no longer than the largest
/// message that is written and holds nothing that reading drops or
/// changes.
pub proof fn lemma_wire_round_trip(wire: Seq<u8>, add_path: bool)
    requires
        wire.len() <= 4096,
        spec_read(wire, 0, add_path) matches Ok(((header, message), end)) && header.marker
            == ones_marker() && header.length == wire.len() && end == wire.len()
            && written_as_read(wire, message, add_path),
    ensures
        spec_read(wire, 0, add_path)->Ok_0.0.1.encoding() == Ok::<Seq<u8>, Error>(wire),
{
    match spec_read(wire, 0, add_path)->Ok_0.0.1 {
        MessageView::Open(_) => lemma_open_wire_round_trip(wire, add_path),
        MessageView::Update(_) => lemma_update_wire_round_trip(wire, add_path),
        _ => lemma_plain_wire_round_trip(wire, add_path),
    }
}

} // verus!
