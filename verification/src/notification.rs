//! The NOTIFICATION message.

use crate::endian::{push_bytes, push_u8};
use crate::error::{done, stop, Error, Parsed};
use crate::header::Header;
use crate::stream::{bytes_at, fits, Cursor};
use crate::text::{decimal, push_decimal, string_from_utf8};
use crate::update::prefix::{copy_vec, to_vec};
use vstd::prelude::*;
use vstd::string::StringExecFns;
use vstd::utf8::{decode_utf8, valid_utf8};

verus! {

/// A NOTIFICATION message: what went wrong, and data that tells more.
#[derive(Debug)]
pub struct Notification {
    /// The major error code.
    pub major_err_code: u8,
    /// The minor error code.
    pub minor_err_code: u8,
    /// The data of the notification.
    pub data: Vec<u8>,
}

/// What a `Notification` holds, as mathematical values.
pub struct NotificationView {
    /// The major error code.
    pub major_err_code: u8,
    /// The minor error code.
    pub minor_err_code: u8,
    /// The data of the notification.
    pub data: Seq<u8>,
}

impl View for Notification {
    type V = NotificationView;

    open spec fn view(&self) -> NotificationView {
        NotificationView {
            major_err_code: self.major_err_code,
            minor_err_code: self.minor_err_code,
            data: self.data@,
        }
    }
}

impl Clone for Notification {
    fn clone(&self) -> (r: Self)
        ensures
            r@ == self@,
    {
        Notification {
            major_err_code: self.major_err_code,
            minor_err_code: self.minor_err_code,
            data: copy_vec(&self.data),
        }
    }
}

impl NotificationView {
    /// The wire form of the message's body: the two codes, then the data.
    pub open spec fn encoding(self) -> Seq<u8> {
        seq![self.major_err_code, self.minor_err_code] + self.data
    }

    /// The name of the major error code; for a code other than 1 to 6,
    /// the code in decimal after "Major Code ".
    pub open spec fn major(self) -> Seq<char> {
        if self.major_err_code == 1 {
            "Message Header Error"@
        } else if self.major_err_code == 2 {
            "OPEN Message Error"@
        } else if self.major_err_code == 3 {
            "UPDATE Message Error"@
        } else if self.major_err_code == 4 {
            "Hold Timer Expired"@
        } else if self.major_err_code == 5 {
            "Finite State Machine"@
        } else if self.major_err_code == 6 {
            "Cease"@
        } else {
            "Major Code "@ + decimal(self.major_err_code as nat)
        }
    }

    /// The data as text, where it is well-formed UTF-8.
    pub open spec fn message(self) -> Option<Seq<char>> {
        if valid_utf8(self.data) {
            Some(decode_utf8(self.data))
        } else {
            None
        }
    }

    /// The message in one line: the name of the major code, the minor
    /// code in decimal, and the data as text where it is text.
    pub open spec fn text(self) -> Seq<char> {
        self.major() + " / "@ + decimal(self.minor_err_code as nat) + " "@ + (match self.message() {
            Some(m) => m,
            None => Seq::empty(),
        })
    }
}

/// What the body of a NOTIFICATION gives, read at `pos`, under a header
/// that declares `length` bytes for the whole message: the two codes, and
/// as data the bytes that `length` counts beyond the 21 of header and
/// codes. Where the bytes end within the body, the place is after the
/// last of the three that is whole.
pub open spec fn spec_parse_notification(data: Seq<u8>, pos: int, length: u16) -> Parsed<
    NotificationView,
> {
    let extra: int = if length > 21 {
        length - 21
    } else {
        0
    };
    if !fits(data, pos, 1) {
        stop(Error::UnexpectedEof, pos)
    } else if !fits(data, pos + 1, 1) {
        stop(Error::UnexpectedEof, pos + 1)
    } else if !fits(data, pos + 2, extra) {
        stop(Error::UnexpectedEof, pos + 2)
    } else {
        done(
            NotificationView {
                major_err_code: data[pos],
                minor_err_code: data[pos + 1],
                data: bytes_at(data, pos + 2, extra),
            },
            pos + 2 + extra,
        )
    }
}

impl Notification {
    /// A notification without data.
    pub fn new(major: u8, minor: u8) -> (r: Self)
        ensures
            r.major_err_code == major,
            r.minor_err_code == minor,
            r.data@ == Seq::<u8>::empty(),
    {
        Self::with_data(major, minor, Vec::new())
    }

    /// A notification with data.
    pub fn with_data(major: u8, minor: u8, data: Vec<u8>) -> (r: Self)
        ensures
            r.major_err_code == major,
            r.minor_err_code == minor,
            r.data == data,
    {
        Notification { major_err_code: major, minor_err_code: minor, data }
    }

    /// Reads the body of a NOTIFICATION whose header is `header`. Where
    /// the bytes end within the body, the stream is left after the last
    /// field that was read whole.
    pub fn parse(header: &Header, stream: &mut Cursor) -> (r: Result<Notification, Error>)
        ensures
            final(stream).data == old(stream).data,
            match r {
                Ok(n) => spec_parse_notification(
                    old(stream).data@,
                    old(stream).at(),
                    header.length,
                ) == done(n@, final(stream).at()),
                Err(e) => spec_parse_notification(
                    old(stream).data@,
                    old(stream).at(),
                    header.length,
                ) == stop::<NotificationView>(e, final(stream).at()),
            },
    {
        let major_err_code = stream.read_u8()?;
        let minor_err_code = stream.read_u8()?;
        let data = if header.length > 21 {
            let remaining_length = header.length as usize - 21;
            to_vec(stream.read_exact(remaining_length)?)
        } else {
            assert(bytes_at(stream.data@, stream.at(), 0) =~= Seq::<u8>::empty());
            Vec::new()
        };
        Ok(Notification { major_err_code, minor_err_code, data })
    }

    /// Appends the body of the message to `buf`.
    pub fn encode(&self, buf: &mut Vec<u8>) -> (r: Result<(), Error>)
        ensures
            r == Ok::<(), Error>(()),
            final(buf)@ == old(buf)@ + self@.encoding(),
    {
        push_u8(buf, self.major_err_code);
        push_u8(buf, self.minor_err_code);
        push_bytes(buf, self.data.as_slice());
        assert(buf@ =~= old(buf)@ + self@.encoding());
        Ok(())
    }

    /// The name of the major error code.
    pub fn major(&self) -> (r: String)
        ensures
            r@ == self@.major(),
    {
        match self.major_err_code {
            1 => "Message Header Error".to_owned(),
            2 => "OPEN Message Error".to_owned(),
            3 => "UPDATE Message Error".to_owned(),
            4 => "Hold Timer Expired".to_owned(),
            5 => "Finite State Machine".to_owned(),
            6 => "Cease".to_owned(),
            _ => {
                let mut out = "Major Code ".to_owned();
                push_decimal(&mut out, self.major_err_code as u32);
                out
            },
        }
    }

    /// The minor error code in decimal.
    pub fn minor(&self) -> (r: String)
        ensures
            r@ == decimal(self.minor_err_code as nat),
    {
        let mut out = String::new();
        push_decimal(&mut out, self.minor_err_code as u32);
        assert(out@ =~= decimal(self.minor_err_code as nat));
        out
    }

    /// The data as text, where it is well-formed UTF-8.
    pub fn message(&self) -> (r: Option<String>)
        ensures
            match r {
                Some(s) => self@.message() == Some(s@),
                None => self@.message() is None,
            },
    {
        string_from_utf8(copy_vec(&self.data))
    }

    /// The message in one line.
    pub fn to_string(&self) -> (r: String)
        ensures
            r@ == self@.text(),
    {
        let mut out = self.major();
        out.append(" / ");
        push_decimal(&mut out, self.minor_err_code as u32);
        out.append(" ");
        match self.message() {
            Some(m) => {
                out.append(m.as_str());
            },
            None => {
                assert(out@ =~= out@ + Seq::<char>::empty());
            },
        }
        out
    }
}

} // verus!
