//! Decoding and encoding of BGP-4 messages.
//!
//! A message is read from a [`Cursor`] over bytes and written onto a
//! `Vec<u8>`. Every reader states, over the bytes and the place of the
//! cursor, the value it returns and the error it fails with; every writer
//! states the bytes it appends.
//!
//! A reader that fails leaves its cursor where reading stopped: what was
//! read up to the refusal stays read, and nothing after the field that was
//! refused is touched. Each reader states that place together with the
//! error. A block that a length field announces is taken off the cursor as
//! a whole before it is decoded, so a failure within the block leaves the
//! cursor after the block. [`PathAttribute::parse`] does the same with
//! the bytes that the frame of an attribute declares: where they are all
//! there, the cursor passes the attribute whether its body decodes or not,
//! so that the attributes after it can still be read. A writer that fails
//! leaves its buffer as it was.

pub mod collection;
pub mod endian;
pub mod error;
pub mod family;
pub mod header;
pub mod message;
pub mod notification;
pub mod open;
pub mod stream;
pub mod text;
pub mod update;
pub mod util;

pub use crate::error::Error;
pub use crate::family::{AFI, SAFI};
pub use crate::header::Header;
pub use crate::message::{Message, Reader, RouteRefresh};
pub use crate::notification::Notification;
pub use crate::open::{
    AddPathDirection, Capabilities, CapabilitiesRef, Open, OpenCapability, OpenParameter,
};
pub use crate::stream::{Cursor, ReadCountingStream};
pub use crate::update::aspath::{ASPath, Segment};
pub use crate::update::attributes::{
    Identifier, IpAddr, Ipv4Addr, Ipv6Addr, Origin, PathAttribute,
};
pub use crate::update::flowspec::{
    BinaryOperator, FlowspecFilter, FragmentOperator, NumericOperator,
};
pub use crate::update::nlri::{MPReachNLRI, MPUnreachNLRI, NLRIEncoding};
pub use crate::update::prefix::Prefix;
pub use crate::update::Update;
