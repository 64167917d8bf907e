//! The UPDATE message and what it carries.

pub mod aspath;
pub mod attributes;
pub mod flow_written;
pub mod flowspec;
pub mod nlri;
pub mod prefix;
pub mod roundtrip;
pub mod written;

use crate::collection::contains;
use crate::endian::{push_bytes, push_u16, u16_be_bytes};
use crate::error::{appended, done, in_block, stop, Error, Parsed};
use crate::family::{AFI, SAFI};
use crate::header::Header;
use crate::open::Capabilities;
use crate::stream::{bytes_at, fits, u16_at, Cursor};
use crate::update::attributes::{
    attribute_framed, attribute_views, attributes_encoding, encode_attributes,
    lemma_attribute_advance, read_attribute, spec_parse_attribute, Identifier, PathAttribute,
    PathAttributeView,
};
use crate::update::nlri::{
    clone_routes, encode_routes, nlri_from, nlri_views, parse_nlri, routes_encoding, MPReachNLRI,
    MPReachView, MPUnreachNLRI, MPUnreachView, NLRIEncoding, NLRIView,
};
use crate::update::prefix::copy_vec;
use vstd::prelude::*;

verus! {

/// An UPDATE message.
#[derive(Debug)]
pub struct Update {
    /// The routes that are withdrawn.
    pub withdrawn_routes: Vec<NLRIEncoding>,
    /// The attributes of the routes that are announced.
    pub attributes: Vec<PathAttribute>,
    /// The routes that are announced.
    pub announced_routes: Vec<NLRIEncoding>,
}

/// What an `Update` holds, as mathematical values.
pub struct UpdateView {
    /// The routes that are withdrawn.
    pub withdrawn_routes: Seq<NLRIView>,
    /// The attributes of the routes that are announced.
    pub attributes: Seq<PathAttributeView>,
    /// The routes that are announced.
    pub announced_routes: Seq<NLRIView>,
}

impl View for Update {
    type V = UpdateView;

    open spec fn view(&self) -> UpdateView {
        UpdateView {
            withdrawn_routes: nlri_views(self.withdrawn_routes@),
            attributes: attribute_views(self.attributes@),
            announced_routes: nlri_views(self.announced_routes@),
        }
    }
}

/// Copies a list of attributes.
pub fn clone_attributes(attributes: &Vec<PathAttribute>) -> (r: Vec<PathAttribute>)
    ensures
        attribute_views(r@) == attribute_views(attributes@),
{
    let mut out: Vec<PathAttribute> = Vec::new();
    let mut i: usize = 0;
    while i < attributes.len()
        invariant
            i <= attributes.len(),
            out@.len() == i,
            forall|j: int| 0 <= j < i ==> out@[j]@ == attributes@[j]@,
        decreases attributes.len() - i,
    {
        out.push(attributes[i].clone());
        i = i + 1;
    }
    assert(attribute_views(out@) =~= attribute_views(attributes@));
    out
}

impl Clone for Update {
    fn clone(&self) -> (r: Self)
        ensures
            r@ == self@,
    {
        Update {
            withdrawn_routes: clone_routes(&self.withdrawn_routes),
            attributes: clone_attributes(&self.attributes),
            announced_routes: clone_routes(&self.announced_routes),
        }
    }
}

/// The attributes read from `pos` to the end of `data`, after `acc`. An
/// attribute whose frame is cut short or declares more bytes than follow
/// it fails the whole list with its error, and so does one whose decoder
/// runs out of bytes, with `UnexpectedEof`; an attribute that fails in
/// another way is left out.
pub open spec fn update_attributes_from(
    data: Seq<u8>,
    pos: int,
    add_path: bool,
    acc: Seq<PathAttributeView>,
) -> Result<Seq<PathAttributeView>, Error>
    decreases
        (if pos < data.len() {
            data.len() - pos
        } else {
            0
        }),
{
    if pos >= data.len() {
        Ok(acc)
    } else {
        let step = spec_parse_attribute(data, pos, add_path);
        match step.0 {
            Ok(attribute) => {
                proof {
                    lemma_attribute_advance(data, pos, add_path);
                }
                update_attributes_from(data, step.1, add_path, acc.push(attribute))
            },
            Err(e) => if e == Error::UnexpectedEof || !attribute_framed(data, pos) {
                Err(e)
            } else {
                proof {
                    lemma_attribute_advance(data, pos, add_path);
                }
                update_attributes_from(data, step.1, add_path, acc)
            },
        }
    }
}

/// The block of bytes that stands at `pos` after its own length in two
/// bytes, and the place after it. A length above `limit` is refused as
/// `MalformedMessage` after the length, before any byte of the block.
pub open spec fn block_at(data: Seq<u8>, pos: int, limit: int) -> Parsed<Seq<u8>> {
    if !fits(data, pos, 2) {
        stop(Error::UnexpectedEof, pos)
    } else if u16_at(data, pos) > limit {
        stop(Error::MalformedMessage, pos + 2)
    } else if !fits(data, pos + 2, u16_at(data, pos) as int) {
        stop(Error::UnexpectedEof, pos + 2)
    } else {
        done(bytes_at(data, pos + 2, u16_at(data, pos) as int), pos + 2 + u16_at(data, pos))
    }
}

/// The plain IPv4 routes that fill `block`.
pub open spec fn section_routes(block: Seq<u8>, add_path: bool) -> Result<Seq<NLRIView>, Error> {
    in_block(
        nlri_from(
            block,
            0,
            block.len() as int,
            AFI::IPV4,
            SAFI::Unicast,
            add_path,
            Seq::empty(),
        ),
    )
}

/// What the body of an UPDATE gives, read at `pos`, under a header that
/// declares `length` bytes for the whole message: the withdrawn routes
/// after their length, the attributes after theirs, and as announced
/// routes the bytes that `length` counts beyond them. The routes of both
/// sections are plain IPv4 routes.
///
/// A header of less than 23 bytes is refused as `MalformedMessage` before
/// a byte is read. A length that exceeds what the message still holds is
/// refused as `MalformedMessage` after the two bytes of the length, and
/// nothing after them is read. Where the routes or the attributes of a
/// section fail to read, the place is after that section.
#[verifier::opaque]
pub open spec fn spec_parse_update(data: Seq<u8>, pos: int, length: u16, add_path: bool) -> Parsed<
    UpdateView,
> {
    if length < 23 {
        stop(Error::MalformedMessage, pos)
    } else {
        match block_at(data, pos, length - 23) {
            Err(e) => Err(e),
            Ok((withdrawn, p1)) => match section_routes(withdrawn, add_path) {
                Err(e) => stop(e, p1),
                Ok(withdrawn_routes) => match block_at(data, p1, length - 23 - withdrawn.len()) {
                    Err(e) => Err(e),
                    Ok((attrs, p2)) => match update_attributes_from(
                        attrs,
                        0,
                        add_path,
                        Seq::empty(),
                    ) {
                        Err(e) => stop(e, p2),
                        Ok(attributes) => {
                            let n = length - 23 - withdrawn.len() - attrs.len();
                            if !fits(data, p2, n) {
                                stop(Error::UnexpectedEof, p2)
                            } else {
                                match section_routes(bytes_at(data, p2, n), add_path) {
                                    Err(e) => stop(e, p2 + n),
                                    Ok(announced_routes) => done(
                                        UpdateView {
                                            withdrawn_routes,
                                            attributes,
                                            announced_routes,
                                        },
                                        p2 + n,
                                    ),
                                }
                            }
                        },
                    },
                },
            },
        }
    }
}

/// Reads a block of bytes after its own length in two bytes.
fn read_block<'a>(stream: &mut Cursor<'a>, limit: usize) -> (r: Result<&'a [u8], Error>)
    ensures
        final(stream).data == old(stream).data,
        match r {
            Ok(b) => block_at(old(stream).data@, old(stream).at(), limit as int) == done(
                b@,
                final(stream).at(),
            ) && b@.len() <= limit && b@.len() <= u16::MAX,
            Err(e) => block_at(old(stream).data@, old(stream).at(), limit as int) == stop::<
                Seq<u8>,
            >(e, final(stream).at()),
        },
{
    let length = stream.read_u16()? as usize;
    if length > limit {
        return Err(Error::MalformedMessage);
    }
    stream.read_exact(length)
}

/// Reads the plain IPv4 routes that fill `block`.
fn parse_section(block: &[u8], capabilities: &Capabilities) -> (r: Result<Vec<NLRIEncoding>, Error>)
    requires
        block@.len() <= u16::MAX,
    ensures
        match r {
            Ok(v) => section_routes(block@, capabilities.EXTENDED_PATH_NLRI_SUPPORT) == Ok::<
                Seq<NLRIView>,
                Error,
            >(nlri_views(v@)),
            Err(e) => section_routes(block@, capabilities.EXTENDED_PATH_NLRI_SUPPORT) == Err::<
                Seq<NLRIView>,
                Error,
            >(e),
        },
{
    let mut cursor = Cursor::new(block);
    parse_nlri(AFI::IPV4, SAFI::Unicast, capabilities, &mut cursor, block.len() as u16)
}

/// Reads the attributes that fill `block`.
fn parse_attributes(block: &[u8], capabilities: &Capabilities) -> (r: Result<
    Vec<PathAttribute>,
    Error,
>)
    ensures
        match r {
            Ok(v) => update_attributes_from(
                block@,
                0,
                capabilities.EXTENDED_PATH_NLRI_SUPPORT,
                Seq::empty(),
            ) == Ok::<Seq<PathAttributeView>, Error>(attribute_views(v@)),
            Err(e) => update_attributes_from(
                block@,
                0,
                capabilities.EXTENDED_PATH_NLRI_SUPPORT,
                Seq::empty(),
            ) == Err::<Seq<PathAttributeView>, Error>(e),
        },
{
    let ghost add_path = capabilities.EXTENDED_PATH_NLRI_SUPPORT;
    let mut cursor = Cursor::new(block);
    let mut attributes: Vec<PathAttribute> = Vec::new();
    assert(attribute_views(attributes@) =~= Seq::empty());
    while cursor.position() < block.len()
        invariant
            cursor.data == block,
            add_path == capabilities.EXTENDED_PATH_NLRI_SUPPORT,
            update_attributes_from(block@, 0, add_path, Seq::empty()) == update_attributes_from(
                block@,
                cursor.at(),
                add_path,
                attribute_views(attributes@),
            ),
        decreases
            (if cursor.pos < block@.len() {
                block@.len() - cursor.pos
            } else {
                0
            }),
    {
        let ghost before = attribute_views(attributes@);
        proof {
            lemma_attribute_advance(block@, cursor.at(), add_path);
        }
        match read_attribute(&mut cursor, capabilities)? {
            Ok(a) => {
                let ghost view = a@;
                attributes.push(a);
                assert(attribute_views(attributes@) =~= before.push(view));
            },
            Err(e) => {
                if e.is_eof() {
                    return Err(e);
                }
            },
        }
    }
    Ok(attributes)
}

impl Update {
    /// Reads the body of an UPDATE whose header is `header`. Where that
    /// fails, the stream is left where reading stopped: after the length
    /// that was refused, or after the section that failed to read.
    pub fn parse(header: &Header, stream: &mut Cursor, capabilities: &Capabilities) -> (r: Result<
        Update,
        Error,
    >)
        ensures
            final(stream).data == old(stream).data,
            match r {
                Ok(u) => spec_parse_update(
                    old(stream).data@,
                    old(stream).at(),
                    header.length,
                    capabilities.EXTENDED_PATH_NLRI_SUPPORT,
                ) == done(u@, final(stream).at()),
                Err(e) => spec_parse_update(
                    old(stream).data@,
                    old(stream).at(),
                    header.length,
                    capabilities.EXTENDED_PATH_NLRI_SUPPORT,
                ) == stop::<UpdateView>(e, final(stream).at()),
            },
    {
        proof {
            reveal(spec_parse_update);
        }
        if header.length < 23 {
            return Err(Error::MalformedMessage);
        }
        let mut nlri_length: usize = header.length as usize - 23;
        let block = read_block(stream, nlri_length)?;
        nlri_length = nlri_length - block.len();
        let withdrawn_routes = parse_section(block, capabilities)?;
        let block = read_block(stream, nlri_length)?;
        nlri_length = nlri_length - block.len();
        let attributes = parse_attributes(block, capabilities)?;
        let block = stream.read_exact(nlri_length)?;
        let announced_routes = parse_section(block, capabilities)?;
        Ok(Update { withdrawn_routes, attributes, announced_routes })
    }
}

/// The place of the first attribute of kind `id` from `i` on; the length
/// of the list where there is none.
pub open spec fn position_of(attributes: Seq<PathAttributeView>, id: Identifier, i: int) -> int
    decreases attributes.len() - i,
{
    if i < 0 || i >= attributes.len() {
        attributes.len() as int
    } else if attributes[i].id() == id {
        i
    } else {
        position_of(attributes, id, i + 1)
    }
}

/// The attribute without the routes that it carries, where it is an
/// MP_REACH_NLRI or an MP_UNREACH_NLRI attribute.
pub open spec fn without_routes(attribute: PathAttributeView) -> PathAttributeView {
    match attribute {
        PathAttributeView::MP_REACH_NLRI(m) => PathAttributeView::MP_REACH_NLRI(
            MPReachView {
                afi: m.afi,
                safi: m.safi,
                next_hop: m.next_hop,
                announced_routes: Seq::empty(),
            },
        ),
        PathAttributeView::MP_UNREACH_NLRI(m) => PathAttributeView::MP_UNREACH_NLRI(
            MPUnreachView { afi: m.afi, safi: m.safi, withdrawn_routes: Seq::empty() },
        ),
        _ => attribute,
    }
}

/// The attributes with the first of kind `id` left without its routes.
pub open spec fn strip_first(attributes: Seq<PathAttributeView>, id: Identifier) -> Seq<
    PathAttributeView,
> {
    if position_of(attributes, id, 0) < attributes.len() {
        attributes.update(
            position_of(attributes, id, 0),
            without_routes(attributes[position_of(attributes, id, 0)]),
        )
    } else {
        attributes
    }
}

/// The place of the first attribute of a kind is between the place the
/// search starts at and the end, holds an attribute of that kind where it
/// is not the end, and no attribute of that kind stands before it.
pub proof fn lemma_position_of(attributes: Seq<PathAttributeView>, id: Identifier, i: int)
    requires
        0 <= i <= attributes.len(),
    ensures
        i <= position_of(attributes, id, i) <= attributes.len(),
        position_of(attributes, id, i) < attributes.len() ==> attributes[position_of(
            attributes,
            id,
            i,
        )].id() == id,
        forall|j: int| i <= j < position_of(attributes, id, i) ==> attributes[j].id() != id,
    decreases attributes.len() - i,
{
    if i < attributes.len() && attributes[i].id() != id {
        lemma_position_of(attributes, id, i + 1);
    }
}

/// The place of the first attribute of a kind stays where an attribute is
/// replaced by one of its own kind.
pub proof fn lemma_position_after_update(
    attributes: Seq<PathAttributeView>,
    k: int,
    replacement: PathAttributeView,
    id: Identifier,
    i: int,
)
    requires
        0 <= k < attributes.len(),
        0 <= i <= attributes.len(),
        replacement.id() == attributes[k].id(),
    ensures
        position_of(attributes.update(k, replacement), id, i) == position_of(attributes, id, i),
    decreases attributes.len() - i,
{
    if i < attributes.len() && attributes[i].id() != id {
        lemma_position_after_update(attributes, k, replacement, id, i + 1);
    }
}

/// The plain IPv4 routes among the routes from `i` on, after `acc`.
pub open spec fn ipv4_routes_from(routes: Seq<NLRIView>, i: int, acc: Seq<NLRIView>) -> Seq<
    NLRIView,
>
    decreases routes.len() - i,
{
    if i < 0 || i >= routes.len() {
        acc
    } else if routes[i].is_ipv4() {
        ipv4_routes_from(routes, i + 1, acc.push(routes[i]))
    } else {
        ipv4_routes_from(routes, i + 1, acc)
    }
}

/// The families of the routes from `i` on that are not plain IPv4
/// routes, after `acc`, each family once, in the order in which they
/// first occur.
pub open spec fn families_from(routes: Seq<NLRIView>, i: int, acc: Seq<(AFI, SAFI)>) -> Seq<
    (AFI, SAFI),
>
    decreases routes.len() - i,
{
    if i < 0 || i >= routes.len() {
        acc
    } else if routes[i].is_ipv4() || acc.contains((routes[i].afi(), routes[i].safi())) {
        families_from(routes, i + 1, acc)
    } else {
        families_from(routes, i + 1, acc.push((routes[i].afi(), routes[i].safi())))
    }
}

/// The routes of family `family` among the routes from `i` on that are
/// not plain IPv4 routes, after `acc`.
pub open spec fn routes_of_family(
    routes: Seq<NLRIView>,
    i: int,
    family: (AFI, SAFI),
    acc: Seq<NLRIView>,
) -> Seq<NLRIView>
    decreases routes.len() - i,
{
    if i < 0 || i >= routes.len() {
        acc
    } else if !routes[i].is_ipv4() && (routes[i].afi(), routes[i].safi()) == family {
        routes_of_family(routes, i + 1, family, acc.push(routes[i]))
    } else {
        routes_of_family(routes, i + 1, family, acc)
    }
}

/// The MP_UNREACH_NLRI attributes that carry the routes of the families
/// from `k` on, after `acc`: one attribute for each family.
pub open spec fn unreach_attributes_from(
    routes: Seq<NLRIView>,
    families: Seq<(AFI, SAFI)>,
    k: int,
    acc: Seq<PathAttributeView>,
) -> Seq<PathAttributeView>
    decreases families.len() - k,
{
    if k < 0 || k >= families.len() {
        acc
    } else {
        unreach_attributes_from(
            routes,
            families,
            k + 1,
            acc.push(
                PathAttributeView::MP_UNREACH_NLRI(
                    MPUnreachView {
                        afi: families[k].0,
                        safi: families[k].1,
                        withdrawn_routes: routes_of_family(routes, 0, families[k], Seq::empty()),
                    },
                ),
            ),
        )
    }
}

impl UpdateView {
    /// The first attribute of kind `id`.
    pub open spec fn get(self, id: Identifier) -> Option<PathAttributeView> {
        if position_of(self.attributes, id, 0) < self.attributes.len() {
            Some(self.attributes[position_of(self.attributes, id, 0)])
        } else {
            None
        }
    }

    /// Whether the message announces routes: in its own section, or in an
    /// MP_REACH_NLRI attribute.
    pub open spec fn is_announcement(self) -> bool {
        self.announced_routes.len() > 0 || self.get(Identifier::MP_REACH_NLRI) is Some
    }

    /// Whether the message withdraws routes: in its own section, or in an
    /// MP_UNREACH_NLRI attribute.
    pub open spec fn is_withdrawal(self) -> bool {
        self.withdrawn_routes.len() > 0 || self.get(Identifier::MP_UNREACH_NLRI) is Some
    }

    /// The routes that the first MP_REACH_NLRI attribute announces.
    pub open spec fn reach_routes(self) -> Seq<NLRIView> {
        match self.get(Identifier::MP_REACH_NLRI) {
            Some(PathAttributeView::MP_REACH_NLRI(m)) => m.announced_routes,
            _ => Seq::empty(),
        }
    }

    /// The routes that the first MP_UNREACH_NLRI attribute withdraws.
    pub open spec fn unreach_routes(self) -> Seq<NLRIView> {
        match self.get(Identifier::MP_UNREACH_NLRI) {
            Some(PathAttributeView::MP_UNREACH_NLRI(m)) => m.withdrawn_routes,
            _ => Seq::empty(),
        }
    }

    /// The message with the routes of its first MP_REACH_NLRI and
    /// MP_UNREACH_NLRI attributes moved to the end of its own sections:
    /// the sections gain the routes, and the two attributes keep their
    /// place and their families but no routes.
    pub open spec fn normalized(self) -> UpdateView {
        UpdateView {
            withdrawn_routes: self.withdrawn_routes + self.unreach_routes(),
            attributes: strip_first(
                strip_first(self.attributes, Identifier::MP_REACH_NLRI),
                Identifier::MP_UNREACH_NLRI,
            ),
            announced_routes: self.announced_routes + self.reach_routes(),
        }
    }

    /// Whether every withdrawn route can be written: as a plain IPv4
    /// route in the message's own section, or as a route whose family can
    /// be told in an MP_UNREACH_NLRI attribute.
    pub open spec fn withdrawals_supported(self) -> bool {
        forall|i: int|
            0 <= i < self.withdrawn_routes.len() ==> (#[trigger] self.withdrawn_routes[i]).is_ipv4()
                || self.withdrawn_routes[i].has_family()
    }

    /// The MP_UNREACH_NLRI attributes that are written for the withdrawn
    /// routes that are not plain IPv4 routes.
    pub open spec fn unreach_attributes(self) -> Seq<PathAttributeView> {
        unreach_attributes_from(
            self.withdrawn_routes,
            families_from(self.withdrawn_routes, 0, Seq::empty()),
            0,
            Seq::empty(),
        )
    }

    /// The wire form of the message's body: the length of the withdrawn
    /// plain IPv4 routes and those routes; the length of the attributes
    /// and the attributes, the message's own first and then one
    /// MP_UNREACH_NLRI for each family of the other withdrawn routes; and
    /// the announced routes. A section longer than 65535 bytes has no
    /// wire form.
    pub open spec fn encoding(self) -> Result<Seq<u8>, Error> {
        if !self.withdrawals_supported() {
            Err(Error::UnsupportedEncoding)
        } else {
            match routes_encoding(
                ipv4_routes_from(self.withdrawn_routes, 0, Seq::empty()),
                0,
                Seq::empty(),
            ) {
                Err(e) => Err(e),
                Ok(w) => if w.len() > 0xffff {
                    Err(Error::EncodeOverflow)
                } else {
                    match attributes_encoding(self.attributes, 0, Seq::empty()) {
                        Err(e) => Err(e),
                        Ok(own) => match attributes_encoding(self.unreach_attributes(), 0, own) {
                            Err(e) => Err(e),
                            Ok(a) => if a.len() > 0xffff {
                                Err(Error::EncodeOverflow)
                            } else {
                                match routes_encoding(self.announced_routes, 0, Seq::empty()) {
                                    Err(e) => Err(e),
                                    Ok(n) => Ok(
                                        u16_be_bytes(w.len() as u16) + w + u16_be_bytes(
                                            a.len() as u16,
                                        ) + a + n,
                                    ),
                                }
                            },
                        },
                    }
                },
            }
        }
    }
}

/// Sorts the withdrawn routes: the plain IPv4 routes, and the families of
/// the others. Fails where a route is neither a plain IPv4 route nor of a
/// family that can be told.
fn split_withdrawals(routes: &Vec<NLRIEncoding>) -> (r: Result<
    (Vec<NLRIEncoding>, Vec<(AFI, SAFI)>),
    Error,
>)
    ensures
        match r {
            Ok((plain, families)) => (forall|i: int|
                0 <= i < routes@.len() ==> (#[trigger] nlri_views(routes@)[i]).is_ipv4()
                    || nlri_views(routes@)[i].has_family()) && nlri_views(plain@)
                == ipv4_routes_from(nlri_views(routes@), 0, Seq::empty()) && families@
                == families_from(nlri_views(routes@), 0, Seq::empty()),
            Err(e) => e == Error::UnsupportedEncoding && !(forall|i: int|
                0 <= i < routes@.len() ==> (#[trigger] nlri_views(routes@)[i]).is_ipv4()
                    || nlri_views(routes@)[i].has_family()),
        },
{
    let ghost views = nlri_views(routes@);
    let mut plain: Vec<NLRIEncoding> = Vec::new();
    let mut families: Vec<(AFI, SAFI)> = Vec::new();
    let mut i: usize = 0;
    assert(nlri_views(plain@) =~= Seq::empty());
    while i < routes.len()
        invariant
            i <= routes.len(),
            views == nlri_views(routes@),
            forall|j: int| 0 <= j < i ==> (#[trigger] views[j]).is_ipv4() || views[j].has_family(),
            ipv4_routes_from(views, 0, Seq::empty()) == ipv4_routes_from(
                views,
                i as int,
                nlri_views(plain@),
            ),
            families_from(views, 0, Seq::empty()) == families_from(views, i as int, families@),
        decreases routes.len() - i,
    {
        let route = &routes[i];
        assert(views[i as int] == route@);
        if route.is_ipv4() {
            let ghost before = nlri_views(plain@);
            plain.push(route.clone());
            assert(nlri_views(plain@) =~= before.push(route@));
        } else {
            let known = match route {
                NLRIEncoding::IP(_) => true,
                NLRIEncoding::FLOWSPEC(_) => true,
                _ => false,
            };
            if !known {
                return Err(Error::UnsupportedEncoding);
            }
            let family = (route.afi(), route.safi());
            if !contains(&families, family) {
                families.push(family);
            }
        }
        i = i + 1;
    }
    Ok((plain, families))
}

/// The routes of family `family` among the routes that are not plain
/// IPv4 routes.
fn collect_family(routes: &Vec<NLRIEncoding>, family: (AFI, SAFI)) -> (r: Vec<NLRIEncoding>)
    requires
        forall|i: int|
            0 <= i < routes@.len() ==> (#[trigger] nlri_views(routes@)[i]).is_ipv4() || nlri_views(
                routes@,
            )[i].has_family(),
    ensures
        nlri_views(r@) == routes_of_family(nlri_views(routes@), 0, family, Seq::empty()),
{
    let ghost views = nlri_views(routes@);
    let mut out: Vec<NLRIEncoding> = Vec::new();
    let mut i: usize = 0;
    assert(nlri_views(out@) =~= Seq::empty());
    while i < routes.len()
        invariant
            i <= routes.len(),
            views == nlri_views(routes@),
            forall|j: int|
                0 <= j < routes@.len() ==> (#[trigger] views[j]).is_ipv4() || views[j].has_family(),
            routes_of_family(views, 0, family, Seq::empty()) == routes_of_family(
                views,
                i as int,
                family,
                nlri_views(out@),
            ),
        decreases routes.len() - i,
    {
        let route = &routes[i];
        assert(views[i as int] == route@);
        if !route.is_ipv4() {
            if route.afi() == family.0 && route.safi() == family.1 {
                let ghost before = nlri_views(out@);
                out.push(route.clone());
                assert(nlri_views(out@) =~= before.push(route@));
            }
        }
        i = i + 1;
    }
    out
}

/// The MP_UNREACH_NLRI attributes for the withdrawn routes of `families`.
fn unreach_attributes(routes: &Vec<NLRIEncoding>, families: &Vec<(AFI, SAFI)>) -> (r: Vec<
    PathAttribute,
>)
    requires
        forall|i: int|
            0 <= i < routes@.len() ==> (#[trigger] nlri_views(routes@)[i]).is_ipv4() || nlri_views(
                routes@,
            )[i].has_family(),
    ensures
        attribute_views(r@) == unreach_attributes_from(
            nlri_views(routes@),
            families@,
            0,
            Seq::empty(),
        ),
{
    let ghost views = nlri_views(routes@);
    let mut out: Vec<PathAttribute> = Vec::new();
    let mut k: usize = 0;
    assert(attribute_views(out@) =~= Seq::empty());
    while k < families.len()
        invariant
            k <= families.len(),
            views == nlri_views(routes@),
            forall|j: int|
                0 <= j < routes@.len() ==> (#[trigger] views[j]).is_ipv4() || views[j].has_family(),
            unreach_attributes_from(views, families@, 0, Seq::empty()) == unreach_attributes_from(
                views,
                families@,
                k as int,
                attribute_views(out@),
            ),
        decreases families.len() - k,
    {
        let family = families[k];
        let attribute = PathAttribute::MP_UNREACH_NLRI(
            MPUnreachNLRI {
                afi: family.0,
                safi: family.1,
                withdrawn_routes: collect_family(routes, family),
            },
        );
        let ghost before = attribute_views(out@);
        let ghost view = attribute@;
        out.push(attribute);
        assert(attribute_views(out@) =~= before.push(view));
        k = k + 1;
    }
    out
}

impl Update {
    /// Appends the wire form of the message's body to `buf`.
    #[verifier::rlimit(50)]
    pub fn encode(&self, buf: &mut Vec<u8>) -> (r: Result<(), Error>)
        ensures
            appended(old(buf)@, final(buf)@, r, self@.encoding()),
    {
        let (plain, families) = split_withdrawals(&self.withdrawn_routes)?;
        let withdrawn = encode_routes(&plain)?;
        if withdrawn.len() > 0xffff {
            return Err(Error::EncodeOverflow);
        }
        let own = encode_attributes(&self.attributes, Vec::new())?;
        let unreach = unreach_attributes(&self.withdrawn_routes, &families);
        let attributes = encode_attributes(&unreach, own)?;
        if attributes.len() > 0xffff {
            return Err(Error::EncodeOverflow);
        }
        let announced = encode_routes(&self.announced_routes)?;
        push_u16(buf, withdrawn.len() as u16);
        push_bytes(buf, withdrawn.as_slice());
        push_u16(buf, attributes.len() as u16);
        push_bytes(buf, attributes.as_slice());
        push_bytes(buf, announced.as_slice());
        assert(buf@ =~= old(buf)@ + (u16_be_bytes(withdrawn@.len() as u16) + withdrawn@
            + u16_be_bytes(attributes@.len() as u16) + attributes@ + announced@));
        Ok(())
    }

    /// The first attribute of kind `identifier`.
    pub fn get(&self, identifier: Identifier) -> (r: Option<&PathAttribute>)
        ensures
            match r {
                Some(a) => self@.get(identifier) == Some(a@) && position_of(
                    self@.attributes,
                    identifier,
                    0,
                ) < self.attributes@.len() && *a == self.attributes@[position_of(
                    self@.attributes,
                    identifier,
                    0,
                )],
                None => self@.get(identifier) is None,
            },
    {
        let mut i: usize = 0;
        while i < self.attributes.len()
            invariant
                i <= self.attributes.len(),
                position_of(self@.attributes, identifier, 0) == position_of(
                    self@.attributes,
                    identifier,
                    i as int,
                ),
            decreases self.attributes.len() - i,
        {
            assert(self@.attributes[i as int] == self.attributes@[i as int]@);
            if self.attributes[i].id() == identifier {
                return Some(&self.attributes[i]);
            }
            i = i + 1;
        }
        None
    }

    /// Whether the message announces routes.
    pub fn is_announcement(&self) -> (r: bool)
        ensures
            r == self@.is_announcement(),
    {
        !self.announced_routes.is_empty() || self.get(Identifier::MP_REACH_NLRI).is_some()
    }

    /// Whether the message withdraws routes.
    pub fn is_withdrawal(&self) -> (r: bool)
        ensures
            r == self@.is_withdrawal(),
    {
        !self.withdrawn_routes.is_empty() || self.get(Identifier::MP_UNREACH_NLRI).is_some()
    }

    /// The place of the first attribute of kind `identifier`; the number
    /// of attributes where there is none.
    pub fn position(&self, identifier: Identifier) -> (r: usize)
        ensures
            r == position_of(self@.attributes, identifier, 0),
            r <= self.attributes@.len(),
    {
        let mut i: usize = 0;
        while i < self.attributes.len()
            invariant
                i <= self.attributes.len(),
                position_of(self@.attributes, identifier, 0) == position_of(
                    self@.attributes,
                    identifier,
                    i as int,
                ),
            decreases self.attributes.len() - i,
        {
            assert(self@.attributes[i as int] == self.attributes@[i as int]@);
            if self.attributes[i].id() == identifier {
                return i;
            }
            i = i + 1;
        }
        i
    }

    /// Moves the routes of the first MP_REACH_NLRI attribute to the end of
    /// the announced routes, and those of the first MP_UNREACH_NLRI
    /// attribute to the end of the withdrawn routes. The two attributes
    /// stay, without routes, so a second call changes nothing. Routes that
    /// a section holds already are added all the same.
    pub fn normalize(&mut self)
        ensures
            final(self)@ == old(self)@.normalized(),
    {
        let ghost before = self@;
        let k = self.position(Identifier::MP_REACH_NLRI);
        if k < self.attributes.len() {
            assert(before.attributes[k as int] == self.attributes@[k as int]@);
            let moved = match &self.attributes[k] {
                PathAttribute::MP_REACH_NLRI(m) => Some(
                    (
                        clone_routes(&m.announced_routes),
                        PathAttribute::MP_REACH_NLRI(
                            MPReachNLRI {
                                afi: m.afi,
                                safi: m.safi,
                                next_hop: copy_vec(&m.next_hop),
                                announced_routes: Vec::new(),
                            },
                        ),
                    ),
                ),
                _ => None,
            };
            if let Some((mut routes, stripped)) = moved {
                assert(nlri_views(Seq::<NLRIEncoding>::empty()) =~= Seq::<NLRIView>::empty());
                let ghost view = stripped@;
                self.attributes[k] = stripped;
                self.announced_routes.append(&mut routes);
                assert(attribute_views(self.attributes@) =~= before.attributes.update(
                    k as int,
                    view,
                ));
            }
        }
        proof {
            lemma_position_of(before.attributes, Identifier::MP_REACH_NLRI, 0);
            assert(attribute_views(self.attributes@) == strip_first(
                before.attributes,
                Identifier::MP_REACH_NLRI,
            ));
            assert(self@.announced_routes =~= before.announced_routes + before.reach_routes());
            if k < before.attributes.len() {
                lemma_position_after_update(
                    before.attributes,
                    k as int,
                    without_routes(before.attributes[k as int]),
                    Identifier::MP_UNREACH_NLRI,
                    0,
                );
            }
        }
        let ghost middle = self@;
        let k = self.position(Identifier::MP_UNREACH_NLRI);
        if k < self.attributes.len() {
            assert(middle.attributes[k as int] == self.attributes@[k as int]@);
            let moved = match &self.attributes[k] {
                PathAttribute::MP_UNREACH_NLRI(m) => Some(
                    (
                        clone_routes(&m.withdrawn_routes),
                        PathAttribute::MP_UNREACH_NLRI(
                            MPUnreachNLRI {
                                afi: m.afi,
                                safi: m.safi,
                                withdrawn_routes: Vec::new(),
                            },
                        ),
                    ),
                ),
                _ => None,
            };
            if let Some((mut routes, stripped)) = moved {
                assert(nlri_views(Seq::<NLRIEncoding>::empty()) =~= Seq::<NLRIView>::empty());
                let ghost view = stripped@;
                self.attributes[k] = stripped;
                self.withdrawn_routes.append(&mut routes);
                assert(attribute_views(self.attributes@) =~= middle.attributes.update(
                    k as int,
                    view,
                ));
            }
        }
        proof {
            lemma_position_of(middle.attributes, Identifier::MP_UNREACH_NLRI, 0);
            lemma_position_of(before.attributes, Identifier::MP_UNREACH_NLRI, 0);
            assert(attribute_views(self.attributes@) == strip_first(
                middle.attributes,
                Identifier::MP_UNREACH_NLRI,
            ));
            assert(self@.withdrawn_routes =~= before.withdrawn_routes + before.unreach_routes());
        }
    }
}

/// Normalizing a message twice gives what normalizing it once gives.
pub proof fn lemma_normalize_idempotent(u: UpdateView)
    ensures
        u.normalized().normalized() == u.normalized(),
{
    let once = u.normalized();
    let reach = Identifier::MP_REACH_NLRI;
    let unreach = Identifier::MP_UNREACH_NLRI;
    let first = strip_first(u.attributes, reach);
    lemma_position_of(u.attributes, reach, 0);
    lemma_position_of(first, unreach, 0);
    let kr = position_of(u.attributes, reach, 0);
    let ku = position_of(first, unreach, 0);
    if kr < u.attributes.len() {
        lemma_position_after_update(first, kr, first[kr], reach, 0);
        lemma_position_after_update(u.attributes, kr, without_routes(u.attributes[kr]), reach, 0);
    }
    if ku < first.len() {
        lemma_position_after_update(first, ku, without_routes(first[ku]), reach, 0);
        lemma_position_after_update(first, ku, without_routes(first[ku]), unreach, 0);
    }
    lemma_position_of(once.attributes, reach, 0);
    lemma_position_of(once.attributes, unreach, 0);
    assert(position_of(once.attributes, reach, 0) == kr);
    assert(once.reach_routes() =~= Seq::<NLRIView>::empty());
    assert(once.unreach_routes() =~= Seq::<NLRIView>::empty());
    let again = strip_first(once.attributes, reach);
    assert(again =~= once.attributes);
    assert(strip_first(again, unreach) =~= once.attributes);
    assert(once.normalized().withdrawn_routes =~= once.withdrawn_routes);
    assert(once.normalized().announced_routes =~= once.announced_routes);
}

/// A length of the withdrawn routes that exceeds what the header leaves
/// for the body is refused as `MalformedMessage` after the two bytes of
/// the length, whatever bytes follow it.
pub proof fn lemma_withdraw_length_bound(
    head: Seq<u8>,
    tail: Seq<u8>,
    pos: int,
    length: u16,
    add_path: bool,
)
    requires
        0 <= pos,
        head.len() == pos + 2,
        length >= 23,
        u16_at(head, pos) > length - 23,
    ensures
        spec_parse_update(head + tail, pos, length, add_path) == stop::<UpdateView>(
            Error::MalformedMessage,
            pos + 2,
        ),
{
    reveal(spec_parse_update);
    assert(bytes_at(head + tail, pos, 2) =~= bytes_at(head, pos, 2));
}

/// A length of the attributes that exceeds what the header and the
/// withdrawn routes leave for them is refused as `MalformedMessage` after
/// the two bytes of the length, whatever bytes follow it.
pub proof fn lemma_attributes_length_bound(
    head: Seq<u8>,
    tail: Seq<u8>,
    pos: int,
    length: u16,
    add_path: bool,
)
    requires
        0 <= pos,
        length >= 23,
        head.len() >= pos + 2,
        u16_at(head, pos) <= length - 23,
        head.len() == pos + 2 + u16_at(head, pos) + 2,
        section_routes(bytes_at(head, pos + 2, u16_at(head, pos) as int), add_path) is Ok,
        u16_at(head, pos + 2 + u16_at(head, pos)) > length - 23 - u16_at(head, pos),
    ensures
        spec_parse_update(head + tail, pos, length, add_path) == stop::<UpdateView>(
            Error::MalformedMessage,
            pos + 2 + u16_at(head, pos) + 2,
        ),
{
    reveal(spec_parse_update);
    let data = head + tail;
    let w = u16_at(head, pos) as int;
    assert(bytes_at(data, pos, 2) =~= bytes_at(head, pos, 2));
    assert(bytes_at(data, pos + 2, w) =~= bytes_at(head, pos + 2, w));
    assert(bytes_at(data, pos + 2 + w, 2) =~= bytes_at(head, pos + 2 + w, 2));
}

} // verus!
