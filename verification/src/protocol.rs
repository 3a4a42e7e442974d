//! The packet layer: category/opcode addressing over the wire format, one
//! module per category with its per-direction packet types, and the version
//! handshake frame that precedes them all.
use vstd::prelude::*;

pub mod authentication;
pub mod editor;
pub mod user;

use crate::error::{EncodeError, MsgpackError, PacketDecodeError};

verus! {


pub const VERSION_MAJOR: u8 = 0;

pub const VERSION_MINOR: u8 = 0;

pub const VERSION_PATCH: u8 = 1;

/// The top-level protocol namespaces. The high half of every address must
/// name one of these.
#[derive(Clone, Copy, Debug, Hash, PartialEq, Eq, Structural)]
pub enum Category {
    Authentication,
    User,
    Editor,
}

/// The 16-bit code of a category.
pub open spec fn category_code(c: Category) -> u16 {
    match c {
        Category::Authentication => 0x01,
        Category::User => 0x02,
        Category::Editor => 0x03,
    }
}

/// The category named by a 16-bit code, if any.
pub open spec fn spec_category_from_u16(v: u16) -> Result<Category, ()> {
    if v == 0x01 {
        Ok(Category::Authentication)
    } else if v == 0x02 {
        Ok(Category::User)
    } else if v == 0x03 {
        Ok(Category::Editor)
    } else {
        Err(())
    }
}

impl Category {
    /// The category's 16-bit code, the total direction of the mapping.
    pub fn as_u16(self) -> (r: u16)
        ensures
            r == category_code(self),
    {
        match self {
            Category::Authentication => 0x01,
            Category::User => 0x02,
            Category::Editor => 0x03,
        }
    }

    /// The partial inverse: fails on every code outside the closed set.
    pub fn try_from_u16(v: u16) -> (r: Result<Category, ()>)
        ensures
            r == spec_category_from_u16(v),
            r matches Ok(c) ==> category_code(c) == v,
    {
        if v == 0x01 {
            Ok(Category::Authentication)
        } else if v == 0x02 {
            Ok(Category::User)
        } else if v == 0x03 {
            Ok(Category::Editor)
        } else {
            Err(())
        }
    }
}

/// The fixed handshake frame: a two-element sequence holding the three
/// version numbers (each a full-width 8-bit integer) and the list of
/// extension names, currently empty.
pub open spec fn version_packet_bytes() -> Seq<u8> {
    seq![
        0x92u8,
        0x93u8,
        0xccu8,
        VERSION_MAJOR,
        0xccu8,
        VERSION_MINOR,
        0xccu8,
        VERSION_PATCH,
        0x90u8,
    ]
}

/// The version-advertisement frame sent to every client before any
/// category/opcode traffic.
pub fn protocol_version_packet() -> (r: Result<Vec<u8>, EncodeError>)
    ensures
        r matches Ok(b) && b@ == version_packet_bytes(),
{
    let mut out: Vec<u8> = Vec::new();
    out.push(0x92);
    out.push(0x93);
    out.push(0xcc);
    out.push(VERSION_MAJOR);
    out.push(0xcc);
    out.push(VERSION_MINOR);
    out.push(0xcc);
    out.push(VERSION_PATCH);
    out.push(0x90);
    proof {
        assert(out@ =~= version_packet_bytes());
    }
    Ok(out)
}

/// The trait every category/direction packet type implements: a fallible
/// decoder from (opcode, payload bytes), the packet's own opcode, and the
/// payload encoder.
pub trait Packet: View where Self: Sized {
    /// What `decode_packet` returns, stated over views.
    spec fn spec_decode(opcode: u16, payload: Seq<u8>) -> Option<Self::V>;

    /// The packet's opcode.
    spec fn spec_opcode(&self) -> u16;

    /// What `encode_payload` returns: the payload's bytes, or nothing when a
    /// field exceeds the wire's length limits.
    spec fn spec_payload(&self) -> Option<Seq<u8>>;

    /// Decodes a packet of this type from its opcode and payload bytes.
    fn decode_packet(opcode: u16, payload: &[u8]) -> (r: Option<Self>)
        ensures
            match r {
                None => Self::spec_decode(opcode, payload@) is None,
                Some(p) => Self::spec_decode(opcode, payload@) == Some(p@),
            },
    ;

    /// The packet's opcode within its category and direction.
    fn as_opcode(&self) -> (r: u16)
        ensures
            r == self.spec_opcode(),
    ;

    /// Encodes the packet's payload; a packet without one yields no bytes.
    fn encode_payload(self) -> (r: Option<Vec<u8>>)
        ensures
            match r {
                None => self.spec_payload() is None,
                Some(b) => self.spec_payload() == Some(b@),
            },
    ;
}

// ===== whole frames =====

/// An inbound (client-originated) packet of any category.
#[derive(Clone, Debug, PartialEq)]
pub enum ClientPacket {
    Authentication(authentication::ClientAuthenticationPacket),
    User(user::ClientUserPacket),
    Editor(editor::ClientEditorPacket),
}

/// Mathematical model of an inbound packet.
pub enum ClientPacketS {
    Authentication(authentication::ClientAuthenticationPacketS),
    User(user::ClientUserPacket),
    Editor(editor::ClientEditorPacket),
}

impl View for ClientPacket {
    type V = ClientPacketS;

    open spec fn view(&self) -> ClientPacketS {
        match self {
            ClientPacket::Authentication(p) => ClientPacketS::Authentication(p@),
            ClientPacket::User(p) => ClientPacketS::User(p@),
            ClientPacket::Editor(p) => ClientPacketS::Editor(p@),
        }
    }
}

/// An outbound (server-originated) packet of any category.
#[derive(Clone, Debug, PartialEq)]
pub enum ServerPacket {
    Authentication(authentication::ServerAuthenticationPacket),
    User(user::ServerUserPacket),
    Editor(editor::ServerEditorPacket),
}

/// Mathematical model of an outbound packet.
pub enum ServerPacketS {
    Authentication(authentication::ServerAuthenticationPacketS),
    User(user::ServerUserPacketS),
    Editor(editor::ServerEditorPacket),
}

impl View for ServerPacket {
    type V = ServerPacketS;

    open spec fn view(&self) -> ServerPacketS {
        match self {
            ServerPacket::Authentication(p) => ServerPacketS::Authentication(p@),
            ServerPacket::User(p) => ServerPacketS::User(p@),
            ServerPacket::Editor(p) => ServerPacketS::Editor(p@),
        }
    }
}

/// The category half of a 32-bit address.
pub open spec fn addr_category(addr: u64) -> u16 {
    ((addr >> 16) & 0xffff) as u16
}

/// The opcode half of a 32-bit address.
pub open spec fn addr_opcode(addr: u64) -> u16 {
    (addr & 0xffff) as u16
}

/// The 32-bit address of (category, opcode).
pub open spec fn make_addr(c: u16, opcode: u16) -> u64 {
    ((c as u64) << 16) | (opcode as u64)
}

/// Packing a category and opcode into an address and splitting it again give
/// back both halves; the address fits 32 bits.
pub proof fn lemma_addr_split(c: u16, o: u16)
    ensures
        make_addr(c, o) <= 0xffffffff,
        addr_category(make_addr(c, o)) == c,
        addr_opcode(make_addr(c, o)) == o,
{
    assert(((c as u64) << 16) | (o as u64) <= 0xffffffff) by (bit_vector);
    assert(((((c as u64) << 16) | (o as u64)) >> 16) & 0xffff == c as u64) by (bit_vector);
    assert((((c as u64) << 16) | (o as u64)) & 0xffff == o as u64) by (bit_vector);
}

/// For a 32-bit address the category half is the address shifted right by
/// sixteen.
pub proof fn lemma_addr_category_is_shift(addr: u64)
    requires
        addr <= 0xffffffff,
    ensures
        addr_category(addr) as u64 == addr >> 16,
{
    assert((((addr >> 16) & 0xffff) as u16) as u64 == addr >> 16) by (bit_vector)
        requires
            addr <= 0xffffffff,
    ;
}

/// What decoding one inbound frame yields: the outer two-element sequence,
/// the full-width 32-bit address, category and opcode resolution, then the
/// opcode's payload schema; each failure is the taxonomy's own error.
pub open spec fn client_frame_decode(b: Seq<u8>) -> Result<ClientPacketS, PacketDecodeError> {
    if b.len() < 1 {
        Err(PacketDecodeError::Msgpack(MsgpackError::Truncated))
    } else if b[0] != 0x92 {
        Err(PacketDecodeError::InvalidStructure)
    } else {
        let r = b.skip(1);
        if r.len() < 1 {
            Err(PacketDecodeError::Msgpack(MsgpackError::Truncated))
        } else if r[0] != 0xce {
            Err(PacketDecodeError::Msgpack(MsgpackError::TypeMismatch { marker: r[0] }))
        } else if r.len() < 5 {
            Err(PacketDecodeError::Msgpack(MsgpackError::Truncated))
        } else {
            let addr = crate::wire::spec_be4(r[1], r[2], r[3], r[4]);
            let cat16 = addr_category(addr);
            let opcode = addr_opcode(addr);
            let payload = r.skip(5);
            match spec_category_from_u16(cat16) {
                Err(()) => Err(PacketDecodeError::UnknownCategory { given_category: cat16 }),
                Ok(cat) => match cat {
                    Category::Authentication => match authentication::spec_client_opcode_from_u16(
                        opcode,
                    ) {
                        None => Err(PacketDecodeError::UnknownOpcode { category: cat, opcode }),
                        Some(op) => match authentication::spec_client_auth_decode(op, payload) {
                            None => Err(
                                PacketDecodeError::InvalidPayload { category: cat, opcode },
                            ),
                            Some(p) => Ok(ClientPacketS::Authentication(p)),
                        },
                    },
                    Category::User => match user::spec_client_opcode_from_u16(opcode) {
                        None => Err(PacketDecodeError::UnknownOpcode { category: cat, opcode }),
                        Some(op) => match user::spec_client_user_decode(op, payload) {
                            None => Err(
                                PacketDecodeError::InvalidPayload { category: cat, opcode },
                            ),
                            Some(p) => Ok(ClientPacketS::User(p)),
                        },
                    },
                    Category::Editor => match editor::spec_client_opcode_from_u16(opcode) {
                        None => Err(PacketDecodeError::UnknownOpcode { category: cat, opcode }),
                        Some(op) => match editor::spec_client_editor_decode(opcode, payload) {
                            None => Err(
                                PacketDecodeError::InvalidPayload { category: cat, opcode },
                            ),
                            Some(p) => Ok(ClientPacketS::Editor(p)),
                        },
                    },
                },
            }
        }
    }
}

/// What decoding one outbound frame yields; the client side of the protocol
/// reads these.
pub open spec fn server_frame_decode(b: Seq<u8>) -> Result<ServerPacketS, PacketDecodeError> {
    if b.len() < 1 {
        Err(PacketDecodeError::Msgpack(MsgpackError::Truncated))
    } else if b[0] != 0x92 {
        Err(PacketDecodeError::InvalidStructure)
    } else {
        let r = b.skip(1);
        if r.len() < 1 {
            Err(PacketDecodeError::Msgpack(MsgpackError::Truncated))
        } else if r[0] != 0xce {
            Err(PacketDecodeError::Msgpack(MsgpackError::TypeMismatch { marker: r[0] }))
        } else if r.len() < 5 {
            Err(PacketDecodeError::Msgpack(MsgpackError::Truncated))
        } else {
            let addr = crate::wire::spec_be4(r[1], r[2], r[3], r[4]);
            let cat16 = addr_category(addr);
            let opcode = addr_opcode(addr);
            let payload = r.skip(5);
            match spec_category_from_u16(cat16) {
                Err(()) => Err(PacketDecodeError::UnknownCategory { given_category: cat16 }),
                Ok(cat) => match cat {
                    Category::Authentication => match authentication::spec_server_opcode_from_u16(
                        opcode,
                    ) {
                        None => Err(PacketDecodeError::UnknownOpcode { category: cat, opcode }),
                        Some(op) => match authentication::spec_server_auth_decode(op, payload) {
                            None => Err(
                                PacketDecodeError::InvalidPayload { category: cat, opcode },
                            ),
                            Some(p) => Ok(ServerPacketS::Authentication(p)),
                        },
                    },
                    Category::User => match user::spec_server_opcode_from_u16(opcode) {
                        None => Err(PacketDecodeError::UnknownOpcode { category: cat, opcode }),
                        Some(op) => match user::spec_server_user_decode(op, payload) {
                            None => Err(
                                PacketDecodeError::InvalidPayload { category: cat, opcode },
                            ),
                            Some(p) => Ok(ServerPacketS::User(p)),
                        },
                    },
                    Category::Editor => match editor::spec_server_opcode_from_u16(opcode) {
                        None => Err(PacketDecodeError::UnknownOpcode { category: cat, opcode }),
                        Some(op) => match editor::spec_server_editor_decode(opcode, payload) {
                            None => Err(
                                PacketDecodeError::InvalidPayload { category: cat, opcode },
                            ),
                            Some(p) => Ok(ServerPacketS::Editor(p)),
                        },
                    },
                },
            }
        }
    }
}

/// Reads the frame header shared by both directions: the outer sequence
/// marker and the full-width address; yields (category code, opcode, payload
/// start).
fn decode_frame_header(bytes: &[u8]) -> (r: Result<(u16, u16, usize), PacketDecodeError>)
    ensures
        match r {
            Ok((cat16, opcode, at)) => {
                &&& bytes@.len() >= 6
                &&& bytes@[0] == 0x92
                &&& bytes@[1] == 0xce
                &&& at == 6
                &&& cat16 == addr_category(
                    crate::wire::spec_be4(bytes@[2], bytes@[3], bytes@[4], bytes@[5]),
                )
                &&& opcode == addr_opcode(
                    crate::wire::spec_be4(bytes@[2], bytes@[3], bytes@[4], bytes@[5]),
                )
            },
            Err(e) => {
                &&& client_frame_decode(bytes@) == Err::<ClientPacketS, _>(e)
                &&& server_frame_decode(bytes@) == Err::<ServerPacketS, _>(e)
            },
        },
        r matches Ok((cat16, _opcode, _at)) ==> spec_category_from_u16(cat16) is Ok,
{
    let n = bytes.len();
    if n < 1 {
        return Err(PacketDecodeError::Msgpack(MsgpackError::Truncated));
    }
    let ghost gr = bytes@.skip(1);
    if bytes[0] != 0x92 {
        return Err(PacketDecodeError::InvalidStructure);
    }
    if n < 2 {
        proof {
            assert(gr.len() < 1);
        }
        return Err(PacketDecodeError::Msgpack(MsgpackError::Truncated));
    }
    proof {
        assert(gr[0] == bytes@[1]);
    }
    if bytes[1] != 0xce {
        return Err(
            PacketDecodeError::Msgpack(MsgpackError::TypeMismatch { marker: bytes[1] }),
        );
    }
    if n < 6 {
        proof {
            assert(gr.len() < 5);
        }
        return Err(PacketDecodeError::Msgpack(MsgpackError::Truncated));
    }
    proof {
        assert(gr[1] == bytes@[2] && gr[2] == bytes@[3] && gr[3] == bytes@[4] && gr[4]
            == bytes@[5]);
    }
    let addr = crate::wire::be4(bytes[2], bytes[3], bytes[4], bytes[5]);
    let cat16 = ((addr >> 16) & 0xffff) as u16;
    let opcode = (addr & 0xffff) as u16;
    match Category::try_from_u16(cat16) {
        Err(()) => Err(PacketDecodeError::UnknownCategory { given_category: cat16 }),
        Ok(_c) => Ok((cat16, opcode, 6)),
    }
}

impl ClientPacket {
    /// Decodes one inbound frame: exactly `client_frame_decode` of the bytes.
    pub fn decode(bytes: &[u8]) -> (r: Result<ClientPacket, PacketDecodeError>)
        ensures
            match r {
                Ok(p) => client_frame_decode(bytes@) == Ok::<ClientPacketS, PacketDecodeError>(p@),
                Err(e) => client_frame_decode(bytes@) == Err::<ClientPacketS, PacketDecodeError>(
                    e,
                ),
            },
    {
        let (cat16, opcode, at) = match decode_frame_header(bytes) {
            Err(e) => {
                return Err(e);
            },
            Ok(h) => h,
        };
        let cat = match Category::try_from_u16(cat16) {
            Err(()) => {
                return Err(PacketDecodeError::UnknownCategory { given_category: cat16 });
            },
            Ok(c) => c,
        };
        let payload = crate::wire::copy_range(bytes, at, bytes.len());
        proof {
            assert(payload@ =~= bytes@.skip(1).skip(5));
        }
        match cat {
            Category::Authentication => {
                match authentication::ClientAuthenticationPacket::decode_from(
                    opcode,
                    payload.as_slice(),
                ) {
                    Ok(p) => Ok(ClientPacket::Authentication(p)),
                    Err(e) => Err(PacketDecodeError::from_category(cat, e, opcode)),
                }
            },
            Category::User => {
                match user::ClientUserPacket::decode_from(opcode, payload.as_slice()) {
                    Ok(p) => Ok(ClientPacket::User(p)),
                    Err(e) => Err(PacketDecodeError::from_category(cat, e, opcode)),
                }
            },
            Category::Editor => {
                match editor::ClientEditorPacket::decode_from(opcode, payload.as_slice()) {
                    Ok(p) => Ok(ClientPacket::Editor(p)),
                    Err(e) => Err(PacketDecodeError::from_category(cat, e, opcode)),
                }
            },
        }
    }
}

impl ServerPacket {
    /// Decodes one outbound frame: exactly `server_frame_decode` of the
    /// bytes.
    pub fn decode(bytes: &[u8]) -> (r: Result<ServerPacket, PacketDecodeError>)
        ensures
            match r {
                Ok(p) => server_frame_decode(bytes@) == Ok::<ServerPacketS, PacketDecodeError>(p@),
                Err(e) => server_frame_decode(bytes@) == Err::<ServerPacketS, PacketDecodeError>(
                    e,
                ),
            },
    {
        let (cat16, opcode, at) = match decode_frame_header(bytes) {
            Err(e) => {
                return Err(e);
            },
            Ok(h) => h,
        };
        let cat = match Category::try_from_u16(cat16) {
            Err(()) => {
                return Err(PacketDecodeError::UnknownCategory { given_category: cat16 });
            },
            Ok(c) => c,
        };
        let payload = crate::wire::copy_range(bytes, at, bytes.len());
        proof {
            assert(payload@ =~= bytes@.skip(1).skip(5));
        }
        match cat {
            Category::Authentication => {
                match authentication::ServerAuthenticationPacket::decode_from(
                    opcode,
                    payload.as_slice(),
                ) {
                    Ok(p) => Ok(ServerPacket::Authentication(p)),
                    Err(e) => Err(PacketDecodeError::from_category(cat, e, opcode)),
                }
            },
            Category::User => {
                match user::ServerUserPacket::decode_from(opcode, payload.as_slice()) {
                    Ok(p) => Ok(ServerPacket::User(p)),
                    Err(e) => Err(PacketDecodeError::from_category(cat, e, opcode)),
                }
            },
            Category::Editor => {
                match editor::ServerEditorPacket::decode_packet(opcode, payload.as_slice()) {
                    Some(p) => Ok(ServerPacket::Editor(p)),
                    None => {
                        match editor::ServerOpcode::try_from_u16(opcode) {
                            None => Err(
                                PacketDecodeError::UnknownOpcode { category: cat, opcode },
                            ),
                            Some(_op) => Err(
                                PacketDecodeError::InvalidPayload { category: cat, opcode },
                            ),
                        }
                    },
                }
            },
        }
    }
}

/// The category a server packet belongs to.
pub open spec fn server_packet_category(p: ServerPacketS) -> Category {
    match p {
        ServerPacketS::Authentication(_) => Category::Authentication,
        ServerPacketS::User(_) => Category::User,
        ServerPacketS::Editor(_) => Category::Editor,
    }
}

/// The opcode of a server packet within its category.
pub open spec fn server_packet_opcode(p: ServerPacketS) -> u16 {
    match p {
        ServerPacketS::Authentication(a) => authentication::server_auth_opcode_of(a),
        ServerPacketS::User(u) => user::server_user_opcode_of(u),
        ServerPacketS::Editor(e) => editor::server_opcode_code(e.opcode),
    }
}

/// The payload bytes of a server packet; nothing when a field exceeds the
/// wire's length limits.
pub open spec fn server_packet_payload(p: ServerPacketS) -> Option<Seq<u8>> {
    match p {
        ServerPacketS::Authentication(a) => authentication::server_auth_payload(a),
        ServerPacketS::User(u) => user::server_user_payload(u),
        ServerPacketS::Editor(_) => Some(Seq::empty()),
    }
}

/// What encoding a server packet yields: the two-element frame around the
/// full-width address and the opcode's payload.
pub open spec fn server_frame_encode(p: ServerPacketS) -> Option<Seq<u8>> {
    match server_packet_payload(p) {
        None => None,
        Some(pl) => Some(
            seq![0x92u8, 0xceu8] + crate::wire::be4_bytes(
                make_addr(category_code(server_packet_category(p)), server_packet_opcode(p)),
            ) + pl,
        ),
    }
}

impl ServerPacket {
    /// Encodes one outbound frame: exactly `server_frame_encode` of the
    /// packet, failing exactly when a field exceeds the wire's length limits.
    pub fn encode(self) -> (r: Result<Vec<u8>, EncodeError>)
        ensures
            match server_frame_encode(self@) {
                None => r == Err::<Vec<u8>, EncodeError>(EncodeError::ValueTooLong),
                Some(b) => r matches Ok(v) && v@ == b,
            },
    {
        let ghost gp = self@;
        let (cat16, opcode, payload): (u16, u16, Option<Vec<u8>>) = match self {
            ServerPacket::Authentication(a) => (0x01, a.as_opcode(), a.encode_payload()),
            ServerPacket::User(u) => (0x02, u.as_opcode(), u.encode_payload()),
            ServerPacket::Editor(e) => (0x03, e.as_opcode(), e.encode_payload()),
        };
        let pl = match payload {
            None => {
                return Err(EncodeError::ValueTooLong);
            },
            Some(pl) => pl,
        };
        proof {
            lemma_addr_split(cat16, opcode);
        }
        let addr: u64 = ((cat16 as u64) << 16) | (opcode as u64);
        let mut out: Vec<u8> = Vec::new();
        out.push(0x92);
        out.push(0xce);
        out.push(((addr >> 24) & 0xff) as u8);
        out.push(((addr >> 16) & 0xff) as u8);
        out.push(((addr >> 8) & 0xff) as u8);
        out.push((addr & 0xff) as u8);
        proof {
            assert(out@ =~= seq![0x92u8, 0xceu8] + crate::wire::be4_bytes(addr));
        }
        crate::wire::push_all(&mut out, pl.as_slice());
        Ok(out)
    }
}

// ===== protocol laws =====

/// The packet carries no payload of a protocol revision this build does not
/// know (such payloads have no wire form of their own).
pub open spec fn server_packet_known(p: ServerPacketS) -> bool {
    match p {
        ServerPacketS::Editor(e) => e.payload is None,
        _ => true,
    }
}

/// Round trip: every server-originated packet that encodes at all decodes
/// back to itself.
#[verifier::rlimit(100)]
#[verifier::spinoff_prover]
pub proof fn lemma_server_round_trip(p: ServerPacketS)
    requires
        server_packet_known(p),
    ensures
        server_frame_encode(p) matches Some(b) ==> server_frame_decode(b) == Ok::<
            ServerPacketS,
            PacketDecodeError,
        >(p),
{
    if server_frame_encode(p) is Some {
        let pl = server_packet_payload(p)->Some_0;
        let cat = server_packet_category(p);
        let op16 = server_packet_opcode(p);
        let c16 = category_code(cat);
        lemma_addr_split(c16, op16);
        let addr = make_addr(c16, op16);
        crate::wire::lemma_recombine4(addr);
        let ab = crate::wire::be4_bytes(addr);
        let b = seq![0x92u8, 0xceu8] + ab + pl;
        assert(b[0] == 0x92);
        let r = b.skip(1);
        assert(r.len() >= 5);
        assert(r[0] == 0xce);
        assert(r[1] == ab[0] && r[2] == ab[1] && r[3] == ab[2] && r[4] == ab[3]);
        assert(crate::wire::spec_be4(r[1], r[2], r[3], r[4]) == addr);
        assert(r.skip(5) =~= pl);
        assert(spec_category_from_u16(c16) == Ok::<Category, ()>(cat));
        match p {
            ServerPacketS::Authentication(a) => {
                assert(authentication::spec_server_opcode_from_u16(
                    authentication::server_auth_opcode_of(a),
                ) is Some);
                match a {
                    authentication::ServerAuthenticationPacketS::LoginSuccess { token } => {
                        authentication::lemma_auth_schema_facts();
                        let fv = authentication::token_fields(token);
                        assert(crate::schema::vals_fit(authentication::token_schema(), fv));
                        crate::schema::lemma_decode_enc_record(
                            authentication::token_schema(),
                            fv,
                            Seq::empty(),
                        );
                        assert(crate::schema::enc_record(authentication::token_schema(), fv)
                            + Seq::<u8>::empty() =~= pl);
                    },
                    _ => {},
                }
            },
            ServerPacketS::User(u) => {
                assert(user::spec_server_opcode_from_u16(user::server_user_opcode_of(u)) is Some);
                match u {
                    user::ServerUserPacketS::UsernameResp { username } => {
                        user::lemma_user_schema_facts();
                        let fv = seq![crate::schema::FieldValueS::Str(username)];
                        assert(crate::schema::vals_fit(user::username_schema(), fv));
                        crate::schema::lemma_decode_enc_record(
                            user::username_schema(),
                            fv,
                            Seq::empty(),
                        );
                        assert(crate::schema::enc_record(user::username_schema(), fv)
                            + Seq::<u8>::empty() =~= pl);
                    },
                    user::ServerUserPacketS::ProjectsListResp { projects } => {
                        user::lemma_user_schema_facts();
                        let fv = seq![crate::schema::FieldValueS::Projects(projects)];
                        assert(crate::schema::vals_fit(user::projects_schema(), fv));
                        crate::schema::lemma_decode_enc_record(
                            user::projects_schema(),
                            fv,
                            Seq::empty(),
                        );
                        assert(crate::schema::enc_record(user::projects_schema(), fv)
                            + Seq::<u8>::empty() =~= pl);
                    },
                    user::ServerUserPacketS::ProjectsTotalResp { total } => {
                        user::lemma_user_schema_facts();
                        let fv = seq![crate::schema::FieldValueS::UInt(total)];
                        assert(crate::schema::vals_fit(user::total_schema(), fv));
                        crate::schema::lemma_decode_enc_record(
                            user::total_schema(),
                            fv,
                            Seq::empty(),
                        );
                        assert(crate::schema::enc_record(user::total_schema(), fv)
                            + Seq::<u8>::empty() =~= pl);
                    },
                    user::ServerUserPacketS::ProjectImageResp { data } => {
                        user::lemma_user_schema_facts();
                        let fv = seq![crate::schema::FieldValueS::Bin(data)];
                        assert(crate::schema::vals_fit(user::data_schema(), fv));
                        crate::schema::lemma_decode_enc_record(
                            user::data_schema(),
                            fv,
                            Seq::empty(),
                        );
                        assert(crate::schema::enc_record(user::data_schema(), fv)
                            + Seq::<u8>::empty() =~= pl);
                    },
                    _ => {},
                }
            },
            ServerPacketS::Editor(e) => {
            },
        }
    }
}

/// Addressing: for every 32-bit address the category is its high sixteen
/// bits, and a frame whose category is outside the closed set is rejected
/// with exactly `UnknownCategory`, whatever follows the address.
pub proof fn lemma_unknown_category_rejected(addr: u32, rest: Seq<u8>)
    requires
        !(addr >> 16 == 0x01 || addr >> 16 == 0x02 || addr >> 16 == 0x03),
    ensures
        client_frame_decode(seq![0x92u8, 0xceu8] + crate::wire::be4_bytes(addr as u64) + rest)
            == Err::<ClientPacketS, PacketDecodeError>(
            PacketDecodeError::UnknownCategory { given_category: (addr >> 16) as u16 },
        ),
{
    crate::wire::lemma_recombine4(addr as u64);
    lemma_addr_category_is_shift(addr as u64);
    let ab = crate::wire::be4_bytes(addr as u64);
    let b = seq![0x92u8, 0xceu8] + ab + rest;
    assert(b[0] == 0x92);
    let r = b.skip(1);
    assert(r.len() >= 5);
    assert(r[0] == 0xce);
    assert(r[1] == ab[0] && r[2] == ab[1] && r[3] == ab[2] && r[4] == ab[3]);
    assert(crate::wire::spec_be4(r[1], r[2], r[3], r[4]) == addr as u64);
    let c16 = addr_category(addr as u64);
    assert(c16 as u64 == addr as u64 >> 16);
    assert(addr as u64 >> 16 == (addr >> 16) as u64) by (bit_vector);
    assert(c16 == (addr >> 16) as u16);
    assert(spec_category_from_u16(c16) is Err);
}

} // verus!
