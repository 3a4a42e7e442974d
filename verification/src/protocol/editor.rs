//! Editor category: reserved. Its payload schemas are unspecified upstream,
//! so only the success acknowledgement exists, with no payload.
use vstd::prelude::*;

use crate::error::PacketCategoryDecodeError;
use crate::protocol::Packet;

verus! {

#[derive(Clone, Copy, Debug, Hash, PartialEq, Eq, Structural)]
pub enum ClientOpcode {
    SuccessResp,
}

#[derive(Clone, Copy, Debug, Hash, PartialEq, Eq, Structural)]
pub enum ServerOpcode {
    SuccessResp,
}

/// No editor client packet carries a payload yet; the sole variant stands
/// for payloads of protocol revisions this build does not know.
#[derive(Clone, Copy, Debug, PartialEq, Eq, Structural)]
pub enum ClientPacketPayload {
    Reserved,
}

/// No editor server packet carries a payload yet; the sole variant stands
/// for payloads of protocol revisions this build does not know.
#[derive(Clone, Copy, Debug, PartialEq, Eq, Structural)]
pub enum ServerPacketPayload {
    Reserved,
}

#[derive(Clone, Debug, PartialEq)]
pub struct ClientEditorPacket {
    pub opcode: ClientOpcode,
    pub payload: Option<ClientPacketPayload>,
}

#[derive(Clone, Debug, PartialEq)]
pub struct ServerEditorPacket {
    pub opcode: ServerOpcode,
    pub payload: Option<ServerPacketPayload>,
}

impl View for ClientEditorPacket {
    type V = ClientEditorPacket;

    open spec fn view(&self) -> ClientEditorPacket {
        *self
    }
}

impl View for ServerEditorPacket {
    type V = ServerEditorPacket;

    open spec fn view(&self) -> ServerEditorPacket {
        *self
    }
}

pub open spec fn client_opcode_code(op: ClientOpcode) -> u16 {
    match op {
        ClientOpcode::SuccessResp => 0x00,
    }
}

pub open spec fn spec_client_opcode_from_u16(v: u16) -> Option<ClientOpcode> {
    if v == 0x00 {
        Some(ClientOpcode::SuccessResp)
    } else {
        None
    }
}

pub open spec fn server_opcode_code(op: ServerOpcode) -> u16 {
    match op {
        ServerOpcode::SuccessResp => 0x00,
    }
}

pub open spec fn spec_server_opcode_from_u16(v: u16) -> Option<ServerOpcode> {
    if v == 0x00 {
        Some(ServerOpcode::SuccessResp)
    } else {
        None
    }
}

impl ClientOpcode {
    pub fn as_u16(self) -> (r: u16)
        ensures
            r == client_opcode_code(self),
    {
        0x00
    }

    pub fn try_from_u16(v: u16) -> (r: Option<ClientOpcode>)
        ensures
            r == spec_client_opcode_from_u16(v),
    {
        if v == 0x00 {
            Some(ClientOpcode::SuccessResp)
        } else {
            None
        }
    }
}

impl ServerOpcode {
    pub fn as_u16(self) -> (r: u16)
        ensures
            r == server_opcode_code(self),
    {
        0x00
    }

    pub fn try_from_u16(v: u16) -> (r: Option<ServerOpcode>)
        ensures
            r == spec_server_opcode_from_u16(v),
    {
        if v == 0x00 {
            Some(ServerOpcode::SuccessResp)
        } else {
            None
        }
    }
}

/// What decoding an editor client packet yields: the acknowledgement for a
/// known opcode (any payload bytes are ignored), nothing otherwise.
pub open spec fn spec_client_editor_decode(opcode: u16, payload: Seq<u8>) -> Option<
    ClientEditorPacket,
> {
    match spec_client_opcode_from_u16(opcode) {
        None => None,
        Some(op) => Some(ClientEditorPacket { opcode: op, payload: None }),
    }
}

pub open spec fn spec_server_editor_decode(opcode: u16, payload: Seq<u8>) -> Option<
    ServerEditorPacket,
> {
    match spec_server_opcode_from_u16(opcode) {
        None => None,
        Some(op) => Some(ServerEditorPacket { opcode: op, payload: None }),
    }
}

impl ClientEditorPacket {
    /// Decodes with the category-local error split into unknown opcode
    /// versus invalid payload.
    pub fn decode_from(opcode: u16, payload: &[u8]) -> (r: Result<
        ClientEditorPacket,
        PacketCategoryDecodeError<ClientOpcode>,
    >)
        ensures
            match spec_client_opcode_from_u16(opcode) {
                None => r == Err::<ClientEditorPacket, _>(
                    PacketCategoryDecodeError::<ClientOpcode>::UnknownOpcode { opcode },
                ),
                Some(op) => r matches Ok(p) && spec_client_editor_decode(opcode, payload@)
                    == Some(p@),
            },
    {
        match ClientOpcode::try_from_u16(opcode) {
            None => Err(PacketCategoryDecodeError::UnknownOpcode { opcode }),
            Some(op) => Ok(ClientEditorPacket { opcode: op, payload: None }),
        }
    }
}

impl Packet for ClientEditorPacket {
    open spec fn spec_decode(opcode: u16, payload: Seq<u8>) -> Option<ClientEditorPacket> {
        spec_client_editor_decode(opcode, payload)
    }

    open spec fn spec_opcode(&self) -> u16 {
        client_opcode_code(self.opcode)
    }

    open spec fn spec_payload(&self) -> Option<Seq<u8>> {
        Some(Seq::empty())
    }

    fn decode_packet(opcode: u16, payload: &[u8]) -> (r: Option<Self>) {
        match Self::decode_from(opcode, payload) {
            Ok(p) => Some(p),
            Err(_) => None,
        }
    }

    fn as_opcode(&self) -> (r: u16) {
        self.opcode.as_u16()
    }

    fn encode_payload(self) -> (r: Option<Vec<u8>>) {
        let v: Vec<u8> = Vec::new();
        proof {
            assert(v@ =~= Seq::<u8>::empty());
        }
        Some(v)
    }
}

impl Packet for ServerEditorPacket {
    open spec fn spec_decode(opcode: u16, payload: Seq<u8>) -> Option<ServerEditorPacket> {
        spec_server_editor_decode(opcode, payload)
    }

    open spec fn spec_opcode(&self) -> u16 {
        server_opcode_code(self.opcode)
    }

    open spec fn spec_payload(&self) -> Option<Seq<u8>> {
        Some(Seq::empty())
    }

    fn decode_packet(opcode: u16, payload: &[u8]) -> (r: Option<Self>) {
        match ServerOpcode::try_from_u16(opcode) {
            None => None,
            Some(op) => Some(ServerEditorPacket { opcode: op, payload: None }),
        }
    }

    fn as_opcode(&self) -> (r: u16) {
        self.opcode.as_u16()
    }

    fn encode_payload(self) -> (r: Option<Vec<u8>>) {
        let v: Vec<u8> = Vec::new();
        proof {
            assert(v@ =~= Seq::<u8>::empty());
        }
        Some(v)
    }
}

} // verus!
