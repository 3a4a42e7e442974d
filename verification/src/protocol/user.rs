//! User category: account-level packets (username lookup, project listings).
use vstd::prelude::*;

use crate::error::PacketCategoryDecodeError;
use crate::protocol::Packet;
use crate::schema::{
    check_enc_fits, decode_record, enc_fits, enc_record, fields_view, keys_distinct, keys_fit,
    schema_view, spec_decode_record, take1, take2, write_record, FieldValue, FieldValueS, WireType,
};

verus! {

use vstd::string::StringSliceAdditionalSpecFns;
use vstd::string::StrSliceExecFns;
use vstd::utf8::encode_utf8;

/// One project row as listed to a client.
#[derive(Clone, Debug, PartialEq)]
pub struct ProjectData {
    pub id: u32,
    pub title: String,
    pub lastedit: u64,
    pub created: u64,
    pub imgid: u32,
}

/// Mathematical model of a project row.
pub struct ProjectDataS {
    pub id: u32,
    pub title: Seq<char>,
    pub lastedit: u64,
    pub created: u64,
    pub imgid: u32,
}

impl View for ProjectData {
    type V = ProjectDataS;

    open spec fn view(&self) -> ProjectDataS {
        ProjectDataS {
            id: self.id,
            title: self.title@,
            lastedit: self.lastedit,
            created: self.created,
            imgid: self.imgid,
        }
    }
}

pub open spec fn id_key() -> Seq<u8> {
    "id".spec_bytes()
}

pub open spec fn title_key() -> Seq<u8> {
    "title".spec_bytes()
}

pub open spec fn lastedit_key() -> Seq<u8> {
    "lastedit".spec_bytes()
}

pub open spec fn created_key() -> Seq<u8> {
    "created".spec_bytes()
}

pub open spec fn imgid_key() -> Seq<u8> {
    "imgid".spec_bytes()
}

/// Field layout of one project row on the wire.
pub open spec fn proj_schema() -> Seq<(Seq<u8>, WireType)> {
    seq![
        (id_key(), WireType::UInt),
        (title_key(), WireType::Str),
        (lastedit_key(), WireType::UInt),
        (created_key(), WireType::UInt),
        (imgid_key(), WireType::UInt),
    ]
}

pub fn proj_schema_vec() -> (r: Vec<(Vec<u8>, WireType)>)
    ensures
        r@.map_values(|p: (Vec<u8>, WireType)| (p.0@, p.1)) == proj_schema(),
{
    let mut r: Vec<(Vec<u8>, WireType)> = Vec::new();
    r.push(("id".as_bytes_vec(), WireType::UInt));
    r.push(("title".as_bytes_vec(), WireType::Str));
    r.push(("lastedit".as_bytes_vec(), WireType::UInt));
    r.push(("created".as_bytes_vec(), WireType::UInt));
    r.push(("imgid".as_bytes_vec(), WireType::UInt));
    proof {
        assert(r@.map_values(|p: (Vec<u8>, WireType)| (p.0@, p.1)) =~= proj_schema());
    }
    r
}

/// The field values of one project row, in schema order.
pub open spec fn project_fields(p: ProjectDataS) -> Seq<FieldValueS> {
    seq![
        FieldValueS::UInt(p.id as u64),
        FieldValueS::Str(p.title),
        FieldValueS::UInt(p.lastedit),
        FieldValueS::UInt(p.created),
        FieldValueS::UInt(p.imgid as u64),
    ]
}

/// A project row built back from decoded field values; fails when a numeric
/// field does not fit its declared width.
pub open spec fn spec_project_from_fields(vals: Seq<FieldValueS>) -> Option<ProjectDataS> {
    if vals.len() == 5 && vals[0] is UInt && vals[1] is Str && vals[2] is UInt && vals[3] is UInt
        && vals[4] is UInt {
        let id = vals[0]->UInt_0;
        let imgid = vals[4]->UInt_0;
        if id <= 0xffffffff && imgid <= 0xffffffff {
            Some(
                ProjectDataS {
                    id: id as u32,
                    title: vals[1]->Str_0,
                    lastedit: vals[2]->UInt_0,
                    created: vals[3]->UInt_0,
                    imgid: imgid as u32,
                },
            )
        } else {
            None
        }
    } else {
        None
    }
}

pub fn project_from_fields(vals: Vec<FieldValue>) -> (r: Option<ProjectData>)
    ensures
        match r {
            None => spec_project_from_fields(vals@.map_values(|f: FieldValue| f@)) is None,
            Some(p) => spec_project_from_fields(vals@.map_values(|f: FieldValue| f@)) == Some(p@),
        },
{
    let ghost gv = vals@.map_values(|f: FieldValue| f@);
    if vals.len() != 5 {
        return None;
    }
    let mut it = vals;
    let v4 = it.pop().unwrap();
    let v3 = it.pop().unwrap();
    let v2 = it.pop().unwrap();
    let v1 = it.pop().unwrap();
    let v0 = it.pop().unwrap();
    proof {
        assert(gv.len() == 5);
        assert(gv[0] == v0@ && gv[1] == v1@ && gv[2] == v2@ && gv[3] == v3@ && gv[4] == v4@);
    }
    match (v0, v1, v2, v3, v4) {
        (
            FieldValue::UInt(id),
            FieldValue::Str(title),
            FieldValue::UInt(lastedit),
            FieldValue::UInt(created),
            FieldValue::UInt(imgid),
        ) => {
            if id <= 0xffffffff && imgid <= 0xffffffff {
                Some(
                    ProjectData {
                        id: id as u32,
                        title,
                        lastedit,
                        created,
                        imgid: imgid as u32,
                    },
                )
            } else {
                None
            }
        },
        _ => None,
    }
}

// ===== opcodes =====

#[derive(Clone, Copy, Debug, Hash, PartialEq, Eq, Structural)]
pub enum ClientOpcode {
    SuccessResp,
    GetUsername,
    RetrieveProjects,
    RetrieveProjectsPaged,
    RetrieveProjectsTotal,
    RetrieveProjectImage,
    OpenProject,
}

#[derive(Clone, Copy, Debug, Hash, PartialEq, Eq, Structural)]
pub enum ServerOpcode {
    SuccessResp,
    UsernameResp,
    ProjectsListResp,
    ProjectsTotalResp,
    ProjectImageResp,
    ErrorNotAuthenticated,
}

pub open spec fn client_opcode_code(op: ClientOpcode) -> u16 {
    match op {
        ClientOpcode::SuccessResp => 0x00,
        ClientOpcode::GetUsername => 0x01,
        ClientOpcode::RetrieveProjects => 0x10,
        ClientOpcode::RetrieveProjectsPaged => 0x11,
        ClientOpcode::RetrieveProjectsTotal => 0x12,
        ClientOpcode::RetrieveProjectImage => 0x13,
        ClientOpcode::OpenProject => 0x1f,
    }
}

pub open spec fn spec_client_opcode_from_u16(v: u16) -> Option<ClientOpcode> {
    if v == 0x00 {
        Some(ClientOpcode::SuccessResp)
    } else if v == 0x01 {
        Some(ClientOpcode::GetUsername)
    } else if v == 0x10 {
        Some(ClientOpcode::RetrieveProjects)
    } else if v == 0x11 {
        Some(ClientOpcode::RetrieveProjectsPaged)
    } else if v == 0x12 {
        Some(ClientOpcode::RetrieveProjectsTotal)
    } else if v == 0x13 {
        Some(ClientOpcode::RetrieveProjectImage)
    } else if v == 0x1f {
        Some(ClientOpcode::OpenProject)
    } else {
        None
    }
}

pub open spec fn server_opcode_code(op: ServerOpcode) -> u16 {
    match op {
        ServerOpcode::SuccessResp => 0x00,
        ServerOpcode::UsernameResp => 0x01,
        ServerOpcode::ProjectsListResp => 0x10,
        ServerOpcode::ProjectsTotalResp => 0x11,
        ServerOpcode::ProjectImageResp => 0x12,
        ServerOpcode::ErrorNotAuthenticated => 0xffff,
    }
}

pub open spec fn spec_server_opcode_from_u16(v: u16) -> Option<ServerOpcode> {
    if v == 0x00 {
        Some(ServerOpcode::SuccessResp)
    } else if v == 0x01 {
        Some(ServerOpcode::UsernameResp)
    } else if v == 0x10 {
        Some(ServerOpcode::ProjectsListResp)
    } else if v == 0x11 {
        Some(ServerOpcode::ProjectsTotalResp)
    } else if v == 0x12 {
        Some(ServerOpcode::ProjectImageResp)
    } else if v == 0xffff {
        Some(ServerOpcode::ErrorNotAuthenticated)
    } else {
        None
    }
}

impl ClientOpcode {
    pub fn as_u16(self) -> (r: u16)
        ensures
            r == client_opcode_code(self),
    {
        match self {
            ClientOpcode::SuccessResp => 0x00,
            ClientOpcode::GetUsername => 0x01,
            ClientOpcode::RetrieveProjects => 0x10,
            ClientOpcode::RetrieveProjectsPaged => 0x11,
            ClientOpcode::RetrieveProjectsTotal => 0x12,
            ClientOpcode::RetrieveProjectImage => 0x13,
            ClientOpcode::OpenProject => 0x1f,
        }
    }

    pub fn try_from_u16(v: u16) -> (r: Option<ClientOpcode>)
        ensures
            r == spec_client_opcode_from_u16(v),
    {
        if v == 0x00 {
            Some(ClientOpcode::SuccessResp)
        } else if v == 0x01 {
            Some(ClientOpcode::GetUsername)
        } else if v == 0x10 {
            Some(ClientOpcode::RetrieveProjects)
        } else if v == 0x11 {
            Some(ClientOpcode::RetrieveProjectsPaged)
        } else if v == 0x12 {
            Some(ClientOpcode::RetrieveProjectsTotal)
        } else if v == 0x13 {
            Some(ClientOpcode::RetrieveProjectImage)
        } else if v == 0x1f {
            Some(ClientOpcode::OpenProject)
        } else {
            None
        }
    }
}

impl ServerOpcode {
    pub fn as_u16(self) -> (r: u16)
        ensures
            r == server_opcode_code(self),
    {
        match self {
            ServerOpcode::SuccessResp => 0x00,
            ServerOpcode::UsernameResp => 0x01,
            ServerOpcode::ProjectsListResp => 0x10,
            ServerOpcode::ProjectsTotalResp => 0x11,
            ServerOpcode::ProjectImageResp => 0x12,
            ServerOpcode::ErrorNotAuthenticated => 0xffff,
        }
    }

    pub fn try_from_u16(v: u16) -> (r: Option<ServerOpcode>)
        ensures
            r == spec_server_opcode_from_u16(v),
    {
        if v == 0x00 {
            Some(ServerOpcode::SuccessResp)
        } else if v == 0x01 {
            Some(ServerOpcode::UsernameResp)
        } else if v == 0x10 {
            Some(ServerOpcode::ProjectsListResp)
        } else if v == 0x11 {
            Some(ServerOpcode::ProjectsTotalResp)
        } else if v == 0x12 {
            Some(ServerOpcode::ProjectImageResp)
        } else if v == 0xffff {
            Some(ServerOpcode::ErrorNotAuthenticated)
        } else {
            None
        }
    }
}

// ===== packets =====

/// A client-originated user-category packet; requires an authenticated
/// session to be acted on.
#[derive(Clone, Debug, PartialEq)]
pub enum ClientUserPacket {
    SuccessResp,
    GetUsername,
    RetrieveProjects,
    RetrieveProjectsPaged { offset: u64, count: u64 },
    RetrieveProjectsTotal,
    RetrieveProjectImage { imgid: u64 },
    OpenProject,
}

impl View for ClientUserPacket {
    type V = ClientUserPacket;

    open spec fn view(&self) -> ClientUserPacket {
        *self
    }
}

/// A server-originated user-category packet; supports full encode.
#[derive(Clone, Debug, PartialEq)]
pub enum ServerUserPacket {
    SuccessResp,
    UsernameResp { username: String },
    ProjectsListResp { projects: Vec<ProjectData> },
    ProjectsTotalResp { total: u64 },
    ProjectImageResp { data: Vec<u8> },
    ErrorNotAuthenticated,
}

/// Mathematical model of a server user packet.
pub enum ServerUserPacketS {
    SuccessResp,
    UsernameResp { username: Seq<char> },
    ProjectsListResp { projects: Seq<ProjectDataS> },
    ProjectsTotalResp { total: u64 },
    ProjectImageResp { data: Seq<u8> },
    ErrorNotAuthenticated,
}

impl View for ServerUserPacket {
    type V = ServerUserPacketS;

    open spec fn view(&self) -> ServerUserPacketS {
        match self {
            ServerUserPacket::SuccessResp => ServerUserPacketS::SuccessResp,
            ServerUserPacket::UsernameResp { username } => ServerUserPacketS::UsernameResp {
                username: username@,
            },
            ServerUserPacket::ProjectsListResp { projects } => ServerUserPacketS::ProjectsListResp {
                projects: projects@.map_values(|p: ProjectData| p@),
            },
            ServerUserPacket::ProjectsTotalResp { total } => ServerUserPacketS::ProjectsTotalResp {
                total: *total,
            },
            ServerUserPacket::ProjectImageResp { data } => ServerUserPacketS::ProjectImageResp {
                data: data@,
            },
            ServerUserPacket::ErrorNotAuthenticated => ServerUserPacketS::ErrorNotAuthenticated,
        }
    }
}

// ===== payload schemas =====

pub open spec fn offset_key() -> Seq<u8> {
    "offset".spec_bytes()
}

pub open spec fn count_key() -> Seq<u8> {
    "count".spec_bytes()
}

pub open spec fn username_key() -> Seq<u8> {
    "username".spec_bytes()
}

pub open spec fn projects_key() -> Seq<u8> {
    "projects".spec_bytes()
}

pub open spec fn total_key() -> Seq<u8> {
    "total".spec_bytes()
}

pub open spec fn data_key() -> Seq<u8> {
    "data".spec_bytes()
}

pub open spec fn paged_schema() -> Seq<(Seq<u8>, WireType)> {
    seq![(offset_key(), WireType::UInt), (count_key(), WireType::UInt)]
}

pub open spec fn imgid_schema() -> Seq<(Seq<u8>, WireType)> {
    seq![(imgid_key(), WireType::UInt)]
}

pub open spec fn username_schema() -> Seq<(Seq<u8>, WireType)> {
    seq![(username_key(), WireType::Str)]
}

pub open spec fn projects_schema() -> Seq<(Seq<u8>, WireType)> {
    seq![(projects_key(), WireType::Projects)]
}

pub open spec fn total_schema() -> Seq<(Seq<u8>, WireType)> {
    seq![(total_key(), WireType::UInt)]
}

pub open spec fn data_schema() -> Seq<(Seq<u8>, WireType)> {
    seq![(data_key(), WireType::Bin)]
}

pub fn paged_schema_vec() -> (r: Vec<(Vec<u8>, WireType)>)
    ensures
        schema_view(r@) == paged_schema(),
{
    let mut r: Vec<(Vec<u8>, WireType)> = Vec::new();
    r.push(("offset".as_bytes_vec(), WireType::UInt));
    r.push(("count".as_bytes_vec(), WireType::UInt));
    proof {
        assert(schema_view(r@) =~= paged_schema());
    }
    r
}

pub fn imgid_schema_vec() -> (r: Vec<(Vec<u8>, WireType)>)
    ensures
        schema_view(r@) == imgid_schema(),
{
    let mut r: Vec<(Vec<u8>, WireType)> = Vec::new();
    r.push(("imgid".as_bytes_vec(), WireType::UInt));
    proof {
        assert(schema_view(r@) =~= imgid_schema());
    }
    r
}

pub fn username_schema_vec() -> (r: Vec<(Vec<u8>, WireType)>)
    ensures
        schema_view(r@) == username_schema(),
{
    let mut r: Vec<(Vec<u8>, WireType)> = Vec::new();
    r.push(("username".as_bytes_vec(), WireType::Str));
    proof {
        assert(schema_view(r@) =~= username_schema());
    }
    r
}

pub fn projects_schema_vec() -> (r: Vec<(Vec<u8>, WireType)>)
    ensures
        schema_view(r@) == projects_schema(),
{
    let mut r: Vec<(Vec<u8>, WireType)> = Vec::new();
    r.push(("projects".as_bytes_vec(), WireType::Projects));
    proof {
        assert(schema_view(r@) =~= projects_schema());
    }
    r
}

pub fn total_schema_vec() -> (r: Vec<(Vec<u8>, WireType)>)
    ensures
        schema_view(r@) == total_schema(),
{
    let mut r: Vec<(Vec<u8>, WireType)> = Vec::new();
    r.push(("total".as_bytes_vec(), WireType::UInt));
    proof {
        assert(schema_view(r@) =~= total_schema());
    }
    r
}

pub fn data_schema_vec() -> (r: Vec<(Vec<u8>, WireType)>)
    ensures
        schema_view(r@) == data_schema(),
{
    let mut r: Vec<(Vec<u8>, WireType)> = Vec::new();
    r.push(("data".as_bytes_vec(), WireType::Bin));
    proof {
        assert(schema_view(r@) =~= data_schema());
    }
    r
}

/// The user-category schemas have distinct, fitting field names.
pub proof fn lemma_user_schema_facts()
    ensures
        keys_distinct(paged_schema()),
        keys_fit(paged_schema()),
        keys_distinct(imgid_schema()),
        keys_fit(imgid_schema()),
        keys_distinct(username_schema()),
        keys_fit(username_schema()),
        keys_distinct(projects_schema()),
        keys_fit(projects_schema()),
        keys_distinct(total_schema()),
        keys_fit(total_schema()),
        keys_distinct(data_schema()),
        keys_fit(data_schema()),
{
    reveal_strlit("offset");
    reveal_strlit("count");
    reveal_strlit("username");
    reveal_strlit("projects");
    reveal_strlit("total");
    reveal_strlit("data");
    reveal_strlit("imgid");
    vstd::utf8::is_ascii_chars_encode_utf8("offset"@);
    vstd::utf8::is_ascii_chars_encode_utf8("count"@);
    vstd::utf8::is_ascii_chars_encode_utf8("username"@);
    vstd::utf8::is_ascii_chars_encode_utf8("projects"@);
    vstd::utf8::is_ascii_chars_encode_utf8("total"@);
    vstd::utf8::is_ascii_chars_encode_utf8("data"@);
    vstd::utf8::is_ascii_chars_encode_utf8("imgid"@);
    assert(offset_key().len() == 6);
    assert(count_key().len() == 5);
    let ps = paged_schema();
    assert forall|i: int, j: int|
        0 <= i < j < ps.len() implies (#[trigger] ps[i]).0 != (#[trigger] ps[j]).0 by {
        assert(ps[i].0.len() != ps[j].0.len());
    }
}

// ===== decoding =====

/// What decoding a client user packet yields, opcode by opcode.
pub open spec fn spec_client_user_decode(op: ClientOpcode, payload: Seq<u8>) -> Option<
    ClientUserPacket,
> {
    match op {
        ClientOpcode::SuccessResp => Some(ClientUserPacket::SuccessResp),
        ClientOpcode::GetUsername => Some(ClientUserPacket::GetUsername),
        ClientOpcode::RetrieveProjects => Some(ClientUserPacket::RetrieveProjects),
        ClientOpcode::RetrieveProjectsPaged => match spec_decode_record(payload, paged_schema()) {
            None => None,
            Some((vals, _r)) => if vals.len() == 2 && vals[0] is UInt && vals[1] is UInt {
                Some(
                    ClientUserPacket::RetrieveProjectsPaged {
                        offset: vals[0]->UInt_0,
                        count: vals[1]->UInt_0,
                    },
                )
            } else {
                None
            },
        },
        ClientOpcode::RetrieveProjectsTotal => Some(ClientUserPacket::RetrieveProjectsTotal),
        ClientOpcode::RetrieveProjectImage => match spec_decode_record(payload, imgid_schema()) {
            None => None,
            Some((vals, _r)) => if vals.len() == 1 && vals[0] is UInt {
                Some(ClientUserPacket::RetrieveProjectImage { imgid: vals[0]->UInt_0 })
            } else {
                None
            },
        },
        ClientOpcode::OpenProject => Some(ClientUserPacket::OpenProject),
    }
}

/// What decoding a server user packet yields (the client side reads these).
pub open spec fn spec_server_user_decode(op: ServerOpcode, payload: Seq<u8>) -> Option<
    ServerUserPacketS,
> {
    match op {
        ServerOpcode::SuccessResp => Some(ServerUserPacketS::SuccessResp),
        ServerOpcode::UsernameResp => match spec_decode_record(payload, username_schema()) {
            None => None,
            Some((vals, _r)) => if vals.len() == 1 && vals[0] is Str {
                Some(ServerUserPacketS::UsernameResp { username: vals[0]->Str_0 })
            } else {
                None
            },
        },
        ServerOpcode::ProjectsListResp => match spec_decode_record(payload, projects_schema()) {
            None => None,
            Some((vals, _r)) => if vals.len() == 1 && vals[0] is Projects {
                Some(ServerUserPacketS::ProjectsListResp { projects: vals[0]->Projects_0 })
            } else {
                None
            },
        },
        ServerOpcode::ProjectsTotalResp => match spec_decode_record(payload, total_schema()) {
            None => None,
            Some((vals, _r)) => if vals.len() == 1 && vals[0] is UInt {
                Some(ServerUserPacketS::ProjectsTotalResp { total: vals[0]->UInt_0 })
            } else {
                None
            },
        },
        ServerOpcode::ProjectImageResp => match spec_decode_record(payload, data_schema()) {
            None => None,
            Some((vals, _r)) => if vals.len() == 1 && vals[0] is Bin {
                Some(ServerUserPacketS::ProjectImageResp { data: vals[0]->Bin_0 })
            } else {
                None
            },
        },
        ServerOpcode::ErrorNotAuthenticated => Some(ServerUserPacketS::ErrorNotAuthenticated),
    }
}

impl ClientUserPacket {
    /// Decodes with the category-local error split into unknown opcode
    /// versus invalid payload.
    pub fn decode_from(opcode: u16, payload: &[u8]) -> (r: Result<
        ClientUserPacket,
        PacketCategoryDecodeError<ClientOpcode>,
    >)
        ensures
            match spec_client_opcode_from_u16(opcode) {
                None => r == Err::<ClientUserPacket, _>(
                    PacketCategoryDecodeError::<ClientOpcode>::UnknownOpcode { opcode },
                ),
                Some(op) => match spec_client_user_decode(op, payload@) {
                    None => r == Err::<ClientUserPacket, _>(
                        PacketCategoryDecodeError::<ClientOpcode>::InvalidPayload { opcode: op },
                    ),
                    Some(ps) => r matches Ok(p) && p@ == ps,
                },
            },
    {
        let op = match ClientOpcode::try_from_u16(opcode) {
            None => {
                return Err(PacketCategoryDecodeError::UnknownOpcode { opcode });
            },
            Some(op) => op,
        };
        proof {
            assert(payload@.skip(0) =~= payload@);
        }
        match op {
            ClientOpcode::SuccessResp => Ok(ClientUserPacket::SuccessResp),
            ClientOpcode::GetUsername => Ok(ClientUserPacket::GetUsername),
            ClientOpcode::RetrieveProjects => Ok(ClientUserPacket::RetrieveProjects),
            ClientOpcode::RetrieveProjectsPaged => {
                let schema = paged_schema_vec();
                match decode_record(payload, 0, &schema) {
                    None => Err(PacketCategoryDecodeError::InvalidPayload { opcode: op }),
                    Some((vals, _j)) => {
                        if vals.len() != 2 {
                            return Err(
                                PacketCategoryDecodeError::InvalidPayload { opcode: op },
                            );
                        }
                        let (a, b) = take2(vals);
                        match (a, b) {
                            (FieldValue::UInt(offset), FieldValue::UInt(count)) => Ok(
                                ClientUserPacket::RetrieveProjectsPaged { offset, count },
                            ),
                            _ => Err(PacketCategoryDecodeError::InvalidPayload { opcode: op }),
                        }
                    },
                }
            },
            ClientOpcode::RetrieveProjectsTotal => Ok(ClientUserPacket::RetrieveProjectsTotal),
            ClientOpcode::RetrieveProjectImage => {
                let schema = imgid_schema_vec();
                match decode_record(payload, 0, &schema) {
                    None => Err(PacketCategoryDecodeError::InvalidPayload { opcode: op }),
                    Some((vals, _j)) => {
                        if vals.len() != 1 {
                            return Err(
                                PacketCategoryDecodeError::InvalidPayload { opcode: op },
                            );
                        }
                        match take1(vals) {
                            FieldValue::UInt(imgid) => Ok(
                                ClientUserPacket::RetrieveProjectImage { imgid },
                            ),
                            _ => Err(PacketCategoryDecodeError::InvalidPayload { opcode: op }),
                        }
                    },
                }
            },
            ClientOpcode::OpenProject => Ok(ClientUserPacket::OpenProject),
        }
    }
}

impl ServerUserPacket {
    /// Decodes with the category-local error split into unknown opcode
    /// versus invalid payload.
    pub fn decode_from(opcode: u16, payload: &[u8]) -> (r: Result<
        ServerUserPacket,
        PacketCategoryDecodeError<ServerOpcode>,
    >)
        ensures
            match spec_server_opcode_from_u16(opcode) {
                None => r == Err::<ServerUserPacket, _>(
                    PacketCategoryDecodeError::<ServerOpcode>::UnknownOpcode { opcode },
                ),
                Some(op) => match spec_server_user_decode(op, payload@) {
                    None => r == Err::<ServerUserPacket, _>(
                        PacketCategoryDecodeError::<ServerOpcode>::InvalidPayload { opcode: op },
                    ),
                    Some(ps) => r matches Ok(p) && p@ == ps,
                },
            },
    {
        let op = match ServerOpcode::try_from_u16(opcode) {
            None => {
                return Err(PacketCategoryDecodeError::UnknownOpcode { opcode });
            },
            Some(op) => op,
        };
        proof {
            assert(payload@.skip(0) =~= payload@);
        }
        match op {
            ServerOpcode::SuccessResp => Ok(ServerUserPacket::SuccessResp),
            ServerOpcode::UsernameResp => {
                let schema = username_schema_vec();
                match decode_record(payload, 0, &schema) {
                    None => Err(PacketCategoryDecodeError::InvalidPayload { opcode: op }),
                    Some((vals, _j)) => {
                        if vals.len() != 1 {
                            return Err(
                                PacketCategoryDecodeError::InvalidPayload { opcode: op },
                            );
                        }
                        match take1(vals) {
                            FieldValue::Str(username) => Ok(
                                ServerUserPacket::UsernameResp { username },
                            ),
                            _ => Err(PacketCategoryDecodeError::InvalidPayload { opcode: op }),
                        }
                    },
                }
            },
            ServerOpcode::ProjectsListResp => {
                let schema = projects_schema_vec();
                match decode_record(payload, 0, &schema) {
                    None => Err(PacketCategoryDecodeError::InvalidPayload { opcode: op }),
                    Some((vals, _j)) => {
                        if vals.len() != 1 {
                            return Err(
                                PacketCategoryDecodeError::InvalidPayload { opcode: op },
                            );
                        }
                        match take1(vals) {
                            FieldValue::Projects(projects) => Ok(
                                ServerUserPacket::ProjectsListResp { projects },
                            ),
                            _ => Err(PacketCategoryDecodeError::InvalidPayload { opcode: op }),
                        }
                    },
                }
            },
            ServerOpcode::ProjectsTotalResp => {
                let schema = total_schema_vec();
                match decode_record(payload, 0, &schema) {
                    None => Err(PacketCategoryDecodeError::InvalidPayload { opcode: op }),
                    Some((vals, _j)) => {
                        if vals.len() != 1 {
                            return Err(
                                PacketCategoryDecodeError::InvalidPayload { opcode: op },
                            );
                        }
                        match take1(vals) {
                            FieldValue::UInt(total) => Ok(
                                ServerUserPacket::ProjectsTotalResp { total },
                            ),
                            _ => Err(PacketCategoryDecodeError::InvalidPayload { opcode: op }),
                        }
                    },
                }
            },
            ServerOpcode::ProjectImageResp => {
                let schema = data_schema_vec();
                match decode_record(payload, 0, &schema) {
                    None => Err(PacketCategoryDecodeError::InvalidPayload { opcode: op }),
                    Some((vals, _j)) => {
                        if vals.len() != 1 {
                            return Err(
                                PacketCategoryDecodeError::InvalidPayload { opcode: op },
                            );
                        }
                        match take1(vals) {
                            FieldValue::Bin(data) => Ok(
                                ServerUserPacket::ProjectImageResp { data },
                            ),
                            _ => Err(PacketCategoryDecodeError::InvalidPayload { opcode: op }),
                        }
                    },
                }
            },
            ServerOpcode::ErrorNotAuthenticated => Ok(ServerUserPacket::ErrorNotAuthenticated),
        }
    }
}

// ===== encoding =====

/// Writes a one-field record around an already-checked value.
fn encode_one_field(
    schema: Vec<(Vec<u8>, WireType)>,
    Ghost(spec_schema): Ghost<Seq<(Seq<u8>, WireType)>>,
    val: FieldValue,
) -> (r: Vec<u8>)
    requires
        schema_view(schema@) == spec_schema,
        enc_fits(val@),
        keys_fit(spec_schema),
        spec_schema.len() == 1,
    ensures
        r@ == enc_record(spec_schema, seq![val@]),
{
    let ghost gv = val@;
    let mut vals: Vec<FieldValue> = Vec::new();
    vals.push(val);
    let mut out: Vec<u8> = Vec::new();
    proof {
        assert(fields_view(vals@) =~= seq![gv]);
        assert(schema@.len() == schema_view(schema@).len());
        assert forall|k: int|
            0 <= k < schema@.len() implies (#[trigger] schema@[k]).0@.len() <= 0xffffffff by {
            assert(schema_view(schema@)[k] == (schema@[k].0@, schema@[k].1));
            assert(spec_schema[k].0.len() <= 0xffffffff);
        }
        assert forall|k: int|
            0 <= k < vals@.len() implies enc_fits(#[trigger] fields_view(vals@)[k]) by {
            assert(fields_view(vals@)[k] == gv);
        }
    }
    write_record(&mut out, &schema, &vals);
    out
}

impl Packet for ClientUserPacket {
    open spec fn spec_decode(opcode: u16, payload: Seq<u8>) -> Option<ClientUserPacket> {
        match spec_client_opcode_from_u16(opcode) {
            None => None,
            Some(op) => spec_client_user_decode(op, payload),
        }
    }

    open spec fn spec_opcode(&self) -> u16 {
        match self {
            ClientUserPacket::SuccessResp => 0x00,
            ClientUserPacket::GetUsername => 0x01,
            ClientUserPacket::RetrieveProjects => 0x10,
            ClientUserPacket::RetrieveProjectsPaged { .. } => 0x11,
            ClientUserPacket::RetrieveProjectsTotal => 0x12,
            ClientUserPacket::RetrieveProjectImage { .. } => 0x13,
            ClientUserPacket::OpenProject => 0x1f,
        }
    }

    open spec fn spec_payload(&self) -> Option<Seq<u8>> {
        match self {
            ClientUserPacket::RetrieveProjectsPaged { offset, count } => Some(
                enc_record(
                    paged_schema(),
                    seq![FieldValueS::UInt(*offset), FieldValueS::UInt(*count)],
                ),
            ),
            ClientUserPacket::RetrieveProjectImage { imgid } => Some(
                enc_record(imgid_schema(), seq![FieldValueS::UInt(*imgid)]),
            ),
            _ => Some(Seq::empty()),
        }
    }

    fn decode_packet(opcode: u16, payload: &[u8]) -> (r: Option<Self>) {
        match Self::decode_from(opcode, payload) {
            Ok(p) => Some(p),
            Err(_) => None,
        }
    }

    fn as_opcode(&self) -> (r: u16) {
        match self {
            ClientUserPacket::SuccessResp => 0x00,
            ClientUserPacket::GetUsername => 0x01,
            ClientUserPacket::RetrieveProjects => 0x10,
            ClientUserPacket::RetrieveProjectsPaged { .. } => 0x11,
            ClientUserPacket::RetrieveProjectsTotal => 0x12,
            ClientUserPacket::RetrieveProjectImage { .. } => 0x13,
            ClientUserPacket::OpenProject => 0x1f,
        }
    }

    fn encode_payload(self) -> (r: Option<Vec<u8>>) {
        proof {
            lemma_user_schema_facts();
        }
        match self {
            ClientUserPacket::RetrieveProjectsPaged { offset, count } => {
                let mut vals: Vec<FieldValue> = Vec::new();
                vals.push(FieldValue::UInt(offset));
                vals.push(FieldValue::UInt(count));
                let schema = paged_schema_vec();
                let mut out: Vec<u8> = Vec::new();
                proof {
                    assert(fields_view(vals@) =~= seq![
                        FieldValueS::UInt(offset),
                        FieldValueS::UInt(count),
                    ]);
                    assert(schema@.len() == schema_view(schema@).len());
                    assert forall|k: int|
                        0 <= k < schema@.len() implies (#[trigger] schema@[k]).0@.len()
                        <= 0xffffffff by {
                        assert(schema_view(schema@)[k] == (schema@[k].0@, schema@[k].1));
                        assert(paged_schema()[k].0.len() <= 0xffffffff);
                    }
                    assert forall|k: int|
                        0 <= k < vals@.len() implies enc_fits(
                        #[trigger] fields_view(vals@)[k],
                    ) by {
                        assert(fields_view(vals@)[k] == vals@[k]@);
                    }
                }
                write_record(&mut out, &schema, &vals);
                Some(out)
            },
            ClientUserPacket::RetrieveProjectImage { imgid } => {
                let out = encode_one_field(
                    imgid_schema_vec(),
                    Ghost(imgid_schema()),
                    FieldValue::UInt(imgid),
                );
                Some(out)
            },
            _ => {
                let v: Vec<u8> = Vec::new();
                proof {
                    assert(v@ =~= Seq::<u8>::empty());
                }
                Some(v)
            },
        }
    }
}

/// Whether a server user packet's payload fits the wire's length limits.
pub open spec fn server_user_payload_fits(p: ServerUserPacketS) -> bool {
    match p {
        ServerUserPacketS::UsernameResp { username } => encode_utf8(username).len() <= 0xffffffff,
        ServerUserPacketS::ProjectsListResp { projects } => projects.len() <= 0xffffffff && (
        forall|k: int|
            0 <= k < projects.len() ==> #[trigger] crate::schema::project_fits(projects[k])),
        ServerUserPacketS::ProjectImageResp { data } => data.len() <= 0xffffffff,
        _ => true,
    }
}

/// The opcode of a server user packet, over the model.
pub open spec fn server_user_opcode_of(p: ServerUserPacketS) -> u16 {
    match p {
        ServerUserPacketS::SuccessResp => 0x00,
        ServerUserPacketS::UsernameResp { .. } => 0x01,
        ServerUserPacketS::ProjectsListResp { .. } => 0x10,
        ServerUserPacketS::ProjectsTotalResp { .. } => 0x11,
        ServerUserPacketS::ProjectImageResp { .. } => 0x12,
        ServerUserPacketS::ErrorNotAuthenticated => 0xffff,
    }
}

/// The payload bytes of a server user packet, over the model; nothing when a
/// field exceeds the wire's length limits.
pub open spec fn server_user_payload(p: ServerUserPacketS) -> Option<Seq<u8>> {
    match p {
        ServerUserPacketS::UsernameResp { username } => if encode_utf8(username).len()
            <= 0xffffffff {
            Some(enc_record(username_schema(), seq![FieldValueS::Str(username)]))
        } else {
            None
        },
        ServerUserPacketS::ProjectsListResp { projects } => if enc_fits(
            FieldValueS::Projects(projects),
        ) {
            Some(enc_record(projects_schema(), seq![FieldValueS::Projects(projects)]))
        } else {
            None
        },
        ServerUserPacketS::ProjectsTotalResp { total } => Some(
            enc_record(total_schema(), seq![FieldValueS::UInt(total)]),
        ),
        ServerUserPacketS::ProjectImageResp { data } => if data.len() <= 0xffffffff {
            Some(enc_record(data_schema(), seq![FieldValueS::Bin(data)]))
        } else {
            None
        },
        _ => Some(Seq::empty()),
    }
}

impl Packet for ServerUserPacket {
    open spec fn spec_decode(opcode: u16, payload: Seq<u8>) -> Option<ServerUserPacketS> {
        match spec_server_opcode_from_u16(opcode) {
            None => None,
            Some(op) => spec_server_user_decode(op, payload),
        }
    }

    open spec fn spec_opcode(&self) -> u16 {
        server_user_opcode_of(self@)
    }

    open spec fn spec_payload(&self) -> Option<Seq<u8>> {
        server_user_payload(self@)
    }

    fn decode_packet(opcode: u16, payload: &[u8]) -> (r: Option<Self>) {
        match Self::decode_from(opcode, payload) {
            Ok(p) => Some(p),
            Err(_) => None,
        }
    }

    fn as_opcode(&self) -> (r: u16) {
        match self {
            ServerUserPacket::SuccessResp => 0x00,
            ServerUserPacket::UsernameResp { .. } => 0x01,
            ServerUserPacket::ProjectsListResp { .. } => 0x10,
            ServerUserPacket::ProjectsTotalResp { .. } => 0x11,
            ServerUserPacket::ProjectImageResp { .. } => 0x12,
            ServerUserPacket::ErrorNotAuthenticated => 0xffff,
        }
    }

    fn encode_payload(self) -> (r: Option<Vec<u8>>) {
        proof {
            lemma_user_schema_facts();
        }
        match self {
            ServerUserPacket::UsernameResp { username } => {
                let val = FieldValue::Str(username);
                if !check_enc_fits(&val) {
                    return None;
                }
                let out = encode_one_field(username_schema_vec(), Ghost(username_schema()), val);
                Some(out)
            },
            ServerUserPacket::ProjectsListResp { projects } => {
                let val = FieldValue::Projects(projects);
                if !check_enc_fits(&val) {
                    return None;
                }
                let out = encode_one_field(projects_schema_vec(), Ghost(projects_schema()), val);
                Some(out)
            },
            ServerUserPacket::ProjectsTotalResp { total } => {
                let out = encode_one_field(
                    total_schema_vec(),
                    Ghost(total_schema()),
                    FieldValue::UInt(total),
                );
                Some(out)
            },
            ServerUserPacket::ProjectImageResp { data } => {
                let val = FieldValue::Bin(data);
                if !check_enc_fits(&val) {
                    return None;
                }
                let out = encode_one_field(data_schema_vec(), Ghost(data_schema()), val);
                Some(out)
            },
            _ => {
                let v: Vec<u8> = Vec::new();
                proof {
                    assert(v@ =~= Seq::<u8>::empty());
                }
                Some(v)
            },
        }
    }
}

} // verus!
