//! Authentication category: login and registration traffic, reachable while
//! a session is still anonymous.
use vstd::prelude::*;

use crate::error::PacketCategoryDecodeError;
use crate::protocol::Packet;
use crate::schema::{
    check_enc_fits, decode_record, enc_fits, enc_record, fields_view, keys_distinct, keys_fit,
    schema_view,
    spec_decode_record, take1, take2, write_record, FieldValue, FieldValueS, WireType,
};

verus! {

use vstd::string::StringSliceAdditionalSpecFns;
use vstd::string::StrSliceExecFns;
use vstd::utf8::encode_utf8;

#[derive(Clone, Copy, Debug, Hash, PartialEq, Eq, Structural)]
pub enum ClientOpcode {
    SuccessResp,
    Login,
    LoginWithToken,
    Register,
    RegisterCheckEnabled,
    UsernameCheckExists,
    Logout,
}

#[derive(Clone, Copy, Debug, Hash, PartialEq, Eq, Structural)]
pub enum ServerOpcode {
    SuccessResp,
    LoginFailedInvalidUsernameWrongPassword,
    LoginFailedTokenExpired,
    LoginSuccess,
    RegisterFailedUsernameTaken,
    RegisterFailedFeatureDisabled,
    ErrorAlreadyLoggedIn,
}

pub open spec fn client_opcode_code(op: ClientOpcode) -> u16 {
    match op {
        ClientOpcode::SuccessResp => 0x00,
        ClientOpcode::Login => 0x10,
        ClientOpcode::LoginWithToken => 0x11,
        ClientOpcode::Register => 0x20,
        ClientOpcode::RegisterCheckEnabled => 0x21,
        ClientOpcode::UsernameCheckExists => 0xf0,
        ClientOpcode::Logout => 0xff,
    }
}

pub open spec fn spec_client_opcode_from_u16(v: u16) -> Option<ClientOpcode> {
    if v == 0x00 {
        Some(ClientOpcode::SuccessResp)
    } else if v == 0x10 {
        Some(ClientOpcode::Login)
    } else if v == 0x11 {
        Some(ClientOpcode::LoginWithToken)
    } else if v == 0x20 {
        Some(ClientOpcode::Register)
    } else if v == 0x21 {
        Some(ClientOpcode::RegisterCheckEnabled)
    } else if v == 0xf0 {
        Some(ClientOpcode::UsernameCheckExists)
    } else if v == 0xff {
        Some(ClientOpcode::Logout)
    } else {
        None
    }
}

pub open spec fn server_opcode_code(op: ServerOpcode) -> u16 {
    match op {
        ServerOpcode::SuccessResp => 0x00,
        ServerOpcode::LoginFailedInvalidUsernameWrongPassword => 0x10,
        ServerOpcode::LoginFailedTokenExpired => 0x11,
        ServerOpcode::LoginSuccess => 0x12,
        ServerOpcode::RegisterFailedUsernameTaken => 0x20,
        ServerOpcode::RegisterFailedFeatureDisabled => 0x21,
        ServerOpcode::ErrorAlreadyLoggedIn => 0xffff,
    }
}

pub open spec fn spec_server_opcode_from_u16(v: u16) -> Option<ServerOpcode> {
    if v == 0x00 {
        Some(ServerOpcode::SuccessResp)
    } else if v == 0x10 {
        Some(ServerOpcode::LoginFailedInvalidUsernameWrongPassword)
    } else if v == 0x11 {
        Some(ServerOpcode::LoginFailedTokenExpired)
    } else if v == 0x12 {
        Some(ServerOpcode::LoginSuccess)
    } else if v == 0x20 {
        Some(ServerOpcode::RegisterFailedUsernameTaken)
    } else if v == 0x21 {
        Some(ServerOpcode::RegisterFailedFeatureDisabled)
    } else if v == 0xffff {
        Some(ServerOpcode::ErrorAlreadyLoggedIn)
    } else {
        None
    }
}

impl ClientOpcode {
    pub fn as_u16(self) -> (r: u16)
        ensures
            r == client_opcode_code(self),
    {
        match self {
            ClientOpcode::SuccessResp => 0x00,
            ClientOpcode::Login => 0x10,
            ClientOpcode::LoginWithToken => 0x11,
            ClientOpcode::Register => 0x20,
            ClientOpcode::RegisterCheckEnabled => 0x21,
            ClientOpcode::UsernameCheckExists => 0xf0,
            ClientOpcode::Logout => 0xff,
        }
    }

    pub fn try_from_u16(v: u16) -> (r: Option<ClientOpcode>)
        ensures
            r == spec_client_opcode_from_u16(v),
    {
        if v == 0x00 {
            Some(ClientOpcode::SuccessResp)
        } else if v == 0x10 {
            Some(ClientOpcode::Login)
        } else if v == 0x11 {
            Some(ClientOpcode::LoginWithToken)
        } else if v == 0x20 {
            Some(ClientOpcode::Register)
        } else if v == 0x21 {
            Some(ClientOpcode::RegisterCheckEnabled)
        } else if v == 0xf0 {
            Some(ClientOpcode::UsernameCheckExists)
        } else if v == 0xff {
            Some(ClientOpcode::Logout)
        } else {
            None
        }
    }
}

impl ServerOpcode {
    pub fn as_u16(self) -> (r: u16)
        ensures
            r == server_opcode_code(self),
    {
        match self {
            ServerOpcode::SuccessResp => 0x00,
            ServerOpcode::LoginFailedInvalidUsernameWrongPassword => 0x10,
            ServerOpcode::LoginFailedTokenExpired => 0x11,
            ServerOpcode::LoginSuccess => 0x12,
            ServerOpcode::RegisterFailedUsernameTaken => 0x20,
            ServerOpcode::RegisterFailedFeatureDisabled => 0x21,
            ServerOpcode::ErrorAlreadyLoggedIn => 0xffff,
        }
    }

    pub fn try_from_u16(v: u16) -> (r: Option<ServerOpcode>)
        ensures
            r == spec_server_opcode_from_u16(v),
    {
        if v == 0x00 {
            Some(ServerOpcode::SuccessResp)
        } else if v == 0x10 {
            Some(ServerOpcode::LoginFailedInvalidUsernameWrongPassword)
        } else if v == 0x11 {
            Some(ServerOpcode::LoginFailedTokenExpired)
        } else if v == 0x12 {
            Some(ServerOpcode::LoginSuccess)
        } else if v == 0x20 {
            Some(ServerOpcode::RegisterFailedUsernameTaken)
        } else if v == 0x21 {
            Some(ServerOpcode::RegisterFailedFeatureDisabled)
        } else if v == 0xffff {
            Some(ServerOpcode::ErrorAlreadyLoggedIn)
        } else {
            None
        }
    }
}

/// A client-originated authentication packet. Clients only ever send these;
/// the server decodes them and never re-serializes one.
#[derive(Clone, Debug, PartialEq)]
pub enum ClientAuthenticationPacket {
    SuccessResp,
    Login { username: String, password: String },
    LoginWithToken { token: String },
    Register { username: String, password: String },
    RegisterCheckEnabled,
    UsernameCheckExists,
    Logout,
}

/// Mathematical model of a client authentication packet.
pub enum ClientAuthenticationPacketS {
    SuccessResp,
    Login { username: Seq<char>, password: Seq<char> },
    LoginWithToken { token: Seq<char> },
    Register { username: Seq<char>, password: Seq<char> },
    RegisterCheckEnabled,
    UsernameCheckExists,
    Logout,
}

impl View for ClientAuthenticationPacket {
    type V = ClientAuthenticationPacketS;

    open spec fn view(&self) -> ClientAuthenticationPacketS {
        match self {
            ClientAuthenticationPacket::SuccessResp => ClientAuthenticationPacketS::SuccessResp,
            ClientAuthenticationPacket::Login { username, password } => ClientAuthenticationPacketS::Login {
                username: username@,
                password: password@,
            },
            ClientAuthenticationPacket::LoginWithToken { token } => ClientAuthenticationPacketS::LoginWithToken {
                token: token@,
            },
            ClientAuthenticationPacket::Register { username, password } => ClientAuthenticationPacketS::Register {
                username: username@,
                password: password@,
            },
            ClientAuthenticationPacket::RegisterCheckEnabled => ClientAuthenticationPacketS::RegisterCheckEnabled,
            ClientAuthenticationPacket::UsernameCheckExists => ClientAuthenticationPacketS::UsernameCheckExists,
            ClientAuthenticationPacket::Logout => ClientAuthenticationPacketS::Logout,
        }
    }
}

/// A server-originated authentication packet; supports full encode.
#[derive(Clone, Debug, PartialEq)]
pub enum ServerAuthenticationPacket {
    SuccessResp,
    LoginFailedInvalidUsernameWrongPassword,
    LoginFailedTokenExpired,
    LoginSuccess { token: String },
    RegisterFailedUsernameTaken,
    RegisterFailedFeatureDisabled,
    ErrorAlreadyLoggedIn,
}

/// Mathematical model of a server authentication packet.
pub enum ServerAuthenticationPacketS {
    SuccessResp,
    LoginFailedInvalidUsernameWrongPassword,
    LoginFailedTokenExpired,
    LoginSuccess { token: Seq<char> },
    RegisterFailedUsernameTaken,
    RegisterFailedFeatureDisabled,
    ErrorAlreadyLoggedIn,
}

impl View for ServerAuthenticationPacket {
    type V = ServerAuthenticationPacketS;

    open spec fn view(&self) -> ServerAuthenticationPacketS {
        match self {
            ServerAuthenticationPacket::SuccessResp => ServerAuthenticationPacketS::SuccessResp,
            ServerAuthenticationPacket::LoginFailedInvalidUsernameWrongPassword => ServerAuthenticationPacketS::LoginFailedInvalidUsernameWrongPassword,
            ServerAuthenticationPacket::LoginFailedTokenExpired => ServerAuthenticationPacketS::LoginFailedTokenExpired,
            ServerAuthenticationPacket::LoginSuccess { token } => ServerAuthenticationPacketS::LoginSuccess {
                token: token@,
            },
            ServerAuthenticationPacket::RegisterFailedUsernameTaken => ServerAuthenticationPacketS::RegisterFailedUsernameTaken,
            ServerAuthenticationPacket::RegisterFailedFeatureDisabled => ServerAuthenticationPacketS::RegisterFailedFeatureDisabled,
            ServerAuthenticationPacket::ErrorAlreadyLoggedIn => ServerAuthenticationPacketS::ErrorAlreadyLoggedIn,
        }
    }
}

// ===== payload schemas =====

pub open spec fn username_key() -> Seq<u8> {
    "username".spec_bytes()
}

pub open spec fn password_key() -> Seq<u8> {
    "password".spec_bytes()
}

pub open spec fn token_key() -> Seq<u8> {
    "token".spec_bytes()
}

/// Field layout of the login and register payloads.
pub open spec fn credentials_schema() -> Seq<(Seq<u8>, WireType)> {
    seq![(username_key(), WireType::Str), (password_key(), WireType::Str)]
}

/// Field layout of the token payloads.
pub open spec fn token_schema() -> Seq<(Seq<u8>, WireType)> {
    seq![(token_key(), WireType::Str)]
}

pub fn credentials_schema_vec() -> (r: Vec<(Vec<u8>, WireType)>)
    ensures
        schema_view(r@) == credentials_schema(),
{
    let mut r: Vec<(Vec<u8>, WireType)> = Vec::new();
    r.push(("username".as_bytes_vec(), WireType::Str));
    r.push(("password".as_bytes_vec(), WireType::Str));
    proof {
        assert(schema_view(r@) =~= credentials_schema());
    }
    r
}

pub fn token_schema_vec() -> (r: Vec<(Vec<u8>, WireType)>)
    ensures
        schema_view(r@) == token_schema(),
{
    let mut r: Vec<(Vec<u8>, WireType)> = Vec::new();
    r.push(("token".as_bytes_vec(), WireType::Str));
    proof {
        assert(schema_view(r@) =~= token_schema());
    }
    r
}

/// The two credential field names differ, and all names fit the wire.
pub proof fn lemma_auth_schema_facts()
    ensures
        keys_distinct(credentials_schema()),
        keys_fit(credentials_schema()),
        keys_distinct(token_schema()),
        keys_fit(token_schema()),
{
    reveal_strlit("username");
    reveal_strlit("password");
    reveal_strlit("token");
    vstd::utf8::is_ascii_chars_encode_utf8("username"@);
    vstd::utf8::is_ascii_chars_encode_utf8("password"@);
    vstd::utf8::is_ascii_chars_encode_utf8("token"@);
    assert(username_key()[0] == 'u' as u8);
    assert(password_key()[0] == 'p' as u8);
    let cs = credentials_schema();
    assert forall|i: int, j: int|
        0 <= i < j < cs.len() implies (#[trigger] cs[i]).0 != (#[trigger] cs[j]).0 by {
        assert(cs[i].0[0] != cs[j].0[0]);
    }
}

pub open spec fn credentials_fields(username: Seq<char>, password: Seq<char>) -> Seq<FieldValueS> {
    seq![FieldValueS::Str(username), FieldValueS::Str(password)]
}

pub open spec fn token_fields(token: Seq<char>) -> Seq<FieldValueS> {
    seq![FieldValueS::Str(token)]
}

pub open spec fn str_fits(s: Seq<char>) -> bool {
    encode_utf8(s).len() <= 0xffffffff
}

// ===== decoding =====

/// What decoding a client authentication packet yields, opcode by opcode:
/// payload-free opcodes ignore any payload bytes; credential and token
/// payloads must be records with their declared fields.
pub open spec fn spec_client_auth_decode(op: ClientOpcode, payload: Seq<u8>) -> Option<
    ClientAuthenticationPacketS,
> {
    match op {
        ClientOpcode::SuccessResp => Some(ClientAuthenticationPacketS::SuccessResp),
        ClientOpcode::Login => match spec_decode_record(payload, credentials_schema()) {
            None => None,
            Some((vals, _r)) => if vals.len() == 2 && vals[0] is Str && vals[1] is Str {
                Some(
                    ClientAuthenticationPacketS::Login {
                        username: vals[0]->Str_0,
                        password: vals[1]->Str_0,
                    },
                )
            } else {
                None
            },
        },
        ClientOpcode::LoginWithToken => match spec_decode_record(payload, token_schema()) {
            None => None,
            Some((vals, _r)) => if vals.len() == 1 && vals[0] is Str {
                Some(ClientAuthenticationPacketS::LoginWithToken { token: vals[0]->Str_0 })
            } else {
                None
            },
        },
        ClientOpcode::Register => match spec_decode_record(payload, credentials_schema()) {
            None => None,
            Some((vals, _r)) => if vals.len() == 2 && vals[0] is Str && vals[1] is Str {
                Some(
                    ClientAuthenticationPacketS::Register {
                        username: vals[0]->Str_0,
                        password: vals[1]->Str_0,
                    },
                )
            } else {
                None
            },
        },
        ClientOpcode::RegisterCheckEnabled => Some(
            ClientAuthenticationPacketS::RegisterCheckEnabled,
        ),
        ClientOpcode::UsernameCheckExists => Some(ClientAuthenticationPacketS::UsernameCheckExists),
        ClientOpcode::Logout => Some(ClientAuthenticationPacketS::Logout),
    }
}

/// What decoding a server authentication packet yields (the client side of
/// the protocol reads these).
pub open spec fn spec_server_auth_decode(op: ServerOpcode, payload: Seq<u8>) -> Option<
    ServerAuthenticationPacketS,
> {
    match op {
        ServerOpcode::LoginSuccess => match spec_decode_record(payload, token_schema()) {
            None => None,
            Some((vals, _r)) => if vals.len() == 1 && vals[0] is Str {
                Some(ServerAuthenticationPacketS::LoginSuccess { token: vals[0]->Str_0 })
            } else {
                None
            },
        },
        ServerOpcode::SuccessResp => Some(ServerAuthenticationPacketS::SuccessResp),
        ServerOpcode::LoginFailedInvalidUsernameWrongPassword => Some(
            ServerAuthenticationPacketS::LoginFailedInvalidUsernameWrongPassword,
        ),
        ServerOpcode::LoginFailedTokenExpired => Some(
            ServerAuthenticationPacketS::LoginFailedTokenExpired,
        ),
        ServerOpcode::RegisterFailedUsernameTaken => Some(
            ServerAuthenticationPacketS::RegisterFailedUsernameTaken,
        ),
        ServerOpcode::RegisterFailedFeatureDisabled => Some(
            ServerAuthenticationPacketS::RegisterFailedFeatureDisabled,
        ),
        ServerOpcode::ErrorAlreadyLoggedIn => Some(
            ServerAuthenticationPacketS::ErrorAlreadyLoggedIn,
        ),
    }
}

/// Reads a two-string credentials record.
fn decode_credentials(payload: &[u8]) -> (r: Option<(String, String)>)
    ensures
        match spec_decode_record(payload@, credentials_schema()) {
            None => r is None,
            Some((vals, _rest)) => {
                if vals.len() == 2 && vals[0] is Str && vals[1] is Str {
                    r matches Some((u, p)) && u@ == vals[0]->Str_0 && p@ == vals[1]->Str_0
                } else {
                    r is None
                }
            },
        },
{
    let schema = credentials_schema_vec();
    proof {
        assert(payload@.skip(0) =~= payload@);
    }
    match decode_record(payload, 0, &schema) {
        None => None,
        Some((vals, _j)) => {
            if vals.len() != 2 {
                return None;
            }
            let (a, b) = take2(vals);
            match (a, b) {
                (FieldValue::Str(u), FieldValue::Str(p)) => Some((u, p)),
                _ => None,
            }
        },
    }
}

/// Reads a one-string token record.
fn decode_token(payload: &[u8]) -> (r: Option<String>)
    ensures
        match spec_decode_record(payload@, token_schema()) {
            None => r is None,
            Some((vals, _rest)) => {
                if vals.len() == 1 && vals[0] is Str {
                    r matches Some(t) && t@ == vals[0]->Str_0
                } else {
                    r is None
                }
            },
        },
{
    let schema = token_schema_vec();
    proof {
        assert(payload@.skip(0) =~= payload@);
    }
    match decode_record(payload, 0, &schema) {
        None => None,
        Some((vals, _j)) => {
            if vals.len() != 1 {
                return None;
            }
            let a = take1(vals);
            match a {
                FieldValue::Str(t) => Some(t),
                _ => None,
            }
        },
    }
}

impl ClientAuthenticationPacket {
    /// Decodes with the category-local error split into unknown opcode
    /// versus invalid payload.
    pub fn decode_from(opcode: u16, payload: &[u8]) -> (r: Result<
        ClientAuthenticationPacket,
        PacketCategoryDecodeError<ClientOpcode>,
    >)
        ensures
            match spec_client_opcode_from_u16(opcode) {
                None => r == Err::<ClientAuthenticationPacket, _>(
                    PacketCategoryDecodeError::<ClientOpcode>::UnknownOpcode { opcode },
                ),
                Some(op) => match spec_client_auth_decode(op, payload@) {
                    None => r == Err::<ClientAuthenticationPacket, _>(
                        PacketCategoryDecodeError::<ClientOpcode>::InvalidPayload { opcode: op },
                    ),
                    Some(ps) => r matches Ok(p) && p@ == ps,
                },
            },
    {
        let op = match ClientOpcode::try_from_u16(opcode) {
            None => {
                return Err(PacketCategoryDecodeError::UnknownOpcode { opcode });
            },
            Some(op) => op,
        };
        match op {
            ClientOpcode::SuccessResp => Ok(ClientAuthenticationPacket::SuccessResp),
            ClientOpcode::Login => match decode_credentials(payload) {
                None => Err(PacketCategoryDecodeError::InvalidPayload { opcode: op }),
                Some((username, password)) => Ok(
                    ClientAuthenticationPacket::Login { username, password },
                ),
            },
            ClientOpcode::LoginWithToken => match decode_token(payload) {
                None => Err(PacketCategoryDecodeError::InvalidPayload { opcode: op }),
                Some(token) => Ok(ClientAuthenticationPacket::LoginWithToken { token }),
            },
            ClientOpcode::Register => match decode_credentials(payload) {
                None => Err(PacketCategoryDecodeError::InvalidPayload { opcode: op }),
                Some((username, password)) => Ok(
                    ClientAuthenticationPacket::Register { username, password },
                ),
            },
            ClientOpcode::RegisterCheckEnabled => Ok(
                ClientAuthenticationPacket::RegisterCheckEnabled,
            ),
            ClientOpcode::UsernameCheckExists => Ok(
                ClientAuthenticationPacket::UsernameCheckExists,
            ),
            ClientOpcode::Logout => Ok(ClientAuthenticationPacket::Logout),
        }
    }
}

impl ServerAuthenticationPacket {
    /// Decodes with the category-local error split into unknown opcode
    /// versus invalid payload.
    pub fn decode_from(opcode: u16, payload: &[u8]) -> (r: Result<
        ServerAuthenticationPacket,
        PacketCategoryDecodeError<ServerOpcode>,
    >)
        ensures
            match spec_server_opcode_from_u16(opcode) {
                None => r == Err::<ServerAuthenticationPacket, _>(
                    PacketCategoryDecodeError::<ServerOpcode>::UnknownOpcode { opcode },
                ),
                Some(op) => match spec_server_auth_decode(op, payload@) {
                    None => r == Err::<ServerAuthenticationPacket, _>(
                        PacketCategoryDecodeError::<ServerOpcode>::InvalidPayload { opcode: op },
                    ),
                    Some(ps) => r matches Ok(p) && p@ == ps,
                },
            },
    {
        let op = match ServerOpcode::try_from_u16(opcode) {
            None => {
                return Err(PacketCategoryDecodeError::UnknownOpcode { opcode });
            },
            Some(op) => op,
        };
        match op {
            ServerOpcode::SuccessResp => Ok(ServerAuthenticationPacket::SuccessResp),
            ServerOpcode::LoginFailedInvalidUsernameWrongPassword => Ok(
                ServerAuthenticationPacket::LoginFailedInvalidUsernameWrongPassword,
            ),
            ServerOpcode::LoginFailedTokenExpired => Ok(
                ServerAuthenticationPacket::LoginFailedTokenExpired,
            ),
            ServerOpcode::LoginSuccess => match decode_token(payload) {
                None => Err(PacketCategoryDecodeError::InvalidPayload { opcode: op }),
                Some(token) => Ok(ServerAuthenticationPacket::LoginSuccess { token }),
            },
            ServerOpcode::RegisterFailedUsernameTaken => Ok(
                ServerAuthenticationPacket::RegisterFailedUsernameTaken,
            ),
            ServerOpcode::RegisterFailedFeatureDisabled => Ok(
                ServerAuthenticationPacket::RegisterFailedFeatureDisabled,
            ),
            ServerOpcode::ErrorAlreadyLoggedIn => Ok(
                ServerAuthenticationPacket::ErrorAlreadyLoggedIn,
            ),
        }
    }
}

// ===== encoding =====

/// Writes a two-string credentials record; fails when a string exceeds the
/// wire's length limit.
fn encode_credentials(username: String, password: String) -> (r: Option<Vec<u8>>)
    ensures
        match r {
            None => !(str_fits(username@) && str_fits(password@)),
            Some(b) => str_fits(username@) && str_fits(password@) && b@ == enc_record(
                credentials_schema(),
                credentials_fields(username@, password@),
            ),
        },
{
    let ghost gu = username@;
    let ghost gp = password@;
    let mut vals: Vec<FieldValue> = Vec::new();
    vals.push(FieldValue::Str(username));
    vals.push(FieldValue::Str(password));
    if !check_enc_fits(&vals[0]) {
        return None;
    }
    if !check_enc_fits(&vals[1]) {
        return None;
    }
    let schema = credentials_schema_vec();
    let mut out: Vec<u8> = Vec::new();
    proof {
        lemma_auth_schema_facts();
        assert(fields_view(vals@) =~= credentials_fields(gu, gp));
        assert(schema@.len() == schema_view(schema@).len());
        assert(vals@.len() == fields_view(vals@).len());
        assert forall|k: int|
            0 <= k < schema@.len() implies (#[trigger] schema@[k]).0@.len() <= 0xffffffff by {
            assert(schema_view(schema@)[k] == (schema@[k].0@, schema@[k].1));
            assert(credentials_schema()[k].0.len() <= 0xffffffff);
        }
        assert forall|k: int|
            0 <= k < vals@.len() implies enc_fits(#[trigger] fields_view(vals@)[k]) by {
            assert(fields_view(vals@)[k] == vals@[k]@);
        }
    }
    write_record(&mut out, &schema, &vals);
    Some(out)
}

/// Writes a one-string token record; fails when the token exceeds the wire's
/// length limit.
fn encode_token(token: String) -> (r: Option<Vec<u8>>)
    ensures
        match r {
            None => !str_fits(token@),
            Some(b) => str_fits(token@) && b@ == enc_record(token_schema(), token_fields(token@)),
        },
{
    let ghost gt = token@;
    let mut vals: Vec<FieldValue> = Vec::new();
    vals.push(FieldValue::Str(token));
    if !check_enc_fits(&vals[0]) {
        return None;
    }
    let schema = token_schema_vec();
    let mut out: Vec<u8> = Vec::new();
    proof {
        lemma_auth_schema_facts();
        assert(fields_view(vals@) =~= token_fields(gt));
        assert(schema@.len() == schema_view(schema@).len());
        assert(vals@.len() == fields_view(vals@).len());
        assert forall|k: int|
            0 <= k < schema@.len() implies (#[trigger] schema@[k]).0@.len() <= 0xffffffff by {
            assert(schema_view(schema@)[k] == (schema@[k].0@, schema@[k].1));
            assert(token_schema()[k].0.len() <= 0xffffffff);
        }
        assert forall|k: int|
            0 <= k < vals@.len() implies enc_fits(#[trigger] fields_view(vals@)[k]) by {
            assert(fields_view(vals@)[k] == vals@[k]@);
        }
    }
    write_record(&mut out, &schema, &vals);
    Some(out)
}

impl Packet for ClientAuthenticationPacket {
    open spec fn spec_decode(opcode: u16, payload: Seq<u8>) -> Option<ClientAuthenticationPacketS> {
        match spec_client_opcode_from_u16(opcode) {
            None => None,
            Some(op) => spec_client_auth_decode(op, payload),
        }
    }

    open spec fn spec_opcode(&self) -> u16 {
        match self {
            ClientAuthenticationPacket::SuccessResp => 0x00,
            ClientAuthenticationPacket::Login { .. } => 0x10,
            ClientAuthenticationPacket::LoginWithToken { .. } => 0x11,
            ClientAuthenticationPacket::Register { .. } => 0x20,
            ClientAuthenticationPacket::RegisterCheckEnabled => 0x21,
            ClientAuthenticationPacket::UsernameCheckExists => 0xf0,
            ClientAuthenticationPacket::Logout => 0xff,
        }
    }

    open spec fn spec_payload(&self) -> Option<Seq<u8>> {
        match self {
            ClientAuthenticationPacket::Login { username, password } => if str_fits(username@)
                && str_fits(password@) {
                Some(enc_record(credentials_schema(), credentials_fields(username@, password@)))
            } else {
                None
            },
            ClientAuthenticationPacket::LoginWithToken { token } => if str_fits(token@) {
                Some(enc_record(token_schema(), token_fields(token@)))
            } else {
                None
            },
            ClientAuthenticationPacket::Register { username, password } => if str_fits(username@)
                && str_fits(password@) {
                Some(enc_record(credentials_schema(), credentials_fields(username@, password@)))
            } else {
                None
            },
            _ => Some(Seq::empty()),
        }
    }

    fn decode_packet(opcode: u16, payload: &[u8]) -> (r: Option<Self>) {
        match Self::decode_from(opcode, payload) {
            Ok(p) => Some(p),
            Err(_) => None,
        }
    }

    fn as_opcode(&self) -> (r: u16) {
        match self {
            ClientAuthenticationPacket::SuccessResp => 0x00,
            ClientAuthenticationPacket::Login { .. } => 0x10,
            ClientAuthenticationPacket::LoginWithToken { .. } => 0x11,
            ClientAuthenticationPacket::Register { .. } => 0x20,
            ClientAuthenticationPacket::RegisterCheckEnabled => 0x21,
            ClientAuthenticationPacket::UsernameCheckExists => 0xf0,
            ClientAuthenticationPacket::Logout => 0xff,
        }
    }

    fn encode_payload(self) -> (r: Option<Vec<u8>>) {
        match self {
            ClientAuthenticationPacket::Login { username, password } => encode_credentials(
                username,
                password,
            ),
            ClientAuthenticationPacket::LoginWithToken { token } => encode_token(token),
            ClientAuthenticationPacket::Register { username, password } => encode_credentials(
                username,
                password,
            ),
            _ => {
                let v: Vec<u8> = Vec::new();
                proof {
                    assert(v@ =~= Seq::<u8>::empty());
                }
                Some(v)
            },
        }
    }
}

/// The opcode of a server authentication packet, over the model.
pub open spec fn server_auth_opcode_of(p: ServerAuthenticationPacketS) -> u16 {
    match p {
        ServerAuthenticationPacketS::SuccessResp => 0x00,
        ServerAuthenticationPacketS::LoginFailedInvalidUsernameWrongPassword => 0x10,
        ServerAuthenticationPacketS::LoginFailedTokenExpired => 0x11,
        ServerAuthenticationPacketS::LoginSuccess { .. } => 0x12,
        ServerAuthenticationPacketS::RegisterFailedUsernameTaken => 0x20,
        ServerAuthenticationPacketS::RegisterFailedFeatureDisabled => 0x21,
        ServerAuthenticationPacketS::ErrorAlreadyLoggedIn => 0xffff,
    }
}

/// The payload bytes of a server authentication packet, over the model;
/// nothing when a field exceeds the wire's length limits.
pub open spec fn server_auth_payload(p: ServerAuthenticationPacketS) -> Option<Seq<u8>> {
    match p {
        ServerAuthenticationPacketS::LoginSuccess { token } => if str_fits(token) {
            Some(enc_record(token_schema(), token_fields(token)))
        } else {
            None
        },
        _ => Some(Seq::empty()),
    }
}

impl Packet for ServerAuthenticationPacket {
    open spec fn spec_decode(opcode: u16, payload: Seq<u8>) -> Option<ServerAuthenticationPacketS> {
        match spec_server_opcode_from_u16(opcode) {
            None => None,
            Some(op) => spec_server_auth_decode(op, payload),
        }
    }

    open spec fn spec_opcode(&self) -> u16 {
        server_auth_opcode_of(self@)
    }

    open spec fn spec_payload(&self) -> Option<Seq<u8>> {
        server_auth_payload(self@)
    }

    fn decode_packet(opcode: u16, payload: &[u8]) -> (r: Option<Self>) {
        match Self::decode_from(opcode, payload) {
            Ok(p) => Some(p),
            Err(_) => None,
        }
    }

    fn as_opcode(&self) -> (r: u16) {
        match self {
            ServerAuthenticationPacket::SuccessResp => 0x00,
            ServerAuthenticationPacket::LoginFailedInvalidUsernameWrongPassword => 0x10,
            ServerAuthenticationPacket::LoginFailedTokenExpired => 0x11,
            ServerAuthenticationPacket::LoginSuccess { .. } => 0x12,
            ServerAuthenticationPacket::RegisterFailedUsernameTaken => 0x20,
            ServerAuthenticationPacket::RegisterFailedFeatureDisabled => 0x21,
            ServerAuthenticationPacket::ErrorAlreadyLoggedIn => 0xffff,
        }
    }

    fn encode_payload(self) -> (r: Option<Vec<u8>>) {
        match self {
            ServerAuthenticationPacket::LoginSuccess { token } => encode_token(token),
            _ => {
                let v: Vec<u8> = Vec::new();
                proof {
                    assert(v@ =~= Seq::<u8>::empty());
                }
                Some(v)
            },
        }
    }
}

} // verus!
