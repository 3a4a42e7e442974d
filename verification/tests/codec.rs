//! Codec behaviour on concrete wire bytes: categories, payload schemas,
//! round trips, and the validation rules.
use dalang::protocol::authentication::ClientAuthenticationPacket;
use dalang::protocol::authentication::ServerAuthenticationPacket;
use dalang::protocol::user::{ProjectData, ServerUserPacket};
use dalang::error::{MsgpackError, PacketDecodeError};
use dalang::protocol::{Category, ClientPacket, Packet, ServerPacket};
use dalang::schema::{decode_record, decode_tuple, write_record, write_tuple, FieldValue, WireType};

fn frame(category: u16, opcode: u16, payload: &[u8]) -> Vec<u8> {
    let mut v = vec![
        0x92,
        0xce,
        (category >> 8) as u8,
        category as u8,
        (opcode >> 8) as u8,
        opcode as u8,
    ];
    v.extend_from_slice(payload);
    v
}

#[test]
fn test_categories() {
    assert_eq!(Category::Authentication.as_u16(), 0x1);
    assert_eq!(Category::User.as_u16(), 0x2);
    assert_eq!(Category::Editor.as_u16(), 0x3);

    assert_eq!(Category::try_from_u16(0x1), Ok(Category::Authentication));
    assert_eq!(Category::try_from_u16(0x2), Ok(Category::User));
    assert_eq!(Category::try_from_u16(0x3), Ok(Category::Editor));
}

#[test]
fn test_client_auth_packet_login() {
    // payload of { username: "lorem", password: "ipsum" },
    // matching with the login packet
    let payload: [u8; 31] = [
        130, 168, 117, 115, 101, 114, 110, 97, 109, 101, 165, 108, 111, 114, 101, 109, 168, 112,
        97, 115, 115, 119, 111, 114, 100, 165, 105, 112, 115, 117, 109,
    ];

    let packet =
        ClientAuthenticationPacket::decode_packet(0x10, &payload).expect("Failed to decode packet");

    assert_eq!(
        packet,
        ClientAuthenticationPacket::Login {
            username: "lorem".to_string(),
            password: "ipsum".to_string()
        }
    )
}

#[test]
fn as_opcode_test() {
    let a = ClientAuthenticationPacket::SuccessResp;
    let b = ClientAuthenticationPacket::Login {
        username: String::new(),
        password: String::new(),
    };
    let c = ClientAuthenticationPacket::LoginWithToken {
        token: String::new(),
    };

    assert_eq!(a.as_opcode(), 0x0);
    assert_eq!(b.as_opcode(), 0x10);
    assert_eq!(c.as_opcode(), 0x11);
}

#[test]
// Tests that the payload given should be ignored because the opcode
// carries no payload. It does not have any payload to be decoded.
fn ignore_payload_decode_test() {
    let payload: [u8; 3] = [0, 0, 0]; // payload can be anything since it will be ignored
    let ret = ClientAuthenticationPacket::decode_packet(0x0, &payload).unwrap();
    assert_eq!(ret, ClientAuthenticationPacket::SuccessResp);
}

#[test]
fn empty_payload_encode_test() {
    let expected: [u8; 0] = [];
    let payload = ClientAuthenticationPacket::SuccessResp.encode_payload().unwrap();
    assert_eq!(payload, expected);
}

#[test]
fn named_decode_payload_test() {
    // a payload of {"name": "loremipsum"}
    let payload: [u8; 17] = [
        129, 164, 110, 97, 109, 101, 170, 108, 111, 114, 101, 109, 105, 112, 115, 117, 109,
    ];

    let schema = vec![(b"name".to_vec(), WireType::Str)];
    let (vals, used) = decode_record(&payload, 0, &schema).unwrap();
    assert_eq!(used, payload.len());
    assert_eq!(vals, vec![FieldValue::Str(String::from("loremipsum"))]);
}

#[test]
fn unnamed_decode_payload_test() {
    // a payload of ["foo", "bar"]
    let payload: [u8; 9] = [146, 163, 102, 111, 111, 163, 98, 97, 114];

    let types = vec![WireType::Str, WireType::Str];
    let (vals, used) = decode_tuple(&payload, 0, &types).unwrap();
    assert_eq!(used, payload.len());
    assert_eq!(
        vals,
        vec![
            FieldValue::Str("foo".to_string()),
            FieldValue::Str("bar".to_string())
        ]
    );
}

#[test]
fn named_encode_payload_test() {
    let expected: [u8; 17] = [
        129, 164, 110, 97, 109, 101, 170, 108, 111, 114, 101, 109, 105, 112, 115, 117, 109,
    ];

    let schema = vec![(b"name".to_vec(), WireType::Str)];
    let vals = vec![FieldValue::Str(String::from("loremipsum"))];
    let mut encoded: Vec<u8> = Vec::new();
    write_record(&mut encoded, &schema, &vals);

    assert_eq!(encoded, expected);
}

#[test]
fn unnamed_encode_payload_test() {
    let expected: [u8; 9] = [146, 163, 102, 111, 111, 163, 98, 97, 114];

    let vals = vec![
        FieldValue::Str("foo".to_string()),
        FieldValue::Str("bar".to_string()),
    ];
    let mut encoded: Vec<u8> = Vec::new();
    write_tuple(&mut encoded, &vals);

    assert_eq!(encoded, expected);
}

#[test]
fn named_encode_u32_payload_test() {
    let expected: [u8; 13] = [129, 166, 110, 117, 109, 98, 101, 114, 206, 0, 1, 226, 64];

    let schema = vec![(b"number".to_vec(), WireType::UInt)];
    let vals = vec![FieldValue::UInt(123456)];
    let mut encoded: Vec<u8> = Vec::new();
    write_record(&mut encoded, &schema, &vals);

    assert_eq!(encoded, expected);
}

#[test]
fn named_decode_u32_payload_test() {
    let payload: [u8; 13] = [129, 166, 110, 117, 109, 98, 101, 114, 206, 0, 1, 226, 64];

    let schema = vec![(b"number".to_vec(), WireType::UInt)];
    let (vals, _used) = decode_record(&payload, 0, &schema).unwrap();

    assert_eq!(vals, vec![FieldValue::UInt(123456)]);
}

#[test]
fn version_packet_bytes_test() {
    let bytes = dalang::protocol::protocol_version_packet().unwrap();
    // [[0, 0, 1] as full-width 8-bit ints, []]
    assert_eq!(bytes, vec![0x92, 0x93, 0xcc, 0, 0xcc, 0, 0xcc, 1, 0x90]);
}

#[test]
fn full_frame_login_decode() {
    // opcode 0x10 under Authentication (0x0001), record
    // {"username":"lorem","password":"ipsum"}
    let payload: [u8; 31] = [
        130, 168, 117, 115, 101, 114, 110, 97, 109, 101, 165, 108, 111, 114, 101, 109, 168, 112,
        97, 115, 115, 119, 111, 114, 100, 165, 105, 112, 115, 117, 109,
    ];
    let bytes = frame(0x0001, 0x0010, &payload);
    let packet = ClientPacket::decode(&bytes).unwrap();
    assert_eq!(
        packet,
        ClientPacket::Authentication(ClientAuthenticationPacket::Login {
            username: "lorem".to_string(),
            password: "ipsum".to_string()
        })
    );
}

#[test]
fn unknown_category_rejected() {
    for given in [0x0000u16, 0x0004, 0x00ff, 0xffff] {
        let bytes = frame(given, 0x0000, &[]);
        let err = ClientPacket::decode(&bytes).unwrap_err();
        assert_eq!(
            err,
            PacketDecodeError::UnknownCategory {
                given_category: given
            }
        );
    }
}

#[test]
fn unknown_opcode_rejected() {
    let bytes = frame(0x0001, 0x0042, &[]);
    let err = ClientPacket::decode(&bytes).unwrap_err();
    assert_eq!(
        err,
        PacketDecodeError::UnknownOpcode {
            category: Category::Authentication,
            opcode: 0x42
        }
    );
}

#[test]
fn extra_keys_are_ignored() {
    // {"username":"lorem","extra":7,"password":"ipsum"} still decodes as a
    // login payload; the unknown key is skipped whole
    let mut payload: Vec<u8> = vec![0x83];
    payload.extend_from_slice(&[168, 117, 115, 101, 114, 110, 97, 109, 101]); // "username"
    payload.extend_from_slice(&[165, 108, 111, 114, 101, 109]); // "lorem"
    payload.extend_from_slice(&[165, 101, 120, 116, 114, 97]); // "extra"
    payload.push(7);
    payload.extend_from_slice(&[168, 112, 97, 115, 115, 119, 111, 114, 100]); // "password"
    payload.extend_from_slice(&[165, 105, 112, 115, 117, 109]); // "ipsum"
    let packet = ClientAuthenticationPacket::decode_packet(0x10, &payload).unwrap();
    assert_eq!(
        packet,
        ClientAuthenticationPacket::Login {
            username: "lorem".to_string(),
            password: "ipsum".to_string()
        }
    );
}

#[test]
fn missing_required_key_fails() {
    // {"username":"lorem"} lacks the password field
    let mut payload: Vec<u8> = vec![0x81];
    payload.extend_from_slice(&[168, 117, 115, 101, 114, 110, 97, 109, 101]);
    payload.extend_from_slice(&[165, 108, 111, 114, 101, 109]);
    assert!(ClientAuthenticationPacket::decode_packet(0x10, &payload).is_none());
    let bytes = frame(0x0001, 0x0010, &payload);
    let err = ClientPacket::decode(&bytes).unwrap_err();
    assert_eq!(
        err,
        PacketDecodeError::InvalidPayload {
            category: Category::Authentication,
            opcode: 0x10
        }
    );
}

#[test]
fn mistyped_required_key_fails() {
    // {"username":5,"password":"ipsum"}: username must be a string
    let mut payload: Vec<u8> = vec![0x82];
    payload.extend_from_slice(&[168, 117, 115, 101, 114, 110, 97, 109, 101]);
    payload.push(5);
    payload.extend_from_slice(&[168, 112, 97, 115, 115, 119, 111, 114, 100]);
    payload.extend_from_slice(&[165, 105, 112, 115, 117, 109]);
    assert!(ClientAuthenticationPacket::decode_packet(0x10, &payload).is_none());
}

#[test]
fn truncated_frame_fails() {
    assert_eq!(
        ClientPacket::decode(&[]).unwrap_err(),
        PacketDecodeError::Msgpack(MsgpackError::Truncated)
    );
    assert_eq!(
        ClientPacket::decode(&[0x92, 0xce, 0x00]).unwrap_err(),
        PacketDecodeError::Msgpack(MsgpackError::Truncated)
    );
    // the outer sequence must be exactly two elements
    assert_eq!(
        ClientPacket::decode(&[0x93, 0xce, 0, 1, 0, 0]).unwrap_err(),
        PacketDecodeError::InvalidStructure
    );
    // the address must be a full-width 32-bit integer
    assert_eq!(
        ClientPacket::decode(&[0x92, 0x10]).unwrap_err(),
        PacketDecodeError::Msgpack(MsgpackError::TypeMismatch { marker: 0x10 })
    );
}

#[test]
fn server_auth_round_trip() {
    let packets = vec![
        ServerAuthenticationPacket::SuccessResp,
        ServerAuthenticationPacket::LoginFailedInvalidUsernameWrongPassword,
        ServerAuthenticationPacket::LoginFailedTokenExpired,
        ServerAuthenticationPacket::LoginSuccess {
            token: "tok-123".to_string(),
        },
        ServerAuthenticationPacket::RegisterFailedUsernameTaken,
        ServerAuthenticationPacket::RegisterFailedFeatureDisabled,
        ServerAuthenticationPacket::ErrorAlreadyLoggedIn,
    ];
    for p in packets {
        let bytes = ServerPacket::Authentication(p.clone()).encode().unwrap();
        let back = ServerPacket::decode(&bytes).unwrap();
        assert_eq!(back, ServerPacket::Authentication(p));
    }
}

#[test]
fn server_user_round_trip() {
    let packets = vec![
        ServerUserPacket::SuccessResp,
        ServerUserPacket::UsernameResp {
            username: "lorem".to_string(),
        },
        ServerUserPacket::ProjectsListResp {
            projects: vec![
                ProjectData {
                    id: 7,
                    title: "first".to_string(),
                    lastedit: 111,
                    created: 100,
                    imgid: 1,
                },
                ProjectData {
                    id: 9,
                    title: "second".to_string(),
                    lastedit: 300_000,
                    created: 5_000_000_000,
                    imgid: 2,
                },
            ],
        },
        ServerUserPacket::ProjectsTotalResp { total: 2 },
        ServerUserPacket::ProjectImageResp {
            data: vec![0, 1, 2, 254, 255],
        },
        ServerUserPacket::ErrorNotAuthenticated,
    ];
    for p in packets {
        let bytes = ServerPacket::User(p.clone()).encode().unwrap();
        let back = ServerPacket::decode(&bytes).unwrap();
        assert_eq!(back, ServerPacket::User(p));
    }
}

#[test]
fn uint_widths_round_trip() {
    // one value per encoded width of the unsigned family
    for value in [0u64, 5, 127, 128, 255, 256, 65535, 65536, 0xffffffff, 0x1_0000_0000, u64::MAX] {
        let vals = vec![FieldValue::UInt(value)];
        let mut bytes: Vec<u8> = Vec::new();
        write_tuple(&mut bytes, &vals);
        let types = vec![WireType::UInt];
        let (back, used) = decode_tuple(&bytes, 0, &types).unwrap();
        assert_eq!(used, bytes.len());
        assert_eq!(back, vals);
    }
}

#[test]
fn tuple_arity_is_exact() {
    // ["foo","bar"] against a one-element schema must fail
    let payload: [u8; 9] = [146, 163, 102, 111, 111, 163, 98, 97, 114];
    let types = vec![WireType::Str];
    assert!(decode_tuple(&payload, 0, &types).is_none());
}
