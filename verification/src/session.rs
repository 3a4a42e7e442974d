//! The per-connection session: one instance per live connection, owning the
//! connection-local authentication state. It decodes inbound frames,
//! dispatches them (authentication traffic to the shared authenticator,
//! account traffic to the store, when authenticated), and answers with
//! encoded frames or a close. One inbound message is processed to completion
//! before the next; nothing else mutates a session.
use vstd::prelude::*;

use crate::auth::{bcrypt_verifies, uid_used, Authenticator, GetUser, Login, Register};
use crate::protocol::authentication::{
    ClientAuthenticationPacket, ServerAuthenticationPacket, ServerAuthenticationPacketS,
};
use crate::protocol::user::{ClientUserPacket, ServerUserPacket, ServerUserPacketS};
use crate::protocol::{
    client_frame_decode, protocol_version_packet, server_frame_encode, version_packet_bytes,
    ClientPacket, ClientPacketS, ServerPacket, ServerPacketS,
};

verus! {

use vstd::utf8::encode_utf8;

/// A raw outbound message, sent as-is on the transport.
#[derive(Clone, Debug, PartialEq)]
pub enum RawMessage {
    Text(String),
    Binary(Vec<u8>),
}

/// One inbound transport message, as the connection layer hands it over.
#[derive(Clone, Debug, PartialEq)]
pub enum TransportMessage {
    /// A text frame; the protocol is binary-only, so this is a violation.
    Text(String),
    /// A binary frame carrying one encoded packet.
    Binary(Vec<u8>),
    /// A ping, answered with a pong carrying the same bytes.
    Ping(Vec<u8>),
    /// The peer closed the connection.
    Close,
}

/// Why the session closes the connection.
#[derive(Clone, Copy, Debug, PartialEq, Eq, Structural)]
pub enum CloseCode {
    /// An internal failure before or while answering.
    Error,
    /// A transport frame kind the protocol does not support.
    Unsupported,
    /// A malformed or unhandled frame; decode errors are connection-fatal.
    Protocol,
}

/// What the session asks the transport to do, in order.
#[derive(Clone, Debug, PartialEq)]
pub enum SessionAction {
    /// Send these bytes as one binary frame.
    Send(Vec<u8>),
    /// Answer a ping with these bytes.
    Pong(Vec<u8>),
    /// Close the connection with this code.
    Close(CloseCode),
}

/// The connection-local authentication state.
#[derive(Clone, Copy, Debug, PartialEq, Eq, Structural)]
pub enum AuthState {
    /// Connected, nobody logged in yet.
    Anonymous,
    /// Logged in as this user id.
    Authenticated(u64),
    /// Terminal: no transition leaves it.
    Closed,
}

/// One live connection's session.
#[derive(Clone, Copy, Debug, PartialEq, Eq, Structural)]
pub struct Session {
    /// A connection identifier, chosen by the acceptor.
    pub id: u64,
    /// The session's authentication state.
    pub state: AuthState,
}

/// The single action sequence "send this server packet".
pub open spec fn sends(actions: Seq<SessionAction>, p: ServerPacketS) -> bool {
    &&& actions.len() == 1
    &&& actions[0] matches SessionAction::Send(v) && server_frame_encode(p) == Some(v@)
}

/// The single action sequence "close with this code".
pub open spec fn closes(actions: Seq<SessionAction>, code: CloseCode) -> bool {
    actions =~= seq![SessionAction::Close(code)]
}

/// How one inbound message may step the session: the relation between the
/// state and store before, the message, and the state, store and actions
/// after. Every branch follows the dispatch rules: text frames close the
/// connection; pings answer pongs; decode errors are connection-fatal;
/// authentication packets are served in any state; user and editor packets
/// require an authenticated session; opcodes no handler is wired to close
/// the connection.
pub open spec fn session_step(
    pre: AuthState,
    users0: Map<Seq<char>, (u64, Seq<char>)>,
    msg: TransportMessage,
    post: AuthState,
    users1: Map<Seq<char>, (u64, Seq<char>)>,
    actions: Seq<SessionAction>,
) -> bool {
    match msg {
        TransportMessage::Text(_) => post == AuthState::Closed && users1 == users0 && closes(
            actions,
            CloseCode::Unsupported,
        ),
        TransportMessage::Ping(p) => post == pre && users1 == users0 && actions =~= seq![
            SessionAction::Pong(p),
        ],
        TransportMessage::Close => post == AuthState::Closed && users1 == users0
            && actions.len() == 0,
        TransportMessage::Binary(b) => {
            if pre == AuthState::Closed {
                post == AuthState::Closed && users1 == users0 && actions.len() == 0
            } else {
                match client_frame_decode(b@) {
                    Err(_e) => post == AuthState::Closed && users1 == users0 && closes(
                        actions,
                        CloseCode::Protocol,
                    ),
                    Ok(p) => session_dispatch(pre, users0, p, post, users1, actions),
                }
            }
        },
    }
}

/// Dispatch of one decoded packet, by category and opcode.
pub open spec fn session_dispatch(
    pre: AuthState,
    users0: Map<Seq<char>, (u64, Seq<char>)>,
    p: ClientPacketS,
    post: AuthState,
    users1: Map<Seq<char>, (u64, Seq<char>)>,
    actions: Seq<SessionAction>,
) -> bool {
    match p {
        ClientPacketS::Authentication(a) => match a {
            crate::protocol::authentication::ClientAuthenticationPacketS::Login {
                username,
                password,
            } => {
                if users0.contains_key(username) && bcrypt_verifies(
                    password,
                    users0[username].1,
                ) {
                    // success: authenticated as the stored id, answered with a
                    // fresh token
                    &&& users1 == users0
                    &&& post == AuthState::Authenticated(users0[username].0)
                    &&& (exists|t: Seq<char>|
                        sends(
                            actions,
                            ServerPacketS::Authentication(
                                ServerAuthenticationPacketS::LoginSuccess { token: t },
                            ),
                        ))
                } else {
                    // one opaque failure response for both causes
                    &&& users1 == users0
                    &&& post == pre
                    &&& sends(
                        actions,
                        ServerPacketS::Authentication(
                            ServerAuthenticationPacketS::LoginFailedInvalidUsernameWrongPassword,
                        ),
                    )
                }
            },
            crate::protocol::authentication::ClientAuthenticationPacketS::Register {
                username,
                password,
            } => {
                if users0.contains_key(username) {
                    &&& users1 == users0
                    &&& post == pre
                    &&& sends(
                        actions,
                        ServerPacketS::Authentication(
                            ServerAuthenticationPacketS::RegisterFailedUsernameTaken,
                        ),
                    )
                } else {
                    // either the registration went through and the session is
                    // authenticated as the fresh id, or the backend failed,
                    // nothing changed, and the failure is surfaced opaquely
                    ||| (exists|uid: u64, h: Seq<char>|
                        {
                            &&& !uid_used(users0, uid)
                            &&& bcrypt_verifies(password, h)
                            &&& users1 == users0.insert(username, (uid, h))
                            &&& post == AuthState::Authenticated(uid)
                            &&& sends(
                                actions,
                                ServerPacketS::Authentication(
                                    ServerAuthenticationPacketS::SuccessResp,
                                ),
                            )
                        })
                    ||| (users1 == users0 && post == pre && sends(
                        actions,
                        ServerPacketS::Authentication(
                            ServerAuthenticationPacketS::RegisterFailedUsernameTaken,
                        ),
                    ))
                }
            },
            _ => {
                // valid opcode with no wired handler: no silent no-ops
                &&& users1 == users0
                &&& post == AuthState::Closed
                &&& closes(actions, CloseCode::Protocol)
            },
        },
        ClientPacketS::User(u) => {
            if !(pre is Authenticated) {
                // recoverable: answered, not closed
                &&& users1 == users0
                &&& post == pre
                &&& sends(
                    actions,
                    ServerPacketS::User(ServerUserPacketS::ErrorNotAuthenticated),
                )
            } else {
                match u {
                    ClientUserPacket::GetUsername => {
                        let uid = pre->Authenticated_0;
                        ||| (exists|name: Seq<char>|
                            {
                                &&& users0.contains_key(name)
                                &&& users0[name].0 == uid
                                &&& users1 == users0
                                &&& post == pre
                                &&& sends(
                                    actions,
                                    ServerPacketS::User(
                                        ServerUserPacketS::UsernameResp { username: name },
                                    ),
                                )
                            })
                        ||| (!uid_used(users0, uid) && users1 == users0 && post == pre && sends(
                            actions,
                            ServerPacketS::User(ServerUserPacketS::ErrorNotAuthenticated),
                        ))
                        ||| (users1 == users0 && post == AuthState::Closed && closes(
                            actions,
                            CloseCode::Error,
                        ))
                    },
                    _ => {
                        // valid opcode with no wired handler
                        &&& users1 == users0
                        &&& post == AuthState::Closed
                        &&& closes(actions, CloseCode::Protocol)
                    },
                }
            }
        },
        ClientPacketS::Editor(_) => {
            // the editor category is reserved; nothing is wired to it
            &&& users1 == users0
            &&& post == AuthState::Closed
            &&& closes(actions, CloseCode::Protocol)
        },
    }
}

/// Relies on rand's `random`: thirty-two unpredictable bytes.
#[verifier::external_body]
fn random_bytes() -> Vec<u8> {
    rand::random::<[u8; 32]>().to_vec()
}

/// Relies on pwhash's `sha512_crypt::hash`: an unpredictable, salted token
/// string derived from the input.
#[verifier::external_body]
fn token_digest(seed: &[u8]) -> Option<String> {
    pwhash::sha512_crypt::hash(seed).ok()
}

impl Session {
    /// A fresh session for one accepted connection, still anonymous.
    pub fn new(id: u64) -> (r: Session)
        ensures
            r.id == id,
            r.state == AuthState::Anonymous,
    {
        Session { id, state: AuthState::Anonymous }
    }

    /// What the session does the moment the connection is accepted: emit the
    /// version-advertisement frame before any application traffic.
    pub fn on_connect(&self) -> (actions: Vec<SessionAction>)
        ensures
            actions@.len() == 1,
            actions@[0] matches SessionAction::Send(v) && v@ == version_packet_bytes(),
    {
        let mut actions: Vec<SessionAction> = Vec::new();
        match protocol_version_packet() {
            Ok(b) => actions.push(SessionAction::Send(b)),
            Err(_e) => actions.push(SessionAction::Close(CloseCode::Error)),
        }
        actions
    }

    /// Processes one inbound transport message to completion: decodes,
    /// dispatches, answers. The step taken is exactly one that
    /// `session_step` allows.
    pub fn handle_message<A: Authenticator>(
        &mut self,
        msg: TransportMessage,
        auth: &mut A,
    ) -> (actions: Vec<SessionAction>)
        requires
            old(auth).wf(),
        ensures
            final(auth).wf(),
            final(self).id == old(self).id,
            session_step(
                old(self).state,
                old(auth).users(),
                msg,
                final(self).state,
                final(auth).users(),
                actions@,
            ),
    {
        let mut actions: Vec<SessionAction> = Vec::new();
        match msg {
            TransportMessage::Text(_t) => {
                self.state = AuthState::Closed;
                actions.push(SessionAction::Close(CloseCode::Unsupported));
                proof {
                    assert(actions@ =~= seq![SessionAction::Close(CloseCode::Unsupported)]);
                }
            },
            TransportMessage::Ping(p) => {
                let ghost gp = p@;
                actions.push(SessionAction::Pong(p));
                proof {
                    assert(actions@.len() == 1);
                    assert(actions@[0] matches SessionAction::Pong(q) && q@ == gp);
                    assert(actions@ =~= seq![actions@[0]]);
                }
            },
            TransportMessage::Close => {
                self.state = AuthState::Closed;
            },
            TransportMessage::Binary(b) => {
                match self.state {
                    AuthState::Closed => {},
                    _ => {
                        match ClientPacket::decode(b.as_slice()) {
                            Err(_e) => {
                                self.state = AuthState::Closed;
                                actions.push(SessionAction::Close(CloseCode::Protocol));
                                proof {
                                    assert(actions@ =~= seq![
                                        SessionAction::Close(CloseCode::Protocol),
                                    ]);
                                }
                            },
                            Ok(p) => {
                                return self.dispatch(p, auth);
                            },
                        }
                    },
                }
            },
        }
        actions
    }

    /// Dispatches one decoded packet.
    fn dispatch<A: Authenticator>(&mut self, p: ClientPacket, auth: &mut A) -> (actions: Vec<
        SessionAction,
    >)
        requires
            old(auth).wf(),
            old(self).state != AuthState::Closed,
        ensures
            final(auth).wf(),
            final(self).id == old(self).id,
            session_dispatch(
                old(self).state,
                old(auth).users(),
                p@,
                final(self).state,
                final(auth).users(),
                actions@,
            ),
    {
        match p {
            ClientPacket::Authentication(a) => self.dispatch_auth(a, auth),
            ClientPacket::User(u) => self.dispatch_user(u, auth),
            ClientPacket::Editor(_e) => {
                self.state = AuthState::Closed;
                let mut actions: Vec<SessionAction> = Vec::new();
                actions.push(SessionAction::Close(CloseCode::Protocol));
                proof {
                    assert(actions@ =~= seq![SessionAction::Close(CloseCode::Protocol)]);
                }
                actions
            },
        }
    }

    /// Authentication packets are served whatever the current state.
    fn dispatch_auth<A: Authenticator>(
        &mut self,
        a: ClientAuthenticationPacket,
        auth: &mut A,
    ) -> (actions: Vec<SessionAction>)
        requires
            old(auth).wf(),
        ensures
            final(auth).wf(),
            final(self).id == old(self).id,
            session_dispatch(
                old(self).state,
                old(auth).users(),
                ClientPacketS::Authentication(a@),
                final(self).state,
                final(auth).users(),
                actions@,
            ),
    {
        let mut actions: Vec<SessionAction> = Vec::new();
        match a {
            ClientAuthenticationPacket::Login { username, password } => {
                let ghost gu = username@;
                match auth.login(Login { username, password }) {
                    Ok(uid) => {
                        self.state = AuthState::Authenticated(uid);
                        let token = match token_digest(random_bytes().as_slice()) {
                            Some(t) => t,
                            None => String::new(),
                        };
                        let ghost gt = token@;
                        let packet = ServerPacket::Authentication(
                            ServerAuthenticationPacket::LoginSuccess { token },
                        );
                        match packet.encode() {
                            Ok(bytes) => {
                                actions.push(SessionAction::Send(bytes));
                                proof {
                                    assert(sends(
                                        actions@,
                                        ServerPacketS::Authentication(
                                            ServerAuthenticationPacketS::LoginSuccess {
                                                token: gt,
                                            },
                                        ),
                                    ));
                                }
                            },
                            Err(_e) => {
                                // an oversized token cannot be framed; answer
                                // success with an empty token instead, which
                                // always frames
                                let empty = String::new();
                                let ghost ge = empty@;
                                let fallback = ServerPacket::Authentication(
                                    ServerAuthenticationPacket::LoginSuccess { token: empty },
                                );
                                proof {
                                    assert(encode_utf8(ge) =~= Seq::<u8>::empty());
                                }
                                match fallback.encode() {
                                    Ok(bytes) => {
                                        actions.push(SessionAction::Send(bytes));
                                        proof {
                                            assert(sends(
                                                actions@,
                                                ServerPacketS::Authentication(
                                                    ServerAuthenticationPacketS::LoginSuccess {
                                                        token: ge,
                                                    },
                                                ),
                                            ));
                                        }
                                    },
                                    Err(_e2) => {
                                        // an empty token always frames
                                        proof {
                                            assert(false);
                                        }
                                    },
                                }
                            },
                        }
                    },
                    Err(_f) => {
                        let packet = ServerPacket::Authentication(
                            ServerAuthenticationPacket::LoginFailedInvalidUsernameWrongPassword,
                        );
                        match packet.encode() {
                            Ok(bytes) => {
                                actions.push(SessionAction::Send(bytes));
                            },
                            Err(_e) => {
                                // payload-free packets always frame
                                proof {
                                    assert(false);
                                }
                            },
                        }
                    },
                }
            },
            ClientAuthenticationPacket::Register { username, password } => {
                match auth.register(Register { username, password }) {
                    Ok(uid) => {
                        self.state = AuthState::Authenticated(uid);
                        let packet = ServerPacket::Authentication(
                            ServerAuthenticationPacket::SuccessResp,
                        );
                        match packet.encode() {
                            Ok(bytes) => {
                                actions.push(SessionAction::Send(bytes));
                            },
                            Err(_e) => {
                                // payload-free packets always frame
                                proof {
                                    assert(false);
                                }
                            },
                        }
                    },
                    Err(_f) => {
                        // taken and backend faults alike surface as the one
                        // register failure response
                        let packet = ServerPacket::Authentication(
                            ServerAuthenticationPacket::RegisterFailedUsernameTaken,
                        );
                        match packet.encode() {
                            Ok(bytes) => {
                                actions.push(SessionAction::Send(bytes));
                            },
                            Err(_e) => {
                                // payload-free packets always frame
                                proof {
                                    assert(false);
                                }
                            },
                        }
                    },
                }
            },
            _ => {
                self.state = AuthState::Closed;
                actions.push(SessionAction::Close(CloseCode::Protocol));
                proof {
                    assert(actions@ =~= seq![SessionAction::Close(CloseCode::Protocol)]);
                }
            },
        }
        actions
    }

    /// User packets require an authenticated session; an anonymous one is
    /// answered, not closed.
    fn dispatch_user<A: Authenticator>(&mut self, u: ClientUserPacket, auth: &mut A) -> (actions:
        Vec<SessionAction>)
        requires
            old(auth).wf(),
        ensures
            final(auth).wf(),
            final(self).id == old(self).id,
            session_dispatch(
                old(self).state,
                old(auth).users(),
                ClientPacketS::User(u@),
                final(self).state,
                final(auth).users(),
                actions@,
            ),
    {
        let mut actions: Vec<SessionAction> = Vec::new();
        let uid = match self.state {
            AuthState::Authenticated(uid) => uid,
            _ => {
                let packet = ServerPacket::User(ServerUserPacket::ErrorNotAuthenticated);
                match packet.encode() {
                    Ok(bytes) => {
                        actions.push(SessionAction::Send(bytes));
                    },
                    Err(_e) => {
                        // payload-free packets always frame
                        proof {
                            assert(false);
                        }
                    },
                }
                return actions;
            },
        };
        match u {
            ClientUserPacket::GetUsername => {
                match auth.get_user(GetUser { uid }) {
                    Ok(name) => {
                        let ghost gn = name@;
                        let packet = ServerPacket::User(
                            ServerUserPacket::UsernameResp { username: name },
                        );
                        match packet.encode() {
                            Ok(bytes) => {
                                actions.push(SessionAction::Send(bytes));
                                proof {
                                    assert(sends(
                                        actions@,
                                        ServerPacketS::User(
                                            ServerUserPacketS::UsernameResp { username: gn },
                                        ),
                                    ));
                                }
                            },
                            Err(_e) => {
                                // a stored name too long to frame closes the
                                // connection as an internal failure
                                self.state = AuthState::Closed;
                                actions.push(SessionAction::Close(CloseCode::Error));
                                proof {
                                    assert(actions@ =~= seq![
                                        SessionAction::Close(CloseCode::Error),
                                    ]);
                                }
                            },
                        }
                    },
                    Err(_f) => {
                        let packet = ServerPacket::User(ServerUserPacket::ErrorNotAuthenticated);
                        match packet.encode() {
                            Ok(bytes) => {
                                actions.push(SessionAction::Send(bytes));
                            },
                            Err(_e) => {
                                // payload-free packets always frame
                                proof {
                                    assert(false);
                                }
                            },
                        }
                    },
                }
            },
            _ => {
                self.state = AuthState::Closed;
                actions.push(SessionAction::Close(CloseCode::Protocol));
                proof {
                    assert(actions@ =~= seq![SessionAction::Close(CloseCode::Protocol)]);
                }
            },
        }
        actions
    }
}

/// Username-enumeration protection: whatever the cause of a failed login
/// (no such user, or a wrong password), the step relation allows only one
/// response, and two failed attempts put the very same bytes on the wire.
pub proof fn lemma_login_failures_indistinguishable(
    pre1: AuthState,
    pre2: AuthState,
    users0: Map<Seq<char>, (u64, Seq<char>)>,
    u1: Seq<char>,
    p1: Seq<char>,
    u2: Seq<char>,
    p2: Seq<char>,
    post1: AuthState,
    users1: Map<Seq<char>, (u64, Seq<char>)>,
    a1: Seq<SessionAction>,
    post2: AuthState,
    users2: Map<Seq<char>, (u64, Seq<char>)>,
    a2: Seq<SessionAction>,
)
    requires
        session_dispatch(
            pre1,
            users0,
            ClientPacketS::Authentication(
                crate::protocol::authentication::ClientAuthenticationPacketS::Login {
                    username: u1,
                    password: p1,
                },
            ),
            post1,
            users1,
            a1,
        ),
        !(users0.contains_key(u1) && bcrypt_verifies(p1, users0[u1].1)),
        session_dispatch(
            pre2,
            users0,
            ClientPacketS::Authentication(
                crate::protocol::authentication::ClientAuthenticationPacketS::Login {
                    username: u2,
                    password: p2,
                },
            ),
            post2,
            users2,
            a2,
        ),
        !(users0.contains_key(u2) && bcrypt_verifies(p2, users0[u2].1)),
    ensures
        post1 == pre1 && post2 == pre2,
        a1.len() == 1 && a2.len() == 1,
        a1[0] matches SessionAction::Send(v1) && (a2[0] matches SessionAction::Send(v2) && v1@
            == v2@),
{
    let failure = ServerPacketS::Authentication(
        ServerAuthenticationPacketS::LoginFailedInvalidUsernameWrongPassword,
    );
    assert(sends(a1, failure));
    assert(sends(a2, failure));
}

} // verus!
