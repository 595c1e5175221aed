//! The server side of one WebSocket connection, as a state machine: the application hands in
//! what arrived (a command, a frame, the outcome of outside work) and performs the actions
//! that come back, in their order.
//!
//! The handshake: the server has sent a salt and its ephemeral public key; the client answers
//! with its public key (hexadecimal) and a proof. The server decodes the key, derives the
//! shared secret (outside work), computes the proof it expects, and compares.
use vstd::prelude::*;
use vstd::utf8::encode_utf8;

use crate::hex::{decode_hex, hex_to_bytes};

verus! {

/// The terminal width used when the client gives none.
pub const DEFAULT_COLS: u16 = 80;

/// The terminal height used when the client gives none.
pub const DEFAULT_ROWS: u16 = 24;

/// A command that a client sends as a JSON text frame.
#[derive(Debug, PartialEq, Eq)]
pub enum ClientCommand {
    /// The answer to the authentication challenge, optionally naming a session to attach.
    AuthResponse {
        public_key: String,
        proof: String,
        session: Option<String>,
        cols: Option<u16>,
        rows: Option<u16>,
    },
    /// The client's terminal changed size.
    Resize { cols: u16, rows: u16 },
    /// Asks for the base sessions.
    ListSessions,
    /// Attaches to a base session (created if it does not exist).
    Attach { session: String, cols: Option<u16>, rows: Option<u16> },
    /// Asks for the administration status.
    AdminGetStatus,
    /// Sets a new access password.
    AdminChangePassword { new_password: String },
    /// Lifts the ban of an address.
    AdminUnbanIp { ip: String },
}

/// What happened on the connection.
#[derive(Debug, PartialEq, Eq)]
pub enum Event {
    /// A text frame that holds a command.
    Command(ClientCommand),
    /// A text frame that holds no command.
    Unparsable,
    /// A binary frame: keystrokes for the terminal.
    Binary(Vec<u8>),
    /// Any other frame.
    OtherFrame,
    /// The proof the server expects, computed from the shared secret; `None` when the shared
    /// secret could not be derived.
    ProofComputed(Option<String>),
    /// The outcome of an attach: the name of the per-client session, or `None` on failure.
    Attached(Option<String>),
    /// The connection ended, or reading from it failed.
    Closed,
}

/// What the application is to do, in order.
#[derive(Debug, PartialEq, Eq)]
pub enum Action {
    /// Derive the shared secret from this client public key, compute the expected proof and
    /// report it with `Event::ProofComputed`.
    DeriveSecret { client_public_key: Vec<u8> },
    SendAuthOk,
    SendAuthFail,
    /// List the base sessions and send the list.
    SendSessionList,
    /// Send the administration status.
    SendAdminStatus,
    SendPasswordChanged,
    /// Count a successful authentication for the client's address.
    RecordSuccess,
    /// Count a failed authentication for the client's address.
    RecordFailure,
    /// Add this connection to the active connections.
    RegisterConnection,
    /// Remove this connection from the active connections.
    UnregisterConnection,
    /// Attach the client to a base session and report it with `Event::Attached`.
    Attach { session: String, cols: u16, rows: u16 },
    /// Kill a per-client tmux session.
    KillSession { name: String },
    /// Resize the terminal.
    ResizePty { cols: u16, rows: u16 },
    /// Write keystrokes to the terminal.
    WritePty { data: Vec<u8> },
    /// Replace the access password and persist it.
    SetPassword { password: String },
    /// Lift the ban of an address.
    UnbanIp { ip: String },
    /// Close the WebSocket.
    CloseSocket,
    /// Stop handling this connection at once, without the clean-up of `Closed`.
    Exit,
}

/// The mathematical value of an `Action`.
pub enum ActionView {
    DeriveSecret(Seq<u8>),
    SendAuthOk,
    SendAuthFail,
    SendSessionList,
    SendAdminStatus,
    SendPasswordChanged,
    RecordSuccess,
    RecordFailure,
    RegisterConnection,
    UnregisterConnection,
    Attach(Seq<char>, u16, u16),
    KillSession(Seq<char>),
    ResizePty(u16, u16),
    WritePty(Seq<u8>),
    SetPassword(Seq<char>),
    UnbanIp(Seq<char>),
    CloseSocket,
    Exit,
}

impl View for Action {
    type V = ActionView;

    open spec fn view(&self) -> ActionView {
        match self {
            Action::DeriveSecret { client_public_key } => ActionView::DeriveSecret(client_public_key@),
            Action::SendAuthOk => ActionView::SendAuthOk,
            Action::SendAuthFail => ActionView::SendAuthFail,
            Action::SendSessionList => ActionView::SendSessionList,
            Action::SendAdminStatus => ActionView::SendAdminStatus,
            Action::SendPasswordChanged => ActionView::SendPasswordChanged,
            Action::RecordSuccess => ActionView::RecordSuccess,
            Action::RecordFailure => ActionView::RecordFailure,
            Action::RegisterConnection => ActionView::RegisterConnection,
            Action::UnregisterConnection => ActionView::UnregisterConnection,
            Action::Attach { session, cols, rows } => ActionView::Attach(session@, *cols, *rows),
            Action::KillSession { name } => ActionView::KillSession(name@),
            Action::ResizePty { cols, rows } => ActionView::ResizePty(*cols, *rows),
            Action::WritePty { data } => ActionView::WritePty(data@),
            Action::SetPassword { password } => ActionView::SetPassword(password@),
            Action::UnbanIp { ip } => ActionView::UnbanIp(ip@),
            Action::CloseSocket => ActionView::CloseSocket,
            Action::Exit => ActionView::Exit,
        }
    }
}

/// An authentication answer waiting for the expected proof.
pub struct PendingAuth {
    pub proof: String,
    pub session: Option<String>,
    pub cols: Option<u16>,
    pub rows: Option<u16>,
}

/// The state of one connection.
pub struct WsSession {
    /// The client has authenticated.
    pub authenticated: bool,
    /// The server's ephemeral private key has not been used yet.
    pub key_available: bool,
    /// An authentication answer whose expected proof is being computed.
    pub pending: Option<PendingAuth>,
    /// The per-client tmux session the client is attached to.
    pub client_session: Option<String>,
    /// The connection is no longer handled.
    pub finished: bool,
}

/// The views of a sequence of actions.
pub open spec fn action_views(a: Seq<Action>) -> Seq<ActionView> {
    a.map_values(|x: Action| x@)
}

/// The state after which nothing more is handled.
pub open spec fn finish(s: WsSession) -> WsSession {
    WsSession { finished: true, ..s }
}

/// The clean-up when the connection ends: kill the per-client session, if any, and leave the
/// active connections.
pub open spec fn cleanup_actions(s: WsSession) -> Seq<ActionView> {
    match s.client_session {
        Some(name) => seq![ActionView::KillSession(name@), ActionView::UnregisterConnection],
        None => seq![ActionView::UnregisterConnection],
    }
}

/// The attach that a successful authentication asks for, if the client named a session.
pub open spec fn attach_after_auth(p: PendingAuth) -> Seq<ActionView> {
    match p.session {
        Some(name) => seq![
            ActionView::Attach(
                name@,
                p.cols.unwrap_or(DEFAULT_COLS),
                p.rows.unwrap_or(DEFAULT_ROWS),
            ),
        ],
        None => Seq::empty(),
    }
}

/// The reaction to a command.
pub open spec fn command_step(s: WsSession, c: ClientCommand) -> (WsSession, Seq<ActionView>) {
    match c {
        ClientCommand::AuthResponse { public_key, proof, session, cols, rows } => {
            match decode_hex(encode_utf8(public_key@)) {
                Err(_) => (finish(s), seq![ActionView::SendAuthFail, ActionView::Exit]),
                Ok(key) => if !s.key_available {
                    (finish(s), seq![ActionView::SendAuthFail, ActionView::Exit])
                } else {
                    (
                        WsSession {
                            key_available: false,
                            pending: Some(PendingAuth { proof, session, cols, rows }),
                            ..s
                        },
                        seq![ActionView::DeriveSecret(key)],
                    )
                },
            }
        },
        _ => if !s.authenticated {
            (finish(s), seq![ActionView::Exit])
        } else {
            match c {
                ClientCommand::ListSessions => (s, seq![ActionView::SendSessionList]),
                ClientCommand::Attach { session, cols, rows } => {
                    let attach = ActionView::Attach(
                        session@,
                        cols.unwrap_or(DEFAULT_COLS),
                        rows.unwrap_or(DEFAULT_ROWS),
                    );
                    match s.client_session {
                        Some(prev) => (s, seq![ActionView::KillSession(prev@), attach]),
                        None => (s, seq![attach]),
                    }
                },
                ClientCommand::Resize { cols, rows } => if s.client_session is Some {
                    (s, seq![ActionView::ResizePty(cols, rows)])
                } else {
                    (s, Seq::empty())
                },
                ClientCommand::AdminGetStatus => (s, seq![ActionView::SendAdminStatus]),
                ClientCommand::AdminChangePassword { new_password } => (
                    s,
                    seq![
                        ActionView::SetPassword(new_password@),
                        ActionView::SendPasswordChanged,
                        ActionView::SendAdminStatus,
                    ],
                ),
                ClientCommand::AdminUnbanIp { ip } => (
                    s,
                    seq![ActionView::UnbanIp(ip@), ActionView::SendAdminStatus],
                ),
                _ => (s, Seq::empty()),
            }
        },
    }
}

/// One step of the connection: the next state and the actions, in order.
pub open spec fn session_step(s: WsSession, e: Event) -> (WsSession, Seq<ActionView>) {
    if s.finished {
        (s, Seq::empty())
    } else {
        match e {
            Event::Command(c) => command_step(s, c),
            Event::Unparsable => (s, Seq::empty()),
            Event::OtherFrame => (s, Seq::empty()),
            Event::Binary(data) => if s.authenticated && s.client_session is Some {
                (s, seq![ActionView::WritePty(data@)])
            } else {
                (s, Seq::empty())
            },
            Event::ProofComputed(expected) => match s.pending {
                None => (s, Seq::empty()),
                Some(p) => {
                    let s1 = WsSession { pending: None, ..s };
                    match expected {
                        None => (finish(s1), seq![ActionView::SendAuthFail, ActionView::Exit]),
                        Some(x) => if x@ == p.proof@ {
                            (
                                WsSession { authenticated: true, ..s1 },
                                seq![
                                    ActionView::RecordSuccess,
                                    ActionView::RegisterConnection,
                                    ActionView::SendAuthOk,
                                ] + attach_after_auth(p),
                            )
                        } else {
                            (
                                finish(s1),
                                seq![
                                    ActionView::RecordFailure,
                                    ActionView::SendAuthFail,
                                    ActionView::CloseSocket,
                                    ActionView::Exit,
                                ],
                            )
                        },
                    }
                },
            },
            Event::Attached(r) => match r {
                Some(name) => (WsSession { client_session: Some(name), ..s }, Seq::empty()),
                None => (s, Seq::empty()),
            },
            Event::Closed => (finish(s), cleanup_actions(s)),
        }
    }
}

impl WsSession {
    /// A fresh connection: not authenticated, its key unused, no session attached.
    pub fn new() -> (s: Self)
        ensures
            !s.authenticated,
            s.key_available,
            s.pending is None,
            s.client_session is None,
            !s.finished,
    {
        WsSession {
            authenticated: false,
            key_available: true,
            pending: None,
            client_session: None,
            finished: false,
        }
    }
}

/// Handles one event: updates the state and returns the actions, in order.
pub fn handle_event(s: &mut WsSession, e: Event) -> (actions: Vec<Action>)
    ensures
        (*final(s), action_views(actions@)) == session_step(*old(s), e),
{
    let mut actions: Vec<Action> = Vec::new();
    if s.finished {
        assert(action_views(actions@) =~= Seq::<ActionView>::empty());
        return actions;
    }
    match e {
        Event::Command(c) => {
            return handle_command(s, c);
        },
        Event::Unparsable => {},
        Event::OtherFrame => {},
        Event::Binary(data) => {
            if s.authenticated && s.client_session.is_some() {
                actions.push(Action::WritePty { data });
            }
        },
        Event::ProofComputed(expected) => {
            let pending = s.pending.take();
            match pending {
                None => {},
                Some(p) => {
                    match expected {
                        None => {
                            s.finished = true;
                            actions.push(Action::SendAuthFail);
                            actions.push(Action::Exit);
                        },
                        Some(x) => {
                            if x == p.proof {
                                s.authenticated = true;
                                actions.push(Action::RecordSuccess);
                                actions.push(Action::RegisterConnection);
                                actions.push(Action::SendAuthOk);
                                match p.session {
                                    Some(name) => {
                                        let cols = match p.cols {
                                            Some(c) => c,
                                            None => DEFAULT_COLS,
                                        };
                                        let rows = match p.rows {
                                            Some(r) => r,
                                            None => DEFAULT_ROWS,
                                        };
                                        actions.push(Action::Attach { session: name, cols, rows });
                                    },
                                    None => {},
                                }
                            } else {
                                s.finished = true;
                                actions.push(Action::RecordFailure);
                                actions.push(Action::SendAuthFail);
                                actions.push(Action::CloseSocket);
                                actions.push(Action::Exit);
                            }
                        },
                    }
                },
            }
        },
        Event::Attached(r) => {
            match r {
                Some(name) => {
                    s.client_session = Some(name);
                },
                None => {},
            }
        },
        Event::Closed => {
            match &s.client_session {
                Some(name) => {
                    actions.push(Action::KillSession { name: name.clone() });
                },
                None => {},
            }
            actions.push(Action::UnregisterConnection);
            s.finished = true;
        },
    }
    assert(action_views(actions@) =~= session_step(*old(s), e).1);
    actions
}

/// Handles a command (see `command_step`).
fn handle_command(s: &mut WsSession, c: ClientCommand) -> (actions: Vec<Action>)
    requires
        !old(s).finished,
    ensures
        (*final(s), action_views(actions@)) == command_step(*old(s), c),
{
    let mut actions: Vec<Action> = Vec::new();
    match c {
        ClientCommand::AuthResponse { public_key, proof, session, cols, rows } => {
            match hex_to_bytes(public_key.as_str()) {
                Err(_) => {
                    s.finished = true;
                    actions.push(Action::SendAuthFail);
                    actions.push(Action::Exit);
                },
                Ok(key) => {
                    if !s.key_available {
                        s.finished = true;
                        actions.push(Action::SendAuthFail);
                        actions.push(Action::Exit);
                    } else {
                        s.key_available = false;
                        s.pending = Some(PendingAuth { proof, session, cols, rows });
                        actions.push(Action::DeriveSecret { client_public_key: key });
                    }
                },
            }
            assert(action_views(actions@) =~= command_step(*old(s), ClientCommand::AuthResponse {
                public_key,
                proof,
                session,
                cols,
                rows,
            }).1);
            return actions;
        },
        _ => {},
    }
    if !s.authenticated {
        s.finished = true;
        actions.push(Action::Exit);
        assert(action_views(actions@) =~= command_step(*old(s), c).1);
        return actions;
    }
    match c {
        ClientCommand::ListSessions => {
            actions.push(Action::SendSessionList);
        },
        ClientCommand::Attach { session, cols, rows } => {
            match &s.client_session {
                Some(prev) => {
                    actions.push(Action::KillSession { name: prev.clone() });
                },
                None => {},
            }
            let cols = match cols {
                Some(v) => v,
                None => DEFAULT_COLS,
            };
            let rows = match rows {
                Some(v) => v,
                None => DEFAULT_ROWS,
            };
            actions.push(Action::Attach { session, cols, rows });
        },
        ClientCommand::Resize { cols, rows } => {
            if s.client_session.is_some() {
                actions.push(Action::ResizePty { cols, rows });
            }
        },
        ClientCommand::AdminGetStatus => {
            actions.push(Action::SendAdminStatus);
        },
        ClientCommand::AdminChangePassword { new_password } => {
            actions.push(Action::SetPassword { password: new_password });
            actions.push(Action::SendPasswordChanged);
            actions.push(Action::SendAdminStatus);
        },
        ClientCommand::AdminUnbanIp { ip } => {
            actions.push(Action::UnbanIp { ip });
            actions.push(Action::SendAdminStatus);
        },
        ClientCommand::AuthResponse { .. } => {},
    }
    assert(action_views(actions@) =~= command_step(*old(s), c).1);
    actions
}

} // verus!

verus! {

/// Actions that only an authenticated client may cause.
pub open spec fn is_privileged(a: ActionView) -> bool {
    match a {
        ActionView::SendSessionList => true,
        ActionView::SendAdminStatus => true,
        ActionView::SendPasswordChanged => true,
        ActionView::SetPassword(_) => true,
        ActionView::UnbanIp(_) => true,
        ActionView::Attach(_, _, _) => true,
        ActionView::ResizePty(_, _) => true,
        ActionView::WritePty(_) => true,
        _ => false,
    }
}

/// The event is the expected proof, and it matches the proof the client sent.
pub open spec fn is_matching_proof(s: WsSession, e: Event) -> bool {
    &&& e matches Event::ProofComputed(Some(x))
    &&& s.pending matches Some(p)
    &&& x@ == p.proof@
}

/// Nothing privileged happens for a client that is not authenticated: any privileged action
/// leaves the connection authenticated, and a connection becomes authenticated only when the
/// expected proof matches the proof the client sent.
pub proof fn law_privileged_needs_authentication(s: WsSession, e: Event)
    ensures
        ({
            let (s2, acts) = session_step(s, e);
            &&& (exists|k: int| 0 <= k < acts.len() && is_privileged(#[trigger] acts[k]))
                ==> s2.authenticated
            &&& (!s.authenticated && s2.authenticated) ==> is_matching_proof(s, e)
            &&& s.authenticated ==> s2.authenticated
        }),
{
    let (s2, acts) = session_step(s, e);
    if exists|k: int| 0 <= k < acts.len() && is_privileged(#[trigger] acts[k]) {
        let k = choose|k: int| 0 <= k < acts.len() && is_privileged(#[trigger] acts[k]);
        assert(is_privileged(acts[k]));
        if !s.finished {
            match e {
                Event::ProofComputed(expected) => {
                    match s.pending {
                        Some(p) => {
                            match expected {
                                Some(x) => {
                                    if x@ != p.proof@ {
                                        assert(!is_privileged(acts[k]));
                                    }
                                },
                                None => {
                                    assert(!is_privileged(acts[k]));
                                },
                            }
                        },
                        None => {},
                    }
                },
                Event::Command(c) => {
                    match c {
                        ClientCommand::AuthResponse { public_key, .. } => {
                            match decode_hex(encode_utf8(public_key@)) {
                                Ok(_) => {
                                    if s.key_available {
                                        assert(acts[k] matches ActionView::DeriveSecret(_));
                                    }
                                },
                                Err(_) => {},
                            }
                        },
                        _ => {},
                    }
                },
                _ => {},
            }
        }
    }
}

/// The server's key serves one authentication only: once it is used, an authentication
/// answer is refused and the connection dropped.
pub proof fn law_key_single_use(s: WsSession, c: ClientCommand)
    requires
        !s.finished,
        !s.key_available,
        c is AuthResponse,
    ensures
        session_step(s, Event::Command(c)).1 == seq![ActionView::SendAuthFail, ActionView::Exit],
        session_step(s, Event::Command(c)).0.finished,
        !session_step(s, Event::Command(c)).0.key_available,
{
}

/// A wrong proof is counted as a failure, answered with a refusal, and ends the connection.
pub proof fn law_wrong_proof_rejected(s: WsSession, x: String)
    requires
        !s.finished,
        !s.authenticated,
        s.pending matches Some(p) && x@ != p.proof@,
    ensures
        session_step(s, Event::ProofComputed(Some(x))).1 == seq![
            ActionView::RecordFailure,
            ActionView::SendAuthFail,
            ActionView::CloseSocket,
            ActionView::Exit,
        ],
        !session_step(s, Event::ProofComputed(Some(x))).0.authenticated,
        session_step(s, Event::ProofComputed(Some(x))).0.finished,
{
}

/// A client that is not authenticated and sends any command but an authentication answer is
/// dropped at once, and nothing else happens.
pub proof fn law_unauthenticated_command_dropped(s: WsSession, c: ClientCommand)
    requires
        !s.finished,
        !s.authenticated,
        !(c is AuthResponse),
    ensures
        session_step(s, Event::Command(c)).1 == seq![ActionView::Exit],
        session_step(s, Event::Command(c)).0.finished,
{
}

/// Once a connection is finished, nothing it receives has any effect.
pub proof fn law_finished_is_inert(s: WsSession, e: Event)
    requires
        s.finished,
    ensures
        session_step(s, e).1.len() == 0,
        session_step(s, e).0 == s,
{
}

/// When a connection ends, the client's session is killed and the connection leaves the
/// active connections.
pub proof fn law_close_cleans_up(s: WsSession)
    requires
        !s.finished,
    ensures
        session_step(s, Event::Closed).1.contains(ActionView::UnregisterConnection),
        s.client_session matches Some(name) ==> session_step(s, Event::Closed).1.contains(
            ActionView::KillSession(name@),
        ),
        session_step(s, Event::Closed).0.finished,
{
    let acts = session_step(s, Event::Closed).1;
    match s.client_session {
        Some(name) => {
            assert(acts[0] == ActionView::KillSession(name@));
            assert(acts[1] == ActionView::UnregisterConnection);
        },
        None => {
            assert(acts[0] == ActionView::UnregisterConnection);
        },
    }
}

} // verus!

verus! {

/// A connection as it starts.
pub open spec fn fresh_session() -> WsSession {
    WsSession {
        authenticated: false,
        key_available: true,
        pending: None,
        client_session: None,
        finished: false,
    }
}

/// A client that answers the challenge with a well-formed public key and the proof the server
/// expects gets in: the server accepts it, records the success, registers the connection,
/// and attaches the session the client named, if any.
pub proof fn law_matching_proof_authenticates(
    public_key: String,
    proof: String,
    session: Option<String>,
    cols: Option<u16>,
    rows: Option<u16>,
    expected: String,
)
    requires
        decode_hex(encode_utf8(public_key@)) is Ok,
        expected@ == proof@,
    ensures
        ({
            let c = ClientCommand::AuthResponse { public_key, proof, session, cols, rows };
            let (s1, a1) = session_step(fresh_session(), Event::Command(c));
            let (s2, a2) = session_step(s1, Event::ProofComputed(Some(expected)));
            &&& a1 == seq![ActionView::DeriveSecret(decode_hex(encode_utf8(public_key@))->Ok_0)]
            &&& s2.authenticated
            &&& !s2.finished
            &&& a2 == seq![
                ActionView::RecordSuccess,
                ActionView::RegisterConnection,
                ActionView::SendAuthOk,
            ] + attach_after_auth(PendingAuth { proof, session, cols, rows })
        }),
{
}

/// The terminal size the server uses for a size the client may have left out: the size it
/// sent, or 80 columns and 24 rows.
pub open spec fn size_or(given: Option<u16>, default: u16) -> u16 {
    match given {
        Some(x) => x,
        None => default,
    }
}

/// After a matching proof, the session the client named in its answer is attached at the
/// terminal size it sent there (80 columns, 24 rows for what it left out), after the success
/// is recorded, the connection registered and the client told; without a named session
/// nothing is attached.
pub proof fn law_auth_attaches_requested_size(s: WsSession, x: String)
    requires
        !s.finished,
        s.pending matches Some(p) && x@ == p.proof@,
    ensures
        ({
            let acts = session_step(s, Event::ProofComputed(Some(x)));
            let p = s.pending->0;
            &&& acts.1.take(3) == seq![
                ActionView::RecordSuccess,
                ActionView::RegisterConnection,
                ActionView::SendAuthOk,
            ]
            &&& p.session matches Some(name) ==> acts.1.len() == 4 && acts.1[3] == ActionView::Attach(
                name@,
                size_or(p.cols, 80),
                size_or(p.rows, 24),
            )
            &&& p.session is None ==> acts.1.len() == 3
            &&& acts.0.authenticated
        }),
{
    let acts = session_step(s, Event::ProofComputed(Some(x))).1;
    assert(acts.take(3) =~= seq![
        ActionView::RecordSuccess,
        ActionView::RegisterConnection,
        ActionView::SendAuthOk,
    ]);
}

/// An authenticated client that attaches to a session gets it at the terminal size it sent
/// (80 columns, 24 rows for what it left out); a session it was attached to before is killed
/// first.
pub proof fn law_attach_uses_requested_size(
    s: WsSession,
    session: String,
    cols: Option<u16>,
    rows: Option<u16>,
)
    requires
        !s.finished,
        s.authenticated,
    ensures
        ({
            let acts = session_step(s, Event::Command(ClientCommand::Attach { session, cols, rows })).1;
            &&& acts.last() == ActionView::Attach(session@, size_or(cols, 80), size_or(rows, 24))
            &&& s.client_session matches Some(prev) ==> acts == seq![
                ActionView::KillSession(prev@),
                acts.last(),
            ]
            &&& s.client_session is None ==> acts.len() == 1
        }),
{
}

/// An authenticated client attached to a session that reports a new terminal size gets its
/// terminal resized to exactly that size; without a session nothing happens.
pub proof fn law_resize_uses_reported_size(s: WsSession, cols: u16, rows: u16)
    requires
        !s.finished,
        s.authenticated,
    ensures
        s.client_session is Some ==> session_step(s, Event::Command(ClientCommand::Resize { cols, rows })).1
            == seq![ActionView::ResizePty(cols, rows)],
        s.client_session is None ==> session_step(
            s,
            Event::Command(ClientCommand::Resize { cols, rows }),
        ).1.len() == 0,
{
}

/// An authenticated client's commands act on exactly what it sent: a new password is set to
/// the password it gave and the panel refreshed, an unban lifts the address it named, a
/// listing is answered with the sessions, and keystrokes reach its terminal unchanged.
pub proof fn law_commands_carry_their_values(s: WsSession, password: String, ip: String, data: Vec<u8>)
    requires
        !s.finished,
        s.authenticated,
    ensures
        session_step(s, Event::Command(ClientCommand::AdminChangePassword { new_password: password })).1
            == seq![
            ActionView::SetPassword(password@),
            ActionView::SendPasswordChanged,
            ActionView::SendAdminStatus,
        ],
        session_step(s, Event::Command(ClientCommand::AdminUnbanIp { ip })).1 == seq![
            ActionView::UnbanIp(ip@),
            ActionView::SendAdminStatus,
        ],
        session_step(s, Event::Command(ClientCommand::ListSessions)).1 == seq![
            ActionView::SendSessionList,
        ],
        s.client_session is Some ==> session_step(s, Event::Binary(data)).1 == seq![
            ActionView::WritePty(data@),
        ],
        s.client_session is None ==> session_step(s, Event::Binary(data)).1.len() == 0,
{
}

} // verus!
