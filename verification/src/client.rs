//! The client's decisions: reading the server's replies during the handshake, picking a
//! session in the selector, and watching keystrokes for the detach sequence (Ctrl-G, then D).
use vstd::prelude::*;

use vstd::string::StringSliceAdditionalSpecFns;

use crate::auth::{
    agreed_proof, new_key_pair, proof_over_agreement, KeyExchangeError, DIGEST_INPUT_END,
    PUBLIC_KEY_LEN, SHARED_SECRET_LEN, UNCOMPRESSED_TAG,
};
use crate::hex::{bytes_to_hex, decode_hex, hex_encode, hex_to_bytes};
use crate::server_session::ClientCommand;
use crate::sessions::string_views;
use crate::text::{string_from_chars, trim, trim_chars};

verus! {

// ---------------------------------------------------------------------------
// Detach sequence
// ---------------------------------------------------------------------------

/// The byte that Ctrl-G sends.
pub const CTRL_G: u8 = 7;

/// Whether the last keystroke was a Ctrl-G that still waits for the next one.
pub struct InputState {
    pub ctrl_g_pressed: bool,
}

/// One byte of input: the new state, the bytes to forward, and whether the client detaches.
/// After Ctrl-G, `d` or `D` detaches, another Ctrl-G forwards one Ctrl-G, and any other byte
/// forwards the Ctrl-G and that byte.
pub open spec fn input_step(pressed: bool, b: u8) -> (bool, Seq<u8>, bool) {
    if pressed {
        if b == 100 || b == 68 {
            (false, Seq::empty(), true)
        } else if b == CTRL_G {
            (false, seq![CTRL_G], false)
        } else {
            (false, seq![CTRL_G, b], false)
        }
    } else if b == CTRL_G {
        (true, Seq::empty(), false)
    } else {
        (false, seq![b], false)
    }
}

/// A run of input bytes: the new state, the bytes to forward, and whether the client
/// detaches (the bytes after the detach sequence are dropped).
pub open spec fn filter_input_spec(pressed: bool, bytes: Seq<u8>) -> (bool, Seq<u8>, bool)
    decreases bytes.len(),
{
    if bytes.len() == 0 {
        (pressed, Seq::empty(), false)
    } else {
        let (p, out, detach) = filter_input_spec(pressed, bytes.drop_last());
        if detach {
            (p, out, true)
        } else {
            let (p2, more, d2) = input_step(p, bytes.last());
            (p2, out + more, d2)
        }
    }
}

/// Filters a read of keystrokes: returns the bytes to forward and whether to detach.
pub fn filter_input(state: &mut InputState, bytes: &[u8]) -> (r: (Vec<u8>, bool))
    ensures
        filter_input_spec(old(state).ctrl_g_pressed, bytes@) == (final(state).ctrl_g_pressed, r.0@, r.1),
{
    let mut out: Vec<u8> = Vec::new();
    let mut detach = false;
    let mut i: usize = 0;
    let ghost start = state.ctrl_g_pressed;
    while i < bytes.len() && !detach
        invariant
            i <= bytes@.len(),
            filter_input_spec(start, bytes@.take(i as int)) == (state.ctrl_g_pressed, out@, detach),
        decreases bytes@.len() - i,
    {
        let b = bytes[i];
        proof {
            assert(bytes@.take(i + 1).drop_last() =~= bytes@.take(i as int));
            assert(bytes@.take(i + 1).last() == b);
        }
        let ghost before = out@;
        if state.ctrl_g_pressed {
            state.ctrl_g_pressed = false;
            if b == 100 || b == 68 {
                detach = true;
            } else if b == CTRL_G {
                out.push(CTRL_G);
            } else {
                out.push(CTRL_G);
                out.push(b);
            }
        } else if b == CTRL_G {
            state.ctrl_g_pressed = true;
        } else {
            out.push(b);
        }
        proof {
            assert(out@ =~= before + input_step(filter_input_spec(start, bytes@.take(i as int)).0, b).1);
        }
        i = i + 1;
    }
    proof {
        if detach {
            lemma_detach_sticks(start, bytes@, i as int);
        } else {
            assert(bytes@.take(bytes@.len() as int) =~= bytes@);
        }
    }
    (out, detach)
}

proof fn lemma_detach_sticks(pressed: bool, bytes: Seq<u8>, k: int)
    requires
        0 <= k <= bytes.len(),
        filter_input_spec(pressed, bytes.take(k)).2,
    ensures
        filter_input_spec(pressed, bytes) == filter_input_spec(pressed, bytes.take(k)),
    decreases bytes.len() - k,
{
    if k < bytes.len() {
        assert(bytes.take(k + 1).take(k) =~= bytes.take(k));
        lemma_detach_sticks_step(pressed, bytes.take(k + 1), k);
        lemma_detach_sticks(pressed, bytes, k + 1);
    } else {
        assert(bytes.take(k) =~= bytes);
    }
}

proof fn lemma_detach_sticks_step(pressed: bool, bytes: Seq<u8>, k: int)
    requires
        0 <= k,
        k + 1 == bytes.len(),
        filter_input_spec(pressed, bytes.take(k)).2,
    ensures
        filter_input_spec(pressed, bytes) == filter_input_spec(pressed, bytes.take(k)),
{
    assert(bytes.drop_last() =~= bytes.take(k));
    let (p, out, detach) = filter_input_spec(pressed, bytes.drop_last());
    assert(detach);
}

} // verus!

verus! {

/// Input without Ctrl-G is forwarded unchanged.
pub proof fn law_plain_input_forwarded(bytes: Seq<u8>)
    requires
        forall|i: int| 0 <= i < bytes.len() ==> bytes[i] != CTRL_G,
    ensures
        filter_input_spec(false, bytes) == (false, bytes, false),
    decreases bytes.len(),
{
    if bytes.len() > 0 {
        let p = bytes.drop_last();
        law_plain_input_forwarded(p);
        assert(p.push(bytes.last()) =~= bytes);
        assert(p + seq![bytes.last()] =~= bytes);
    }
}

/// Ctrl-G followed by `d` detaches and forwards nothing; Ctrl-G twice forwards one Ctrl-G.
pub proof fn law_detach_sequence()
    ensures
        filter_input_spec(false, seq![CTRL_G, 100u8]) == (false, Seq::<u8>::empty(), true),
        filter_input_spec(false, seq![CTRL_G, 68u8]) == (false, Seq::<u8>::empty(), true),
        filter_input_spec(false, seq![CTRL_G, CTRL_G]) == (false, seq![CTRL_G], false),
{
    let a = seq![CTRL_G, 100u8];
    assert(a.drop_last() =~= seq![CTRL_G]);
    assert(seq![CTRL_G].drop_last() =~= Seq::<u8>::empty());
    assert(Seq::<u8>::empty() + Seq::<u8>::empty() =~= Seq::<u8>::empty());
    assert(filter_input_spec(false, Seq::<u8>::empty()) == (false, Seq::<u8>::empty(), false));
    assert(filter_input_spec(false, seq![CTRL_G]) == (true, Seq::<u8>::empty(), false));
    let b = seq![CTRL_G, 68u8];
    assert(b.drop_last() =~= seq![CTRL_G]);
    let c = seq![CTRL_G, CTRL_G];
    assert(c.drop_last() =~= seq![CTRL_G]);
    assert(Seq::<u8>::empty() + seq![CTRL_G] =~= seq![CTRL_G]);
}

/// Keystrokes may arrive in pieces: filtering two reads one after the other, carrying the
/// state, gives what filtering them as one read gives (unless the first one detached).
pub proof fn law_input_split_reads(pressed: bool, a: Seq<u8>, b: Seq<u8>)
    requires
        !filter_input_spec(pressed, a).2,
    ensures
        ({
            let (p1, out1, _) = filter_input_spec(pressed, a);
            let (p2, out2, d2) = filter_input_spec(p1, b);
            filter_input_spec(pressed, a + b) == (p2, out1 + out2, d2)
        }),
    decreases b.len(),
{
    let (p1, out1, _) = filter_input_spec(pressed, a);
    if b.len() == 0 {
        assert(a + b =~= a);
        assert(out1 + Seq::<u8>::empty() =~= out1);
    } else {
        let bp = b.drop_last();
        law_input_split_reads(pressed, a, bp);
        assert((a + b).drop_last() =~= a + bp);
        assert((a + b).last() == b.last());
        let (q, o, d) = filter_input_spec(p1, bp);
        if !d {
            let (q2, more, d2) = input_step(q, b.last());
            assert(out1 + o + more =~= out1 + (o + more));
        }
    }
}

} // verus!

verus! {

// ---------------------------------------------------------------------------
// Replies of the server during the handshake
// ---------------------------------------------------------------------------

/// A reply of the server, as the client reads it.
#[derive(Debug, PartialEq, Eq)]
pub enum ServerMessage {
    AuthChallenge { salt: String, public_key: String },
    AuthOk,
    AuthFail,
    SessionsList { sessions: Vec<String> },
}

/// Why the client gives up during the handshake.
#[derive(Debug, Clone, Copy, PartialEq, Eq, Structural)]
pub enum ClientError {
    /// The connection ended, or a non-text frame came, before the challenge.
    ClosedDuringChallenge,
    /// The first reply was not the challenge.
    UnexpectedChallengeReply,
    /// The server's public key is not hexadecimal.
    InvalidServerKey,
    /// The connection ended, or a non-text frame came, before the authentication reply.
    ClosedDuringAuth,
    /// The authentication reply was neither success nor failure.
    InvalidAuthResponse,
    /// The client's key pair or the key agreement failed.
    KeyExchange(KeyExchangeError),
}

impl ClientError {
    /// The message that reports this error.
    pub fn message(&self) -> (s: String)
        ensures
            s@ == client_error_message(*self),
    {
        match self {
            ClientError::ClosedDuringChallenge => "Connection closed by server during challenge phase.".to_owned(),
            ClientError::UnexpectedChallengeReply => "Expected auth_challenge, got another response".to_owned(),
            ClientError::InvalidServerKey => "Invalid server public key received".to_owned(),
            ClientError::ClosedDuringAuth => "Connection closed by server during authentication response.".to_owned(),
            ClientError::InvalidAuthResponse => "Invalid authentication response".to_owned(),
            ClientError::KeyExchange(e) => e.message(),
        }
    }
}

/// The message text of each error.
pub open spec fn client_error_message(e: ClientError) -> Seq<char> {
    match e {
        ClientError::ClosedDuringChallenge => "Connection closed by server during challenge phase."@,
        ClientError::UnexpectedChallengeReply => "Expected auth_challenge, got another response"@,
        ClientError::InvalidServerKey => "Invalid server public key received"@,
        ClientError::ClosedDuringAuth => "Connection closed by server during authentication response."@,
        ClientError::InvalidAuthResponse => "Invalid authentication response"@,
        ClientError::KeyExchange(e) => crate::auth::key_exchange_message(e),
    }
}

/// The salt and the server's public key (hexadecimal) from the first reply; `None` stands for
/// a closed connection or a frame that is not text.
pub fn expect_challenge(reply: Option<ServerMessage>) -> (r: Result<(String, String), ClientError>)
    ensures
        match reply {
            Some(ServerMessage::AuthChallenge { salt, public_key }) => r == Ok::<
                (String, String),
                ClientError,
            >((salt, public_key)),
            Some(_) => r == Err::<(String, String), ClientError>(ClientError::UnexpectedChallengeReply),
            None => r == Err::<(String, String), ClientError>(ClientError::ClosedDuringChallenge),
        },
{
    match reply {
        Some(ServerMessage::AuthChallenge { salt, public_key }) => Ok((salt, public_key)),
        Some(_) => Err(ClientError::UnexpectedChallengeReply),
        None => Err(ClientError::ClosedDuringChallenge),
    }
}

/// The server's public key as bytes.
pub fn server_key_bytes(public_key_hex: &str) -> (r: Result<Vec<u8>, ClientError>)
    ensures
        match r {
            Ok(v) => decode_hex(public_key_hex.spec_bytes()) == Ok::<Seq<u8>, crate::hex::HexError>(v@),
            Err(e) => e == ClientError::InvalidServerKey && decode_hex(public_key_hex.spec_bytes()) is Err,
        },
{
    match hex_to_bytes(public_key_hex) {
        Ok(v) => Ok(v),
        Err(_) => Err(ClientError::InvalidServerKey),
    }
}

/// The answer that a client with public key `key` gives to a challenge whose server key reads
/// `server_key_text`: the server key that is not hexadecimal is refused; a server key that
/// `key` agrees on no secret with fails the agreement; otherwise the answer carries `key` in
/// hexadecimal, the proof of the password over the agreed secret and the salt, the session and
/// the terminal size.
pub open spec fn is_answer(
    r: Result<ClientCommand, ClientError>,
    key: Seq<u8>,
    password: Seq<u8>,
    salt: Seq<u8>,
    server_key_text: Seq<u8>,
    session: Option<String>,
    cols: u16,
    rows: u16,
) -> bool {
    match decode_hex(server_key_text) {
        Err(_) => r == Err::<ClientCommand, ClientError>(ClientError::InvalidServerKey),
        Ok(server_key) => match proof_over_agreement(password, key, server_key, salt) {
            None => r == Err::<ClientCommand, ClientError>(
                ClientError::KeyExchange(KeyExchangeError::Agreement),
            ),
            Some(p) => {
                &&& r matches Ok(ClientCommand::AuthResponse { public_key, proof, session: s, cols: c1, rows: r1 })
                &&& public_key@ == hex_encode(key)
                &&& proof@ == p
                &&& s == session
                &&& c1 == Some(cols)
                &&& r1 == Some(rows)
            },
        },
    }
}

/// The client's answer to the challenge (salt and the server's public key in hexadecimal).
/// A fresh key pair is made first (which may fail, `KeyExchange`); then the answer is the one
/// that `is_answer` gives for its public key: the server's key decoded (`InvalidServerKey`
/// when it is not hexadecimal), the secret agreed with it, and the proof over that secret.
pub fn answer_challenge(
    password: &str,
    salt: &str,
    server_public_key_hex: &str,
    session: Option<String>,
    cols: u16,
    rows: u16,
) -> (r: Result<ClientCommand, ClientError>)
    requires
        password.spec_bytes().len() + SHARED_SECRET_LEN + salt.spec_bytes().len() < DIGEST_INPUT_END,
        password.spec_bytes().len() + SHARED_SECRET_LEN + salt.spec_bytes().len() <= usize::MAX,
    ensures
        (r == Err::<ClientCommand, ClientError>(ClientError::KeyExchange(KeyExchangeError::KeyGeneration))
            || r == Err::<ClientCommand, ClientError>(ClientError::KeyExchange(KeyExchangeError::PublicKey)))
            || exists|key: Seq<u8>|
            key.len() == PUBLIC_KEY_LEN && key[0] == UNCOMPRESSED_TAG && #[trigger] is_answer(
                r,
                key,
                password.spec_bytes(),
                salt.spec_bytes(),
                server_public_key_hex.spec_bytes(),
                session,
                cols,
                rows,
            ),
{
    let key_pair = match new_key_pair() {
        Ok(k) => k,
        Err(e) => {
            return Err(ClientError::KeyExchange(e));
        },
    };
    let ghost key = key_pair@;
    let public_key_hex = bytes_to_hex(key_pair.public_key().as_slice());
    let server_key = match server_key_bytes(server_public_key_hex) {
        Ok(k) => k,
        Err(e) => {
            let r = Err(e);
            assert(is_answer(r, key, password.spec_bytes(), salt.spec_bytes(),
                server_public_key_hex.spec_bytes(), session, cols, rows));
            return r;
        },
    };
    let proof = match agreed_proof(key_pair, server_key.as_slice(), password, salt) {
        Ok(p) => p,
        Err(e) => {
            let r = Err(ClientError::KeyExchange(e));
            assert(is_answer(r, key, password.spec_bytes(), salt.spec_bytes(),
                server_public_key_hex.spec_bytes(), session, cols, rows));
            return r;
        },
    };
    let ghost sess = session;
    let r = Ok(ClientCommand::AuthResponse {
        public_key: public_key_hex,
        proof,
        session,
        cols: Some(cols),
        rows: Some(rows),
    });
    assert(is_answer(r, key, password.spec_bytes(), salt.spec_bytes(),
        server_public_key_hex.spec_bytes(), sess, cols, rows));
    r
}

/// Whether the server accepted the password (`Ok(false)`: it refused it).
pub fn auth_outcome(reply: Option<ServerMessage>) -> (r: Result<bool, ClientError>)
    ensures
        match reply {
            Some(ServerMessage::AuthOk) => r == Ok::<bool, ClientError>(true),
            Some(ServerMessage::AuthFail) => r == Ok::<bool, ClientError>(false),
            Some(_) => r == Err::<bool, ClientError>(ClientError::InvalidAuthResponse),
            None => r == Err::<bool, ClientError>(ClientError::ClosedDuringAuth),
        },
{
    match reply {
        Some(ServerMessage::AuthOk) => Ok(true),
        Some(ServerMessage::AuthFail) => Ok(false),
        Some(_) => Err(ClientError::InvalidAuthResponse),
        None => Err(ClientError::ClosedDuringAuth),
    }
}

/// The base sessions from the reply to a session listing; any other reply gives none.
pub fn session_list_from(reply: Option<ServerMessage>) -> (names: Vec<String>)
    ensures
        match reply {
            Some(ServerMessage::SessionsList { sessions }) => names == sessions,
            _ => names@.len() == 0,
        },
{
    match reply {
        Some(ServerMessage::SessionsList { sessions }) => sessions,
        _ => Vec::new(),
    }
}

// ---------------------------------------------------------------------------
// Session selector
// ---------------------------------------------------------------------------

/// What the selector shows: the list, or the box for a new session name.
#[derive(Debug, Clone, Copy, PartialEq, Eq, Structural)]
pub enum SelectorMode {
    Select,
    NewSessionInput,
}

/// A key press, as far as the selector tells keys apart.
#[derive(Debug, PartialEq, Eq)]
pub enum Key {
    Char(char),
    Up,
    Down,
    Enter,
    Esc,
    Backspace,
    Other,
}

/// What a key press leads to.
#[derive(Debug, PartialEq, Eq)]
pub enum SelectorOutcome {
    Continue,
    Quit,
    Chosen(String),
}

/// The mathematical value of a `SelectorOutcome`.
pub enum OutcomeView {
    Continue,
    Quit,
    Chosen(Seq<char>),
}

impl View for SelectorOutcome {
    type V = OutcomeView;

    open spec fn view(&self) -> OutcomeView {
        match self {
            SelectorOutcome::Continue => OutcomeView::Continue,
            SelectorOutcome::Quit => OutcomeView::Quit,
            SelectorOutcome::Chosen(s) => OutcomeView::Chosen(s@),
        }
    }
}

/// The mathematical value of a `SessionSelector`. The list has one row per session and a
/// last row, at position `sessions.len()`, that creates a new session.
pub struct SelectorView {
    pub sessions: Seq<Seq<char>>,
    pub selected: nat,
    pub mode: SelectorMode,
    pub input: Seq<char>,
}

/// The selector's reaction to a key. In the list, Up and Down move the selection and wrap
/// around, Enter picks the selected row, `N` opens the name box for a new session, `q`, `Q`
/// and Esc quit, and other characters do nothing. In the name box, keys edit the
/// name, Esc goes back to the list, and Enter takes the trimmed name unless it is empty.
pub open spec fn selector_step(v: SelectorView, key: Key) -> (SelectorView, OutcomeView) {
    let n = v.sessions.len();
    match v.mode {
        SelectorMode::Select => match key {
            Key::Char(c) => if c == 'q' || c == 'Q' {
                (v, OutcomeView::Quit)
            } else if c == 'N' {
                (
                    SelectorView { mode: SelectorMode::NewSessionInput, input: Seq::empty(), ..v },
                    OutcomeView::Continue,
                )
            } else {
                (v, OutcomeView::Continue)
            },
            Key::Esc => (v, OutcomeView::Quit),
            Key::Up => (
                SelectorView {
                    selected: if v.selected == 0 {
                        n
                    } else {
                        (v.selected - 1) as nat
                    },
                    ..v
                },
                OutcomeView::Continue,
            ),
            Key::Down => (
                SelectorView {
                    selected: if v.selected >= n {
                        0
                    } else {
                        v.selected + 1
                    },
                    ..v
                },
                OutcomeView::Continue,
            ),
            Key::Enter => if v.selected == n {
                (SelectorView { mode: SelectorMode::NewSessionInput, ..v }, OutcomeView::Continue)
            } else {
                (v, OutcomeView::Chosen(v.sessions[v.selected as int]))
            },
            _ => (v, OutcomeView::Continue),
        },
        SelectorMode::NewSessionInput => match key {
            Key::Esc => (
                SelectorView { mode: SelectorMode::Select, input: Seq::empty(), ..v },
                OutcomeView::Continue,
            ),
            Key::Enter => if trim(v.input).len() > 0 {
                (v, OutcomeView::Chosen(trim(v.input)))
            } else {
                (v, OutcomeView::Continue)
            },
            Key::Char(c) => (SelectorView { input: v.input.push(c), ..v }, OutcomeView::Continue),
            Key::Backspace => (
                SelectorView {
                    input: if v.input.len() > 0 {
                        v.input.drop_last()
                    } else {
                        v.input
                    },
                    ..v
                },
                OutcomeView::Continue,
            ),
            _ => (v, OutcomeView::Continue),
        },
    }
}

/// The interactive session picker.
pub struct SessionSelector {
    sessions: Vec<String>,
    selected: usize,
    mode: SelectorMode,
    input: Vec<char>,
}

impl View for SessionSelector {
    type V = SelectorView;

    closed spec fn view(&self) -> SelectorView {
        SelectorView {
            sessions: string_views(self.sessions@),
            selected: self.selected as nat,
            mode: self.mode,
            input: self.input@,
        }
    }
}

impl SessionSelector {
    #[verifier::type_invariant]
    closed spec fn wf(self) -> bool {
        self.selected <= self.sessions@.len()
    }

    /// A selector over `sessions`, with the first row selected.
    pub fn new(sessions: Vec<String>) -> (s: Self)
        ensures
            s@ == (SelectorView {
                sessions: string_views(sessions@),
                selected: 0,
                mode: SelectorMode::Select,
                input: Seq::empty(),
            }),
    {
        SessionSelector { sessions, selected: 0, mode: SelectorMode::Select, input: Vec::new() }
    }

    /// The selected row (the row after the last session creates a new one).
    pub fn selected(&self) -> (i: usize)
        ensures
            i == self@.selected,
            i <= self@.sessions.len(),
    {
        proof { use_type_invariant(self); }
        self.selected
    }

    /// Whether the name box for a new session is open.
    pub fn in_name_input(&self) -> (b: bool)
        ensures
            b == (self@.mode == SelectorMode::NewSessionInput),
    {
        self.mode == SelectorMode::NewSessionInput
    }

    /// The name typed so far.
    pub fn input_text(&self) -> (s: String)
        ensures
            s@ == self@.input,
    {
        string_from_chars(&self.input)
    }

    /// The sessions offered.
    pub fn sessions(&self) -> (v: &Vec<String>)
        ensures
            string_views(v@) == self@.sessions,
    {
        &self.sessions
    }

    /// Handles a key press (see `selector_step`).
    pub fn handle_key(&mut self, key: Key) -> (out: SelectorOutcome)
        ensures
            selector_step(old(self)@, key) == (final(self)@, out@),
    {
        proof { use_type_invariant(&*self); }
        let n = self.sessions.len();
        match self.mode {
            SelectorMode::Select => match key {
                Key::Char(c) => {
                    if c == 'q' || c == 'Q' {
                        SelectorOutcome::Quit
                    } else if c == 'N' {
                        self.mode = SelectorMode::NewSessionInput;
                        self.input = Vec::new();
                        SelectorOutcome::Continue
                    } else {
                        SelectorOutcome::Continue
                    }
                },
                Key::Esc => SelectorOutcome::Quit,
                Key::Up => {
                    if self.selected == 0 {
                        self.selected = n;
                    } else {
                        self.selected = self.selected - 1;
                    }
                    SelectorOutcome::Continue
                },
                Key::Down => {
                    if self.selected >= n {
                        self.selected = 0;
                    } else {
                        self.selected = self.selected + 1;
                    }
                    SelectorOutcome::Continue
                },
                Key::Enter => {
                    if self.selected == n {
                        self.mode = SelectorMode::NewSessionInput;
                        SelectorOutcome::Continue
                    } else {
                        let name = self.sessions[self.selected].clone();
                        SelectorOutcome::Chosen(name)
                    }
                },
                _ => SelectorOutcome::Continue,
            },
            SelectorMode::NewSessionInput => match key {
                Key::Esc => {
                    self.mode = SelectorMode::Select;
                    self.input = Vec::new();
                    SelectorOutcome::Continue
                },
                Key::Enter => {
                    let t = trim_chars(&self.input);
                    if t.len() > 0 {
                        SelectorOutcome::Chosen(string_from_chars(&t))
                    } else {
                        SelectorOutcome::Continue
                    }
                },
                Key::Char(c) => {
                    let mut input: Vec<char> = Vec::new();
                    std::mem::swap(&mut input, &mut self.input);
                    input.push(c);
                    self.input = input;
                    SelectorOutcome::Continue
                },
                Key::Backspace => {
                    let mut input: Vec<char> = Vec::new();
                    std::mem::swap(&mut input, &mut self.input);
                    if input.len() > 0 {
                        let _ = input.pop();
                    }
                    self.input = input;
                    SelectorOutcome::Continue
                },
                _ => SelectorOutcome::Continue,
            },
        }
    }
}

/// The selection never leaves the list: it stays at a session or at the row that creates one.
pub proof fn law_selection_in_range(v: SelectorView, key: Key)
    requires
        v.selected <= v.sessions.len(),
    ensures
        selector_step(v, key).0.selected <= selector_step(v, key).0.sessions.len(),
        selector_step(v, key).0.sessions == v.sessions,
{
}

/// Up and Down undo each other, wrap-around included.
pub proof fn law_up_down_inverse(v: SelectorView)
    requires
        v.mode == SelectorMode::Select,
        v.selected <= v.sessions.len(),
    ensures
        selector_step(selector_step(v, Key::Up).0, Key::Down).0 == v,
        selector_step(selector_step(v, Key::Down).0, Key::Up).0 == v,
{
}

/// The selector after the characters of `name` are typed one by one.
pub open spec fn type_chars(v: SelectorView, name: Seq<char>) -> SelectorView
    decreases name.len(),
{
    if name.len() == 0 {
        v
    } else {
        selector_step(type_chars(v, name.drop_last()), Key::Char(name.last())).0
    }
}

/// What the selector answers when `name` is typed and Enter is pressed.
pub open spec fn typed_then_enter(v: SelectorView, name: Seq<char>) -> OutcomeView {
    selector_step(type_chars(v, name), Key::Enter).1
}

/// In the name box every typed character is appended to the name.
pub proof fn lemma_typing_fills_name(v: SelectorView, name: Seq<char>)
    requires
        v.mode == SelectorMode::NewSessionInput,
    ensures
        type_chars(v, name) == (SelectorView { input: v.input + name, ..v }),
    decreases name.len(),
{
    if name.len() > 0 {
        lemma_typing_fills_name(v, name.drop_last());
        assert(v.input + name == (v.input + name.drop_last()).push(name.last()));
    } else {
        assert(v.input + name == v.input);
    }
}

/// Typing `N` in the list opens an empty name box for a new session; what is typed
/// next and confirmed with Enter is the chosen name, trimmed, unless it is blank.
pub proof fn law_n_opens_name_input(v: SelectorView, name: Seq<char>)
    requires
        v.mode == SelectorMode::Select,
    ensures
        selector_step(v, Key::Char('N')).0.mode == SelectorMode::NewSessionInput,
        selector_step(v, Key::Char('N')).0.input.len() == 0,
        selector_step(v, Key::Char('N')).1 == OutcomeView::Continue,
        selector_step(v, Key::Char('n')) == (v, OutcomeView::Continue),
        typed_then_enter(selector_step(v, Key::Char('N')).0, name) == (if trim(name).len() > 0 {
            OutcomeView::Chosen(trim(name))
        } else {
            OutcomeView::Continue
        }),
{
    lemma_typing_fills_name(selector_step(v, Key::Char('N')).0, name);
}

/// In the list, Enter on a session row chooses exactly the session of that row, and changes
/// nothing; on the row after the last session it opens the name box instead.
pub proof fn law_enter_picks_selected(v: SelectorView)
    requires
        v.mode == SelectorMode::Select,
        v.selected <= v.sessions.len(),
    ensures
        v.selected < v.sessions.len() ==> selector_step(v, Key::Enter) == (v, OutcomeView::Chosen(
            v.sessions[v.selected as int],
        )),
        v.selected == v.sessions.len() ==> selector_step(v, Key::Enter).0.mode
            == SelectorMode::NewSessionInput && selector_step(v, Key::Enter).1 == OutcomeView::Continue,
{
}

/// A fresh selector over a non-empty list has its first session selected: Enter chooses it.
pub proof fn law_fresh_enter_picks_first(sessions: Seq<Seq<char>>)
    requires
        sessions.len() > 0,
    ensures
        selector_step(
            SelectorView { sessions, selected: 0, mode: SelectorMode::Select, input: Seq::empty() },
            Key::Enter,
        ).1 == OutcomeView::Chosen(sessions[0]),
{
}

/// Moving down `k` rows from the top and pressing Enter chooses the `k`-th session.
pub proof fn law_down_then_enter(v: SelectorView, k: nat)
    requires
        v.mode == SelectorMode::Select,
        v.selected == 0,
        k < v.sessions.len(),
    ensures
        selector_step(downs(v, k), Key::Enter).1 == OutcomeView::Chosen(v.sessions[k as int]),
{
    lemma_downs(v, k);
}

/// The selector after `k` presses of Down.
pub open spec fn downs(v: SelectorView, k: nat) -> SelectorView
    decreases k,
{
    if k == 0 {
        v
    } else {
        selector_step(downs(v, (k - 1) as nat), Key::Down).0
    }
}

proof fn lemma_downs(v: SelectorView, k: nat)
    requires
        v.mode == SelectorMode::Select,
        v.selected == 0,
        k <= v.sessions.len(),
    ensures
        downs(v, k) == (SelectorView { selected: k, ..v }),
    decreases k,
{
    if k > 0 {
        lemma_downs(v, (k - 1) as nat);
    }
}

/// Leaving the name box with Esc goes back to the list with an empty name.
pub proof fn law_escape_clears_name(v: SelectorView)
    requires
        v.mode == SelectorMode::NewSessionInput,
    ensures
        selector_step(v, Key::Esc).0.mode == SelectorMode::Select,
        selector_step(v, Key::Esc).0.input.len() == 0,
        selector_step(v, Key::Esc).1 == OutcomeView::Continue,
{
}

// ---------------------------------------------------------------------------
// Password prompt
// ---------------------------------------------------------------------------

/// What a key press at the password prompt leads to.
#[derive(Debug, PartialEq, Eq)]
pub enum PromptOutcome {
    Continue,
    /// Enter: the password typed so far.
    Done(String),
    /// Esc: the client gives up before it connects.
    Cancelled,
}

/// The mathematical value of a `PromptOutcome`.
pub enum PromptOutcomeView {
    Continue,
    Done(Seq<char>),
    Cancelled,
}

impl View for PromptOutcome {
    type V = PromptOutcomeView;

    open spec fn view(&self) -> PromptOutcomeView {
        match self {
            PromptOutcome::Continue => PromptOutcomeView::Continue,
            PromptOutcome::Done(s) => PromptOutcomeView::Done(s@),
            PromptOutcome::Cancelled => PromptOutcomeView::Cancelled,
        }
    }
}

/// The prompt's reaction to a key: a character is appended, Backspace removes the last one,
/// Enter gives the password, Esc cancels, and other keys do nothing.
pub open spec fn prompt_step(typed: Seq<char>, key: Key) -> (Seq<char>, PromptOutcomeView) {
    match key {
        Key::Char(c) => (typed.push(c), PromptOutcomeView::Continue),
        Key::Backspace => (
            if typed.len() > 0 {
                typed.drop_last()
            } else {
                typed
            },
            PromptOutcomeView::Continue,
        ),
        Key::Enter => (typed, PromptOutcomeView::Done(typed)),
        Key::Esc => (typed, PromptOutcomeView::Cancelled),
        _ => (typed, PromptOutcomeView::Continue),
    }
}

/// The password prompt of the client, which reads the password with echo off.
pub struct PasswordPrompt {
    typed: Vec<char>,
}

impl View for PasswordPrompt {
    type V = Seq<char>;

    closed spec fn view(&self) -> Seq<char> {
        self.typed@
    }
}

impl PasswordPrompt {
    /// An empty prompt.
    pub fn new() -> (p: Self)
        ensures
            p@ == Seq::<char>::empty(),
    {
        PasswordPrompt { typed: Vec::new() }
    }

    /// Handles a key press (see `prompt_step`).
    pub fn handle_key(&mut self, key: Key) -> (out: PromptOutcome)
        ensures
            prompt_step(old(self)@, key) == (final(self)@, out@),
    {
        match key {
            Key::Char(c) => {
                self.typed.push(c);
                PromptOutcome::Continue
            },
            Key::Backspace => {
                if self.typed.len() > 0 {
                    let _ = self.typed.pop();
                }
                PromptOutcome::Continue
            },
            Key::Enter => PromptOutcome::Done(string_from_chars(&self.typed)),
            Key::Esc => PromptOutcome::Cancelled,
            _ => PromptOutcome::Continue,
        }
    }
}

/// The prompt after the characters of `text` are typed one by one.
pub open spec fn prompt_after_typing(typed: Seq<char>, text: Seq<char>) -> Seq<char>
    decreases text.len(),
{
    if text.len() == 0 {
        typed
    } else {
        prompt_step(prompt_after_typing(typed, text.drop_last()), Key::Char(text.last())).0
    }
}

/// A character typed and then erased leaves the prompt as it was.
pub proof fn law_backspace_erases_char(typed: Seq<char>, c: char)
    ensures
        prompt_step(prompt_step(typed, Key::Char(c)).0, Key::Backspace).0 == typed,
{
    assert(typed.push(c).drop_last() =~= typed);
}

/// Typing a password on an empty prompt and pressing Enter gives exactly that password.
pub proof fn law_prompt_gives_typed_password(text: Seq<char>)
    ensures
        prompt_after_typing(Seq::empty(), text) == text,
        prompt_step(prompt_after_typing(Seq::empty(), text), Key::Enter).1
            == PromptOutcomeView::Done(text),
    decreases text.len(),
{
    if text.len() > 0 {
        let p = text.drop_last();
        law_prompt_gives_typed_password(p);
        assert(p.push(text.last()) =~= text);
    } else {
        assert(text =~= Seq::<char>::empty());
    }
}

// ---------------------------------------------------------------------------
// Session routing
// ---------------------------------------------------------------------------

/// What the client learns after it sent its proof.
#[derive(Debug, PartialEq, Eq)]
pub enum ClientEvent {
    /// The server's answer to the proof: accepted or refused.
    AuthReply(bool),
    /// The selector was closed, with the chosen session or none.
    SelectorClosed(Option<String>),
}

/// What the client does next.
#[derive(Debug, PartialEq, Eq)]
pub enum ClientStep {
    /// Report the refused password and stop.
    ReportAuthFailure,
    /// Ask the server for its sessions and open the selector on them.
    RequestSessionList,
    /// Attach to the named session.
    Attach(String),
    /// Stop without attaching.
    Exit,
}

/// The client's next step. A refused password ends the client. Once accepted, a session named
/// on the command line is attached at once (the list is not asked for); otherwise the list is
/// asked for and the selector opened. When the selector closes, the chosen session is
/// attached, and without a choice the client stops.
pub open spec fn client_step_spec(requested: Option<String>, event: ClientEvent) -> ClientStep {
    match event {
        ClientEvent::AuthReply(accepted) => if !accepted {
            ClientStep::ReportAuthFailure
        } else {
            match requested {
                Some(s) => ClientStep::Attach(s),
                None => ClientStep::RequestSessionList,
            }
        },
        ClientEvent::SelectorClosed(chosen) => match chosen {
            Some(s) => ClientStep::Attach(s),
            None => ClientStep::Exit,
        },
    }
}

/// The client's next step (see `client_step_spec`); `requested` is the session named on the
/// command line.
pub fn client_step(requested: Option<String>, event: ClientEvent) -> (step: ClientStep)
    ensures
        step == client_step_spec(requested, event),
{
    match event {
        ClientEvent::AuthReply(accepted) => {
            if !accepted {
                ClientStep::ReportAuthFailure
            } else {
                match requested {
                    Some(s) => ClientStep::Attach(s),
                    None => ClientStep::RequestSessionList,
                }
            }
        },
        ClientEvent::SelectorClosed(chosen) => match chosen {
            Some(s) => ClientStep::Attach(s),
            None => ClientStep::Exit,
        },
    }
}

/// The client attaches only to the session named on the command line, once the password is
/// accepted, or to the session chosen in the selector; a refused password never attaches.
pub proof fn law_attach_only_requested_or_chosen(requested: Option<String>, event: ClientEvent)
    ensures
        client_step_spec(requested, event) is Attach ==> match event {
            ClientEvent::AuthReply(accepted) => accepted && requested == Some(
                client_step_spec(requested, event)->Attach_0,
            ),
            ClientEvent::SelectorClosed(chosen) => chosen == Some(
                client_step_spec(requested, event)->Attach_0,
            ),
        },
        event == ClientEvent::AuthReply(false) ==> client_step_spec(requested, event)
            == ClientStep::ReportAuthFailure,
{
}

} // verus!
