use tailmux::admin::{get_admin_status, save_report, ActiveConnInfo, ActiveConnections};
use tailmux::auth::{agreed_proof, compute_auth_proof, new_key_pair, proof_material, KeyExchangeError};
use tailmux::cli::{parse_command_line, subcommand_requires_tmux, CliCommand, CliError};
use tailmux::client::{
    answer_challenge, auth_outcome, client_step, expect_challenge, filter_input, server_key_bytes, session_list_from, ClientError, ClientEvent, ClientStep, InputState, Key, PasswordPrompt, PromptOutcome, SelectorOutcome, ServerMessage, SessionSelector,
};
use tailmux::config::{
    config_dir_for, connection_id_from, generate_password, get_config_dir, get_password_file_path,
    get_sessions_file_path, is_benign_connection_error, new_client_session_name, new_connection_id,
    new_salt, password_from_indices, resolve_password, tmux_install_instructions,
};
use tailmux::hex::{bytes_to_hex, hex_to_bytes, HexError};
use tailmux::rate_limit::{ConnectionHistory, BAN_DURATION_MS, FAILURE_WINDOW_MS};
use tailmux::server_session::{handle_event, Action, ClientCommand, Event, WsSession};
use tailmux::sessions::{
    client_session_name, is_client_session_name, name_listed, parse_all_session_names,
    parse_pane_list, parse_session_list, saved_session_names, SavedSession,
};
use tailmux::text::{chars_of, split_lines, trim_chars};

fn s(x: &str) -> String {
    x.to_string()
}

fn args(v: &[&str]) -> Vec<String> {
    v.iter().map(|a| a.to_string()).collect()
}

// ---------------------------------------------------------------- hex

#[test]
fn hex_encodes_two_lowercase_digits_per_byte() {
    assert_eq!(bytes_to_hex(&[0x00, 0x0f, 0xab, 0xff]), "000fabff");
    assert_eq!(bytes_to_hex(&[]), "");
}

#[test]
fn auth_proof_digests_password_secret_salt() {
    assert_eq!(proof_material("pw", &[1, 2], "s"), vec![b'p', b'w', 1, 2, b's']);
    // SHA-256 of the empty input
    assert_eq!(
        compute_auth_proof("", &[], ""),
        "e3b0c44298fc1c149afbf4c8996fb92427ae41e4649b934ca495991b7852b855"
    );
    // SHA-256 of "abc", split over the three parts
    assert_eq!(
        compute_auth_proof("a", b"b", "c"),
        "ba7816bf8f01cfea414140de5dae2223b00361a396177a9cb410ff61f20015ad"
    );
    assert_ne!(compute_auth_proof("a", b"b", "c"), compute_auth_proof("b", b"a", "c"));
}

#[test]
fn key_agreement_gives_both_sides_the_same_proof() {
    let server = new_key_pair().unwrap();
    let server_pub = server.public_key().clone();
    assert_eq!(server_pub.len(), 65);
    assert_eq!(server_pub[0], 4);
    let cmd = answer_challenge("pw", "salt", &bytes_to_hex(&server_pub), Some(s("dev")), 80, 24).unwrap();
    match cmd {
        ClientCommand::AuthResponse { public_key, proof, session, cols, rows } => {
            assert_eq!(session, Some(s("dev")));
            assert_eq!((cols, rows), (Some(80), Some(24)));
            assert_eq!(public_key.len(), 130);
            assert_eq!(proof.len(), 64);
            let client_pub = hex_to_bytes(&public_key).unwrap();
            assert_eq!(agreed_proof(server, &client_pub, "pw", "salt"), Ok(proof.clone()));
            // another server key, or another password, expects another proof
            let other = new_key_pair().unwrap();
            assert_ne!(agreed_proof(other, &client_pub, "pw", "salt"), Ok(proof.clone()));
            let again = new_key_pair().unwrap();
            let cmd2 = answer_challenge("pw", "salt", &bytes_to_hex(again.public_key()), None, 80, 24)
                .unwrap();
            if let ClientCommand::AuthResponse { public_key: pk2, proof: proof2, .. } = cmd2 {
                let client_pub2 = hex_to_bytes(&pk2).unwrap();
                assert_ne!(agreed_proof(again, &client_pub2, "px", "salt"), Ok(proof2));
            } else {
                panic!("unexpected command");
            }
        }
        other => panic!("unexpected command {:?}", other),
    }
}

#[test]
fn key_agreement_errors() {
    assert_eq!(
        answer_challenge("pw", "salt", "zz", None, 80, 24),
        Err(ClientError::InvalidServerKey)
    );
    // hexadecimal, but no point of the curve
    assert_eq!(
        answer_challenge("pw", "salt", "0400", None, 80, 24),
        Err(ClientError::KeyExchange(KeyExchangeError::Agreement))
    );
    let k = new_key_pair().unwrap();
    assert_eq!(agreed_proof(k, &[4, 0], "pw", "salt"), Err(KeyExchangeError::Agreement));
    assert_eq!(KeyExchangeError::Agreement.message(), "ECDH key agreement failed");
    assert_eq!(
        ClientError::KeyExchange(KeyExchangeError::KeyGeneration).message(),
        "ECDH key generation failed"
    );
}

#[test]
fn hex_round_trip() {
    let bytes: Vec<u8> = (0..=255u8).collect();
    assert_eq!(hex_to_bytes(&bytes_to_hex(&bytes)).unwrap(), bytes);
}

#[test]
fn hex_accepts_upper_case() {
    assert_eq!(hex_to_bytes("AbCd09").unwrap(), vec![0xab, 0xcd, 0x09]);
    let bytes: Vec<u8> = (0..=255u8).collect();
    assert_eq!(hex_to_bytes(&bytes_to_hex(&bytes).to_uppercase()).unwrap(), bytes);
}

#[test]
fn hex_error_variants() {
    assert_eq!(hex_to_bytes("abc"), Err(HexError::OddLength));
    assert_eq!(hex_to_bytes("zz"), Err(HexError::InvalidHexChar));
    assert_eq!(hex_to_bytes("0g"), Err(HexError::InvalidHexChar));
    // one two-byte character: even length, but not digits
    assert_eq!(hex_to_bytes("\u{e9}"), Err(HexError::InvalidHexChar));
    assert_eq!(HexError::OddLength.message(), "Odd length hex string");
    assert_eq!(HexError::InvalidHexChar.message(), "Invalid hex char");
}

// ---------------------------------------------------------------- text

#[test]
fn lines_and_trim() {
    let text = chars_of("a\r\nb\n\n  c \n");
    let lines: Vec<String> = split_lines(&text).iter().map(|l| l.iter().collect()).collect();
    assert_eq!(lines, vec![s("a"), s("b"), s(""), s("  c ")]);
    let no_newline: Vec<String> =
        split_lines(&chars_of("x\r")).iter().map(|l| l.iter().collect()).collect();
    assert_eq!(no_newline, vec![s("x\r")]);
    let t: String = trim_chars(&chars_of("\t  hi there \u{3000}\n")).iter().collect();
    assert_eq!(t, "hi there");
    let empty: String = trim_chars(&chars_of("   ")).iter().collect();
    assert_eq!(empty, "");
}

// ---------------------------------------------------------------- rate limiter

#[test]
fn rate_limit_old_failures_leave_the_window() {
    let mut h = ConnectionHistory::new();
    let ip = "10.0.0.1";
    let base: u64 = 5_000_000;
    for k in 0..4u64 {
        h.record_failed_auth(ip, base + 10 * k);
    }
    // the first failure is exactly one window old: it no longer counts
    let reached = h.record_failed_auth(ip, base + FAILURE_WINDOW_MS);
    assert!(!reached);
    assert_eq!(h.failure_count(ip), 4);
    assert!(!h.is_ip_banned(ip, base + FAILURE_WINDOW_MS));
}

#[test]
fn rate_limit_spaced_failures_never_ban() {
    let mut h = ConnectionHistory::new();
    let ip = "10.0.0.9";
    let t: u64 = 2_000_000;
    for k in 0..5u64 {
        assert!(!h.record_failed_auth(ip, t + k * FAILURE_WINDOW_MS));
        assert_eq!(h.failure_count(ip), 1);
    }
    assert_eq!(h.banned_until(ip), None);
    assert!(!h.is_ip_banned(ip, t + 4 * FAILURE_WINDOW_MS));
}

#[test]
fn rate_limit_ban_lasts_five_minutes() {
    let mut h = ConnectionHistory::new();
    let ip = "10.0.0.2";
    let t: u64 = 1_000;
    for k in 0..5u64 {
        h.record_failed_auth(ip, t + k);
    }
    let last = t + 4;
    assert_eq!(h.banned_until(ip), Some(last + BAN_DURATION_MS));
    assert!(h.is_ip_banned(ip, last + BAN_DURATION_MS - 1));
    assert!(!h.is_ip_banned(ip, last + BAN_DURATION_MS));
    // the expired ban was dropped by the ban test
    assert_eq!(h.banned_until(ip), None);
}

#[test]
fn rate_limit_other_addresses_untouched() {
    let mut h = ConnectionHistory::new();
    for k in 0..5u64 {
        h.record_failed_auth("1.1.1.1", 100 + k);
    }
    assert!(h.is_ip_banned("1.1.1.1", 200));
    assert!(!h.is_ip_banned("2.2.2.2", 200));
    assert_eq!(h.failure_count("2.2.2.2"), 0);
    assert_eq!(h.len(), 2);
}

#[test]
fn rate_limit_banned_list_and_unban() {
    let mut h = ConnectionHistory::new();
    for k in 0..5u64 {
        h.record_failed_auth("9.9.9.9", 10_000 + k);
    }
    let list = h.banned_ips(10_004 + 2_500);
    assert_eq!(list.len(), 1);
    assert_eq!(list[0].ip, "9.9.9.9");
    assert_eq!(list[0].expires_in_secs, (BAN_DURATION_MS - 2_500) / 1000);
    assert!(h.unban_ip("9.9.9.9"));
    assert!(!h.unban_ip("8.8.8.8"));
    assert!(h.banned_ips(10_010).is_empty());
    assert!(!h.is_ip_banned("9.9.9.9", 10_010));
    assert_eq!(h.failure_count("9.9.9.9"), 0);
}

// ---------------------------------------------------------------- sessions

#[test]
fn session_listing_skips_client_sessions() {
    let names = parse_session_list("main\n  work  \nmain_client_1234\n\n");
    assert_eq!(names, vec![s("main"), s("work")]);
}

#[test]
fn pane_listing_keeps_first_directory() {
    let saved = parse_pane_list("main /home/a\nmain /tmp\nwork /srv x\nfoo_client_1 /x\nnospace\n");
    assert_eq!(
        saved,
        vec![
            SavedSession { name: s("main"), cwd: s("/home/a") },
            SavedSession { name: s("work"), cwd: s("/srv x") },
        ]
    );
    assert_eq!(saved_session_names(&saved), vec![s("main"), s("work")]);
}

#[test]
fn client_session_names_are_marked() {
    let name = client_session_name("dev", 1234);
    assert_eq!(name, "dev_client_1234");
    assert!(is_client_session_name(&name));
    assert!(!is_client_session_name("dev"));
    assert!(parse_session_list(&format!("dev\n{}\n", name)) == vec![s("dev")]);
}

// ---------------------------------------------------------------- server connection

fn auth(public_key: &str, proof: &str, session: Option<&str>) -> Event {
    Event::Command(ClientCommand::AuthResponse {
        public_key: s(public_key),
        proof: s(proof),
        session: session.map(s),
        cols: None,
        rows: Some(40),
    })
}

#[test]
fn connection_full_flow() {
    let mut c = WsSession::new();
    let acts = handle_event(&mut c, auth("0aff", "p", Some("dev")));
    assert_eq!(acts, vec![Action::DeriveSecret { client_public_key: vec![0x0a, 0xff] }]);
    let acts = handle_event(&mut c, Event::ProofComputed(Some(s("p"))));
    assert_eq!(
        acts,
        vec![
            Action::RecordSuccess,
            Action::RegisterConnection,
            Action::SendAuthOk,
            Action::Attach { session: s("dev"), cols: 80, rows: 40 },
        ]
    );
    assert!(c.authenticated);
    assert!(handle_event(&mut c, Event::Attached(Some(s("dev_client_1111")))).is_empty());
    assert_eq!(
        handle_event(&mut c, Event::Binary(vec![1, 2])),
        vec![Action::WritePty { data: vec![1, 2] }]
    );
    assert_eq!(
        handle_event(&mut c, Event::Command(ClientCommand::Resize { cols: 100, rows: 30 })),
        vec![Action::ResizePty { cols: 100, rows: 30 }]
    );
    assert_eq!(
        handle_event(&mut c, Event::Command(ClientCommand::ListSessions)),
        vec![Action::SendSessionList]
    );
    assert_eq!(
        handle_event(
            &mut c,
            Event::Command(ClientCommand::Attach { session: s("ops"), cols: None, rows: None })
        ),
        vec![
            Action::KillSession { name: s("dev_client_1111") },
            Action::Attach { session: s("ops"), cols: 80, rows: 24 },
        ]
    );
    assert_eq!(
        handle_event(
            &mut c,
            Event::Command(ClientCommand::AdminChangePassword { new_password: s("new") })
        ),
        vec![
            Action::SetPassword { password: s("new") },
            Action::SendPasswordChanged,
            Action::SendAdminStatus,
        ]
    );
    assert_eq!(
        handle_event(&mut c, Event::Command(ClientCommand::AdminUnbanIp { ip: s("1.2.3.4") })),
        vec![Action::UnbanIp { ip: s("1.2.3.4") }, Action::SendAdminStatus]
    );
    assert_eq!(
        handle_event(&mut c, Event::Command(ClientCommand::AdminGetStatus)),
        vec![Action::SendAdminStatus]
    );
    assert!(handle_event(&mut c, Event::Unparsable).is_empty());
    assert_eq!(
        handle_event(&mut c, Event::Closed),
        vec![Action::KillSession { name: s("dev_client_1111") }, Action::UnregisterConnection]
    );
    assert!(handle_event(&mut c, Event::Binary(vec![3])).is_empty());
}

#[test]
fn connection_wrong_proof() {
    let mut c = WsSession::new();
    handle_event(&mut c, auth("00", "guess", None));
    assert_eq!(
        handle_event(&mut c, Event::ProofComputed(Some(s("right")))),
        vec![Action::RecordFailure, Action::SendAuthFail, Action::CloseSocket, Action::Exit]
    );
    assert!(!c.authenticated);
    assert!(c.finished);
}

#[test]
fn connection_refusals() {
    // a command before authentication drops the connection
    let mut c = WsSession::new();
    assert_eq!(handle_event(&mut c, Event::Command(ClientCommand::ListSessions)), vec![Action::Exit]);
    // keystrokes before authentication are ignored
    let mut c = WsSession::new();
    assert!(handle_event(&mut c, Event::Binary(vec![1])).is_empty());
    // a public key that is not hexadecimal
    let mut c = WsSession::new();
    assert_eq!(handle_event(&mut c, auth("xyz!", "p", None)), vec![Action::SendAuthFail, Action::Exit]);
    // the secret could not be derived
    let mut c = WsSession::new();
    handle_event(&mut c, auth("00", "p", None));
    assert_eq!(
        handle_event(&mut c, Event::ProofComputed(None)),
        vec![Action::SendAuthFail, Action::Exit]
    );
    // the key is used once only
    let mut c = WsSession::new();
    handle_event(&mut c, auth("00", "p", None));
    handle_event(&mut c, Event::ProofComputed(Some(s("p"))));
    assert_eq!(handle_event(&mut c, auth("00", "p", None)), vec![Action::SendAuthFail, Action::Exit]);
}

// ---------------------------------------------------------------- client

#[test]
fn client_input_filter() {
    let mut st = InputState { ctrl_g_pressed: false };
    let (out, detach) = filter_input(&mut st, &[b'a', 7, b'x', 7, 7, b'b']);
    assert_eq!(out, vec![b'a', 7, b'x', 7, b'b']);
    assert!(!detach);
    let (out, detach) = filter_input(&mut st, &[b'q', 7]);
    assert_eq!(out, vec![b'q']);
    assert!(!detach && st.ctrl_g_pressed);
    // the sequence may be split over two reads
    let (out, detach) = filter_input(&mut st, &[b'D', b'z']);
    assert!(out.is_empty());
    assert!(detach);
}

#[test]
fn client_handshake_replies() {
    let ch = expect_challenge(Some(ServerMessage::AuthChallenge { salt: s("aa"), public_key: s("0b") }));
    assert_eq!(ch, Ok((s("aa"), s("0b"))));
    assert_eq!(expect_challenge(Some(ServerMessage::AuthOk)), Err(ClientError::UnexpectedChallengeReply));
    assert_eq!(expect_challenge(None), Err(ClientError::ClosedDuringChallenge));
    assert_eq!(server_key_bytes("0b"), Ok(vec![0x0b]));
    assert_eq!(server_key_bytes("0"), Err(ClientError::InvalidServerKey));
    assert_eq!(auth_outcome(Some(ServerMessage::AuthOk)), Ok(true));
    assert_eq!(auth_outcome(Some(ServerMessage::AuthFail)), Ok(false));
    assert_eq!(
        auth_outcome(Some(ServerMessage::SessionsList { sessions: vec![] })),
        Err(ClientError::InvalidAuthResponse)
    );
    assert_eq!(auth_outcome(None), Err(ClientError::ClosedDuringAuth));
    assert_eq!(
        session_list_from(Some(ServerMessage::SessionsList { sessions: vec![s("a")] })),
        vec![s("a")]
    );
    assert!(session_list_from(Some(ServerMessage::AuthOk)).is_empty());
    assert_eq!(ClientError::InvalidServerKey.message(), "Invalid server public key received");
    assert_eq!(
        ClientError::ClosedDuringChallenge.message(),
        "Connection closed by server during challenge phase."
    );
}

#[test]
fn selector_navigation() {
    let mut sel = SessionSelector::new(vec![s("a"), s("b")]);
    assert_eq!(sel.selected(), 0);
    assert_eq!(sel.handle_key(Key::Up), SelectorOutcome::Continue);
    assert_eq!(sel.selected(), 2);
    sel.handle_key(Key::Down);
    assert_eq!(sel.selected(), 0);
    sel.handle_key(Key::Down);
    assert_eq!(sel.handle_key(Key::Enter), SelectorOutcome::Chosen(s("b")));
    assert_eq!(sel.handle_key(Key::Char('x')), SelectorOutcome::Continue);
    assert_eq!(sel.handle_key(Key::Char('Q')), SelectorOutcome::Quit);
    assert_eq!(sel.handle_key(Key::Esc), SelectorOutcome::Quit);
}

#[test]
fn selector_new_session_name() {
    let mut sel = SessionSelector::new(vec![s("a")]);
    sel.handle_key(Key::Down);
    sel.handle_key(Key::Enter);
    assert!(sel.in_name_input());
    assert_eq!(sel.handle_key(Key::Enter), SelectorOutcome::Continue);
    for c in " new x".chars() {
        sel.handle_key(Key::Char(c));
    }
    sel.handle_key(Key::Backspace);
    assert_eq!(sel.input_text(), " new ");
    sel.handle_key(Key::Char('q'));
    assert_eq!(sel.handle_key(Key::Enter), SelectorOutcome::Chosen(s("new q")));
    sel.handle_key(Key::Esc);
    assert!(!sel.in_name_input());
    assert_eq!(sel.input_text(), "");
    assert_eq!(sel.selected(), 1);
}

#[test]
fn selector_n_creates_new_session() {
    let mut sel = SessionSelector::new(vec![s("a")]);
    assert_eq!(sel.handle_key(Key::Char('N')), SelectorOutcome::Continue);
    assert!(sel.in_name_input());
    assert_eq!(sel.handle_key(Key::Char('x')), SelectorOutcome::Continue);
    assert_eq!(sel.handle_key(Key::Enter), SelectorOutcome::Chosen(s("x")));
    sel.handle_key(Key::Esc);
    // only the capital letter opens the name box
    assert_eq!(sel.handle_key(Key::Char('n')), SelectorOutcome::Continue);
    assert!(!sel.in_name_input());
    assert_eq!(sel.handle_key(Key::Char('N')), SelectorOutcome::Continue);
    assert!(sel.in_name_input());
    assert_eq!(sel.input_text(), "");
}

#[test]
fn password_prompt_edits_and_confirms() {
    let mut p = PasswordPrompt::new();
    for c in "pw1x".chars() {
        assert_eq!(p.handle_key(Key::Char(c)), PromptOutcome::Continue);
    }
    assert_eq!(p.handle_key(Key::Backspace), PromptOutcome::Continue);
    assert_eq!(p.handle_key(Key::Up), PromptOutcome::Continue);
    assert_eq!(p.handle_key(Key::Enter), PromptOutcome::Done(s("pw1")));
    let mut empty = PasswordPrompt::new();
    assert_eq!(empty.handle_key(Key::Backspace), PromptOutcome::Continue);
    assert_eq!(empty.handle_key(Key::Enter), PromptOutcome::Done(s("")));
    assert_eq!(empty.handle_key(Key::Esc), PromptOutcome::Cancelled);
}

#[test]
fn client_routing() {
    assert_eq!(client_step(Some(s("dev")), ClientEvent::AuthReply(false)), ClientStep::ReportAuthFailure);
    assert_eq!(client_step(Some(s("dev")), ClientEvent::AuthReply(true)), ClientStep::Attach(s("dev")));
    assert_eq!(client_step(None, ClientEvent::AuthReply(true)), ClientStep::RequestSessionList);
    assert_eq!(
        client_step(None, ClientEvent::SelectorClosed(Some(s("web")))),
        ClientStep::Attach(s("web"))
    );
    assert_eq!(client_step(None, ClientEvent::SelectorClosed(None)), ClientStep::Exit);
}

// ---------------------------------------------------------------- command line

#[test]
fn command_line_parsing() {
    let a = args(&["tailmux"]);
    assert_eq!(parse_command_line(&a, &vec![false]), Ok(CliCommand::Usage));
    let a = args(&["tailmux", "server", "--bind", "0.0.0.0:1", "--password", "pw"]);
    let ok = vec![false, false, false, true, false, false];
    assert_eq!(
        parse_command_line(&a, &ok),
        Ok(CliCommand::Server { bind: s("0.0.0.0:1"), password: Some(s("pw")) })
    );
    let a = args(&["tailmux", "server"]);
    assert_eq!(
        parse_command_line(&a, &vec![false, false]),
        Ok(CliCommand::Server { bind: s("[::]:7788"), password: None })
    );
    let a = args(&["tailmux", "client", "--session", "dev"]);
    assert_eq!(
        parse_command_line(&a, &vec![false; 4]),
        Ok(CliCommand::Client { connect: s("127.0.0.1:7788"), password: None, session: Some(s("dev")) })
    );
    let a = args(&["tailmux", "save", "--whatever"]);
    assert_eq!(parse_command_line(&a, &vec![false; 3]), Ok(CliCommand::Save));
    let a = args(&["tailmux", "restore"]);
    assert_eq!(parse_command_line(&a, &vec![false; 2]), Ok(CliCommand::Restore));
    let a = args(&["tailmux", "help"]);
    assert_eq!(parse_command_line(&a, &vec![false; 2]), Ok(CliCommand::Usage));
}

#[test]
fn command_line_errors() {
    let a = args(&["tailmux", "server", "--bind"]);
    let e = parse_command_line(&a, &vec![false; 3]).unwrap_err();
    assert_eq!(e, CliError::MissingValue { flag: s("--bind") });
    assert_eq!(e.message(), "Argument --bind requires a value");
    let a = args(&["tailmux", "server", "--bind", "nope", "--foo"]);
    let e = parse_command_line(&a, &vec![false; 5]).unwrap_err();
    assert_eq!(e, CliError::InvalidBindAddress);
    assert_eq!(e.message(), "Invalid bind address (ex: 0.0.0.0:7788)");
    let a = args(&["tailmux", "client", "--foo"]);
    let e = parse_command_line(&a, &vec![false; 3]).unwrap_err();
    assert_eq!(e.message(), "Unknown argument: --foo");
    let a = args(&["tailmux", "client", "--connect", "x"]);
    assert_eq!(parse_command_line(&a, &vec![false; 4]).unwrap_err(), CliError::InvalidConnectAddress);
    assert!(subcommand_requires_tmux(&args(&["tailmux", "save"])));
    assert!(!subcommand_requires_tmux(&args(&["tailmux", "client"])));
}

// ---------------------------------------------------------------- configuration

#[test]
fn configuration_paths() {
    assert_eq!(config_dir_for(Some(s("/home/a"))), "/home/a/.config/tailmux");
    assert_eq!(config_dir_for(Some(s("/"))), "/.config/tailmux");
    assert_eq!(config_dir_for(None), "./.config/tailmux");
    assert!(get_config_dir().ends_with("/.config/tailmux"));
    assert!(get_password_file_path().ends_with("/.config/tailmux/password.txt"));
    assert!(get_sessions_file_path().ends_with("/.config/tailmux/sessions.json"));
}

#[test]
fn password_choice() {
    assert_eq!(resolve_password(Some(s("  abc \n")), Some(s("pw"))), (s("abc"), false));
    assert_eq!(resolve_password(Some(s("  \n")), Some(s("pw"))), (s("pw"), true));
    assert_eq!(resolve_password(None, Some(s("pw"))), (s("pw"), true));
    let (p, save) = resolve_password(None, None);
    assert!(save);
    assert_eq!(p.chars().count(), 6);
    assert!(p.chars().all(|c| c.is_ascii_digit() || c.is_ascii_uppercase()));
    let g = generate_password();
    assert_eq!(g.len(), 6);
    assert!(g.chars().all(|c| c.is_ascii_digit() || c.is_ascii_uppercase()));
    assert_eq!(password_from_indices(&vec![0, 9, 10, 35]), "09AZ");
}

#[test]
fn random_identifiers() {
    assert_eq!(connection_id_from(0), "0");
    assert_eq!(connection_id_from(255), "ff");
    assert_eq!(connection_id_from(u64::MAX), "ffffffffffffffff");
    let id = new_connection_id();
    assert!(!id.is_empty() && id.len() <= 16);
    assert_eq!(u64::from_str_radix(&id, 16).map(|x| format!("{:x}", x)), Ok(id.clone()));
    let salt = new_salt();
    assert_eq!(salt.len(), 32);
    assert_eq!(hex_to_bytes(&salt).unwrap().len(), 16);
    assert_eq!(salt, salt.to_lowercase());
    let existing = vec![s("dev"), s("dev_client_1000")];
    let name = new_client_session_name("dev", &existing).unwrap();
    assert!(name.starts_with("dev_client_"));
    assert!(!existing.contains(&name));
    let n: u32 = name["dev_client_".len()..].parse().unwrap();
    assert!((1000..9999).contains(&n));
}

#[test]
fn client_session_names_are_unique() {
    // all numbers but 4321 taken: that one is found whatever number is drawn first
    let mut existing: Vec<String> = (1000..9999).map(|n| format!("dev_client_{}", n)).collect();
    existing.retain(|x| x != "dev_client_4321");
    assert_eq!(new_client_session_name("dev", &existing), Some(s("dev_client_4321")));
    existing.push(s("dev_client_4321"));
    assert_eq!(new_client_session_name("dev", &existing), None);
    // another base's sessions do not take this base's names
    assert!(new_client_session_name("web", &existing).unwrap().starts_with("web_client_"));
}

#[test]
fn all_session_names_listed() {
    let names = parse_all_session_names("dev\n dev_client_1234 \r\n\n\nweb\n");
    assert_eq!(names, vec![s("dev"), s("dev_client_1234"), s("web")]);
    assert!(name_listed(&names, &s("dev_client_1234")));
    assert!(!name_listed(&names, &s("dev_client_123")));
    assert_eq!(parse_all_session_names(""), Vec::<String>::new());
}

#[test]
fn install_texts_start_flush() {
    assert!(tmux_install_instructions("linux").starts_with("Debian/Ubuntu:  sudo apt install tmux\n  Fedora"));
    assert!(tmux_install_instructions("macos").starts_with("Homebrew:  brew"));
    assert!(tmux_install_instructions("windows").starts_with("WSL (Debian/Ubuntu):"));
    assert_eq!(
        tmux_install_instructions("freebsd"),
        "  Please install tmux using your system's package manager.\n"
    );
}

#[test]
fn benign_errors() {
    assert!(is_benign_connection_error("error: connection closed before message completed"));
    assert!(is_benign_connection_error("Broken pipe (os error 32)"));
    assert!(!is_benign_connection_error("handshake failure"));
}

// ---------------------------------------------------------------- administration

#[test]
fn active_connections_registry() {
    let mut c = ActiveConnections::new();
    c.insert(s("a1"), s("1.1.1.1:1"));
    c.insert(s("b2"), s("2.2.2.2:2"));
    c.insert(s("a1"), s("3.3.3.3:3"));
    assert_eq!(
        c.list(),
        vec![
            ActiveConnInfo { id: s("a1"), addr: s("3.3.3.3:3") },
            ActiveConnInfo { id: s("b2"), addr: s("2.2.2.2:2") },
        ]
    );
    c.remove(&s("a1"));
    c.remove(&s("zz"));
    assert_eq!(c.list(), vec![ActiveConnInfo { id: s("b2"), addr: s("2.2.2.2:2") }]);
}

#[test]
fn admin_status_collects_everything() {
    let mut c = ActiveConnections::new();
    c.insert(s("id"), s("[::1]:5"));
    let mut h = ConnectionHistory::new();
    for k in 0..5u64 {
        h.record_failed_auth("5.5.5.5", 1_000 + k);
    }
    h.record_failed_auth("6.6.6.6", 1_000);
    let st = get_admin_status(&c, &h, 1_004);
    assert_eq!(st.connections.len(), 1);
    assert_eq!(st.banned_ips.len(), 1);
    assert_eq!(st.banned_ips[0].ip, "5.5.5.5");
    assert_eq!(st.banned_ips[0].expires_in_secs, 300);
}

#[test]
fn save_reports() {
    assert_eq!(save_report(&vec![]), "No active tmux sessions found to save.");
    assert_eq!(save_report(&vec![s("a"), s("b")]), "Successfully saved 2 session(s): a, b");
}

#[test]
fn certificate_is_generated() {
    let names = tailmux::tls::certificate_names();
    assert_eq!(names, vec![s("localhost"), s("127.0.0.1"), s("0.0.0.0")]);
    let (cert, key) = tailmux::tls::self_signed_certificate().unwrap();
    // DER sequences
    assert_eq!(cert[0], 0x30);
    assert_eq!(key[0], 0x30);
    assert!(cert.len() > 100 && key.len() > 30);
    // the subject alternative names: dNSName [2] "localhost", iPAddress [7] 127.0.0.1, 0.0.0.0
    let sans: Vec<u8> = [&[0x82u8, 9][..], b"localhost", &[0x87, 4, 127, 0, 0, 1], &[0x87, 4, 0, 0, 0, 0]].concat();
    assert!(cert.windows(sans.len()).any(|w| w == &sans[..]));
}
