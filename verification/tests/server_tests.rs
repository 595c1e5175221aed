use tailmux::config::tmux_install_instructions;
use tailmux::hex::hex_to_bytes;
use tailmux::rate_limit::ConnectionHistory;

#[test]
fn test_tmux_install_instructions_linux() {
    let msg = tmux_install_instructions("linux");
    assert!(msg.contains("apt install tmux"));
    assert!(msg.contains("dnf install tmux"));
    assert!(msg.contains("pacman -S tmux"));
    assert!(msg.contains("apk add tmux"));
    assert!(msg.contains("zypper install tmux"));
}

#[test]
fn test_tmux_install_instructions_macos() {
    let msg = tmux_install_instructions("macos");
    assert!(msg.contains("brew install tmux"));
    assert!(msg.contains("port install tmux"));
}

#[test]
fn test_tmux_install_instructions_windows() {
    let msg = tmux_install_instructions("windows");
    assert!(msg.contains("scoop install tmux"));
    assert!(msg.contains("choco install tmux"));
    assert!(msg.contains("apt install tmux"));
}

#[test]
fn test_tmux_install_instructions_unknown() {
    let msg = tmux_install_instructions("freebsd");
    assert!(msg.contains("package manager"));
}

#[test]
fn test_tmux_install_instructions_non_empty() {
    for os in &["linux", "macos", "windows", "freebsd", ""] {
        let msg = tmux_install_instructions(os);
        assert!(!msg.is_empty(), "Empty instructions for OS: {}", os);
    }
}

#[test]
fn test_hex_to_bytes() {
    assert_eq!(
        hex_to_bytes("001122aabbff").unwrap(),
        vec![0x00, 0x11, 0x22, 0xaa, 0xbb, 0xff]
    );
    assert_eq!(hex_to_bytes("").unwrap(), Vec::<u8>::new());
    assert!(hex_to_bytes("g").is_err());
    assert!(hex_to_bytes("0").is_err()); // odd length
}

#[test]
fn test_rate_limiting_ip_banning() {
    let mut history = ConnectionHistory::new();
    let test_ip = "127.0.0.99";
    let mut now: u64 = 1_000_000;

    // Initially not banned
    assert!(!history.is_ip_banned(test_ip, now));

    // Register 4 failures -> still not banned
    for _ in 0..4 {
        now += 100;
        history.record_failed_auth(test_ip, now);
        assert!(!history.is_ip_banned(test_ip, now));
    }

    // Register 5th failure -> now banned
    now += 100;
    history.record_failed_auth(test_ip, now);
    assert!(history.is_ip_banned(test_ip, now));

    // Record successful auth on banned IP should unban it
    history.record_successful_auth(test_ip);
    assert!(!history.is_ip_banned(test_ip, now));
}
