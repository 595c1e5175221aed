//! Server setup: where the configuration lives, which password the server uses, the random
//! names and challenges it makes, and the tmux install help.
use vstd::prelude::*;

use crate::hex::{bytes_to_hex, hex_encode};
use crate::random::{random_in_range, random_u64};
use crate::sessions::{
    chars_listed, client_session_name, client_session_name_of, name_chars, string_views,
};
use crate::text::{
    append_str, chars_of, contains_seq, hex_digits, push_char, push_hex, seqs_of, str_contains, str_eq,
    string_from_chars, trim, trim_chars,
};

verus! {

// ---------------------------------------------------------------------------
// Paths
// ---------------------------------------------------------------------------

/// `base` with the relative component `comp` appended, as `PathBuf::push` does on Unix: a
/// separator goes between them unless `base` is empty or already ends with one.
pub open spec fn path_join(base: Seq<char>, comp: Seq<char>) -> Seq<char> {
    if base.len() == 0 {
        comp
    } else if base.last() == '/' {
        base + comp
    } else {
        base + seq!['/'] + comp
    }
}

/// The configuration directory for a home directory (the current directory if there is none).
pub open spec fn config_dir_from(home: Option<Seq<char>>) -> Seq<char> {
    let base = match home {
        Some(h) => h,
        None => "."@,
    };
    path_join(path_join(base, ".config"@), "tailmux"@)
}

/// The file that holds the access password.
pub open spec fn password_file_from(home: Option<Seq<char>>) -> Seq<char> {
    path_join(config_dir_from(home), "password.txt"@)
}

/// The file that holds the session snapshot.
pub open spec fn sessions_file_from(home: Option<Seq<char>>) -> Seq<char> {
    path_join(config_dir_from(home), "sessions.json"@)
}

/// The user's home directory from `dirs_next::home_dir`, as text (non-UTF-8 parts replaced).
/// It depends on the environment; nothing is promised of it.
#[verifier::external_body]
fn home_dir() -> Option<String> {
    match dirs_next::home_dir() {
        Some(p) => Some(p.to_string_lossy().into_owned()),
        None => None,
    }
}

/// Appends a path component (see `path_join`).
pub fn push_path(base: &mut String, comp: &str)
    ensures
        final(base)@ == path_join(old(base)@, comp@),
{
    let v = chars_of(base.as_str());
    if v.len() == 0 {
        append_str(base, comp);
    } else if v[v.len() - 1] == '/' {
        append_str(base, comp);
    } else {
        push_char(base, '/');
        append_str(base, comp);
        assert(base@ =~= old(base)@ + seq!['/'] + comp@);
    }
}

/// The configuration directory for the given home directory.
pub fn config_dir_for(home: Option<String>) -> (p: String)
    ensures
        p@ == config_dir_from(crate::cli::opt_view(home)),
{
    let mut p = match home {
        Some(h) => h,
        None => ".".to_owned(),
    };
    push_path(&mut p, ".config");
    push_path(&mut p, "tailmux");
    p
}

/// The configuration directory, `~/.config/tailmux`.
pub fn get_config_dir() -> (p: String)
    ensures
        exists|home: Option<Seq<char>>| p@ == config_dir_from(home),
{
    let home = home_dir();
    config_dir_for(home)
}

/// The file of the access password, `~/.config/tailmux/password.txt`.
pub fn get_password_file_path() -> (p: String)
    ensures
        exists|home: Option<Seq<char>>| p@ == password_file_from(home),
{
    let home = home_dir();
    let ghost h = crate::cli::opt_view(home);
    let mut p = config_dir_for(home);
    push_path(&mut p, "password.txt");
    assert(p@ == password_file_from(h));
    p
}

/// The file of the session snapshot, `~/.config/tailmux/sessions.json`.
pub fn get_sessions_file_path() -> (p: String)
    ensures
        exists|home: Option<Seq<char>>| p@ == sessions_file_from(home),
{
    let home = home_dir();
    let ghost h = crate::cli::opt_view(home);
    let mut p = config_dir_for(home);
    push_path(&mut p, "sessions.json");
    assert(p@ == sessions_file_from(h));
    p
}

// ---------------------------------------------------------------------------
// Access password
// ---------------------------------------------------------------------------

/// The length of a generated password.
pub const PASSWORD_LEN: usize = 6;

/// The character for a value below 36: `0`-`9`, then `A`-`Z`.
pub open spec fn password_char(idx: nat) -> char {
    if idx < 10 {
        ((idx + 48) as u8) as char
    } else {
        ((idx + 55) as u8) as char
    }
}

/// A character that a generated password may hold.
pub open spec fn is_password_char(c: char) -> bool {
    ('0' <= c <= '9') || ('A' <= c <= 'Z')
}

/// The password spelled by the given values (each below 36).
pub open spec fn password_from(idx: Seq<u64>) -> Seq<char> {
    Seq::new(idx.len(), |i: int| password_char(idx[i] as nat))
}

/// The character for a value below 36.
pub fn password_char_of(idx: u64) -> (c: char)
    requires
        idx < 36,
    ensures
        c == password_char(idx as nat),
        is_password_char(c),
{
    if idx < 10 {
        ((idx + 48) as u8) as char
    } else {
        ((idx + 55) as u8) as char
    }
}

/// The password spelled by the given values.
pub fn password_from_indices(idx: &Vec<u64>) -> (p: String)
    requires
        forall|i: int| 0 <= i < idx@.len() ==> idx@[i] < 36,
    ensures
        p@ == password_from(idx@),
{
    let mut p = String::new();
    let mut i: usize = 0;
    while i < idx.len()
        invariant
            i <= idx@.len(),
            forall|k: int| 0 <= k < idx@.len() ==> idx@[k] < 36,
            p@ == password_from(idx@.take(i as int)),
        decreases idx.len() - i,
    {
        let c = password_char_of(idx[i]);
        push_char(&mut p, c);
        i = i + 1;
        assert(p@ =~= password_from(idx@.take(i as int)));
    }
    assert(idx@.take(idx@.len() as int) =~= idx@);
    p
}

/// A random six-character password of digits and capital letters.
pub fn generate_password() -> (p: String)
    ensures
        p@.len() == PASSWORD_LEN,
        forall|i: int| 0 <= i < p@.len() ==> is_password_char(#[trigger] p@[i]),
        exists|idx: Seq<u64>| p@ == password_from(idx),
{
    let mut idx: Vec<u64> = Vec::new();
    let mut k: usize = 0;
    while k < PASSWORD_LEN
        invariant
            k <= PASSWORD_LEN,
            idx@.len() == k,
            forall|i: int| 0 <= i < idx@.len() ==> idx@[i] < 36,
        decreases PASSWORD_LEN - k,
    {
        let v = random_in_range(0, 36);
        idx.push(v);
        k = k + 1;
    }
    let p = password_from_indices(&idx);
    assert forall|i: int| 0 <= i < p@.len() implies is_password_char(#[trigger] p@[i]) by {
        assert(p@[i] == password_char(idx@[i] as nat));
    }
    p
}

/// The password the server starts with: the one in the password file when it holds one
/// (trimmed, not empty), else the one given on the command line, else a new random one.
/// The flag tells whether the password is to be written to the password file.
pub fn resolve_password(file_content: Option<String>, provided: Option<String>) -> (r: (String, bool))
    ensures
        match file_content {
            Some(c) if trim(c@).len() > 0 => r.0@ == trim(c@) && !r.1,
            _ => r.1 && match provided {
                Some(p) => r.0 == p,
                None => r.0@.len() == PASSWORD_LEN && forall|i: int|
                    0 <= i < r.0@.len() ==> is_password_char(#[trigger] r.0@[i]),
            },
        },
{
    match &file_content {
        Some(c) => {
            let v = chars_of(c.as_str());
            let t = trim_chars(&v);
            if t.len() > 0 {
                return (string_from_chars(&t), false);
            }
        },
        None => {},
    }
    match provided {
        Some(p) => (p, true),
        None => (generate_password(), true),
    }
}

// ---------------------------------------------------------------------------
// Random identifiers
// ---------------------------------------------------------------------------

/// The number of random bytes in a challenge salt.
pub const SALT_BYTES: usize = 16;

/// The identifier of a connection with random value `x`: `x` in lowercase hexadecimal.
pub fn connection_id_from(x: u64) -> (id: String)
    ensures
        id@ == hex_digits(x as nat),
{
    let mut v: Vec<char> = Vec::new();
    push_hex(&mut v, x);
    assert(v@ =~= hex_digits(x as nat));
    string_from_chars(&v)
}

/// A new random connection identifier.
pub fn new_connection_id() -> (id: String)
    ensures
        exists|x: u64| id@ == hex_digits(x as nat),
{
    connection_id_from(random_u64())
}

/// A new random challenge salt: sixteen random bytes in hexadecimal.
pub fn new_salt() -> (salt: String)
    ensures
        exists|b: Seq<u8>| b.len() == SALT_BYTES && salt@ == hex_encode(b),
{
    let mut bytes: Vec<u8> = Vec::new();
    let mut k: usize = 0;
    while k < SALT_BYTES
        invariant
            k <= SALT_BYTES,
            bytes@.len() == k,
        decreases SALT_BYTES - k,
    {
        let b = random_in_range(0, 256);
        bytes.push(b as u8);
        k = k + 1;
    }
    bytes_to_hex(bytes.as_slice())
}

/// The per-client session names are numbered from this number on.
pub const CLIENT_ID_MIN: u64 = 1000;

/// The per-client session names are numbered below this number.
pub const CLIENT_ID_END: u64 = 9999;

/// A new per-client session name for base session `base` that is none of the `existing`
/// session names: a random number from 1000 to 9998 is tried first, and where that name is
/// taken, the numbers in order. `None` when every such name is taken.
pub fn new_client_session_name(base: &str, existing: &Vec<String>) -> (name: Option<String>)
    ensures
        match name {
            Some(n) => {
                &&& exists|id: nat|
                    CLIENT_ID_MIN <= id < CLIENT_ID_END && n@ == client_session_name_of(base@, id)
                &&& !string_views(existing@).contains(n@)
            },
            None => forall|id: nat|
                CLIENT_ID_MIN <= id < CLIENT_ID_END ==> string_views(existing@).contains(
                    #[trigger] client_session_name_of(base@, id),
                ),
        },
{
    let taken = name_chars(existing);
    let first = random_in_range(CLIENT_ID_MIN, CLIENT_ID_END);
    let candidate = client_session_name(base, first);
    if !chars_listed(&taken, &chars_of(candidate.as_str())) {
        return Some(candidate);
    }
    let mut id: u64 = CLIENT_ID_MIN;
    while id < CLIENT_ID_END
        invariant
            CLIENT_ID_MIN <= id <= CLIENT_ID_END,
            seqs_of(taken@) == string_views(existing@),
            forall|j: nat|
                CLIENT_ID_MIN <= j < id ==> string_views(existing@).contains(
                    #[trigger] client_session_name_of(base@, j),
                ),
        decreases CLIENT_ID_END - id,
    {
        let candidate = client_session_name(base, id);
        if !chars_listed(&taken, &chars_of(candidate.as_str())) {
            return Some(candidate);
        }
        id = id + 1;
    }
    None
}

// ---------------------------------------------------------------------------
// Messages
// ---------------------------------------------------------------------------

/// A connection error that only says the client went away, which is not worth reporting.
pub open spec fn is_benign_error(msg: Seq<char>) -> bool {
    contains_seq(msg, "connection closed"@) || contains_seq(msg, "Broken pipe"@)
}

/// Whether a connection error only says that the client went away.
pub fn is_benign_connection_error(msg: &str) -> (b: bool)
    ensures
        b == is_benign_error(msg@),
{
    str_contains(msg, "connection closed") || str_contains(msg, "Broken pipe")
}

/// How to install tmux on the given operating system (as `std::env::consts::OS` names it).
pub open spec fn install_text(os: Seq<char>) -> Seq<char> {
    if os == "linux"@ {
        LINUX_INSTALL@
    } else if os == "macos"@ {
        MACOS_INSTALL@
    } else if os == "windows"@ {
        WINDOWS_INSTALL@
    } else {
        OTHER_INSTALL@
    }
}

/// Install help for Linux.
pub const LINUX_INSTALL: &'static str = "Debian/Ubuntu:  sudo apt install tmux
  Fedora/RHEL:    sudo dnf install tmux
  Arch Linux:     sudo pacman -S tmux
  Alpine:         apk add tmux
  openSUSE:       sudo zypper install tmux
";

/// Install help for macOS.
pub const MACOS_INSTALL: &'static str = "Homebrew:  brew install tmux
  MacPorts:  sudo port install tmux
";

/// Install help for Windows.
pub const WINDOWS_INSTALL: &'static str = "WSL (Debian/Ubuntu):  sudo apt install tmux
  Scoop:               scoop install tmux
  Chocolatey:          choco install tmux
";

/// Install help for any other system.
pub const OTHER_INSTALL: &'static str = "  Please install tmux using your system's package manager.\n";

/// How to install tmux on the given operating system.
pub fn tmux_install_instructions(os: &str) -> (s: String)
    ensures
        s@ == install_text(os@),
{
    if str_eq(os, "linux") {
        LINUX_INSTALL.to_owned()
    } else if str_eq(os, "macos") {
        MACOS_INSTALL.to_owned()
    } else if str_eq(os, "windows") {
        WINDOWS_INSTALL.to_owned()
    } else {
        OTHER_INSTALL.to_owned()
    }
}

} // verus!

verus! {

/// A password without white space at either end is read back from the password file as it
/// was written, so the server keeps it across restarts.
pub proof fn law_saved_password_reloads(p: Seq<char>)
    requires
        p.len() > 0,
        !crate::text::is_space_char(p[0]),
        !crate::text::is_space_char(p.last()),
    ensures
        trim(p) == p,
        trim(p).len() > 0,
{
    assert(crate::text::trim_start(p) == p);
}

/// A generated password has no white space, so it too survives a restart.
pub proof fn law_generated_password_reloads(p: Seq<char>)
    requires
        p.len() == PASSWORD_LEN,
        forall|i: int| 0 <= i < p.len() ==> is_password_char(#[trigger] p[i]),
    ensures
        trim(p) == p,
{
    assert(is_password_char(p[0]));
    assert(is_password_char(p[p.len() - 1]));
    law_saved_password_reloads(p);
}

} // verus!
