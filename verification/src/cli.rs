//! The command line: `server [--bind ADDR] [--password PW]`,
//! `client [--connect ADDR] [--password PW] [--session NAME]`, `save`, `restore`.
use vstd::prelude::*;

use crate::text::{append_str, str_eq};

verus! {

/// What the command line asks for.
#[derive(Debug, PartialEq, Eq)]
pub enum CliCommand {
    /// Print the usage text.
    Usage,
    /// Run the server on `bind`, with the password given on the command line, if any.
    Server { bind: String, password: Option<String> },
    /// Connect to `connect`.
    Client { connect: String, password: Option<String>, session: Option<String> },
    /// Save the tmux sessions.
    Save,
    /// Restore the saved tmux sessions.
    Restore,
}

/// A command line that cannot be followed.
#[derive(Debug, PartialEq, Eq)]
pub enum CliError {
    /// An option was last and has no value.
    MissingValue { flag: String },
    /// An argument that the subcommand does not know.
    UnknownArgument { arg: String },
    /// The value of `--bind` is no socket address.
    InvalidBindAddress,
    /// The value of `--connect` is no socket address.
    InvalidConnectAddress,
}

/// The mathematical value of a `CliCommand`.
pub enum CommandView {
    Usage,
    Server(Seq<char>, Option<Seq<char>>),
    Client(Seq<char>, Option<Seq<char>>, Option<Seq<char>>),
    Save,
    Restore,
}

/// The mathematical value of a `CliError`.
pub enum CliErrorView {
    MissingValue(Seq<char>),
    UnknownArgument(Seq<char>),
    InvalidBindAddress,
    InvalidConnectAddress,
}

impl View for CliCommand {
    type V = CommandView;

    open spec fn view(&self) -> CommandView {
        match self {
            CliCommand::Usage => CommandView::Usage,
            CliCommand::Server { bind, password } => CommandView::Server(bind@, opt_view(*password)),
            CliCommand::Client { connect, password, session } => CommandView::Client(
                connect@,
                opt_view(*password),
                opt_view(*session),
            ),
            CliCommand::Save => CommandView::Save,
            CliCommand::Restore => CommandView::Restore,
        }
    }
}

impl View for CliError {
    type V = CliErrorView;

    open spec fn view(&self) -> CliErrorView {
        match self {
            CliError::MissingValue { flag } => CliErrorView::MissingValue(flag@),
            CliError::UnknownArgument { arg } => CliErrorView::UnknownArgument(arg@),
            CliError::InvalidBindAddress => CliErrorView::InvalidBindAddress,
            CliError::InvalidConnectAddress => CliErrorView::InvalidConnectAddress,
        }
    }
}

/// The view of an optional string.
pub open spec fn opt_view(o: Option<String>) -> Option<Seq<char>> {
    match o {
        Some(s) => Some(s@),
        None => None,
    }
}

/// The address the server binds to when none is given.
pub open spec fn default_bind() -> Seq<char> {
    "[::]:7788"@
}

/// The address the client connects to when none is given.
pub open spec fn default_connect() -> Seq<char> {
    "127.0.0.1:7788"@
}

/// The options of `server` from position `i` on, with the values gathered so far. `addr_ok[k]`
/// tells whether argument `k` is a socket address. A later option overrides an earlier one.
pub open spec fn server_options(
    args: Seq<Seq<char>>,
    addr_ok: Seq<bool>,
    i: int,
    bind: Seq<char>,
    password: Option<Seq<char>>,
) -> Result<CommandView, CliErrorView>
    decreases args.len() - i,
{
    if i < 0 || i >= args.len() {
        Ok(CommandView::Server(bind, password))
    } else if args[i] == "--bind"@ {
        if i + 1 < args.len() {
            if addr_ok[i + 1] {
                server_options(args, addr_ok, i + 2, args[i + 1], password)
            } else {
                Err(CliErrorView::InvalidBindAddress)
            }
        } else {
            Err(CliErrorView::MissingValue("--bind"@))
        }
    } else if args[i] == "--password"@ {
        if i + 1 < args.len() {
            server_options(args, addr_ok, i + 2, bind, Some(args[i + 1]))
        } else {
            Err(CliErrorView::MissingValue("--password"@))
        }
    } else {
        Err(CliErrorView::UnknownArgument(args[i]))
    }
}

/// The options of `client` from position `i` on (see `server_options`).
pub open spec fn client_options(
    args: Seq<Seq<char>>,
    addr_ok: Seq<bool>,
    i: int,
    connect: Seq<char>,
    password: Option<Seq<char>>,
    session: Option<Seq<char>>,
) -> Result<CommandView, CliErrorView>
    decreases args.len() - i,
{
    if i < 0 || i >= args.len() {
        Ok(CommandView::Client(connect, password, session))
    } else if args[i] == "--connect"@ {
        if i + 1 < args.len() {
            if addr_ok[i + 1] {
                client_options(args, addr_ok, i + 2, args[i + 1], password, session)
            } else {
                Err(CliErrorView::InvalidConnectAddress)
            }
        } else {
            Err(CliErrorView::MissingValue("--connect"@))
        }
    } else if args[i] == "--password"@ {
        if i + 1 < args.len() {
            client_options(args, addr_ok, i + 2, connect, Some(args[i + 1]), session)
        } else {
            Err(CliErrorView::MissingValue("--password"@))
        }
    } else if args[i] == "--session"@ {
        if i + 1 < args.len() {
            client_options(args, addr_ok, i + 2, connect, password, Some(args[i + 1]))
        } else {
            Err(CliErrorView::MissingValue("--session"@))
        }
    } else {
        Err(CliErrorView::UnknownArgument(args[i]))
    }
}

/// The meaning of a whole command line (`args[0]` is the program). No subcommand, or one that
/// is unknown, asks for the usage text; `save` and `restore` ignore what follows them.
pub open spec fn parse_cli(args: Seq<Seq<char>>, addr_ok: Seq<bool>) -> Result<CommandView, CliErrorView> {
    if args.len() < 2 {
        Ok(CommandView::Usage)
    } else if args[1] == "server"@ {
        server_options(args, addr_ok, 2, default_bind(), None)
    } else if args[1] == "client"@ {
        client_options(args, addr_ok, 2, default_connect(), None, None)
    } else if args[1] == "save"@ {
        Ok(CommandView::Save)
    } else if args[1] == "restore"@ {
        Ok(CommandView::Restore)
    } else {
        Ok(CommandView::Usage)
    }
}

/// The views of a vector of strings.
pub open spec fn arg_views(args: Seq<String>) -> Seq<Seq<char>> {
    args.map_values(|s: String| s@)
}

/// Interprets the command line. `addr_ok[k]` tells whether `args[k]` parses as a socket
/// address; the addresses come back as given.
pub fn parse_command_line(args: &Vec<String>, addr_ok: &Vec<bool>) -> (r: Result<CliCommand, CliError>)
    requires
        addr_ok@.len() == args@.len(),
    ensures
        match r {
            Ok(c) => parse_cli(arg_views(args@), addr_ok@) == Ok::<CommandView, CliErrorView>(c@),
            Err(e) => parse_cli(arg_views(args@), addr_ok@) == Err::<CommandView, CliErrorView>(e@),
        },
{
    let ghost a = arg_views(args@);
    if args.len() < 2 {
        return Ok(CliCommand::Usage);
    }
    assert(a[1] == args@[1]@);
    let sub = args[1].as_str();
    if str_eq(sub, "server") {
        parse_server(args, addr_ok)
    } else if str_eq(sub, "client") {
        parse_client(args, addr_ok)
    } else if str_eq(sub, "save") {
        Ok(CliCommand::Save)
    } else if str_eq(sub, "restore") {
        Ok(CliCommand::Restore)
    } else {
        Ok(CliCommand::Usage)
    }
}

fn parse_server(args: &Vec<String>, addr_ok: &Vec<bool>) -> (r: Result<CliCommand, CliError>)
    requires
        addr_ok@.len() == args@.len(),
        args@.len() >= 2,
    ensures
        match r {
            Ok(c) => server_options(arg_views(args@), addr_ok@, 2, default_bind(), None) == Ok::<
                CommandView,
                CliErrorView,
            >(c@),
            Err(e) => server_options(arg_views(args@), addr_ok@, 2, default_bind(), None) == Err::<
                CommandView,
                CliErrorView,
            >(e@),
        },
{
    let ghost a = arg_views(args@);
    let mut bind: String = "[::]:7788".to_owned();
    let mut password: Option<String> = None;
    let mut i: usize = 2;
    while i < args.len()
        invariant
            a == arg_views(args@),
            addr_ok@.len() == args@.len(),
            2 <= i,
            server_options(a, addr_ok@, 2, default_bind(), None) == server_options(
                a,
                addr_ok@,
                i as int,
                bind@,
                opt_view(password),
            ),
        decreases args.len() - i,
    {
        assert(a[i as int] == args@[i as int]@);
        let arg = args[i].as_str();
        if str_eq(arg, "--bind") {
            if i + 1 < args.len() {
                if addr_ok[i + 1] {
                    assert(a[i + 1] == args@[i + 1]@);
                    bind = args[i + 1].clone();
                    i = i + 2;
                } else {
                    return Err(CliError::InvalidBindAddress);
                }
            } else {
                return Err(CliError::MissingValue { flag: "--bind".to_owned() });
            }
        } else if str_eq(arg, "--password") {
            if i + 1 < args.len() {
                assert(a[i + 1] == args@[i + 1]@);
                password = Some(args[i + 1].clone());
                i = i + 2;
            } else {
                return Err(CliError::MissingValue { flag: "--password".to_owned() });
            }
        } else {
            return Err(CliError::UnknownArgument { arg: args[i].clone() });
        }
    }
    Ok(CliCommand::Server { bind, password })
}

fn parse_client(args: &Vec<String>, addr_ok: &Vec<bool>) -> (r: Result<CliCommand, CliError>)
    requires
        addr_ok@.len() == args@.len(),
        args@.len() >= 2,
    ensures
        match r {
            Ok(c) => client_options(arg_views(args@), addr_ok@, 2, default_connect(), None, None)
                == Ok::<CommandView, CliErrorView>(c@),
            Err(e) => client_options(arg_views(args@), addr_ok@, 2, default_connect(), None, None)
                == Err::<CommandView, CliErrorView>(e@),
        },
{
    let ghost a = arg_views(args@);
    let mut connect: String = "127.0.0.1:7788".to_owned();
    let mut password: Option<String> = None;
    let mut session: Option<String> = None;
    let mut i: usize = 2;
    while i < args.len()
        invariant
            a == arg_views(args@),
            addr_ok@.len() == args@.len(),
            2 <= i,
            client_options(a, addr_ok@, 2, default_connect(), None, None) == client_options(
                a,
                addr_ok@,
                i as int,
                connect@,
                opt_view(password),
                opt_view(session),
            ),
        decreases args.len() - i,
    {
        assert(a[i as int] == args@[i as int]@);
        let arg = args[i].as_str();
        if str_eq(arg, "--connect") {
            if i + 1 < args.len() {
                if addr_ok[i + 1] {
                    assert(a[i + 1] == args@[i + 1]@);
                    connect = args[i + 1].clone();
                    i = i + 2;
                } else {
                    return Err(CliError::InvalidConnectAddress);
                }
            } else {
                return Err(CliError::MissingValue { flag: "--connect".to_owned() });
            }
        } else if str_eq(arg, "--password") {
            if i + 1 < args.len() {
                assert(a[i + 1] == args@[i + 1]@);
                password = Some(args[i + 1].clone());
                i = i + 2;
            } else {
                return Err(CliError::MissingValue { flag: "--password".to_owned() });
            }
        } else if str_eq(arg, "--session") {
            if i + 1 < args.len() {
                assert(a[i + 1] == args@[i + 1]@);
                session = Some(args[i + 1].clone());
                i = i + 2;
            } else {
                return Err(CliError::MissingValue { flag: "--session".to_owned() });
            }
        } else {
            return Err(CliError::UnknownArgument { arg: args[i].clone() });
        }
    }
    Ok(CliCommand::Client { connect, password, session })
}

/// Whether the subcommand needs tmux (it is checked before the options are read).
pub fn subcommand_requires_tmux(args: &Vec<String>) -> (r: bool)
    ensures
        r == (args@.len() >= 2 && (args@[1]@ == "server"@ || args@[1]@ == "save"@ || args@[1]@
            == "restore"@)),
{
    if args.len() < 2 {
        return false;
    }
    let sub = args[1].as_str();
    str_eq(sub, "server") || str_eq(sub, "save") || str_eq(sub, "restore")
}

impl CliError {
    /// The message that reports this error.
    pub fn message(&self) -> (s: String)
        ensures
            s@ == cli_error_message(self@),
    {
        match self {
            CliError::MissingValue { flag } => {
                let mut s = "Argument ".to_owned();
                append_str(&mut s, flag.as_str());
                append_str(&mut s, " requires a value");
                s
            },
            CliError::UnknownArgument { arg } => {
                let mut s = "Unknown argument: ".to_owned();
                append_str(&mut s, arg.as_str());
                s
            },
            CliError::InvalidBindAddress => "Invalid bind address (ex: 0.0.0.0:7788)".to_owned(),
            CliError::InvalidConnectAddress => "Invalid connection address (ex: 127.0.0.1:7788)".to_owned(),
        }
    }
}

/// The message text of each error.
pub open spec fn cli_error_message(e: CliErrorView) -> Seq<char> {
    match e {
        CliErrorView::MissingValue(flag) => "Argument "@ + flag + " requires a value"@,
        CliErrorView::UnknownArgument(arg) => "Unknown argument: "@ + arg,
        CliErrorView::InvalidBindAddress => "Invalid bind address (ex: 0.0.0.0:7788)"@,
        CliErrorView::InvalidConnectAddress => "Invalid connection address (ex: 127.0.0.1:7788)"@,
    }
}

// ---------------------------------------------------------------------------
// Laws of the command line
// ---------------------------------------------------------------------------

/// The value given to `flag` by the last of the options at positions `i`, `i + 2`, ... that
/// names it, if any (an option and its value take two positions).
pub open spec fn last_flag_value(args: Seq<Seq<char>>, i: int, flag: Seq<char>) -> Option<Seq<char>>
    decreases args.len() - i,
{
    if i < 0 || i + 1 >= args.len() {
        None
    } else {
        let later = last_flag_value(args, i + 2, flag);
        if later is Some {
            later
        } else if args[i] == flag {
            Some(args[i + 1])
        } else {
            None
        }
    }
}

/// The option at `j` is the last one at positions `i`, `i + 2`, ... that names `flag`, so it
/// gives the value; with no such option there is no value.
proof fn lemma_last_flag_value(args: Seq<Seq<char>>, i: int, flag: Seq<char>, j: int)
    requires
        0 <= i <= j,
        (j - i) % 2 == 0,
        j + 1 < args.len(),
        args[j] == flag,
        forall|k: int| j < k < args.len() && (k - j) % 2 == 0 ==> args[k] != flag,
    ensures
        last_flag_value(args, i, flag) == Some(args[j + 1]),
    decreases args.len() - i,
{
    lemma_no_flag_value(args, j + 2, flag);
    if i < j {
        lemma_last_flag_value(args, i + 2, flag, j);
    }
}

proof fn lemma_no_flag_value(args: Seq<Seq<char>>, i: int, flag: Seq<char>)
    requires
        0 <= i,
        forall|k: int| i <= k < args.len() && (k - i) % 2 == 0 ==> args[k] != flag,
    ensures
        last_flag_value(args, i, flag) is None,
    decreases args.len() - i,
{
    if i + 1 < args.len() {
        assert forall|k: int| i + 2 <= k < args.len() && (k - (i + 2)) % 2 == 0 implies args[k]
            != flag by {
            assert((k - i) % 2 == 0);
        }
        lemma_no_flag_value(args, i + 2, flag);
    }
}

/// The value, or the default when there is none.
pub open spec fn value_or(v: Option<Seq<char>>, default: Seq<char>) -> Seq<char> {
    match v {
        Some(x) => x,
        None => default,
    }
}

/// Either the given value or the one before.
pub open spec fn option_or(v: Option<Seq<char>>, before: Option<Seq<char>>) -> Option<Seq<char>> {
    match v {
        Some(x) => Some(x),
        None => before,
    }
}

proof fn lemma_flags_distinct()
    ensures
        "--connect"@ != "--password"@,
        "--connect"@ != "--session"@,
        "--password"@ != "--session"@,
        "--bind"@ != "--password"@,
        "client"@ != "server"@,
{
    reveal_strlit("--connect");
    reveal_strlit("--password");
    reveal_strlit("--session");
    reveal_strlit("--bind");
    reveal_strlit("client");
    reveal_strlit("server");
    assert("--connect"@.len() != "--password"@.len());
    assert("--connect"@[2] != "--session"@[2]);
    assert("--password"@.len() != "--session"@.len());
    assert("--bind"@.len() != "--password"@.len());
    assert("client"@[0] != "server"@[0]);
}

proof fn lemma_client_values(
    args: Seq<Seq<char>>,
    ok: Seq<bool>,
    i: int,
    connect: Seq<char>,
    password: Option<Seq<char>>,
    session: Option<Seq<char>>,
)
    requires
        0 <= i,
        ok.len() == args.len(),
        client_options(args, ok, i, connect, password, session) is Ok,
    ensures
        client_options(args, ok, i, connect, password, session) == Ok::<CommandView, CliErrorView>(
            CommandView::Client(
                value_or(last_flag_value(args, i, "--connect"@), connect),
                option_or(last_flag_value(args, i, "--password"@), password),
                option_or(last_flag_value(args, i, "--session"@), session),
            ),
        ),
    decreases args.len() - i,
{
    lemma_flags_distinct();
    if i < args.len() {
        if args[i] == "--connect"@ {
            lemma_client_values(args, ok, i + 2, args[i + 1], password, session);
        } else if args[i] == "--password"@ {
            lemma_client_values(args, ok, i + 2, connect, Some(args[i + 1]), session);
        } else {
            lemma_client_values(args, ok, i + 2, connect, password, Some(args[i + 1]));
        }
    }
}

proof fn lemma_server_values(
    args: Seq<Seq<char>>,
    ok: Seq<bool>,
    i: int,
    bind: Seq<char>,
    password: Option<Seq<char>>,
)
    requires
        0 <= i,
        ok.len() == args.len(),
        server_options(args, ok, i, bind, password) is Ok,
    ensures
        server_options(args, ok, i, bind, password) == Ok::<CommandView, CliErrorView>(
            CommandView::Server(
                value_or(last_flag_value(args, i, "--bind"@), bind),
                option_or(last_flag_value(args, i, "--password"@), password),
            ),
        ),
    decreases args.len() - i,
{
    lemma_flags_distinct();
    if i < args.len() {
        if args[i] == "--bind"@ {
            lemma_server_values(args, ok, i + 2, args[i + 1], password);
        } else {
            lemma_server_values(args, ok, i + 2, bind, Some(args[i + 1]));
        }
    }
}

/// On an accepted `client` command line, each option takes the value of the last time it is
/// given (options sit at positions 2, 4, ... with their values after them): `--connect A`
/// connects to `A`, `--password P` and `--session S` are passed on; an option never given
/// leaves the address at `127.0.0.1:7788` and the password and session unset.
pub proof fn law_client_options_take_given_values(args: Seq<Seq<char>>, addr_ok: Seq<bool>, j: int)
    requires
        addr_ok.len() == args.len(),
        args.len() >= 2,
        args[1] == "client"@,
        parse_cli(args, addr_ok) is Ok,
    ensures
        ({
            let given = |flag: Seq<char>|
                {
                    &&& 2 <= j && j % 2 == 0 && j + 1 < args.len() && args[j] == flag
                    &&& forall|k: int| j < k < args.len() && k % 2 == 0 ==> args[k] != flag
                };
            let absent = |flag: Seq<char>|
                forall|k: int| 2 <= k < args.len() && k % 2 == 0 ==> args[k] != flag;
            parse_cli(args, addr_ok) matches Ok(CommandView::Client(c, p, s)) && {
                &&& given("--connect"@) ==> c == args[j + 1]
                &&& absent("--connect"@) ==> c == "127.0.0.1:7788"@
                &&& given("--password"@) ==> p == Some(args[j + 1])
                &&& absent("--password"@) ==> p is None
                &&& given("--session"@) ==> s == Some(args[j + 1])
                &&& absent("--session"@) ==> s is None
            }
        }),
{
    lemma_flags_distinct();
    lemma_client_values(args, addr_ok, 2, default_connect(), None, None);
    lemma_client_flag(args, j, "--connect"@);
    lemma_client_flag(args, j, "--password"@);
    lemma_client_flag(args, j, "--session"@);
}

proof fn lemma_client_flag(args: Seq<Seq<char>>, j: int, flag: Seq<char>)
    ensures
        (2 <= j && j % 2 == 0 && j + 1 < args.len() && args[j] == flag && forall|k: int|
            j < k < args.len() && k % 2 == 0 ==> args[k] != flag) ==> last_flag_value(args, 2, flag)
            == Some(args[j + 1]),
        (forall|k: int| 2 <= k < args.len() && k % 2 == 0 ==> args[k] != flag) ==> last_flag_value(
            args,
            2,
            flag,
        ) is None,
{
    if 2 <= j && j % 2 == 0 && j + 1 < args.len() && args[j] == flag && forall|k: int|
        j < k < args.len() && k % 2 == 0 ==> args[k] != flag {
        assert forall|k: int| j < k < args.len() && (k - j) % 2 == 0 implies args[k] != flag by {
            assert(k % 2 == 0);
        }
        lemma_last_flag_value(args, 2, flag, j);
    }
    if forall|k: int| 2 <= k < args.len() && k % 2 == 0 ==> args[k] != flag {
        assert forall|k: int| 2 <= k < args.len() && (k - 2) % 2 == 0 implies args[k] != flag by {
            assert(k % 2 == 0);
        }
        lemma_no_flag_value(args, 2, flag);
    }
}

/// On an accepted `server` command line, `--bind A` binds to `A` and `--password P` sets the
/// password, the last time each is given; without them the server binds to `[::]:7788` with
/// no password given.
pub proof fn law_server_options_take_given_values(args: Seq<Seq<char>>, addr_ok: Seq<bool>, j: int)
    requires
        addr_ok.len() == args.len(),
        args.len() >= 2,
        args[1] == "server"@,
        parse_cli(args, addr_ok) is Ok,
    ensures
        ({
            let given = |flag: Seq<char>|
                {
                    &&& 2 <= j && j % 2 == 0 && j + 1 < args.len() && args[j] == flag
                    &&& forall|k: int| j < k < args.len() && k % 2 == 0 ==> args[k] != flag
                };
            let absent = |flag: Seq<char>|
                forall|k: int| 2 <= k < args.len() && k % 2 == 0 ==> args[k] != flag;
            parse_cli(args, addr_ok) matches Ok(CommandView::Server(b, p)) && {
                &&& given("--bind"@) ==> b == args[j + 1]
                &&& absent("--bind"@) ==> b == "[::]:7788"@
                &&& given("--password"@) ==> p == Some(args[j + 1])
                &&& absent("--password"@) ==> p is None
            }
        }),
{
    lemma_server_values(args, addr_ok, 2, default_bind(), None);
    lemma_client_flag(args, j, "--bind"@);
    lemma_client_flag(args, j, "--password"@);
}

} // verus!
