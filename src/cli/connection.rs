//! Parsing `user@host[:port][:/path]` connection strings, and building
//! connection parameters.
use vstd::prelude::*;

use crate::connection::session::{ConnectionParams, ParamsSpec};
use crate::metadata::opt_view;
use crate::server_registry::{AuthMethod, EntrySpec, ServerEntry};
use crate::text::{chars_of, decimal, digit_char, find_char, find_from, lemma_find_char, has_prefix, push_char, push_range, push_str, string_of_range};

verus! {

/// The default SSH port.
pub const DEFAULT_PORT: u16 = 22;

/// The default remote path: the remote user's home.
pub open spec fn home_path() -> Seq<char> {
    seq!['~']
}

/// Parsed SSH connection details.
#[derive(Debug, Clone)]
pub struct ConnectionInfo {
    pub user: String,
    pub host: String,
    pub port: u16,
    pub remote_path: String,
}

/// The fields of a `ConnectionInfo`, over plain values.
pub ghost struct InfoSpec {
    pub user: Seq<char>,
    pub host: Seq<char>,
    pub port: u16,
    pub remote_path: Seq<char>,
}

impl View for ConnectionInfo {
    type V = InfoSpec;

    open spec fn view(&self) -> InfoSpec {
        InfoSpec {
            user: self.user@,
            host: self.host@,
            port: self.port,
            remote_path: self.remote_path@,
        }
    }
}

/// Why a connection string was rejected.
#[derive(Debug, Clone, PartialEq, Eq)]
pub enum ConnectionStringError {
    /// No `@` before the first `:`.
    MissingAt,
    /// Nothing before the `@`.
    EmptyUser,
    /// Nothing between the `@` and the first `:`.
    EmptyHost,
    /// The text between the first and second `:` is not a port number.
    InvalidPort(String),
    /// The text after the port is neither empty nor an absolute path.
    PathNotAbsolute,
    /// The text after the first `:` is neither a port number nor an
    /// absolute path.
    NotPortOrPath(String),
    /// A port override of 0.
    ZeroPortOverride,
}

/// The same errors over plain values.
pub enum ErrorSpec {
    MissingAt,
    EmptyUser,
    EmptyHost,
    InvalidPort(Seq<char>),
    PathNotAbsolute,
    NotPortOrPath(Seq<char>),
    ZeroPortOverride,
}

impl View for ConnectionStringError {
    type V = ErrorSpec;

    open spec fn view(&self) -> ErrorSpec {
        match self {
            ConnectionStringError::MissingAt => ErrorSpec::MissingAt,
            ConnectionStringError::EmptyUser => ErrorSpec::EmptyUser,
            ConnectionStringError::EmptyHost => ErrorSpec::EmptyHost,
            ConnectionStringError::InvalidPort(s) => ErrorSpec::InvalidPort(s@),
            ConnectionStringError::PathNotAbsolute => ErrorSpec::PathNotAbsolute,
            ConnectionStringError::NotPortOrPath(s) => ErrorSpec::NotPortOrPath(s@),
            ConnectionStringError::ZeroPortOverride => ErrorSpec::ZeroPortOverride,
        }
    }
}

/// The description of each rejection.
pub open spec fn error_text(e: ErrorSpec) -> Seq<char> {
    match e {
        ErrorSpec::InvalidPort(p) => "Invalid port number: "@ + p,
        ErrorSpec::ZeroPortOverride => "Invalid port number: 0"@,
        _ => "Invalid connection string: "@ + match e {
            ErrorSpec::MissingAt => "missing '@' in user@host"@,
            ErrorSpec::EmptyUser => "empty username"@,
            ErrorSpec::EmptyHost => "empty hostname"@,
            ErrorSpec::PathNotAbsolute => "path must start with '/'"@,
            ErrorSpec::NotPortOrPath(p) => seq!['\''] + p + "' is not a port number or path"@,
            ErrorSpec::InvalidPort(p) => p,
            ErrorSpec::ZeroPortOverride => seq![],
        },
    }
}

impl ConnectionStringError {
    /// A human-readable description of the error.
    pub fn message(&self) -> (r: String)
        ensures
            r@ == error_text(self@),
    {
        let mut r = String::new();
        if let ConnectionStringError::ZeroPortOverride = self {
            push_str(&mut r, "Invalid port number: 0");
            return r;
        }
        if let ConnectionStringError::InvalidPort(p) = self {
            push_str(&mut r, "Invalid port number: ");
            push_str(&mut r, p.as_str());
            return r;
        }
        push_str(&mut r, "Invalid connection string: ");
        match self {
            ConnectionStringError::MissingAt => push_str(&mut r, "missing '@' in user@host"),
            ConnectionStringError::EmptyUser => push_str(&mut r, "empty username"),
            ConnectionStringError::EmptyHost => push_str(&mut r, "empty hostname"),
            ConnectionStringError::InvalidPort(p) => push_str(&mut r, p.as_str()),
            ConnectionStringError::ZeroPortOverride => {},
            ConnectionStringError::PathNotAbsolute => push_str(&mut r, "path must start with '/'"),
            ConnectionStringError::NotPortOrPath(p) => {
                push_char(&mut r, '\'');
                push_str(&mut r, p.as_str());
                push_str(&mut r, "' is not a port number or path");
            },
        }
        assert(r@ =~= error_text(self@));
        r
    }
}

/// Whether `c` is an ASCII decimal digit.
pub open spec fn is_digit(c: char) -> bool {
    '0' <= c && c <= '9'
}

/// The value of a string of decimal digits.
pub open spec fn digits_value(s: Seq<char>) -> nat
    decreases s.len(),
{
    if s.len() == 0 {
        0
    } else {
        10 * digits_value(s.drop_last()) + ((s.last() as nat) - ('0' as nat)) as nat
    }
}

/// Whether every character of `d` is a decimal digit.
pub open spec fn all_digits(d: Seq<char>) -> bool {
    forall|i: int| 0 <= i < d.len() ==> is_digit(#[trigger] d[i])
}

/// The port that `s` spells: one or more decimal digits whose value lies in
/// 1–65535.
pub open spec fn port_of(s: Seq<char>) -> Option<u16> {
    if s.len() > 0 && all_digits(s) && 1 <= digits_value(s) <= 65535 {
        Some(digits_value(s) as u16)
    } else {
        None
    }
}

/// Parses `v[from..to]` as a port number.
fn parse_port(v: &Vec<char>, from: usize, to: usize) -> (r: Option<u16>)
    requires
        from <= to <= v@.len(),
    ensures
        r == port_of(v@.subrange(from as int, to as int)),
{
    let ghost s = v@.subrange(from as int, to as int);
    let start = from;
    let ghost d = v@.subrange(start as int, to as int);
    if start == to {
        return None;
    }
    let mut value: u32 = 0;
    let mut k = start;
    while k < to
        invariant
            from <= start <= k <= to <= v@.len(),
            d == v@.subrange(start as int, to as int),
            s == v@.subrange(from as int, to as int),
            d == s,
            forall|i: int| start <= i < k ==> is_digit(v@[i]),
            value as nat == if digits_value(v@.subrange(start as int, k as int)) > 65536 {
                65536
            } else {
                digits_value(v@.subrange(start as int, k as int))
            },
        decreases to - k,
    {
        let c = v[k];
        if !('0' <= c && c <= '9') {
            assert(d[k - start] == c);
            assert(!is_digit(d[k - start]));
            assert(port_of(s).is_none());
            return None;
        }
        let ghost prev = v@.subrange(start as int, k as int);
        assert(v@.subrange(start as int, k + 1).drop_last() =~= prev);
        let dv = (c as u32) - ('0' as u32);
        let next = value * 10 + dv;
        value = if next > 65536 { 65536 } else { next };
        k = k + 1;
        proof {
            let nv = digits_value(v@.subrange(start as int, k as int));
            assert(nv == 10 * digits_value(prev) + dv);
        }
    }
    assert(v@.subrange(start as int, k as int) =~= d);
    if value > 65535 || value == 0 {
        None
    } else {
        Some(value as u16)
    }
}

/// What the text after the first `:` gives: nothing means the default port
/// and path `~`; an absolute path keeps the default port; `port:/path` gives
/// both; a bare port gives the path `~`.
pub open spec fn port_and_path(rest: Seq<char>) -> Result<(u16, Seq<char>), ErrorSpec> {
    if rest.len() == 0 {
        Ok((DEFAULT_PORT, home_path()))
    } else if rest[0] == '/' {
        Ok((DEFAULT_PORT, rest))
    } else {
        let c2 = find_char(rest, ':');
        if c2 < rest.len() {
            let port_str = rest.take(c2 as int);
            let path = rest.skip(c2 as int + 1);
            match port_of(port_str) {
                None => Err(ErrorSpec::InvalidPort(port_str)),
                Some(p) => if path.len() > 0 && path[0] == '/' {
                    Ok((p, path))
                } else {
                    Err(ErrorSpec::PathNotAbsolute)
                },
            }
        } else {
            match port_of(rest) {
                None => Err(ErrorSpec::NotPortOrPath(rest)),
                Some(p) => Ok((p, home_path())),
            }
        }
    }
}

/// Reads the port and path from `v[rs..n]`.
fn parse_port_and_path(v: &Vec<char>, rs: usize, n: usize) -> (r: Result<
    (u16, String),
    ConnectionStringError,
>)
    requires
        rs <= n == v@.len(),
    ensures
        match r {
            Ok((p, path)) => port_and_path(v@.subrange(rs as int, n as int)) == Ok::<
                (u16, Seq<char>),
                ErrorSpec,
            >((p, path@)),
            Err(e) => port_and_path(v@.subrange(rs as int, n as int)) == Err::<
                (u16, Seq<char>),
                ErrorSpec,
            >(e@),
        },
{
    let ghost rest = v@.subrange(rs as int, n as int);
    if rs == n {
        return Ok((DEFAULT_PORT, home_string()));
    }
    if v[rs] == '/' {
        return Ok((DEFAULT_PORT, string_of_range(v, rs, n)));
    }
    let c2 = find_from(v, rs, n, ':');
    if c2 < n {
        assert(rest.take(c2 - rs) =~= v@.subrange(rs as int, c2 as int));
        assert(rest.skip(c2 - rs + 1) =~= v@.subrange(c2 + 1, n as int));
        match parse_port(v, rs, c2) {
            None => Err(ConnectionStringError::InvalidPort(string_of_range(v, rs, c2))),
            Some(p) => {
                if c2 + 1 < n && v[c2 + 1] == '/' {
                    Ok((p, string_of_range(v, c2 + 1, n)))
                } else {
                    Err(ConnectionStringError::PathNotAbsolute)
                }
            },
        }
    } else {
        match parse_port(v, rs, n) {
            None => Err(ConnectionStringError::NotPortOrPath(string_of_range(v, rs, n))),
            Some(p) => Ok((p, home_string())),
        }
    }
}

/// What a connection string parses to, given an optional port override.
///
/// The string is cut at its first `:` into `user@host` and the rest, and
/// `user@host` at its first `@`; both parts must be non-empty. The rest then
/// reads as: nothing, when there is no `:` (default port, path `~`); an
/// absolute path (default port); `port:/path`; or a bare port. A port is
/// decimal digits with a value in 1–65535; an override of 0 is refused.
pub open spec fn parsed_connection(conn: Seq<char>, port_override: Option<u16>) -> Result<
    InfoSpec,
    ErrorSpec,
> {
    let colon = find_char(conn, ':');
    let user_host = conn.take(colon as int);
    let rest = if colon < conn.len() { conn.skip(colon as int + 1) } else { seq![] };
    let at = find_char(user_host, '@');
    let user = user_host.take(at as int);
    let host = if at < user_host.len() { user_host.skip(at as int + 1) } else { seq![] };
    if at >= user_host.len() {
        Err(ErrorSpec::MissingAt)
    } else if user.len() == 0 {
        Err(ErrorSpec::EmptyUser)
    } else if host.len() == 0 {
        Err(ErrorSpec::EmptyHost)
    } else {
        let pp = if colon < conn.len() && rest.len() == 0 {
            Err(ErrorSpec::NotPortOrPath(rest))
        } else {
            port_and_path(rest)
        };
        match pp {
            Err(e) => Err(e),
            Ok(_) if port_override == Some(0u16) => Err(ErrorSpec::ZeroPortOverride),
            Ok((p, path)) => Ok(
                InfoSpec {
                    user,
                    host,
                    port: match port_override {
                        Some(o) => o,
                        None => p,
                    },
                    remote_path: path,
                },
            ),
        }
    }
}

/// Parses a connection string of the form `user@host`, `user@host:/path`,
/// `user@host:port` or `user@host:port:/path`. `port_override`, when given,
/// replaces the port.
pub fn parse_connection_string(conn: &str, port_override: Option<u16>) -> (r: Result<
    ConnectionInfo,
    ConnectionStringError,
>)
    ensures
        match r {
            Ok(info) => parsed_connection(conn@, port_override) == Ok::<InfoSpec, ErrorSpec>(info@),
            Err(e) => parsed_connection(conn@, port_override) == Err::<InfoSpec, ErrorSpec>(e@),
        },
{
    let v = chars_of(conn);
    let n = v.len();
    let colon = find_from(&v, 0, n, ':');
    assert(v@.subrange(0, n as int) =~= conn@);
    let ghost user_host = conn@.take(colon as int);
    assert(v@.subrange(0, colon as int) =~= user_host);
    let at = find_from(&v, 0, colon, '@');
    if at == colon {
        return Err(ConnectionStringError::MissingAt);
    }
    if at == 0 {
        return Err(ConnectionStringError::EmptyUser);
    }
    assert(user_host.skip(at + 1) =~= v@.subrange(at + 1, colon as int));
    if at + 1 == colon {
        return Err(ConnectionStringError::EmptyHost);
    }
    let user = string_of_range(&v, 0, at);
    let host = string_of_range(&v, at + 1, colon);
    assert(user_host.take(at as int) =~= user@);
    let rs = if colon < n { colon + 1 } else { n };
    let ghost rest = v@.subrange(rs as int, n as int);
    assert(rest =~= if colon < conn@.len() { conn@.skip(colon + 1) } else { seq![] });
    if colon < n && rs == n {
        return Err(ConnectionStringError::NotPortOrPath(string_of_range(&v, rs, n)));
    }
    let (port, remote_path) = match parse_port_and_path(&v, rs, n) {
        Ok(pp) => pp,
        Err(e) => return Err(e),
    };
    let port = match port_override {
        Some(0) => return Err(ConnectionStringError::ZeroPortOverride),
        Some(o) => o,
        None => port,
    };
    Ok(ConnectionInfo { user, host, port, remote_path })
}

/// The string `~`.
fn home_string() -> (r: String)
    ensures
        r@ == home_path(),
{
    let mut r = String::new();
    push_char(&mut r, '~');
    assert(r@ =~= home_path());
    r
}

/// The view of an optional string slice.
pub open spec fn str_opt(o: Option<&str>) -> Option<Seq<char>> {
    match o {
        Some(s) => Some(s@),
        None => None,
    }
}

/// `p` with a leading `~/` replaced by the home directory, when one is known.
pub open spec fn tilde_expanded(p: Seq<char>, home: Option<Seq<char>>) -> Seq<char> {
    match home {
        Some(h) => if has_prefix(p, seq!['~', '/']) {
            h + seq!['/'] + p.skip(2)
        } else {
            p
        },
        None => p,
    }
}

/// Relies on `dirs::home_dir`: the current user's home directory, if the
/// platform reports one. What it returns depends on the environment.
#[verifier::external_body]
fn home_dir() -> (r: Option<String>) {
    dirs::home_dir().map(|p| p.to_string_lossy().into_owned())
}

/// Expands a leading `~/` in `path` against `home`.
pub fn expand_tilde(path: &str, home: Option<&str>) -> (r: String)
    ensures
        r@ == tilde_expanded(path@, str_opt(home)),
{
    let v = chars_of(path);
    match home {
        Some(h) => {
            if v.len() >= 2 && v[0] == '~' && v[1] == '/' {
                let mut r = String::new();
                push_str(&mut r, h);
                push_range(&mut r, &v, 1, v.len());
                assert(v@.take(2) =~= seq!['~', '/']);
                assert(r@ =~= h@ + seq!['/'] + path@.skip(2));
                r
            } else {
                proof {
                    if has_prefix(path@, seq!['~', '/']) {
                        assert(path@.take(2)[0] == '~' && path@.take(2)[1] == '/');
                    }
                }
                path.to_owned()
            }
        },
        None => path.to_owned(),
    }
}

fn expand_identity(identity: &Option<String>, home: Option<&str>) -> (r: Option<String>)
    ensures
        opt_view(r) == match opt_view(*identity) {
            Some(p) => Some(tilde_expanded(p, str_opt(home))),
            None => None,
        },
{
    match identity {
        Some(p) => Some(expand_tilde(p.as_str(), home)),
        None => None,
    }
}

/// The parameters that the entry `e` of alias `name` gives, with `home` as
/// the home directory for its identity path.
pub open spec fn params_of_entry(name: Seq<char>, e: EntrySpec, home: Option<Seq<char>>) -> ParamsSpec {
    ParamsSpec {
        host: e.host,
        user: e.user,
        port: e.port,
        remote_path: e.remote_path,
        identity: match e.identity {
            Some(p) => Some(tilde_expanded(p, home)),
            None => None,
        },
        auth_method: e.auth,
        server_name: Some(name),
    }
}

/// Builds `ConnectionParams` from a registry entry, expanding a leading `~/`
/// of its identity path against `home`.
pub fn params_from_config_with_home(name: &str, entry: &ServerEntry, home: Option<&str>) -> (r:
    ConnectionParams)
    ensures
        r@ == params_of_entry(name@, entry@, str_opt(home)),
{
    ConnectionParams {
        host: entry.host.clone(),
        user: entry.user.clone(),
        port: entry.port,
        remote_path: entry.remote_path.clone(),
        identity: expand_identity(&entry.identity, home),
        auth_method: entry.auth,
        server_name: Some(name.to_owned()),
    }
}

/// Builds `ConnectionParams` from a registry entry, expanding a leading `~/`
/// of its identity path against the user's home directory.
pub fn params_from_config(name: &str, entry: &ServerEntry) -> (r: ConnectionParams)
    ensures
        exists|home: Option<Seq<char>>| r@ == #[trigger] params_of_entry(name@, entry@, home),
{
    let home = home_dir();
    let r = match &home {
        Some(h) => params_from_config_with_home(name, entry, Some(h.as_str())),
        None => params_from_config_with_home(name, entry, None),
    };
    assert(r@ == params_of_entry(name@, entry@, opt_view(home)));
    r
}

/// The parameters that a parsed connection string gives for alias `name`.
pub open spec fn params_of_info(
    name: Seq<char>,
    info: InfoSpec,
    identity: Option<Seq<char>>,
    home: Option<Seq<char>>,
) -> ParamsSpec {
    ParamsSpec {
        host: info.host,
        user: info.user,
        port: info.port,
        remote_path: info.remote_path,
        identity: match identity {
            Some(p) => Some(tilde_expanded(p, home)),
            None => None,
        },
        auth_method: AuthMethod::Auto,
        server_name: Some(name),
    }
}

/// Builds `ConnectionParams` from a connection string, with `home` as the home
/// directory for the identity path.
pub fn params_from_connection_string_with_home(
    name: &str,
    connection: &str,
    port_override: Option<u16>,
    identity: Option<&str>,
    home: Option<&str>,
) -> (r: Result<ConnectionParams, ConnectionStringError>)
    ensures
        match r {
            Ok(p) => exists|info: InfoSpec|
                parsed_connection(connection@, port_override) == Ok::<InfoSpec, ErrorSpec>(info)
                    && p@ == #[trigger] params_of_info(
                    name@,
                    info,
                    str_opt(identity),
                    str_opt(home),
                ),
            Err(e) => parsed_connection(connection@, port_override) == Err::<InfoSpec, ErrorSpec>(e@),
        },
{
    let info = match parse_connection_string(connection, port_override) {
        Ok(i) => i,
        Err(e) => return Err(e),
    };
    let ghost iv = info@;
    let id = match identity {
        Some(p) => Some(expand_tilde(p, home)),
        None => None,
    };
    let r = ConnectionParams {
        host: info.host,
        user: info.user,
        port: info.port,
        remote_path: info.remote_path,
        identity: id,
        auth_method: AuthMethod::Auto,
        server_name: Some(name.to_owned()),
    };
    assert(r@ == params_of_info(
        name@,
        iv,
        str_opt(identity),
        str_opt(home),
    ));
    Ok(r)
}

/// Builds `ConnectionParams` from a connection string, expanding a leading
/// `~/` of the identity path against the user's home directory.
pub fn params_from_connection_string(
    name: &str,
    connection: &str,
    port_override: Option<u16>,
    identity: Option<&str>,
) -> (r: Result<ConnectionParams, ConnectionStringError>)
    ensures
        match r {
            Ok(p) => exists|info: InfoSpec, home: Option<Seq<char>>|
                parsed_connection(connection@, port_override) == Ok::<InfoSpec, ErrorSpec>(info)
                    && p@ == #[trigger] params_of_info(
                    name@,
                    info,
                    str_opt(identity),
                    home,
                ),
            Err(e) => parsed_connection(connection@, port_override) == Err::<InfoSpec, ErrorSpec>(e@),
        },
{
    let home = home_dir();
    let ghost hv = opt_view(home);
    match &home {
        Some(h) => params_from_connection_string_with_home(
            name,
            connection,
            port_override,
            identity,
            Some(h.as_str()),
        ),
        None => params_from_connection_string_with_home(
            name,
            connection,
            port_override,
            identity,
            None,
        ),
    }
}

/// Whether `i` can be written as a connection string: a non-empty user
/// without `@` or `:`, a non-empty host without `:`, a port from 1 up, and a
/// remote path that is `~` or absolute.
pub open spec fn writable_info(i: InfoSpec) -> bool {
    &&& i.user.len() > 0
    &&& !i.user.contains('@')
    &&& !i.user.contains(':')
    &&& i.host.len() > 0
    &&& !i.host.contains(':')
    &&& i.port >= 1
    &&& (i.remote_path == home_path() || (i.remote_path.len() > 0 && i.remote_path[0] == '/'))
}

/// The connection string `user@host:port[:/path]` for `i`; the path is left
/// out when it is `~`.
pub open spec fn connection_string_of(i: InfoSpec) -> Seq<char> {
    i.user + seq!['@'] + i.host + seq![':'] + decimal(i.port as nat) + if i.remote_path
        == home_path() {
        Seq::<char>::empty()
    } else {
        seq![':'] + i.remote_path
    }
}

proof fn lemma_digit_char(m: nat)
    requires
        m < 10,
    ensures
        is_digit(digit_char(m)),
        (digit_char(m) as nat) - ('0' as nat) == m,
{
}

proof fn lemma_decimal_digits(n: nat)
    ensures
        decimal(n).len() > 0,
        all_digits(decimal(n)),
        digits_value(decimal(n)) == n,
    decreases n,
{
    if n < 10 {
        lemma_digit_char(n);
        assert(decimal(n).drop_last() =~= Seq::<char>::empty());
        assert(digits_value(Seq::<char>::empty()) == 0);
        assert(decimal(n).last() == digit_char(n));
    } else {
        lemma_digit_char(n % 10);
        lemma_decimal_digits(n / 10);
        let d = decimal(n);
        assert(d.drop_last() =~= decimal(n / 10));
        assert(d.last() == digit_char(n % 10));
        assert(digits_value(d) == 10 * digits_value(decimal(n / 10)) + n % 10);
        assert(n == 10 * (n / 10) + n % 10) by (nonlinear_arith);
        assert forall|i: int| 0 <= i < d.len() implies is_digit(#[trigger] d[i]) by {
            if i < d.len() - 1 {
                assert(d[i] == decimal(n / 10)[i]);
            }
        }
    }
}

/// Connection strings written from valid details read back as those details:
/// parsing is the inverse of writing on the accepted forms.
pub proof fn lemma_connection_string_round_trip(i: InfoSpec)
    requires
        writable_info(i),
    ensures
        parsed_connection(connection_string_of(i), None) == Ok::<InfoSpec, ErrorSpec>(i),
{
    let u = i.user;
    let h = i.host;
    let d = decimal(i.port as nat);
    let tail = if i.remote_path == home_path() {
        Seq::<char>::empty()
    } else {
        seq![':'] + i.remote_path
    };
    let conn = connection_string_of(i);
    lemma_decimal_digits(i.port as nat);
    let k: int = (u.len() + 1 + h.len()) as int;
    assert(conn =~= (u + seq!['@'] + h) + (seq![':'] + (d + tail)));
    assert forall|j: int| 0 <= j < k implies conn[j] != ':' by {
        if j < u.len() {
            assert(conn[j] == u[j]);
        } else if j > u.len() {
            assert(conn[j] == h[j - u.len() - 1]);
        }
    }
    lemma_find_char(conn, ':', k);
    let uh = conn.take(k);
    assert(uh =~= u + seq!['@'] + h);
    assert forall|j: int| 0 <= j < u.len() implies uh[j] != '@' by {
        assert(uh[j] == u[j]);
    }
    lemma_find_char(uh, '@', u.len() as int);
    assert(uh.take(u.len() as int) =~= u);
    assert(uh.skip(u.len() as int + 1) =~= h);
    let rest = conn.skip(k + 1);
    assert(rest =~= d + tail);
    assert(is_digit(d[0]));
    assert(rest[0] == d[0]);
    assert forall|j: int| 0 <= j < d.len() implies rest[j] != ':' by {
        assert(rest[j] == d[j]);
        assert(is_digit(d[j]));
    }
    if i.remote_path == home_path() {
        assert(rest =~= d);
        lemma_find_char(rest, ':', d.len() as int);
    } else {
        lemma_find_char(rest, ':', d.len() as int);
        assert(rest.take(d.len() as int) =~= d);
        assert(rest.skip(d.len() as int + 1) =~= i.remote_path);
    }
}

} // verus!
