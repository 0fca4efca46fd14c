//! What a session is made from, what it returns, and the rules it applies
//! around each remote command.
use vstd::prelude::*;

use crate::metadata::opt_view;
use crate::server_registry::AuthMethod;

verus! {

/// Parameters needed to establish an SSH connection.
#[derive(Debug, Clone)]
pub struct ConnectionParams {
    pub host: String,
    pub user: String,
    pub port: u16,
    pub remote_path: String,
    pub identity: Option<String>,
    pub auth_method: AuthMethod,
    /// Server alias.
    pub server_name: Option<String>,
}

/// The fields of `ConnectionParams`, over plain values.
pub ghost struct ParamsSpec {
    pub host: Seq<char>,
    pub user: Seq<char>,
    pub port: u16,
    pub remote_path: Seq<char>,
    pub identity: Option<Seq<char>>,
    pub auth_method: AuthMethod,
    pub server_name: Option<Seq<char>>,
}

impl View for ConnectionParams {
    type V = ParamsSpec;

    open spec fn view(&self) -> ParamsSpec {
        ParamsSpec {
            host: self.host@,
            user: self.user@,
            port: self.port,
            remote_path: self.remote_path@,
            identity: opt_view(self.identity),
            auth_method: self.auth_method,
            server_name: opt_view(self.server_name),
        }
    }
}


/// Output of a command run through a session.
#[derive(Debug, Clone)]
pub struct ExecResult {
    pub stdout: String,
    pub stderr: String,
    pub exit_code: i32,
}

/// Output of a command whose stdout is kept as bytes.
#[derive(Debug, Clone)]
pub struct ExecRawResult {
    pub stdout: Vec<u8>,
    pub stderr: String,
    pub exit_code: i32,
}

/// The host a session's key check is about.
#[derive(Debug, Clone)]
pub struct SshHandler {
    pub host: String,
    pub port: u16,
}

impl SshHandler {
    pub fn new(host: String, port: u16) -> (r: Self)
        ensures
            r.host@ == host@,
            r.port == port,
    {
        SshHandler { host, port }
    }
}

/// The shell command a session runs for `command`: a `cd` into the remote
/// path (quoted so that `~` still expands), then the command.
pub open spec fn wrapped_command_text(remote_path: Seq<char>, command: Seq<char>) -> Seq<char> {
    "cd "@ + crate::utils::path::remote_path_word(remote_path) + " && "@ + command
}

/// Prefixes `command` with a `cd` into `remote_path`.
pub fn wrap_command(remote_path: &str, command: &str) -> (r: String)
    ensures
        r@ == wrapped_command_text(remote_path@, command@),
{
    let mut r = String::new();
    crate::text::push_str(&mut r, "cd ");
    let p = crate::utils::path::shell_escape_remote_path(remote_path);
    crate::text::push_str(&mut r, p.as_str());
    crate::text::push_str(&mut r, " && ");
    crate::text::push_str(&mut r, command);
    r
}

/// The size of the chunks in which stdin is written to a channel.
pub const STDIN_CHUNK_SIZE: usize = 32768;

/// The end of chunk `i` of `len` bytes of stdin.
pub open spec fn chunk_end(i: int, len: int) -> int {
    if (i + 1) * (STDIN_CHUNK_SIZE as int) <= len {
        (i + 1) * (STDIN_CHUNK_SIZE as int)
    } else {
        len
    }
}

/// The bounds of the chunks in which `len` bytes of stdin are written: in
/// order, each `STDIN_CHUNK_SIZE` bytes long but the last, together covering
/// `0..len`.
pub fn stdin_chunks(len: usize) -> (r: Vec<(usize, usize)>)
    ensures
        forall|i: int|
            0 <= i < r@.len() ==> (#[trigger] r@[i]).0 == i * (STDIN_CHUNK_SIZE as int)
                && r@[i].1 == chunk_end(i, len as int),
        r@.len() * (STDIN_CHUNK_SIZE as int) >= len,
        r@.len() > 0 ==> (r@.len() - 1) * (STDIN_CHUNK_SIZE as int) < len,
{
    let mut r: Vec<(usize, usize)> = Vec::new();
    let mut start: usize = 0;
    while start < len
        invariant
            start <= len,
            start as int == if r@.len() * (STDIN_CHUNK_SIZE as int) <= len {
                r@.len() * (STDIN_CHUNK_SIZE as int)
            } else {
                len as int
            },
            forall|i: int|
                0 <= i < r@.len() ==> (#[trigger] r@[i]).0 == i * (STDIN_CHUNK_SIZE as int)
                    && r@[i].1 == chunk_end(i, len as int),
            r@.len() > 0 ==> (r@.len() - 1) * (STDIN_CHUNK_SIZE as int) < len,
        decreases len - start,
    {
        let end = if len - start > STDIN_CHUNK_SIZE {
            start + STDIN_CHUNK_SIZE
        } else {
            len
        };
        r.push((start, end));
        start = end;
    }
    r
}


/// A message read from a channel, reduced to what the read loop looks at.
pub enum ChannelEvent {
    /// Bytes on stdout.
    Data(Vec<u8>),
    /// Bytes on an extended stream; stream 1 is stderr.
    ExtendedData { data: Vec<u8>, ext: u32 },
    /// The command's exit status.
    ExitStatus(u32),
    /// Anything else.
    Other,
}

/// `s` read as a signed 32-bit value (two's complement).
pub open spec fn signed_status(s: u32) -> i32 {
    if s <= i32::MAX as u32 {
        s as i32
    } else {
        (s as int - 0x1_0000_0000) as i32
    }
}

/// What a channel's read loop has collected so far.
pub struct ChannelCollector {
    pub stdout: Vec<u8>,
    pub stderr: Vec<u8>,
    pub exit_code: Option<i32>,
}

/// Raw output collected from a channel.
pub struct ChannelOutput {
    pub stdout: Vec<u8>,
    pub stderr: Vec<u8>,
    pub exit_code: i32,
}

fn append_bytes(out: &mut Vec<u8>, data: &Vec<u8>)
    ensures
        final(out)@ == old(out)@ + data@,
{
    let mut i: usize = 0;
    while i < data.len()
        invariant
            i <= data@.len(),
            out@ == old(out)@ + data@.take(i as int),
        decreases data@.len() - i,
    {
        out.push(data[i]);
        i = i + 1;
        assert(out@ =~= old(out)@ + data@.take(i as int));
    }
    assert(data@.take(i as int) =~= data@);
}

impl ChannelCollector {
    /// Nothing collected yet.
    pub fn new() -> (r: Self)
        ensures
            r.stdout@.len() == 0,
            r.stderr@.len() == 0,
            r.exit_code is None,
    {
        ChannelCollector { stdout: Vec::new(), stderr: Vec::new(), exit_code: None }
    }

    /// Takes in one message: stdout data is appended to stdout, stream-1
    /// data to stderr, an exit status is recorded; anything else is ignored.
    pub fn on_event(&mut self, event: ChannelEvent)
        ensures
            match event {
                ChannelEvent::Data(d) => final(self).stdout@ == old(self).stdout@ + d@
                    && final(self).stderr@ == old(self).stderr@
                    && final(self).exit_code == old(self).exit_code,
                ChannelEvent::ExtendedData { data, ext } => final(self).stdout@ == old(self).stdout@
                    && final(self).stderr@ == (if ext == 1 { old(self).stderr@ + data@ } else { old(self).stderr@ })
                    && final(self).exit_code == old(self).exit_code,
                ChannelEvent::ExitStatus(s) => final(self).stdout@ == old(self).stdout@
                    && final(self).stderr@ == old(self).stderr@
                    && final(self).exit_code == Some(signed_status(s)),
                ChannelEvent::Other => final(self).stdout@ == old(self).stdout@
                    && final(self).stderr@ == old(self).stderr@
                    && final(self).exit_code == old(self).exit_code,
            },
    {
        match event {
            ChannelEvent::Data(d) => append_bytes(&mut self.stdout, &d),
            ChannelEvent::ExtendedData { data, ext } => {
                if ext == 1 {
                    append_bytes(&mut self.stderr, &data);
                }
            },
            ChannelEvent::ExitStatus(s) => {
                let code: i32 = if s <= 2147483647u32 {
                    s as i32
                } else {
                    ((s as i64) - 4294967296i64) as i32
                };
                self.exit_code = Some(code);
            },
            ChannelEvent::Other => {},
        }
    }

    /// The collected output; an exit code that never came reads as -1.
    pub fn finish(self) -> (r: ChannelOutput)
        ensures
            r.stdout@ == self.stdout@,
            r.stderr@ == self.stderr@,
            r.exit_code == match self.exit_code {
                Some(c) => c,
                None => -1i32,
            },
    {
        let code = match self.exit_code {
            Some(c) => c,
            None => -1,
        };
        ChannelOutput { stdout: self.stdout, stderr: self.stderr, exit_code: code }
    }
}

/// What checking a server's key against the known-hosts file found.
pub enum HostKeyCheck {
    /// The key matches the recorded one.
    Known,
    /// No key is recorded for this host and port.
    Unknown,
    /// A different key is recorded, on this line of the file.
    Changed { line: usize },
    /// The check itself failed (for instance the file is unreadable).
    Unverifiable,
}

/// What to do with a server's key.
#[derive(Debug, Clone, Copy, PartialEq, Eq, Structural)]
pub enum HostKeyDecision {
    /// Accept the key.
    Accept,
    /// Accept the key and record it.
    Learn,
    /// Refuse the connection; the recorded key is on this line.
    Reject { line: usize },
}

/// Trust on first use: a matching key is accepted, an unknown one learned,
/// a changed one refused; a check that could not be made accepts.
pub fn host_key_decision(check: &HostKeyCheck) -> (r: HostKeyDecision)
    ensures
        r == match check {
            HostKeyCheck::Known => HostKeyDecision::Accept,
            HostKeyCheck::Unknown => HostKeyDecision::Learn,
            HostKeyCheck::Changed { line } => HostKeyDecision::Reject { line: *line },
            HostKeyCheck::Unverifiable => HostKeyDecision::Accept,
        },
{
    match check {
        HostKeyCheck::Known => HostKeyDecision::Accept,
        HostKeyCheck::Unknown => HostKeyDecision::Learn,
        HostKeyCheck::Changed { line } => HostKeyDecision::Reject { line: *line },
        HostKeyCheck::Unverifiable => HostKeyDecision::Accept,
    }
}

/// `s` without every leading `./`.
pub open spec fn strip_dot_slash(s: Seq<char>) -> Seq<char>
    decreases s.len(),
{
    if s.len() >= 2 && s[0] == '.' && s[1] == '/' {
        strip_dot_slash(s.skip(2))
    } else {
        s
    }
}

/// The paths a `find .` listing names: its non-empty lines, each without
/// leading `./`, in order.
pub open spec fn listed_paths(ls: Seq<Seq<char>>) -> Seq<Seq<char>>
    decreases ls.len(),
{
    if ls.len() == 0 {
        seq![]
    } else if ls.last().len() == 0 {
        listed_paths(ls.drop_last())
    } else {
        listed_paths(ls.drop_last()).push(strip_dot_slash(ls.last()))
    }
}

/// The paths named by the output of a `find .` listing.
pub fn glob_output_paths(stdout: &str) -> (r: Vec<String>)
    ensures
        r@.map_values(|p: String| p@) == listed_paths(crate::text::lines_of(stdout@)),
{
    let v = crate::text::chars_of(stdout);
    let bounds = crate::text::line_bounds(&v);
    let ghost ls = crate::text::lines_of(stdout@);
    let mut r: Vec<String> = Vec::new();
    let mut i: usize = 0;
    while i < bounds.len()
        invariant
            v@ == stdout@,
            ls == crate::text::lines_of(v@),
            bounds@.len() == ls.len(),
            forall|j: int|
                0 <= j < bounds@.len() ==> {
                    &&& (#[trigger] bounds@[j]).0 <= bounds@[j].1 <= v@.len()
                    &&& ls[j] == v@.subrange(bounds@[j].0 as int, bounds@[j].1 as int)
                },
            i <= bounds@.len(),
            r@.map_values(|p: String| p@) == listed_paths(ls.take(i as int)),
        decreases bounds@.len() - i,
    {
        let (a, b) = bounds[i];
        let ghost before = r@.map_values(|p: String| p@);
        proof {
            assert(ls.take(i + 1).drop_last() =~= ls.take(i as int));
            assert(ls.take(i + 1).last() == ls[i as int]);
        }
        if a < b {
            let mut start = a;
            while b - start >= 2 && v[start] == '.' && v[start + 1] == '/'
                invariant
                    a <= start <= b <= v@.len(),
                    strip_dot_slash(v@.subrange(a as int, b as int)) == strip_dot_slash(
                        v@.subrange(start as int, b as int),
                    ),
                decreases b - start,
            {
                assert(v@.subrange(start as int, b as int).skip(2) =~= v@.subrange(start + 2, b as int));
                start = start + 2;
            }
            let p = crate::text::string_of_range(&v, start, b);
            r.push(p);
            assert(r@.map_values(|p: String| p@) =~= before.push(strip_dot_slash(ls[i as int])));
        }
        i = i + 1;
    }
    assert(ls.take(i as int) =~= ls);
    r
}

} // verus!
