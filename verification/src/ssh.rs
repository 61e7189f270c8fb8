//! SSH transport to an audited Linux host via the system `ssh` (subprocess).
//!
//! This module holds what surrounds the subprocess: which connection parameters and
//! commands may be used at all, the argument vector, and what the outcome of the process
//! means. Arguments are passed as an argv vector (never through a local shell), so
//! nothing in the destination or command can inject into the `ssh` invocation
//! itself. Every command is validated against the read-only catalog before it
//! is sent (the remote sshd runs it through the login shell, so the catalog's
//! charset rules matter there too).

use crate::catalog::{
    catalog_error_text, cert_read, listed, refusal, validate, CatalogError, CatalogErrorView,
};
use crate::text::chars::{
    ascii_alphanumeric, chars_of, deep, deep_option, is_ascii_alphanumeric, lemma_deep_empty,
    lemma_deep_push, text_of,
};
use crate::text::debug::{quote, quoted, small_letters, to_small_letters};
use crate::text::number::{digits, format_i64, format_u64, signed_digits};
use crate::text::search::{contains_text, mentions};
use crate::text::split::{lemma_take_all, trim, trimmed};
use vstd::prelude::*;
use vstd::string::StringExecFns;

verus! {

/// Prepended to the remote command's `PATH`. A non-interactive SSH session's
/// PATH usually omits `/sbin` and `/usr/sbin`, where some read-only tools live
/// (`sysctl` everywhere; `ss` on RHEL-family). This is a fixed, trusted literal
/// that never carries user input, so it can't widen the read-only guarantee
/// (still enforced on the bare command by [`crate::catalog`]).
pub const REMOTE_PATH: &'static str =
    "/usr/local/sbin:/usr/local/bin:/usr/sbin:/sbin:/usr/bin:/bin";

/// `ssh -o StrictHostKeyChecking=<mode>`.
#[derive(Debug, Clone, Copy, PartialEq, Eq, Structural)]
pub enum StrictHostKey {
    /// Refuse to connect to unknown/changed hosts (strictest).
    Yes,
    /// Trust on first use, refuse if a known key changed (default).
    AcceptNew,
    /// Do not check host keys (insecure; discouraged).
    No,
}

pub open spec fn strict_option(mode: StrictHostKey) -> Seq<char> {
    match mode {
        StrictHostKey::Yes => "yes"@,
        StrictHostKey::AcceptNew => "accept-new"@,
        StrictHostKey::No => "no"@,
    }
}

impl StrictHostKey {
    pub fn as_opt(self) -> (r: &'static str)
        ensures
            r@ == strict_option(self),
    {
        match self {
            StrictHostKey::Yes => "yes",
            StrictHostKey::AcceptNew => "accept-new",
            StrictHostKey::No => "no",
        }
    }
}

/// Connection parameters for one Linux host.
#[derive(Debug, Clone)]
pub struct SshConfig {
    pub host: String,
    pub port: u16,
    pub user: String,
    /// Private key file (`ssh -i`). Key-based auth only; passwords are refused.
    pub identity_file: Option<String>,
    /// TCP connect timeout (`ssh -o ConnectTimeout`), in seconds.
    pub connect_timeout: u64,
    /// Wall-clock limit for the whole command, in seconds; the child is killed on timeout.
    pub command_timeout: u64,
    pub strict_host_key: StrictHostKey,
    /// Custom known_hosts file (`ssh -o UserKnownHostsFile`).
    pub known_hosts: Option<String>,
    /// Escape hatch for extra `ssh` options, e.g. `-o` `ProxyJump=...`.
    pub extra_opts: Vec<String>,
}

/// The model of an [`SshConfig`].
pub ghost struct SshConfigView {
    pub host: Seq<char>,
    pub port: u16,
    pub user: Seq<char>,
    pub identity_file: Option<Seq<char>>,
    pub connect_timeout: u64,
    pub command_timeout: u64,
    pub strict_host_key: StrictHostKey,
    pub known_hosts: Option<Seq<char>>,
    pub extra_opts: Seq<Seq<char>>,
}

impl View for SshConfig {
    type V = SshConfigView;

    open spec fn view(&self) -> SshConfigView {
        SshConfigView {
            host: self.host@,
            port: self.port,
            user: self.user@,
            identity_file: deep_option(self.identity_file),
            connect_timeout: self.connect_timeout,
            command_timeout: self.command_timeout,
            strict_host_key: self.strict_host_key,
            known_hosts: deep_option(self.known_hosts),
            extra_opts: deep(self.extra_opts@),
        }
    }
}

impl Default for SshConfig {
    /// Unprivileged by default; the audit stays within non-root reach.
    fn default() -> (r: Self)
        ensures
            r@.host == ""@,
            r@.port == 22,
            r@.user == "auditor"@,
            r@.identity_file.is_none(),
            r@.connect_timeout == 10,
            r@.command_timeout == 30,
            r@.strict_host_key == StrictHostKey::AcceptNew,
            r@.known_hosts.is_none(),
            r@.extra_opts == Seq::<Seq<char>>::empty(),
    {
        broadcast use lemma_deep_empty;

        SshConfig {
            host: "".to_string(),
            port: 22,
            user: "auditor".to_string(),
            identity_file: None,
            connect_timeout: 10,
            command_timeout: 30,
            strict_host_key: StrictHostKey::AcceptNew,
            known_hosts: None,
            extra_opts: Vec::new(),
        }
    }
}

/// Result of a successful (spawned and completed) SSH command.
#[derive(Debug, Clone)]
pub struct SshOutput {
    pub stdout: String,
    pub stderr: String,
}

#[derive(Debug, Clone)]
pub enum SshError {
    /// `host` is empty or contains characters not valid in a hostname/IP.
    InvalidHost(String),
    /// `user` is empty or contains characters not valid in a username.
    InvalidUser(String),
    /// The command was rejected by the read-only catalog.
    CommandRejected(CatalogError),
    /// The `ssh` binary could not be spawned (e.g. not installed).
    Spawn(String),
    /// I/O error while waiting for the child.
    Io(String),
    /// The command exceeded `command_timeout` and was killed.
    Timeout,
    /// Authentication was refused by the host.
    Auth(String),
    /// The host was unreachable (DNS/connect/transport failure).
    Connection(String),
    /// `ssh` connected but the remote command returned a non-zero status. What it wrote
    /// until then is kept, for readers that can use a part.
    RemoteCommand { code: Option<i32>, stdout: String, stderr: String },
}

/// The model of an [`SshError`].
pub enum SshErrorView {
    InvalidHost(Seq<char>),
    InvalidUser(Seq<char>),
    CommandRejected(CatalogErrorView),
    Spawn(Seq<char>),
    Io(Seq<char>),
    Timeout,
    Auth(Seq<char>),
    Connection(Seq<char>),
    RemoteCommand { code: Option<i32>, stdout: Seq<char>, stderr: Seq<char> },
}

impl View for SshError {
    type V = SshErrorView;

    open spec fn view(&self) -> SshErrorView {
        match self {
            SshError::InvalidHost(h) => SshErrorView::InvalidHost(h@),
            SshError::InvalidUser(u) => SshErrorView::InvalidUser(u@),
            SshError::CommandRejected(e) => SshErrorView::CommandRejected(e@),
            SshError::Spawn(e) => SshErrorView::Spawn(e@),
            SshError::Io(e) => SshErrorView::Io(e@),
            SshError::Timeout => SshErrorView::Timeout,
            SshError::Auth(s) => SshErrorView::Auth(s@),
            SshError::Connection(s) => SshErrorView::Connection(s@),
            SshError::RemoteCommand { code, stdout, stderr } => SshErrorView::RemoteCommand {
                code: *code,
                stdout: stdout@,
                stderr: stderr@,
            },
        }
    }
}

/// An exit code as `Some(127)` or `None`.
pub open spec fn code_text(code: Option<i32>) -> Seq<char> {
    match code {
        Some(n) => "Some("@ + signed_digits(n as int) + ")"@,
        None => "None"@,
    }
}

fn format_code(code: Option<i32>) -> (r: String)
    ensures
        r@ == code_text(code),
{
    match code {
        Some(n) => {
            let mut s = "Some(".to_string();
            s.append(format_i64(n as i64).as_str());
            s.append(")");
            s
        },
        None => "None".to_string(),
    }
}

/// The message for an operator.
pub open spec fn ssh_error_text(e: SshErrorView) -> Seq<char> {
    match e {
        SshErrorView::InvalidHost(h) => "invalid host: "@ + quoted(h),
        SshErrorView::InvalidUser(u) => "invalid user: "@ + quoted(u),
        SshErrorView::CommandRejected(c) => "command rejected by catalog: "@ + catalog_error_text(
            c,
        ),
        SshErrorView::Spawn(s) => "failed to spawn ssh: "@ + s,
        SshErrorView::Io(s) => "ssh i/o error: "@ + s,
        SshErrorView::Timeout => "ssh command timed out"@,
        SshErrorView::Auth(s) => "authentication failed: "@ + s,
        SshErrorView::Connection(s) => "connection failed: "@ + s,
        SshErrorView::RemoteCommand { code, stdout, stderr } => remote_failure_text(code, stderr),
    }
}

pub open spec fn remote_failure_text(code: Option<i32>, stderr: Seq<char>) -> Seq<char> {
    "remote command failed (code "@ + code_text(code) + "): "@ + stderr
}

/// The message for a remote command that ended with an error.
pub fn remote_failure(code: Option<i32>, stderr: &str) -> (r: String)
    ensures
        r@ == remote_failure_text(code, stderr@),
{
    let mut s = "remote command failed (code ".to_string();
    s.append(format_code(code).as_str());
    s.append("): ");
    s.append(stderr);
    s
}

fn led_by(lead: &str, tail: &str) -> (r: String)
    ensures
        r@ == lead@ + tail@,
{
    let mut s = lead.to_string();
    s.append(tail);
    s
}

impl SshError {
    /// The message for an operator.
    pub fn text(&self) -> (r: String)
        ensures
            r@ == ssh_error_text(self@),
    {
        match self {
            SshError::InvalidHost(h) => led_by("invalid host: ", quote(h.as_str()).as_str()),
            SshError::InvalidUser(u) => led_by("invalid user: ", quote(u.as_str()).as_str()),
            SshError::CommandRejected(e) => led_by(
                "command rejected by catalog: ",
                e.text().as_str(),
            ),
            SshError::Spawn(e) => led_by("failed to spawn ssh: ", e.as_str()),
            SshError::Io(e) => led_by("ssh i/o error: ", e.as_str()),
            SshError::Timeout => "ssh command timed out".to_string(),
            SshError::Auth(s) => led_by("authentication failed: ", s.as_str()),
            SshError::Connection(s) => led_by("connection failed: ", s.as_str()),
            SshError::RemoteCommand { code, stdout: _, stderr } => remote_failure(
                *code,
                stderr.as_str(),
            ),
        }
    }
}

pub open spec fn host_char(c: char) -> bool {
    ascii_alphanumeric(c) || c == '.' || c == '-' || c == '_' || c == ':'
}

pub open spec fn user_char(c: char) -> bool {
    ascii_alphanumeric(c) || c == '.' || c == '-' || c == '_'
}

/// A hostname or IP literal contains only these characters and never starts
/// with `-` (which `ssh` would otherwise parse as an option).
pub open spec fn valid_host(host: Seq<char>) -> bool {
    host.len() > 0 && host[0] != '-' && forall|i: int|
        0 <= i < host.len() ==> host_char(#[trigger] host[i])
}

pub open spec fn valid_user(user: Seq<char>) -> bool {
    user.len() > 0 && user[0] != '-' && forall|i: int|
        0 <= i < user.len() ==> user_char(#[trigger] user[i])
}

pub fn is_valid_host(host: &str) -> (r: bool)
    ensures
        r == valid_host(host@),
{
    let s = chars_of(host);
    if s.len() == 0 || s[0] == '-' {
        return false;
    }
    let mut i: usize = 0;
    while i < s.len()
        invariant
            s@ == host@,
            i <= s@.len(),
            forall|j: int| 0 <= j < i ==> host_char(#[trigger] s@[j]),
        decreases s@.len() - i,
    {
        let c = s[i];
        if !(is_ascii_alphanumeric(c) || c == '.' || c == '-' || c == '_' || c == ':') {
            return false;
        }
        i = i + 1;
    }
    true
}

pub fn is_valid_user(user: &str) -> (r: bool)
    ensures
        r == valid_user(user@),
{
    let s = chars_of(user);
    if s.len() == 0 || s[0] == '-' {
        return false;
    }
    let mut i: usize = 0;
    while i < s.len()
        invariant
            s@ == user@,
            i <= s@.len(),
            forall|j: int| 0 <= j < i ==> user_char(#[trigger] s@[j]),
        decreases s@.len() - i,
    {
        let c = s[i];
        if !(is_ascii_alphanumeric(c) || c == '.' || c == '-' || c == '_') {
            return false;
        }
        i = i + 1;
    }
    true
}

/// The mode gives the group or others some access.
pub open spec fn open_to_others(mode: u32) -> bool {
    mode & 0o077 != 0
}

/// A mode gives the group or others some access exactly if one of its last two octal digits is not
/// zero.
pub proof fn law_private_modes(mode: u32)
    ensures
        open_to_others(mode) <==> (mode / 8) % 8 != 0 || mode % 8 != 0,
{
    assert((mode & 0o077 != 0) <==> ((mode / 8) % 8 != 0 || mode % 8 != 0)) by (bit_vector);
}

/// ssh refuses a private key that group or other can access, so one with such permission
/// bits is used through a private copy.
pub fn needs_private_copy(mode: u32) -> (r: bool)
    ensures
        r == (mode & 0o077 != 0),
        r == open_to_others(mode),
{
    mode & 0o077 != 0
}

pub open spec fn identity_args(identity: Option<Seq<char>>) -> Seq<Seq<char>> {
    match identity {
        Some(key) => seq!["-i"@, key, "-o"@, "IdentitiesOnly=yes"@],
        None => Seq::empty(),
    }
}

pub open spec fn known_hosts_args(known_hosts: Option<Seq<char>>) -> Seq<Seq<char>> {
    match known_hosts {
        Some(kh) => seq!["-o"@, "UserKnownHostsFile="@ + kh],
        None => Seq::empty(),
    }
}

/// Non-interactive, key-only, bounded connect time.
pub open spec fn safety_args(c: SshConfigView) -> Seq<Seq<char>> {
    seq![
        "-o"@,
        "BatchMode=yes"@,
        "-o"@,
        "PasswordAuthentication=no"@,
        "-o"@,
        "ConnectTimeout="@ + digits(c.connect_timeout as int),
        "-o"@,
        "StrictHostKeyChecking="@ + strict_option(c.strict_host_key),
    ]
}

/// The destination and the command, without the white space around it, which stand last.
pub open spec fn target_args(c: SshConfigView, command: Seq<char>) -> Seq<Seq<char>> {
    seq![c.user + "@"@ + c.host, "PATH="@ + REMOTE_PATH@ + " "@ + trim(command)]
}

/// The `ssh` argv (without the leading `ssh`).
pub open spec fn ssh_args(
    c: SshConfigView,
    identity: Option<Seq<char>>,
    command: Seq<char>,
) -> Seq<Seq<char>> {
    seq!["-p"@, digits(c.port as int)] + identity_args(identity) + safety_args(c)
        + known_hosts_args(c.known_hosts) + c.extra_opts + target_args(c, command)
}

/// Why a run is refused before any process is spawned.
pub open spec fn preflight_error(c: SshConfigView, command: Seq<char>) -> Option<SshErrorView> {
    if !valid_host(c.host) {
        Some(SshErrorView::InvalidHost(c.host))
    } else if !valid_user(c.user) {
        Some(SshErrorView::InvalidUser(c.user))
    } else {
        match refusal(command) {
            Some(e) => Some(SshErrorView::CommandRejected(e)),
            None => None,
        }
    }
}

fn push_text(v: &mut Vec<String>, t: &str)
    ensures
        deep(final(v)@) == deep(old(v)@).push(t@),
{
    broadcast use lemma_deep_push;

    v.push(t.to_string());
}

impl SshConfig {
    /// Builds the `ssh` argv (without the leading `ssh`).
    /// `identity` is the key to pass to `-i` (may be a secured copy of
    /// `self.identity_file`). With an explicit key, ssh does not fall back to other
    /// identities. The destination carries `user@`, so a `-`-leading host can't be parsed as
    /// an option; both fields are also validated in [`SshConfig::preflight`]. The command is
    /// a single argv element handed to the remote shell, trimmed, with a sane PATH prepended so sbin
    /// tools resolve under non-interactive SSH.
    pub fn build_args(&self, identity: Option<&str>, command: &str) -> (r: Vec<String>)
        ensures
            deep(r@) == ssh_args(self@, deep_option(identity), command@),
    {
        broadcast use lemma_deep_empty;

        let mut args: Vec<String> = Vec::new();
        push_text(&mut args, "-p");
        push_text(&mut args, format_u64(self.port as u64).as_str());
        match identity {
            Some(key) => {
                push_text(&mut args, "-i");
                push_text(&mut args, key);
                push_text(&mut args, "-o");
                push_text(&mut args, "IdentitiesOnly=yes");
            },
            None => {},
        }
        let ghost a = seq!["-p"@, digits(self.port as int)] + identity_args(deep_option(identity));
        assert(deep(args@) == a);
        push_text(&mut args, "-o");
        push_text(&mut args, "BatchMode=yes");
        push_text(&mut args, "-o");
        push_text(&mut args, "PasswordAuthentication=no");
        push_text(&mut args, "-o");
        push_text(
            &mut args,
            led_by("ConnectTimeout=", format_u64(self.connect_timeout).as_str()).as_str(),
        );
        push_text(&mut args, "-o");
        push_text(
            &mut args,
            led_by("StrictHostKeyChecking=", self.strict_host_key.as_opt()).as_str(),
        );
        let ghost b = a + safety_args(self@);
        assert(deep(args@) == b);
        match &self.known_hosts {
            Some(kh) => {
                push_text(&mut args, "-o");
                push_text(&mut args, led_by("UserKnownHostsFile=", kh.as_str()).as_str());
            },
            None => {},
        }
        let ghost c = b + known_hosts_args(self@.known_hosts);
        assert(deep(args@) == c);
        let mut i: usize = 0;
        while i < self.extra_opts.len()
            invariant
                i <= self.extra_opts@.len(),
                deep(args@) == c + self@.extra_opts.take(i as int),
            decreases self.extra_opts@.len() - i,
        {
            push_text(&mut args, self.extra_opts[i].as_str());
            proof {
                assert(deep(args@) == c + self@.extra_opts.take(i + 1));
            }
            i = i + 1;
        }
        proof {
            lemma_take_all(self@.extra_opts);
        }
        let mut dest = self.user.clone();
        dest.append("@");
        dest.append(self.host.as_str());
        push_text(&mut args, dest.as_str());
        let mut line = "PATH=".to_string();
        line.append(REMOTE_PATH);
        line.append(" ");
        let text = chars_of(command);
        line.append(text_of(trimmed(text.as_slice())).as_str());
        push_text(&mut args, line.as_str());
        proof {
            assert(deep(args@) == c + self@.extra_opts + target_args(self@, command@));
        }
        args
    }

    /// What must hold before any process is spawned: the connection parameters are valid and
    /// the command is in the read-only catalog.
    pub fn preflight(&self, command: &str) -> (r: Result<(), SshError>)
        ensures
            match r {
                Ok(_) => preflight_error(self@, command@).is_none(),
                Err(e) => preflight_error(self@, command@) == Some(e@),
            },
    {
        if !is_valid_host(self.host.as_str()) {
            return Err(SshError::InvalidHost(self.host.clone()));
        }
        if !is_valid_user(self.user.as_str()) {
            return Err(SshError::InvalidUser(self.user.clone()));
        }
        match validate(command) {
            Ok(_) => Ok(()),
            Err(e) => Err(SshError::CommandRejected(e)),
        }
    }
}

/// The model of what a finished `ssh` process means.
pub enum Completion {
    Output(Seq<char>, Seq<char>),
    Failure(SshErrorView),
}

/// What a finished `ssh` process means, given its standard error in small letters: ssh
/// itself exits 255 on transport and authentication failures, told apart by what it wrote.
pub open spec fn completion(
    code: Option<i32>,
    stdout: Seq<char>,
    stderr: Seq<char>,
    lower: Seq<char>,
) -> Completion {
    if code == Some(0i32) {
        Completion::Output(stdout, stderr)
    } else if code == Some(255i32) {
        if mentions(lower, "permission denied"@) || mentions(lower, "authentication"@) {
            Completion::Failure(SshErrorView::Auth(trim(stderr)))
        } else {
            Completion::Failure(SshErrorView::Connection(trim(stderr)))
        }
    } else {
        Completion::Failure(SshErrorView::RemoteCommand { code, stdout, stderr: trim(stderr) })
    }
}

/// Judges a finished `ssh` process, given its standard error in small letters.
pub fn classify_exit_with(code: Option<i32>, stdout: String, stderr: String, lower: &str) -> (r:
    Result<SshOutput, SshError>)
    ensures
        match r {
            Ok(o) => completion(code, stdout@, stderr@, lower@) == Completion::Output(
                o.stdout@,
                o.stderr@,
            ),
            Err(e) => completion(code, stdout@, stderr@, lower@) == Completion::Failure(e@),
        },
{
    match code {
        Some(n) => {
            if n == 0 {
                return Ok(SshOutput { stdout, stderr });
            }
            if n == 255 {
                let text = chars_of(stderr.as_str());
                let shown = text_of(trimmed(text.as_slice()));
                let small = chars_of(lower);
                if contains_text(small.as_slice(), "permission denied") || contains_text(
                    small.as_slice(),
                    "authentication",
                ) {
                    return Err(SshError::Auth(shown));
                }
                return Err(SshError::Connection(shown));
            }
        },
        None => {},
    }
    let text = chars_of(stderr.as_str());
    Err(SshError::RemoteCommand { code, stdout, stderr: text_of(trimmed(text.as_slice())) })
}

/// Judges a finished `ssh` process by its exit code and what it wrote.
pub fn classify_exit(code: Option<i32>, stdout: String, stderr: String) -> (r: Result<
    SshOutput,
    SshError,
>)
    ensures
        match r {
            Ok(o) => completion(code, stdout@, stderr@, small_letters(stderr@))
                == Completion::Output(o.stdout@, o.stderr@),
            Err(e) => completion(code, stdout@, stderr@, small_letters(stderr@))
                == Completion::Failure(e@),
        },
{
    let lower = to_small_letters(stderr.as_str());
    classify_exit_with(code, stdout, stderr, lower.as_str())
}

/// Whatever passes the preflight reaches ssh as one destination that no option can be
/// mistaken for, followed by one command that is in the catalog, character for character:
/// one of its entries, or a certificate read. Passwords and prompts stay off.
pub proof fn law_argv_is_safe(
    c: SshConfigView,
    identity: Option<Seq<char>>,
    command: Seq<char>,
)
    requires
        preflight_error(c, command).is_none(),
    ensures
        ({
            let args = ssh_args(c, identity, command);
            &&& args[args.len() - 2] == c.user + "@"@ + c.host
            &&& args[args.len() - 2][0] != '-'
            &&& args.last() == "PATH="@ + REMOTE_PATH@ + " "@ + trim(command)
            &&& listed(trim(command)) || cert_read(trim(command))
            &&& args.contains("BatchMode=yes"@)
            &&& args.contains("PasswordAuthentication=no"@)
        }),
        refusal(command).is_none(),
        c.host[0] != '-',
{
    let head = seq!["-p"@, digits(c.port as int)] + identity_args(identity);
    let args = ssh_args(c, identity, command);
    let n = head.len() as int;
    assert(args[n + 1] == safety_args(c)[1]);
    assert(args[n + 3] == safety_args(c)[3]);
    assert(args[args.len() - 2] == target_args(c, command)[0]);
    assert(args[args.len() - 2][0] == c.user[0]);
}

} // verus!
