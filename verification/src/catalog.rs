//! Read-only command catalog for Linux audits.
//!
//! This is the core of the read-only guarantee. On a general-purpose Linux shell
//! a charset filter alone is not enough to prove a command is read-only, so every
//! command a check issues must be an *exact* member of a curated catalog. Anything
//! not in the catalog is refused before it is ever sent.
//!
//! Two layers, deny by default:
//!   1. a positive character set, so shell metacharacters that could chain or
//!      inject a second command (`; & | ` $ < > ( ) * ? ' "` ...) can never
//!      appear (the remote sshd still runs the command through a login shell);
//!   2. exact membership in [`READONLY_COMMANDS`]: the only commands allowed.
//!
//! Keep the remote vocabulary tiny: prefer dumb readers (`cat <fixed file>`,
//! `sysctl -a`, `ss -tuln`) and do all parsing here. The only root-requiring
//! readers are the explicit `sudo -n ...` entries, sent solely to targets opted in
//! with `privileged`.

use crate::text::chars::{ascii_alphanumeric, chars_of, is_ascii_alphanumeric, text_of, white};
use crate::text::debug::{quote, quote_char, quoted, quoted_char};
use crate::text::search::{contains_char, contains_text, eq_chars, mentions, spells};
use crate::text::split::{is_white_fn, lemma_run_ends_at, trim, trimmed};
use vstd::prelude::*;
use vstd::slice::slice_subrange;
use vstd::string::StringExecFns;

verus! {

/// Every read-only command the auditor may run. A check's command must appear
/// here verbatim (after trimming). Each entry must not change state.
pub const READONLY_COMMANDS: [&'static str; 43] = [
    "cat /etc/os-release",
    "cat /etc/ssh/sshd_config",
    "cat /etc/login.defs",
    "getent passwd",
    "sysctl -a",
    // Mounted filesystems + their options; read-only view of the kernel's mount
    // table (checked for nosuid/nodev/noexec on sensitive tmpfs mounts).
    "cat /proc/mounts",
    "ss -tuln",
    "systemctl list-unit-files --type=service --no-pager",
    // `-s` (simulate) performs no actions and needs no root - read-only.
    "apt-get -s upgrade",
    // RHEL/dnf equivalent: list pending security advisories. Read-only, exits 0
    // (unlike `check-update`, which exits 100 when updates exist).
    "dnf -q updateinfo list security",
    "uname -a",
    // Operational health probes: all unprivileged, read-only snapshots.
    "uptime",
    "nproc",
    "free -b",
    "df -P",
    // Inode usage per filesystem (`-i`); a disk with free space but no free inodes
    // still can't create files. Portable (`-P`) columns match `df -P`.
    "df -Pi",
    "ps -eo pid,comm,pcpu,pmem --sort=-pcpu",
    // Process state codes only (`stat`), one per line, no header. The STAT field's
    // leading letter is the state; `Z` marks a zombie (a dead child not reaped by
    // its parent). Kept separate from the hot-process `ps` so the zombie count and
    // the top-CPU/MEM listing can't break each other.
    "ps -eo stat --no-headers",
    "ss -s",
    // System-wide open file descriptors: `allocated  unused  max`. Nearing the max
    // means "too many open files" for new sockets/files.
    "cat /proc/sys/fs/file-nr",
    // Netfilter connection-tracking table: current count and max. A full table
    // ("nf_conntrack: table full") drops new connections - a NAT/firewall/proxy
    // outage. Both files vanish when the module isn't loaded (then: Unknown).
    "cat /proc/sys/net/netfilter/nf_conntrack_count /proc/sys/net/netfilter/nf_conntrack_max",
    // TCP socket/memory pressure: /proc/net/sockstat (TCP mem pages, orphan and
    // TIME_WAIT counts) plus their ceilings (tcp_mem max, tcp_max_orphans,
    // tcp_max_tw_buckets). Nearing any ceiling drops/throttles connections.
    "cat /proc/net/sockstat /proc/sys/net/ipv4/tcp_mem /proc/sys/net/ipv4/tcp_max_orphans /proc/sys/net/ipv4/tcp_max_tw_buckets",
    // Task saturation: /proc/loadavg (its 4th field is running/total tasks) and the
    // PID ceiling. Near the ceiling, fork()/clone() fail and nothing new can start.
    "cat /proc/loadavg /proc/sys/kernel/pid_max",
    // Network interface counters; sampled twice to derive throughput.
    "cat /proc/net/dev",
    // TCP extended counters; sampled twice for the accept-queue overflow rate
    // (ListenOverflows/ListenDrops) - the server failing to accept connections.
    "cat /proc/net/netstat",
    // Netfilter conntrack per-CPU stat counters (drop/early_drop/insert_failed);
    // sampled twice for the connection-drop rate. `early_drop` rising means the
    // table was full enough to evict entries - the NAT/firewall/proxy dropping
    // connections. Unprivileged, read-only.
    "cat /proc/net/stat/nf_conntrack",
    // TCP stack pressure counters (SNMP MIB); sampled twice for the error rate.
    // /proc/net/snmp holds `Tcp: RetransSegs` (retransmits) for context;
    // /proc/net/netstat holds `TcpExt:` TCPAbortOnMemory/PruneCalled/TCPRcvQDrop -
    // the stack shedding connections under memory/backlog pressure. Unprivileged.
    "cat /proc/net/snmp",
    // System time state (health-clock-sync): `NTPSynchronized=yes/no`. An unsynced
    // clock breaks TLS validity windows, log correlation and time-based auth.
    "timedatectl show",
    // /run listing (health-reboot-required): the Debian/Ubuntu `reboot-required`
    // flag file lives here after a kernel/library update. `/run` always exists, so
    // this exits 0; read-only.
    "ls /run",
    // CPU/IO pressure: `1 2` = one 1-second sample; the last row is
    // the current delta. Unprivileged and read-only.
    "vmstat 1 2",
    // Failed systemd services: a zero-config "something is broken" signal.
    // `--no-legend`/`--no-pager` give a clean, script-parseable list.
    "systemctl list-units --type=service --state=failed --no-legend --no-pager",
    // Container state: crash-looping (`Restarting`) or failing-healthcheck
    // (`unhealthy`) containers are a zero-config "a service is broken" signal.
    // `-a` lists all states, so a container caught mid-backoff is still seen. Both
    // runtimes are probed; a missing one just errors and is ignored.
    "docker ps -a",
    "podman ps -a",
    // Privileged read-only checks (run only on targets opted in with
    // `privileged = true`; the operator grants NOPASSWD sudo for exactly these).
    // `sudo -n` never prompts - it fails fast if not permitted.
    "sudo -n cat /etc/shadow",
    // Kernel ring buffer (health): the OOM-killer logs `Out of memory: Killed
    // process ...` here. Root-only when `kernel.dmesg_restrict=1` (the common
    // default), hence the `sudo -n` form. `dmesg` with no args only prints.
    "sudo -n dmesg",
    // SUID-root binaries. `-xdev` keeps the scan on the root filesystem (never
    // descending into other mounts or pseudo-filesystems like /proc, /sys), so it
    // is bounded and can't hang on a network mount. A transient per-path error
    // sets a non-zero exit; the SUID check opts into tolerating that (partial
    // stdout is still authoritative for what was found). Read-only: `find`
    // without an action only prints.
    "sudo -n find / -xdev -perm -4000 -type f",
    // World-writable regular files on the root filesystem (`-perm -0002`, `-type f`).
    // A world-writable file anyone can overwrite is a tampering/backdoor vector;
    // `-type f` skips world-writable dirs (e.g. sticky /tmp), which are benign.
    // Same `-xdev`/tolerate-nonzero discipline as the SUID scan.
    "sudo -n find / -xdev -type f -perm -0002",
    // World-writable cron drop-in directories: a writable /etc/cron.d (etc.) lets
    // any local user schedule a root command. Literal paths (no glob, which the
    // catalog forbids); `-type d` so this doesn't overlap the world-writable-files
    // scan. Missing paths just error per-path (tolerated); read-only.
    "sudo -n find /etc/cron.d /etc/cron.daily /etc/cron.hourly /etc/cron.weekly /etc/cron.monthly -type d -perm -0002",
    // Effective SSH config: `sshd -T` dumps the *resolved* directives (compiled
    // defaults + Match blocks). On an opted-in target its output supersedes the
    // file read for every ssh-domain check, making them authoritative.
    "sudo -n sshd -T",
    // Live nftables ruleset: the effective inbound firewall posture (ufw,
    // firewalld and raw nft all render here). Root-only; read-only dump.
    "sudo -n nft list ruleset",
    // Live iptables-legacy ruleset (`-S` = dump rules, no counters). Covers hosts
    // on the xtables backend that `nft list ruleset` can't see. Root-only; read-only.
    "sudo -n iptables -S",
    // Container state as root: on many hosts `docker`/`podman` need root or
    // docker-group membership, so the unprivileged `docker ps -a` returns nothing
    // and the health metric goes blind. On an opted-in target these authoritative
    // variants supersede the plain read for `health-containers`.
    "sudo -n docker ps -a",
    "sudo -n podman ps -a",
];

/// Characters permitted in a command. A positive character set (not a denylist)
/// guarantees no metacharacter that could chain or inject a command can appear.
pub open spec fn allowed_char(c: char) -> bool {
    ascii_alphanumeric(c) || c == ' ' || c == '/' || c == '-' || c == '_' || c == '.' || c == '='
        || c == ',' || c == ':'
}

pub open spec fn all_allowed(s: Seq<char>) -> bool {
    forall|i: int| 0 <= i < s.len() ==> allowed_char(#[trigger] s[i])
}

fn is_allowed_char(c: char) -> (r: bool)
    ensures
        r == allowed_char(c),
{
    is_ascii_alphanumeric(c) || c == ' ' || c == '/' || c == '-' || c == '_' || c == '.' || c
        == '=' || c == ',' || c == ':'
}

/// Fixed prefix of the parameterized certificate-expiry read.
pub const CERT_READ_PREFIX: &'static str = "openssl x509 -in ";

/// Fixed suffix of the parameterized certificate-expiry read.
pub const CERT_READ_SUFFIX: &'static str = " -noout -enddate";

/// An absolute path without `..` traversal or embedded space.
pub open spec fn plain_path(path: Seq<char>) -> bool {
    &&& path.len() > 0 && path[0] == '/'
    &&& !mentions(path, ".."@)
    &&& !path.contains(' ')
}

/// The command is a certificate-expiry read for a single absolute path
/// (`openssl x509 -in <path> -noout -enddate`).
pub open spec fn cert_read(command: Seq<char>) -> bool {
    exists|path: Seq<char>|
        command == CERT_READ_PREFIX@ + path + CERT_READ_SUFFIX@ && #[trigger] plain_path(path)
}

/// The command is one of [`READONLY_COMMANDS`].
pub open spec fn listed(command: Seq<char>) -> bool {
    exists|i: int|
        0 <= i < READONLY_COMMANDS@.len() && (#[trigger] READONLY_COMMANDS@[i])@ == command
}

/// `true` if `command` is a certificate-expiry read. This is the one parameterized
/// command the catalog allows: operator-configured `cert_paths` vary per host, so a
/// fixed per-path entry is impossible. It stays safe because the prefix/suffix are
/// fixed, `openssl x509 ... -noout -enddate` only prints (read-only), the global
/// charset check already forbids every shell metacharacter, and the path must be
/// absolute with no `..` traversal or embedded space.
fn is_cert_read(command: &[char]) -> (r: bool)
    ensures
        r == cert_read(command@),
{
    let prefix = chars_of(CERT_READ_PREFIX);
    let suffix = chars_of(CERT_READ_SUFFIX);
    let n: usize = command.len();
    let p: usize = prefix.len();
    let s: usize = suffix.len();
    proof {
        reveal_strlit("openssl x509 -in ");
        reveal_strlit(" -noout -enddate");
    }
    if n < p + s {
        return false;
    }
    let head = slice_subrange(command, 0, p);
    let path = slice_subrange(command, p, n - s);
    let tail = slice_subrange(command, n - s, n);
    proof {
        assert(command@ == head@ + path@ + tail@);
        assert forall|q: Seq<char>| command@ == CERT_READ_PREFIX@ + q + CERT_READ_SUFFIX@ implies q
            == path@ && head@ == prefix@ && tail@ == suffix@ by {
            let whole = CERT_READ_PREFIX@ + q + CERT_READ_SUFFIX@;
            assert(whole.subrange(0, p as int) == prefix@);
            assert(whole.subrange(p as int, n - s) == q);
            assert(whole.subrange(n - s, n as int) == suffix@);
        }
    }
    let r = eq_chars(head, prefix.as_slice()) && eq_chars(tail, suffix.as_slice()) && path.len() > 0
        && path[0] == '/' && !contains_text(path, "..") && !contains_char(path, ' ');
    proof {
        if r {
            assert(plain_path(path@));
        }
    }
    r
}

#[derive(Debug, Clone, PartialEq, Eq)]
pub enum CatalogError {
    /// The command is empty.
    Empty,
    /// A character outside the permitted set was found.
    IllegalCharacter(char),
    /// The command is not an exact member of the read-only catalog.
    NotInCatalog(String),
}

pub enum CatalogErrorView {
    Empty,
    IllegalCharacter(char),
    NotInCatalog(Seq<char>),
}

impl View for CatalogError {
    type V = CatalogErrorView;

    open spec fn view(&self) -> CatalogErrorView {
        match self {
            CatalogError::Empty => CatalogErrorView::Empty,
            CatalogError::IllegalCharacter(c) => CatalogErrorView::IllegalCharacter(*c),
            CatalogError::NotInCatalog(cmd) => CatalogErrorView::NotInCatalog(cmd@),
        }
    }
}

pub open spec fn catalog_error_text(e: CatalogErrorView) -> Seq<char> {
    match e {
        CatalogErrorView::Empty => "empty command"@,
        CatalogErrorView::IllegalCharacter(c) => "illegal character "@ + quoted_char(c)
            + " in command"@,
        CatalogErrorView::NotInCatalog(cmd) => "command "@ + quoted(cmd)
            + " is not in the read-only catalog"@,
    }
}

impl CatalogError {
    /// The message for an operator.
    pub fn text(&self) -> (r: String)
        ensures
            r@ == catalog_error_text(self@),
    {
        match self {
            CatalogError::Empty => "empty command".to_string(),
            CatalogError::IllegalCharacter(c) => {
                let mut s = "illegal character ".to_string();
                let q = quote_char(*c);
                s.append(q.as_str());
                s.append(" in command");
                s
            },
            CatalogError::NotInCatalog(cmd) => {
                let mut s = "command ".to_string();
                let q = quote(cmd.as_str());
                s.append(q.as_str());
                s.append(" is not in the read-only catalog");
                s
            },
        }
    }
}

/// The first character outside the permitted set.
pub open spec fn first_illegal(s: Seq<char>) -> Option<char>
    decreases s.len(),
{
    if s.len() == 0 {
        None
    } else if !allowed_char(s[0]) {
        Some(s[0])
    } else {
        first_illegal(s.skip(1))
    }
}

/// Why a command is refused; `None` where it is accepted.
pub open spec fn refusal(command: Seq<char>) -> Option<CatalogErrorView> {
    let cmd = trim(command);
    if cmd.len() == 0 {
        Some(CatalogErrorView::Empty)
    } else {
        match first_illegal(cmd) {
            Some(c) => Some(CatalogErrorView::IllegalCharacter(c)),
            None => if cert_read(cmd) || listed(cmd) {
                None
            } else {
                Some(CatalogErrorView::NotInCatalog(cmd))
            },
        }
    }
}

proof fn lemma_first_illegal(s: Seq<char>)
    ensures
        first_illegal(s).is_none() == all_allowed(s),
    decreases s.len(),
{
    if s.len() > 0 && allowed_char(s[0]) {
        let t = s.skip(1);
        lemma_first_illegal(t);
        if all_allowed(t) {
            assert forall|i: int| 0 <= i < s.len() implies allowed_char(#[trigger] s[i]) by {
                if i > 0 {
                    assert(s[i] == t[i - 1]);
                }
            }
        }
        if all_allowed(s) {
            assert forall|i: int| 0 <= i < t.len() implies allowed_char(#[trigger] t[i]) by {
                assert(t[i] == s[i + 1]);
            }
        }
    }
}

fn find_illegal(s: &[char]) -> (r: Option<char>)
    ensures
        r == first_illegal(s@),
{
    let mut i: usize = 0;
    proof {
        assert(s@.skip(0) == s@);
    }
    while i < s.len()
        invariant
            i <= s@.len(),
            first_illegal(s@) == first_illegal(s@.skip(i as int)),
        decreases s@.len() - i,
    {
        if !is_allowed_char(s[i]) {
            return Some(s[i]);
        }
        proof {
            assert(s@.skip(i as int).skip(1) == s@.skip(i + 1));
        }
        i = i + 1;
    }
    None
}

fn is_listed(cmd: &[char]) -> (r: bool)
    ensures
        r == listed(cmd@),
{
    let all = READONLY_COMMANDS;
    let mut i: usize = 0;
    while i < all.len()
        invariant
            all == READONLY_COMMANDS,
            i <= all@.len(),
            forall|j: int| 0 <= j < i ==> (#[trigger] READONLY_COMMANDS@[j])@ != cmd@,
        decreases all@.len() - i,
    {
        if spells(cmd, all[i]) {
            proof {
                assert(READONLY_COMMANDS@[i as int]@ == cmd@);
            }
            return true;
        }
        i = i + 1;
    }
    false
}

/// Validates that `command` is a read-only command safe to send.
pub fn validate(command: &str) -> (r: Result<(), CatalogError>)
    ensures
        match r {
            Ok(_) => refusal(command@).is_none(),
            Err(e) => refusal(command@) == Some(e@),
        },
{
    let text = chars_of(command);
    let cmd = trimmed(text.as_slice());
    if cmd.len() == 0 {
        return Err(CatalogError::Empty);
    }
    match find_illegal(cmd) {
        Some(c) => {
            return Err(CatalogError::IllegalCharacter(c));
        },
        None => {},
    }
    if is_cert_read(cmd) || is_listed(cmd) {
        Ok(())
    } else {
        Err(CatalogError::NotInCatalog(text_of(cmd)))
    }
}

/// Convenience predicate: `true` iff [`validate`] accepts `command`.
pub fn is_allowed(command: &str) -> (r: bool)
    ensures
        r == refusal(command@).is_none(),
{
    validate(command).is_ok()
}

/// A text that neither starts nor ends with white space is its own trimmed form.
pub proof fn lemma_trim_identity(s: Seq<char>)
    requires
        s.len() > 0,
        !white(s[0]),
        !white(s.last()),
    ensures
        trim(s) == s,
{
    lemma_run_ends_at(s, is_white_fn(), 0);
    assert(s.skip(0) == s);
}

/// A command that is accepted holds no character but letters, digits and ` /-_.=,:`, so
/// nothing in it can chain or inject a second command.
pub proof fn law_accepted_is_clean(command: Seq<char>)
    requires
        refusal(command).is_none(),
    ensures
        all_allowed(trim(command)),
        !trim(command).contains(';'),
        !trim(command).contains('&'),
        !trim(command).contains('|'),
        !trim(command).contains('`'),
        !trim(command).contains('$'),
        !trim(command).contains('<'),
        !trim(command).contains('>'),
        !trim(command).contains('('),
        !trim(command).contains(')'),
        !trim(command).contains('*'),
        !trim(command).contains('?'),
        !trim(command).contains('\''),
        !trim(command).contains('"'),
        !trim(command).contains('\\'),
        !trim(command).contains('\n'),
{
    lemma_first_illegal(trim(command));
}

/// A command is accepted only if it is an exact member of the catalog or a certificate read.
pub proof fn law_accepted_is_known(command: Seq<char>)
    requires
        refusal(command).is_none(),
    ensures
        listed(trim(command)) || cert_read(trim(command)),
{
}

/// A clean text with no white space around it.
spec fn sound_entry(s: Seq<char>) -> bool {
    all_allowed(s) && s.len() > 0 && !white(s[0]) && !white(s.last())
}

proof fn lemma_entries_sound()
    ensures
        forall|i: int|
            0 <= i < READONLY_COMMANDS@.len() ==> sound_entry((#[trigger] READONLY_COMMANDS@[i])@),
{
    assert(sound_entry("cat /etc/os-release"@)) by {
        reveal_strlit("cat /etc/os-release");
    }
    assert(sound_entry("cat /etc/ssh/sshd_config"@)) by {
        reveal_strlit("cat /etc/ssh/sshd_config");
    }
    assert(sound_entry("cat /etc/login.defs"@)) by {
        reveal_strlit("cat /etc/login.defs");
    }
    assert(sound_entry("getent passwd"@)) by {
        reveal_strlit("getent passwd");
    }
    assert(sound_entry("sysctl -a"@)) by {
        reveal_strlit("sysctl -a");
    }
    assert(sound_entry("cat /proc/mounts"@)) by {
        reveal_strlit("cat /proc/mounts");
    }
    assert(sound_entry("ss -tuln"@)) by {
        reveal_strlit("ss -tuln");
    }
    assert(sound_entry("systemctl list-unit-files --type=service --no-pager"@)) by {
        reveal_strlit("systemctl list-unit-files --type=service --no-pager");
    }
    assert(sound_entry("apt-get -s upgrade"@)) by {
        reveal_strlit("apt-get -s upgrade");
    }
    assert(sound_entry("dnf -q updateinfo list security"@)) by {
        reveal_strlit("dnf -q updateinfo list security");
    }
    assert(sound_entry("uname -a"@)) by {
        reveal_strlit("uname -a");
    }
    assert(sound_entry("uptime"@)) by {
        reveal_strlit("uptime");
    }
    assert(sound_entry("nproc"@)) by {
        reveal_strlit("nproc");
    }
    assert(sound_entry("free -b"@)) by {
        reveal_strlit("free -b");
    }
    assert(sound_entry("df -P"@)) by {
        reveal_strlit("df -P");
    }
    assert(sound_entry("df -Pi"@)) by {
        reveal_strlit("df -Pi");
    }
    assert(sound_entry("ps -eo pid,comm,pcpu,pmem --sort=-pcpu"@)) by {
        reveal_strlit("ps -eo pid,comm,pcpu,pmem --sort=-pcpu");
    }
    assert(sound_entry("ps -eo stat --no-headers"@)) by {
        reveal_strlit("ps -eo stat --no-headers");
    }
    assert(sound_entry("ss -s"@)) by {
        reveal_strlit("ss -s");
    }
    assert(sound_entry("cat /proc/sys/fs/file-nr"@)) by {
        reveal_strlit("cat /proc/sys/fs/file-nr");
    }
    assert(sound_entry("cat /proc/sys/net/netfilter/nf_conntrack_count /proc/sys/net/netfilter/nf_conntrack_max"@)) by {
        reveal_strlit("cat /proc/sys/net/netfilter/nf_conntrack_count /proc/sys/net/netfilter/nf_conntrack_max");
    }
    assert(sound_entry("cat /proc/net/sockstat /proc/sys/net/ipv4/tcp_mem /proc/sys/net/ipv4/tcp_max_orphans /proc/sys/net/ipv4/tcp_max_tw_buckets"@)) by {
        reveal_strlit("cat /proc/net/sockstat /proc/sys/net/ipv4/tcp_mem /proc/sys/net/ipv4/tcp_max_orphans /proc/sys/net/ipv4/tcp_max_tw_buckets");
    }
    assert(sound_entry("cat /proc/loadavg /proc/sys/kernel/pid_max"@)) by {
        reveal_strlit("cat /proc/loadavg /proc/sys/kernel/pid_max");
    }
    assert(sound_entry("cat /proc/net/dev"@)) by {
        reveal_strlit("cat /proc/net/dev");
    }
    assert(sound_entry("cat /proc/net/netstat"@)) by {
        reveal_strlit("cat /proc/net/netstat");
    }
    assert(sound_entry("cat /proc/net/stat/nf_conntrack"@)) by {
        reveal_strlit("cat /proc/net/stat/nf_conntrack");
    }
    assert(sound_entry("cat /proc/net/snmp"@)) by {
        reveal_strlit("cat /proc/net/snmp");
    }
    assert(sound_entry("timedatectl show"@)) by {
        reveal_strlit("timedatectl show");
    }
    assert(sound_entry("ls /run"@)) by {
        reveal_strlit("ls /run");
    }
    assert(sound_entry("vmstat 1 2"@)) by {
        reveal_strlit("vmstat 1 2");
    }
    assert(sound_entry("systemctl list-units --type=service --state=failed --no-legend --no-pager"@)) by {
        reveal_strlit("systemctl list-units --type=service --state=failed --no-legend --no-pager");
    }
    assert(sound_entry("docker ps -a"@)) by {
        reveal_strlit("docker ps -a");
    }
    assert(sound_entry("podman ps -a"@)) by {
        reveal_strlit("podman ps -a");
    }
    assert(sound_entry("sudo -n cat /etc/shadow"@)) by {
        reveal_strlit("sudo -n cat /etc/shadow");
    }
    assert(sound_entry("sudo -n dmesg"@)) by {
        reveal_strlit("sudo -n dmesg");
    }
    assert(sound_entry("sudo -n find / -xdev -perm -4000 -type f"@)) by {
        reveal_strlit("sudo -n find / -xdev -perm -4000 -type f");
    }
    assert(sound_entry("sudo -n find / -xdev -type f -perm -0002"@)) by {
        reveal_strlit("sudo -n find / -xdev -type f -perm -0002");
    }
    assert(sound_entry("sudo -n find /etc/cron.d /etc/cron.daily /etc/cron.hourly /etc/cron.weekly /etc/cron.monthly -type d -perm -0002"@)) by {
        reveal_strlit("sudo -n find /etc/cron.d /etc/cron.daily /etc/cron.hourly /etc/cron.weekly /etc/cron.monthly -type d -perm -0002");
    }
    assert(sound_entry("sudo -n sshd -T"@)) by {
        reveal_strlit("sudo -n sshd -T");
    }
    assert(sound_entry("sudo -n nft list ruleset"@)) by {
        reveal_strlit("sudo -n nft list ruleset");
    }
    assert(sound_entry("sudo -n iptables -S"@)) by {
        reveal_strlit("sudo -n iptables -S");
    }
    assert(sound_entry("sudo -n docker ps -a"@)) by {
        reveal_strlit("sudo -n docker ps -a");
    }
    assert(sound_entry("sudo -n podman ps -a"@)) by {
        reveal_strlit("sudo -n podman ps -a");
    }
}

/// Every entry of the catalog is accepted.
pub proof fn law_catalog_accepted(i: int)
    requires
        0 <= i < READONLY_COMMANDS@.len(),
    ensures
        refusal(READONLY_COMMANDS@[i]@).is_none(),
        listed(READONLY_COMMANDS@[i]@),
{
    lemma_entries_sound();
    let s = READONLY_COMMANDS@[i]@;
    lemma_trim_identity(s);
    lemma_first_illegal(s);
}

/// A certificate read for a plain path with permitted characters is accepted.
pub proof fn law_cert_read_accepted(path: Seq<char>)
    requires
        plain_path(path),
        all_allowed(path),
    ensures
        refusal(CERT_READ_PREFIX@ + path + CERT_READ_SUFFIX@).is_none(),
        cert_read(CERT_READ_PREFIX@ + path + CERT_READ_SUFFIX@),
{
    let s = CERT_READ_PREFIX@ + path + CERT_READ_SUFFIX@;
    reveal_strlit("openssl x509 -in ");
    reveal_strlit(" -noout -enddate");
    assert(all_allowed(CERT_READ_PREFIX@));
    assert(all_allowed(CERT_READ_SUFFIX@));
    assert forall|i: int| 0 <= i < s.len() implies allowed_char(#[trigger] s[i]) by {
        if i < CERT_READ_PREFIX@.len() {
            assert(s[i] == CERT_READ_PREFIX@[i]);
        } else if i < CERT_READ_PREFIX@.len() + path.len() {
            assert(s[i] == path[i - CERT_READ_PREFIX@.len()]);
        } else {
            assert(s[i] == CERT_READ_SUFFIX@[i - CERT_READ_PREFIX@.len() - path.len()]);
        }
    }
    assert(s[0] == CERT_READ_PREFIX@[0]);
    assert(s.last() == CERT_READ_SUFFIX@.last());
    lemma_trim_identity(s);
    lemma_first_illegal(s);
}

} // verus!
