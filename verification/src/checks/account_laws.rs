//! What the listings of accounts and mounts say, told by their fields, and what the catalog of
//! commands lets through.

use super::parse::{mounts_map, nonexpiring_user, nonexpiring_users, weak_user, weak_users};
use crate::anomaly_laws::{lemma_from, lemma_kept};
use crate::catalog::{
    cert_read, first_illegal, listed, refusal, CatalogErrorView, READONLY_COMMANDS,
};
use crate::text::number::{digits, lemma_digits_are_read, lemma_digits_shape, strip_plus, u32_of};
use crate::text::search::{lemma_first_at, mentions, starts_with};
use crate::text::split::{
    blank, fields, lemma_fold_step, lemma_take_all, lemma_trim_blank, lines, trim, words,
};
use crate::textmap::{lemma_lookup_put, lookup};
use vstd::prelude::*;

verus! {

/// The line of an account that can log in by a password: its name and what is stored for it.
pub open spec fn stored_hash(line: Seq<char>, hash: Seq<char>) -> bool {
    fields(line, ':').len() >= 2 && trim(fields(line, ':')[0]).len() > 0 && fields(line, ':')[1]
        == hash
}

/// The character may stand in an old hash.
pub open spec fn hash_char(c: char) -> bool {
    'a' <= c <= 'z' || 'A' <= c <= 'Z' || '0' <= c <= '9' || c == '.' || c == '/'
}

/// A stored hash is weak exactly if it is an MD5 one, which starts with `$1$`, or a DES one,
/// which is thirteen plain characters or starts with `_`. An account that is locked, or has no
/// password, has no weak one.
pub proof fn law_weak_hash_is_told(line: Seq<char>, hash: Seq<char>)
    requires
        stored_hash(line, hash),
    ensures
        starts_with(hash, "$1$"@) ==> weak_user(line) == Some(
            (trim(fields(line, ':')[0]), "MD5"@),
        ),
        hash.len() > 2 && hash[0] == '$' && !starts_with(hash, "$1$"@) ==> weak_user(line) is None,
        hash.len() > 0 && hash[0] == '_' ==> weak_user(line) == Some(
            (trim(fields(line, ':')[0]), "DES"@),
        ),
        hash.len() == 13 && (forall|i: int| 0 <= i < 13 ==> hash_char(#[trigger] hash[i]))
            ==> weak_user(line) == Some((trim(fields(line, ':')[0]), "DES"@)),
        hash.len() > 0 && (hash[0] == '!' || hash[0] == '*') ==> weak_user(line) is None,
        hash.len() == 0 ==> weak_user(line) is None,
{
    reveal_strlit("$1$");
    reveal_strlit("1");
    if hash.len() > 2 && hash[0] == '$' {
        let s = hash.skip(1);
        assert(s[0] == hash[1] && s[1] == hash[2]);
        let h = hash.take(3);
        assert(h[0] == hash[0] && h[1] == hash[1] && h[2] == hash[2]);
        if starts_with(hash, "$1$"@) {
            assert(hash[1] == '1' && hash[2] == '$');
            assert(s[0] != '$');
            lemma_first_at(s, '$', 1);
            assert(s.take(1) =~= "1"@);
        } else {
            if fields(s, '$')[0] == "1"@ {
                crate::text::search::lemma_index_of(s, '$');
                let i = crate::text::search::index_of(s, '$');
                if i < s.len() {
                    assert(fields(s, '$')[0] == s.take(i));
                    assert(i == 1);
                    assert(s.take(1)[0] == '1');
                    assert(h =~= "$1$"@);
                } else {
                    assert(fields(s, '$')[0] == s);
                    assert(s.len() >= 2);
                }
            }
        }
    }
    if hash.len() == 13 && (forall|i: int| 0 <= i < 13 ==> hash_char(#[trigger] hash[i])) {
        assert(hash_char(hash[0]));
        assert forall|i: int| 0 <= i < hash.len() implies super::parse::crypt_char(
            #[trigger] hash[i],
        ) by {
            assert(hash_char(hash[i]));
        }
    }
    if starts_with(hash, "$1$"@) {
        assert(hash.take(3)[0] == hash[0]);
    }
}

/// The password of an account that can log in by one is told exactly if its longest age is unset
/// or above the limit; an age of 99999 days or more is told as never.
pub proof fn law_old_password_is_told(line: Seq<char>, hash: Seq<char>, days: u32, limit: u32)
    requires
        stored_hash(line, hash),
        fields(line, ':').len() >= 5,
        hash.len() > 0,
        hash[0] != '!',
        hash[0] != '*',
    ensures
        blank(fields(line, ':')[4]) ==> nonexpiring_user(line, limit) == Some(
            (trim(fields(line, ':')[0]), "unset"@),
        ),
        trim(fields(line, ':')[4]) == digits(days as int) ==> nonexpiring_user(line, limit) == if days
            <= limit {
            None
        } else if days < 99_999 {
            Some((trim(fields(line, ':')[0]), digits(days as int)))
        } else {
            Some((trim(fields(line, ':')[0]), digits(days as int) + " (never)"@))
        },
{
    lemma_trim_blank(fields(line, ':')[4]);
    lemma_digits_are_read(days as int);
    lemma_digits_shape(days as int);
    assert(strip_plus(digits(days as int)) == digits(days as int));
    assert(u32_of(digits(days as int)) == Some(days));
}

/// The accounts with a weak hash, and those with an old password, are those whose lines tell so.
pub proof fn law_every_line_is_judged(output: Seq<char>, limit: u32, i: int, x: (Seq<char>, Seq<char>))
    ensures
        0 <= i < lines(output).len() && weak_user(lines(output)[i]) == Some(x) ==> weak_users(
            output,
        ).contains(x),
        0 <= i < lines(output).len() && nonexpiring_user(lines(output)[i], limit) == Some(x)
            ==> nonexpiring_users(output, limit).contains(x),
        weak_users(output).contains(x) ==> exists|j: int|
            0 <= j < lines(output).len() && weak_user(#[trigger] lines(output)[j]) == Some(x),
        nonexpiring_users(output, limit).contains(x) ==> exists|j: int|
            0 <= j < lines(output).len() && nonexpiring_user(#[trigger] lines(output)[j], limit)
                == Some(x),
{
    let ls = lines(output);
    let f = |l: Seq<char>| weak_user(l);
    let g = |l: Seq<char>| nonexpiring_user(l, limit);
    if 0 <= i < ls.len() && f(ls[i]) == Some(x) {
        lemma_kept(ls, f, i);
    }
    if 0 <= i < ls.len() && g(ls[i]) == Some(x) {
        lemma_kept(ls, g, i);
    }
    if weak_users(output).contains(x) {
        let k = weak_users(output).index_of(x);
        let j = lemma_from(ls, f, k);
        assert(weak_user(ls[j]) == Some(x));
    }
    if nonexpiring_users(output, limit).contains(x) {
        let k = nonexpiring_users(output, limit).index_of(x);
        let j = lemma_from(ls, g, k);
        assert(nonexpiring_user(ls[j], limit) == Some(x));
    }
}

/// Line `i` is the last that mounts something there.
pub open spec fn last_mount(ls: Seq<Seq<char>>, at: Seq<char>, i: int) -> bool {
    &&& 0 <= i < ls.len()
    &&& words(ls[i]).len() >= 4
    &&& words(ls[i])[1] == at
    &&& forall|j: int|
        i < j < ls.len() && words(#[trigger] ls[j]).len() >= 4 ==> words(ls[j])[1] != at
}

/// The options of a mount are those in the fourth word of the last line for it.
pub proof fn law_mount_options_are_read(output: Seq<char>, at: Seq<char>, i: int)
    requires
        last_mount(lines(output), at, i),
    ensures
        lookup(mounts_map(output), at) == Some(fields(words(lines(output)[i])[3], ',')),
{
    let ls = lines(output);
    lemma_mounts_upto(ls, at, i, ls.len() as int);
    lemma_take_all(ls);
}

proof fn lemma_mounts_upto(ls: Seq<Seq<char>>, at: Seq<char>, i: int, n: int)
    requires
        last_mount(ls, at, i),
        i < n <= ls.len(),
    ensures
        lookup(
            ls.take(n).fold_left(
                Seq::empty(),
                |m: Seq<(Seq<char>, Seq<Seq<char>>)>, l: Seq<char>| super::parse::mounts_step(m, l),
            ),
            at,
        ) == Some(fields(words(ls[i])[3], ',')),
    decreases n,
{
    let f = |m: Seq<(Seq<char>, Seq<Seq<char>>)>, l: Seq<char>| super::parse::mounts_step(m, l);
    lemma_fold_step(ls, Seq::empty(), f, n - 1);
    let before = ls.take(n - 1).fold_left(Seq::empty(), f);
    let w = words(ls[n - 1]);
    if w.len() >= 4 {
        lemma_lookup_put(before, w[1], fields(w[3], ','), at);
    }
    if i < n - 1 {
        lemma_mounts_upto(ls, at, i, n - 1);
    }
}

/// The character may stand in a command.
pub open spec fn command_char(c: char) -> bool {
    'a' <= c <= 'z' || 'A' <= c <= 'Z' || '0' <= c <= '9' || c == ' ' || c == '/' || c == '-' || c
        == '_' || c == '.' || c == '=' || c == ',' || c == ':'
}

proof fn lemma_first_illegal(s: Seq<char>)
    ensures
        match first_illegal(s) {
            None => forall|i: int| 0 <= i < s.len() ==> command_char(#[trigger] s[i]),
            Some(c) => exists|i: int|
                0 <= i < s.len() && #[trigger] s[i] == c && !command_char(c) && forall|j: int|
                    0 <= j < i ==> command_char(#[trigger] s[j]),
        },
    decreases s.len(),
{
    if s.len() > 0 {
        let t = s.skip(1);
        lemma_first_illegal(t);
        assert forall|j: int| 0 <= j < t.len() implies #[trigger] t[j] == s[j + 1] by {}
        if command_char(s[0]) {
            match first_illegal(t) {
                None => {
                    assert forall|i: int| 0 <= i < s.len() implies command_char(
                        #[trigger] s[i],
                    ) by {
                        if i > 0 {
                            assert(command_char(t[i - 1]));
                        }
                    }
                },
                Some(c) => {
                    let i = choose|i: int|
                        0 <= i < t.len() && #[trigger] t[i] == c && !command_char(c) && forall|j: int|
                            0 <= j < i ==> command_char(#[trigger] t[j]);
                    assert(s[i + 1] == c);
                    assert forall|j: int| 0 <= j < i + 1 implies command_char(#[trigger] s[j]) by {
                        if j > 0 {
                            assert(command_char(t[j - 1]));
                        }
                    }
                },
            }
        } else {
            assert(s[0] == first_illegal(s)->0);
        }
    }
}

/// The command reads the end date of a certificate whose path is absolute, has no space in it
/// and does not lead upwards.
pub open spec fn reads_certificate(command: Seq<char>) -> bool {
    exists|path: Seq<char>|
        #[trigger] upright(path) && command == "openssl x509 -in "@ + path + " -noout -enddate"@
}

pub open spec fn upright(path: Seq<char>) -> bool {
    path.len() > 0 && path[0] == '/' && !path.contains(' ') && !mentions(path, ".."@)
}

/// A command is refused exactly if it is blank, holds a character that none may hold, or is
/// neither in the catalog nor reads a certificate, and for the first of these that holds.
pub proof fn law_refusals(command: Seq<char>)
    ensures
        refusal(command) == Some(CatalogErrorView::Empty) <==> blank(command),
        refusal(command) is None <==> !blank(command) && (forall|i: int|
            0 <= i < trim(command).len() ==> command_char(#[trigger] trim(command)[i])) && (
        reads_certificate(trim(command)) || exists|i: int|
            0 <= i < READONLY_COMMANDS@.len() && (#[trigger] READONLY_COMMANDS@[i])@ == trim(
                command,
            )),
        refusal(command) matches Some(CatalogErrorView::IllegalCharacter(c)) ==> !command_char(c)
            && trim(command).contains(c),
        refusal(command) matches Some(CatalogErrorView::NotInCatalog(c)) ==> c == trim(command)
            && !reads_certificate(c) && !listed(c),
{
    let cmd = trim(command);
    lemma_trim_blank(command);
    lemma_first_illegal(cmd);
    if cert_read(cmd) {
        let path = choose|path: Seq<char>|
            cmd == "openssl x509 -in "@ + path + " -noout -enddate"@
                && #[trigger] crate::catalog::plain_path(path);
        assert(upright(path));
    }
    if reads_certificate(cmd) {
        let path = choose|path: Seq<char>|
            #[trigger] upright(path) && cmd == "openssl x509 -in "@ + path + " -noout -enddate"@;
        assert(crate::catalog::plain_path(path));
    }
}

/// The catalog holds these commands, each of which only reads, and no other.
pub open spec fn only_reads(c: Seq<char>) -> bool {
    ||| c == "cat /etc/os-release"@
    ||| c == "cat /etc/ssh/sshd_config"@
    ||| c == "cat /etc/login.defs"@
    ||| c == "getent passwd"@
    ||| c == "sysctl -a"@
    ||| c == "cat /proc/mounts"@
    ||| c == "ss -tuln"@
    ||| c == "systemctl list-unit-files --type=service --no-pager"@
    ||| c == "apt-get -s upgrade"@
    ||| c == "dnf -q updateinfo list security"@
    ||| c == "uname -a"@
    ||| c == "uptime"@
    ||| c == "nproc"@
    ||| c == "free -b"@
    ||| c == "df -P"@
    ||| c == "df -Pi"@
    ||| c == "ps -eo pid,comm,pcpu,pmem --sort=-pcpu"@
    ||| c == "ps -eo stat --no-headers"@
    ||| c == "ss -s"@
    ||| c == "cat /proc/sys/fs/file-nr"@
    ||| c == "cat /proc/sys/net/netfilter/nf_conntrack_count /proc/sys/net/netfilter/nf_conntrack_max"@
    ||| c == "cat /proc/net/sockstat /proc/sys/net/ipv4/tcp_mem /proc/sys/net/ipv4/tcp_max_orphans /proc/sys/net/ipv4/tcp_max_tw_buckets"@
    ||| c == "cat /proc/loadavg /proc/sys/kernel/pid_max"@
    ||| c == "cat /proc/net/dev"@
    ||| c == "cat /proc/net/netstat"@
    ||| c == "cat /proc/net/stat/nf_conntrack"@
    ||| c == "cat /proc/net/snmp"@
    ||| c == "timedatectl show"@
    ||| c == "ls /run"@
    ||| c == "vmstat 1 2"@
    ||| c == "systemctl list-units --type=service --state=failed --no-legend --no-pager"@
    ||| c == "docker ps -a"@
    ||| c == "podman ps -a"@
    ||| c == "sudo -n cat /etc/shadow"@
    ||| c == "sudo -n dmesg"@
    ||| c == "sudo -n find / -xdev -perm -4000 -type f"@
    ||| c == "sudo -n find / -xdev -type f -perm -0002"@
    ||| c == "sudo -n find /etc/cron.d /etc/cron.daily /etc/cron.hourly /etc/cron.weekly /etc/cron.monthly -type d -perm -0002"@
    ||| c == "sudo -n sshd -T"@
    ||| c == "sudo -n nft list ruleset"@
    ||| c == "sudo -n iptables -S"@
    ||| c == "sudo -n docker ps -a"@
    ||| c == "sudo -n podman ps -a"@
}

/// A command is in the catalog exactly if it is one of those that only read.
pub proof fn law_catalog_only_reads(c: Seq<char>)
    ensures
        listed(c) <==> only_reads(c),
{
    let all = READONLY_COMMANDS@;
    assert(all[0]@ == "cat /etc/os-release"@);
    assert(all[1]@ == "cat /etc/ssh/sshd_config"@);
    assert(all[2]@ == "cat /etc/login.defs"@);
    assert(all[3]@ == "getent passwd"@);
    assert(all[4]@ == "sysctl -a"@);
    assert(all[5]@ == "cat /proc/mounts"@);
    assert(all[6]@ == "ss -tuln"@);
    assert(all[7]@ == "systemctl list-unit-files --type=service --no-pager"@);
    assert(all[8]@ == "apt-get -s upgrade"@);
    assert(all[9]@ == "dnf -q updateinfo list security"@);
    assert(all[10]@ == "uname -a"@);
    assert(all[11]@ == "uptime"@);
    assert(all[12]@ == "nproc"@);
    assert(all[13]@ == "free -b"@);
    assert(all[14]@ == "df -P"@);
    assert(all[15]@ == "df -Pi"@);
    assert(all[16]@ == "ps -eo pid,comm,pcpu,pmem --sort=-pcpu"@);
    assert(all[17]@ == "ps -eo stat --no-headers"@);
    assert(all[18]@ == "ss -s"@);
    assert(all[19]@ == "cat /proc/sys/fs/file-nr"@);
    assert(all[20]@ == "cat /proc/sys/net/netfilter/nf_conntrack_count /proc/sys/net/netfilter/nf_conntrack_max"@);
    assert(all[21]@ == "cat /proc/net/sockstat /proc/sys/net/ipv4/tcp_mem /proc/sys/net/ipv4/tcp_max_orphans /proc/sys/net/ipv4/tcp_max_tw_buckets"@);
    assert(all[22]@ == "cat /proc/loadavg /proc/sys/kernel/pid_max"@);
    assert(all[23]@ == "cat /proc/net/dev"@);
    assert(all[24]@ == "cat /proc/net/netstat"@);
    assert(all[25]@ == "cat /proc/net/stat/nf_conntrack"@);
    assert(all[26]@ == "cat /proc/net/snmp"@);
    assert(all[27]@ == "timedatectl show"@);
    assert(all[28]@ == "ls /run"@);
    assert(all[29]@ == "vmstat 1 2"@);
    assert(all[30]@ == "systemctl list-units --type=service --state=failed --no-legend --no-pager"@);
    assert(all[31]@ == "docker ps -a"@);
    assert(all[32]@ == "podman ps -a"@);
    assert(all[33]@ == "sudo -n cat /etc/shadow"@);
    assert(all[34]@ == "sudo -n dmesg"@);
    assert(all[35]@ == "sudo -n find / -xdev -perm -4000 -type f"@);
    assert(all[36]@ == "sudo -n find / -xdev -type f -perm -0002"@);
    assert(all[37]@ == "sudo -n find /etc/cron.d /etc/cron.daily /etc/cron.hourly /etc/cron.weekly /etc/cron.monthly -type d -perm -0002"@);
    assert(all[38]@ == "sudo -n sshd -T"@);
    assert(all[39]@ == "sudo -n nft list ruleset"@);
    assert(all[40]@ == "sudo -n iptables -S"@);
    assert(all[41]@ == "sudo -n docker ps -a"@);
    assert(all[42]@ == "sudo -n podman ps -a"@);
}

} // verus!
