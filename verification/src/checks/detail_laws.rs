//! What the verdicts tell beside pass and fail: the settings that they judged, and the names of
//! what they found.

use super::{AnyCheck, Check, Status};
use super::accounts::{hidden_root, hidden_roots};
use super::parse::{
    enabled, listen_port, listen_ports, passwd_entries, passwd_entry, passwordless_user,
    passwordless_users, units_map, PasswdView,
};
use super::services::{cleartext_services, CLEARTEXT_PORTS};
use super::ssh::{weak_algorithms, weak_in, weak_token};
use super::verdicts::{first_directive, last_setting, lemma_directive, lemma_setting, value_of};
use crate::anomaly_laws::lemma_kept;
use crate::health::wording_laws::{lemma_joined_mentions, lemma_mentions_within};
use crate::text::chars::lowercase;
use crate::text::compose::joined;
use crate::text::number::digits;
use crate::text::search::{mentions, starts_with};
use crate::text::split::{fields, lines, trim};
use crate::textmap::lookup;
use vstd::prelude::*;

verus! {

proof fn lemma_listed_in_detail(
    before: Seq<char>,
    found: Seq<Seq<char>>,
    after: Seq<char>,
    x: Seq<char>,
)
    requires
        found.contains(x),
    ensures
        mentions(before + joined(found, ", "@) + after, x),
{
    let i = found.index_of(x);
    lemma_joined_mentions(found, ", "@, i);
    lemma_mentions_within(before, joined(found, ", "@), after, x);
}

/// The detail names every account that is root under another name.
pub proof fn law_second_roots_are_named(output: Seq<char>, i: int)
    requires
        0 <= i < lines(output).len(),
        passwd_entry(lines(output)[i]) matches Some(e) && e.uid == 0 && e.name != "root"@,
    ensures
        mentions(
            AnyCheck::NonRootUid0.verdict(output).detail,
            fields(lines(output)[i], ':')[0],
        ),
{
    let ls = lines(output);
    let f = |l: Seq<char>| passwd_entry(l);
    let g = |e: PasswdView| hidden_root(e);
    let es = passwd_entries(output);
    lemma_kept(ls, f, i);
    let e = f(ls[i])->0;
    let k = es.index_of(e);
    lemma_kept(es, g, k);
    lemma_listed_in_detail(
        "Accounts with UID 0 besides root: "@,
        hidden_roots(output),
        "."@,
        e.name,
    );
}

/// The detail names every account with an empty password.
pub proof fn law_open_accounts_are_named(output: Seq<char>, i: int)
    requires
        0 <= i < lines(output).len(),
        passwordless_user(lines(output)[i]) is Some,
    ensures
        mentions(
            AnyCheck::ShadowEmptyPassword.verdict(output).detail,
            trim(fields(lines(output)[i], ':')[0]),
        ),
{
    let ls = lines(output);
    let f = |l: Seq<char>| passwordless_user(l);
    lemma_kept(ls, f, i);
    lemma_listed_in_detail(
        "Accounts with an empty password: "@,
        passwordless_users(output),
        "."@,
        f(ls[i])->0,
    );
}

/// What listens in clear text on a port.
pub open spec fn clear_name(port: u16) -> Seq<char> {
    if port == 21 {
        "ftp"@
    } else if port == 23 {
        "telnet"@
    } else if port == 512 {
        "rexec"@
    } else if port == 513 {
        "rlogin"@
    } else {
        "rsh"@
    }
}

/// The detail names every service that listens in clear text.
pub proof fn law_clear_services_are_named(output: Seq<char>, i: int, port: u16)
    requires
        0 <= i < lines(output).len(),
        listen_port(lines(output)[i]) == Some(port),
        port == 21 || port == 23 || port == 512 || port == 513 || port == 514,
    ensures
        mentions(AnyCheck::CleartextPorts.verdict(output).detail, clear_name(port)),
{
    let ls = lines(output);
    let f = |l: Seq<char>| listen_port(l);
    let ports = listen_ports(output);
    lemma_kept(ls, f, i);
    let g = |p: (u16, &'static str)|
        if ports.contains(p.0) {
            Some(p.1@)
        } else {
            None
        };
    let table = CLEARTEXT_PORTS@;
    let k: int = if port == 21 {
        0
    } else if port == 23 {
        1
    } else if port == 512 {
        2
    } else if port == 513 {
        3
    } else {
        4
    };
    assert(table[k].0 == port && table[k].1@ == clear_name(port));
    lemma_kept(table, g, k);
    lemma_listed_in_detail(
        "Cleartext services listening: "@,
        cleartext_services(ports),
        "."@,
        clear_name(port),
    );
}

/// The detail names every firewall that is enabled.
pub proof fn law_firewalls_are_named(output: Seq<char>, name: Seq<char>)
    requires
        name == "firewalld"@ || name == "ufw"@ || name == "nftables"@,
        lookup(units_map(output), name + ".service"@) == Some("enabled"@),
    ensures
        AnyCheck::FirewallEnabled.verdict(output).status == Status::Pass,
        mentions(AnyCheck::FirewallEnabled.verdict(output).detail, name),
{
    let units = units_map(output);
    let g = |s: &'static str|
        if enabled(units, s@) {
            Some(s@)
        } else {
            None
        };
    let table = super::firewall::FIREWALL_UNITS@;
    let k: int = if name == "firewalld"@ {
        0
    } else if name == "ufw"@ {
        1
    } else {
        2
    };
    assert(table[k]@ == name);
    lemma_kept(table, g, k);
    lemma_listed_in_detail(
        "Firewall enabled: "@,
        super::firewall::active_firewalls(units),
        "."@,
        name,
    );
}

/// The detail names every weak algorithm, in small letters.
pub proof fn law_weak_algorithms_are_named(
    output: Seq<char>,
    key: Seq<char>,
    list: Seq<char>,
    i: int,
    j: int,
)
    requires
        key == "ciphers"@ || key == "macs"@ || key == "kexalgorithms"@,
        first_directive(lines(output), key, list, i),
        trim(list).len() > 0,
        trim(list)[0] != '-',
        trim(list)[0] != '+',
        trim(list)[0] != '^',
        0 <= j < fields(trim(list), ',').len(),
        weak_token(fields(trim(list), ',')[j]) is Some,
    ensures
        mentions(
            AnyCheck::WeakCrypto.verdict(output).detail,
            lowercase(trim(fields(trim(list), ',')[j])),
        ),
{
    lemma_directive(output, key, list, i);
    let f = |t: Seq<char>| weak_token(t);
    let parts = fields(trim(list), ',');
    lemma_kept(parts, f, j);
    let x = f(parts[j])->0;
    let cfg = super::parse::keyword_map(output);
    let (a, b, c) = (
        weak_in(lookup(cfg, "ciphers"@)),
        weak_in(lookup(cfg, "macs"@)),
        weak_in(lookup(cfg, "kexalgorithms"@)),
    );
    let all = weak_algorithms(output);
    assert(all == a + b + c);
    if key == "ciphers"@ {
        let k = a.index_of(x);
        assert(all[k] == x);
    } else if key == "macs"@ {
        let k = b.index_of(x);
        assert(all[a.len() + k] == x);
    } else {
        let k = c.index_of(x);
        assert(all[a.len() + b.len() + k] == x);
    }
    lemma_listed_in_detail("Weak SSH algorithms configured: "@, all, "."@, x);
}

/// A check of a kernel parameter tells the parameter and the value that it judged.
pub proof fn law_parameters_are_named(output: Seq<char>, i: int)
    ensures
        last_setting(lines(output), "kernel.randomize_va_space"@, i) ==> mentions(
            AnyCheck::Aslr.verdict(output).detail,
            "kernel.randomize_va_space = "@ + value_of(lines(output)[i]),
        ),
        last_setting(lines(output), "net.ipv4.tcp_syncookies"@, i) ==> mentions(
            AnyCheck::TcpSyncookies.verdict(output).detail,
            "net.ipv4.tcp_syncookies = "@ + value_of(lines(output)[i]),
        ),
        last_setting(lines(output), "net.ipv4.conf.all.rp_filter"@, i) ==> mentions(
            AnyCheck::RpFilter.verdict(output).detail,
            "net.ipv4.conf.all.rp_filter = "@ + value_of(lines(output)[i]),
        ),
        last_setting(lines(output), "net.ipv4.conf.all.accept_redirects"@, i) ==> mentions(
            AnyCheck::AcceptRedirects.verdict(output).detail,
            "net.ipv4.conf.all.accept_redirects = "@ + value_of(lines(output)[i]),
        ),
        last_setting(lines(output), "net.ipv4.conf.all.accept_source_route"@, i) ==> mentions(
            AnyCheck::AcceptSourceRoute.verdict(output).detail,
            "net.ipv4.conf.all.accept_source_route = "@ + value_of(lines(output)[i]),
        ),
        last_setting(lines(output), "net.ipv4.ip_forward"@, i) ==> mentions(
            AnyCheck::IpForward.verdict(output).detail,
            "net.ipv4.ip_forward = "@ + value_of(lines(output)[i]),
        ),
{
    reveal_strlit(" = ");
    reveal_strlit("kernel.randomize_va_space");
    reveal_strlit("kernel.randomize_va_space = ");
    reveal_strlit("net.ipv4.tcp_syncookies");
    reveal_strlit("net.ipv4.tcp_syncookies = ");
    reveal_strlit("net.ipv4.conf.all.rp_filter");
    reveal_strlit("net.ipv4.conf.all.rp_filter = ");
    reveal_strlit("net.ipv4.conf.all.accept_redirects");
    reveal_strlit("net.ipv4.conf.all.accept_redirects = ");
    reveal_strlit("net.ipv4.conf.all.accept_source_route");
    reveal_strlit("net.ipv4.conf.all.accept_source_route = ");
    reveal_strlit("net.ipv4.ip_forward");
    reveal_strlit("net.ipv4.ip_forward = ");
    assert("kernel.randomize_va_space"@ + " = "@ =~= "kernel.randomize_va_space = "@);
    assert("net.ipv4.tcp_syncookies"@ + " = "@ =~= "net.ipv4.tcp_syncookies = "@);
    assert("net.ipv4.conf.all.rp_filter"@ + " = "@ =~= "net.ipv4.conf.all.rp_filter = "@);
    assert("net.ipv4.conf.all.accept_redirects"@ + " = "@
        =~= "net.ipv4.conf.all.accept_redirects = "@);
    assert("net.ipv4.conf.all.accept_source_route"@ + " = "@
        =~= "net.ipv4.conf.all.accept_source_route = "@);
    assert("net.ipv4.ip_forward"@ + " = "@ =~= "net.ipv4.ip_forward = "@);
    lemma_expected(output, "kernel.randomize_va_space"@, "2"@, "2"@, "full ASLR requires 2"@);
    lemma_expected(
        output,
        "net.ipv4.tcp_syncookies"@,
        "1"@,
        "1"@,
        "SYN-flood protection requires 1"@,
    );
    lemma_expected(
        output,
        "net.ipv4.conf.all.rp_filter"@,
        "1"@,
        "2"@,
        "anti-spoofing requires 1 or 2"@,
    );
    lemma_expected(
        output,
        "net.ipv4.conf.all.accept_redirects"@,
        "0"@,
        "0"@,
        "accepting redirects allows route hijacking"@,
    );
    lemma_expected(
        output,
        "net.ipv4.conf.all.accept_source_route"@,
        "0"@,
        "0"@,
        "source routing can bypass filtering"@,
    );
    let forward = lookup(super::parse::sysctl_map(output), "net.ipv4.ip_forward"@);
    if forward is Some {
        let x = "net.ipv4.ip_forward"@ + " = "@ + forward->0;
        let d = AnyCheck::IpForward.verdict(output).detail;
        assert(d.take(x.len() as int) =~= x);
    }
    lemma_parameter(output, "kernel.randomize_va_space"@, i, AnyCheck::Aslr.verdict(output).detail);
    lemma_parameter(
        output,
        "net.ipv4.tcp_syncookies"@,
        i,
        AnyCheck::TcpSyncookies.verdict(output).detail,
    );
    lemma_parameter(
        output,
        "net.ipv4.conf.all.rp_filter"@,
        i,
        AnyCheck::RpFilter.verdict(output).detail,
    );
    lemma_parameter(
        output,
        "net.ipv4.conf.all.accept_redirects"@,
        i,
        AnyCheck::AcceptRedirects.verdict(output).detail,
    );
    lemma_parameter(
        output,
        "net.ipv4.conf.all.accept_source_route"@,
        i,
        AnyCheck::AcceptSourceRoute.verdict(output).detail,
    );
    lemma_parameter(
        output,
        "net.ipv4.ip_forward"@,
        i,
        AnyCheck::IpForward.verdict(output).detail,
    );
}

proof fn lemma_parameter(output: Seq<char>, key: Seq<char>, i: int, detail: Seq<char>)
    requires
        key.len() > 0,
        lookup(super::parse::sysctl_map(output), key) matches Some(v) ==> starts_with(
            detail,
            key + " = "@ + v,
        ),
    ensures
        last_setting(lines(output), key, i) ==> mentions(
            detail,
            key + " = "@ + value_of(lines(output)[i]),
        ),
{
    lemma_setting(output, key, i);
    if last_setting(lines(output), key, i) {
        let x = key + " = "@ + value_of(lines(output)[i]);
        assert(detail.subrange(0, x.len() as int) =~= detail.take(x.len() as int));
        assert(crate::text::search::occurs_at(detail, x, 0));
    }
}

proof fn lemma_expected(
    output: Seq<char>,
    key: Seq<char>,
    first: Seq<char>,
    second: Seq<char>,
    secure_desc: Seq<char>,
)
    ensures
        lookup(super::parse::sysctl_map(output), key) matches Some(v) ==> starts_with(
            super::kernel::expected(output, key, first, second, secure_desc).detail,
            key + " = "@ + v,
        ),
{
    if lookup(super::parse::sysctl_map(output), key) is Some {
        let v = lookup(super::parse::sysctl_map(output), key)->0;
        let x = key + " = "@ + v;
        let d = super::kernel::expected(output, key, first, second, secure_desc).detail;
        assert(d.take(x.len() as int) =~= x);
    }
}

/// The checks of login settings tell the value that they judged, the limits beside a number that
/// is too high.
pub proof fn law_settings_are_told(output: Seq<char>, i: int, n: u32)
    ensures
        first_directive(lines(output), "maxauthtries"@, digits(n as int), i) ==> (
        AnyCheck::MaxAuthTries.verdict(output).detail == if n <= 4 {
            "MaxAuthTries is "@ + digits(n as int) + "."@
        } else {
            "MaxAuthTries is "@ + digits(n as int) + " (recommended 4 or less)."@
        }),
        first_directive(lines(output), "pass_max_days"@, digits(n as int), i) ==> (
        AnyCheck::PassMaxDays.verdict(output).detail == if n <= 365 {
            "PASS_MAX_DAYS is "@ + digits(n as int) + "."@
        } else {
            "PASS_MAX_DAYS is "@ + digits(n as int) + " (recommended 365 or less)."@
        }),
{
    lemma_directive(output, "maxauthtries"@, digits(n as int), i);
    lemma_directive(output, "pass_max_days"@, digits(n as int), i);
    super::verdicts::lemma_digits_small(n as int);
    super::verdicts::lemma_digits_u32(n);
}

/// Pending updates are counted by their lines.
pub proof fn law_pending_updates_are_counted(output: Seq<char>)
    ensures
        ({
            let apt = lines(output).filter(
                |l: Seq<char>|
                    starts_with(l, "Inst "@) && mentions(
                        lowercase(l),
                        "security"@,
                    ),
            ).len();
            let dnf = lines(output).filter(
                |l: Seq<char>| crate::text::split::words(l).len() >= 3,
            ).len();
            &&& apt > 0 ==> AnyCheck::SecurityUpdatesPending.verdict(output).detail == digits(
                apt as int,
            ) + " pending security update(s)."@
            &&& dnf > 0 ==> AnyCheck::SecurityUpdatesPendingDnf.verdict(output).detail == digits(
                dnf as int,
            ) + " pending security update(s)."@
        }),
{
    let ls = lines(output);
    let p = |l: Seq<char>|
        starts_with(l, "Inst "@) && mentions(lowercase(l), "security"@);
    let q = |l: Seq<char>| super::updates::security_install(l);
    super::verdicts::lemma_count(ls, q, p);
    let r = |l: Seq<char>| crate::text::split::words(l).len() >= 3;
    let s = |l: Seq<char>| super::updates::advisory_row(l);
    super::verdicts::lemma_count(ls, s, r);
}

/// Every check goes by a name, which reports and baselines refer to, and a title.
pub proof fn law_checks_are_named()
    ensures
        AnyCheck::PermitRootLogin.info().id@ == "ssh-permit-root-login"@,
        AnyCheck::PermitRootLogin.info().title@ == "Root login over SSH"@,
        AnyCheck::PasswordAuthentication.info().id@ == "ssh-password-authentication"@,
        AnyCheck::PasswordAuthentication.info().title@ == "Password authentication over SSH"@,
        AnyCheck::PermitEmptyPasswords.info().id@ == "ssh-permit-empty-passwords"@,
        AnyCheck::PermitEmptyPasswords.info().title@ == "Empty passwords permitted over SSH"@,
        AnyCheck::X11Forwarding.info().id@ == "ssh-x11-forwarding"@,
        AnyCheck::X11Forwarding.info().title@ == "X11 forwarding enabled"@,
        AnyCheck::MaxAuthTries.info().id@ == "ssh-max-auth-tries"@,
        AnyCheck::MaxAuthTries.info().title@ == "SSH MaxAuthTries too high"@,
        AnyCheck::WeakCrypto.info().id@ == "ssh-weak-crypto"@,
        AnyCheck::WeakCrypto.info().title@ == "Weak SSH ciphers/MACs/key exchange"@,
        AnyCheck::NonRootUid0.info().id@ == "accounts-nonroot-uid0"@,
        AnyCheck::NonRootUid0.info().title@ == "Non-root account with UID 0"@,
        AnyCheck::PassMaxDays.info().id@ == "accounts-pass-max-days"@,
        AnyCheck::PassMaxDays.info().title@ == "Password expiry policy too weak"@,
        AnyCheck::DefaultUmask.info().id@ == "accounts-umask"@,
        AnyCheck::DefaultUmask.info().title@ == "Weak default UMASK"@,
        AnyCheck::ShadowEmptyPassword.info().id@ == "accounts-shadow-empty-password"@,
        AnyCheck::ShadowEmptyPassword.info().title@ == "Account with an empty password"@,
        AnyCheck::Aslr.info().id@ == "kernel-aslr"@,
        AnyCheck::Aslr.info().title@ == "Address-space layout randomization"@,
        AnyCheck::TcpSyncookies.info().id@ == "kernel-tcp-syncookies"@,
        AnyCheck::TcpSyncookies.info().title@ == "TCP SYN cookies"@,
        AnyCheck::RpFilter.info().id@ == "kernel-rp-filter"@,
        AnyCheck::RpFilter.info().title@ == "Reverse-path filtering"@,
        AnyCheck::IpForward.info().id@ == "kernel-ip-forward"@,
        AnyCheck::IpForward.info().title@ == "IP forwarding enabled"@,
        AnyCheck::AcceptRedirects.info().id@ == "kernel-accept-redirects"@,
        AnyCheck::AcceptRedirects.info().title@ == "ICMP redirects accepted"@,
        AnyCheck::AcceptSourceRoute.info().id@ == "kernel-source-route"@,
        AnyCheck::AcceptSourceRoute.info().title@ == "Source-routed packets accepted"@,
        AnyCheck::FirewallEnabled.info().id@ == "firewall-enabled"@,
        AnyCheck::FirewallEnabled.info().title@ == "No host firewall enabled"@,
        AnyCheck::NftDefaultDeny.info().id@ == "firewall-nft-default-deny"@,
        AnyCheck::NftDefaultDeny.info().title@ == "No default-deny on the input hook"@,
        AnyCheck::IptablesDefaultDeny.info().id@ == "firewall-iptables-default-deny"@,
        AnyCheck::IptablesDefaultDeny.info().title@ == "No default-deny on the iptables INPUT chain"@,
        AnyCheck::SecurityUpdatesPending.info().id@ == "updates-security-pending"@,
        AnyCheck::SecurityUpdatesPending.info().title@ == "Pending security updates"@,
        AnyCheck::SecurityUpdatesPendingDnf.info().id@ == "updates-security-pending-dnf"@,
        AnyCheck::SecurityUpdatesPendingDnf.info().title@ == "Pending security updates (dnf)"@,
        AnyCheck::AutoUpdatesEnabled.info().id@ == "updates-auto-updates"@,
        AnyCheck::AutoUpdatesEnabled.info().title@ == "Automatic security updates disabled"@,
        AnyCheck::CleartextPorts.info().id@ == "services-cleartext-ports"@,
        AnyCheck::CleartextPorts.info().title@ == "Cleartext service listening"@,
        AnyCheck::RpcbindDisabled.info().id@ == "services-rpcbind"@,
        AnyCheck::RpcbindDisabled.info().title@ == "rpcbind (portmapper) enabled"@,
        AnyCheck::Fail2banEnabled.info().id@ == "services-fail2ban"@,
        AnyCheck::Fail2banEnabled.info().title@ == "fail2ban not enabled"@,
        AnyCheck::AuditdEnabled.info().id@ == "logging-auditd"@,
        AnyCheck::AuditdEnabled.info().title@ == "Audit daemon not enabled"@,
        AnyCheck::SyslogEnabled.info().id@ == "logging-syslog"@,
        AnyCheck::SyslogEnabled.info().title@ == "No persistent syslog daemon"@,
{
}

} // verus!
