//! What holds of every check.

use super::{registry, AnyCheck, Check};
use crate::catalog::{law_catalog_accepted, listed, refusal, READONLY_COMMANDS};
use super::parse::{
    keyword, keyword_map, keyword_step, mount_entry, mounts_map, mounts_step, sysctl_entry,
    sysctl_map, sysctl_step, unit_entry, units_map, units_step,
};
use crate::text::search::starts_with;
use crate::text::split::{lemma_fold_step, lemma_take_all, lines};
use crate::textmap::{lemma_lookup_put, lemma_lookup_put_if_absent, lemma_slot, lookup, put};
use vstd::prelude::*;

verus! {

/// Every command a check issues is in the read-only catalog, character for character.
pub proof fn law_commands_in_catalog(check: AnyCheck)
    ensures
        refusal(check.info().command@).is_none(),
        listed(check.info().command@),
        check.info().effective_command matches Some(cmd) ==> refusal(cmd@).is_none() && listed(cmd@),
{
    law_catalog_accepted(1);
    assert(READONLY_COMMANDS@[1]@ == "cat /etc/ssh/sshd_config"@);
    law_catalog_accepted(2);
    assert(READONLY_COMMANDS@[2]@ == "cat /etc/login.defs"@);
    law_catalog_accepted(3);
    assert(READONLY_COMMANDS@[3]@ == "getent passwd"@);
    law_catalog_accepted(4);
    assert(READONLY_COMMANDS@[4]@ == "sysctl -a"@);
    law_catalog_accepted(6);
    assert(READONLY_COMMANDS@[6]@ == "ss -tuln"@);
    law_catalog_accepted(7);
    assert(READONLY_COMMANDS@[7]@ == "systemctl list-unit-files --type=service --no-pager"@);
    law_catalog_accepted(8);
    assert(READONLY_COMMANDS@[8]@ == "apt-get -s upgrade"@);
    law_catalog_accepted(9);
    assert(READONLY_COMMANDS@[9]@ == "dnf -q updateinfo list security"@);
    law_catalog_accepted(33);
    assert(READONLY_COMMANDS@[33]@ == "sudo -n cat /etc/shadow"@);
    law_catalog_accepted(38);
    assert(READONLY_COMMANDS@[38]@ == "sudo -n sshd -T"@);
    law_catalog_accepted(39);
    assert(READONLY_COMMANDS@[39]@ == "sudo -n nft list ruleset"@);
    law_catalog_accepted(40);
    assert(READONLY_COMMANDS@[40]@ == "sudo -n iptables -S"@);
}

/// A check is marked as privileged exactly where its command runs through `sudo -n`, and an
/// effective command always does.
pub proof fn law_privileged_is_sudo(check: AnyCheck)
    ensures
        check.info().privileged == starts_with(check.info().command@, "sudo -n "@),
        check.info().effective_command matches Some(cmd) ==> starts_with(cmd@, "sudo -n "@),
{
    reveal_strlit("sudo -n ");
    assert(starts_with("cat /etc/ssh/sshd_config"@, "sudo -n "@) == false) by {
        reveal_strlit("cat /etc/ssh/sshd_config");
        assert("cat /etc/ssh/sshd_config"@.take(8)[0] != "sudo -n "@[0]);
    }
    assert(starts_with("cat /etc/login.defs"@, "sudo -n "@) == false) by {
        reveal_strlit("cat /etc/login.defs");
        assert("cat /etc/login.defs"@.take(8)[0] != "sudo -n "@[0]);
    }
    assert(starts_with("getent passwd"@, "sudo -n "@) == false) by {
        reveal_strlit("getent passwd");
        assert("getent passwd"@.take(8)[0] != "sudo -n "@[0]);
    }
    assert(starts_with("sysctl -a"@, "sudo -n "@) == false) by {
        reveal_strlit("sysctl -a");
        assert("sysctl -a"@.take(8)[1] != "sudo -n "@[1]);
    }
    assert(starts_with("ss -tuln"@, "sudo -n "@) == false) by {
        reveal_strlit("ss -tuln");
        assert("ss -tuln"@.take(8)[1] != "sudo -n "@[1]);
    }
    assert(starts_with("systemctl list-unit-files --type=service --no-pager"@, "sudo -n "@) == false) by {
        reveal_strlit("systemctl list-unit-files --type=service --no-pager");
        assert("systemctl list-unit-files --type=service --no-pager"@.take(8)[1] != "sudo -n "@[1]);
    }
    assert(starts_with("apt-get -s upgrade"@, "sudo -n "@) == false) by {
        reveal_strlit("apt-get -s upgrade");
        assert("apt-get -s upgrade"@.take(8)[0] != "sudo -n "@[0]);
    }
    assert(starts_with("dnf -q updateinfo list security"@, "sudo -n "@) == false) by {
        reveal_strlit("dnf -q updateinfo list security");
        assert("dnf -q updateinfo list security"@.take(8)[0] != "sudo -n "@[0]);
    }
    assert(starts_with("sudo -n cat /etc/shadow"@, "sudo -n "@) == true) by {
        reveal_strlit("sudo -n cat /etc/shadow");
        assert("sudo -n cat /etc/shadow"@.take(8) =~= "sudo -n "@);
    }
    assert(starts_with("sudo -n sshd -T"@, "sudo -n "@) == true) by {
        reveal_strlit("sudo -n sshd -T");
        assert("sudo -n sshd -T"@.take(8) =~= "sudo -n "@);
    }
    assert(starts_with("sudo -n nft list ruleset"@, "sudo -n "@) == true) by {
        reveal_strlit("sudo -n nft list ruleset");
        assert("sudo -n nft list ruleset"@.take(8) =~= "sudo -n "@);
    }
    assert(starts_with("sudo -n iptables -S"@, "sudo -n "@) == true) by {
        reveal_strlit("sudo -n iptables -S");
        assert("sudo -n iptables -S"@.take(8) =~= "sudo -n "@);
    }
}

/// The length of a check's identifier, its first and its ninth character.
spec fn mark(check: AnyCheck) -> (int, char, char) {
    match check {
        AnyCheck::PermitRootLogin => (21, 's', 'i'),
        AnyCheck::PasswordAuthentication => (27, 's', 'w'),
        AnyCheck::PermitEmptyPasswords => (26, 's', 'i'),
        AnyCheck::X11Forwarding => (18, 's', 'f'),
        AnyCheck::MaxAuthTries => (18, 's', 'a'),
        AnyCheck::WeakCrypto => (15, 's', '-'),
        AnyCheck::NonRootUid0 => (21, 'a', '-'),
        AnyCheck::PassMaxDays => (22, 'a', '-'),
        AnyCheck::DefaultUmask => (14, 'a', '-'),
        AnyCheck::ShadowEmptyPassword => (30, 'a', '-'),
        AnyCheck::Aslr => (11, 'k', 's'),
        AnyCheck::TcpSyncookies => (21, 'k', 'c'),
        AnyCheck::RpFilter => (16, 'k', 'p'),
        AnyCheck::IpForward => (17, 'k', 'p'),
        AnyCheck::AcceptRedirects => (23, 'k', 'c'),
        AnyCheck::AcceptSourceRoute => (19, 'k', 'o'),
        AnyCheck::FirewallEnabled => (16, 'f', '-'),
        AnyCheck::NftDefaultDeny => (25, 'f', '-'),
        AnyCheck::IptablesDefaultDeny => (30, 'f', '-'),
        AnyCheck::SecurityUpdatesPending => (24, 'u', 's'),
        AnyCheck::SecurityUpdatesPendingDnf => (28, 'u', 's'),
        AnyCheck::AutoUpdatesEnabled => (20, 'u', 'a'),
        AnyCheck::CleartextPorts => (24, 's', '-'),
        AnyCheck::RpcbindDisabled => (16, 's', '-'),
        AnyCheck::Fail2banEnabled => (17, 's', '-'),
        AnyCheck::AuditdEnabled => (14, 'l', 'a'),
        AnyCheck::SyslogEnabled => (14, 'l', 's'),
    }
}

proof fn lemma_mark(check: AnyCheck)
    ensures
        check.info().id@.len() == mark(check).0,
        check.info().id@[0] == mark(check).1,
        check.info().id@[8] == mark(check).2,
{
    match check {
        AnyCheck::PermitRootLogin => reveal_strlit("ssh-permit-root-login"),
        AnyCheck::PasswordAuthentication => reveal_strlit("ssh-password-authentication"),
        AnyCheck::PermitEmptyPasswords => reveal_strlit("ssh-permit-empty-passwords"),
        AnyCheck::X11Forwarding => reveal_strlit("ssh-x11-forwarding"),
        AnyCheck::MaxAuthTries => reveal_strlit("ssh-max-auth-tries"),
        AnyCheck::WeakCrypto => reveal_strlit("ssh-weak-crypto"),
        AnyCheck::NonRootUid0 => reveal_strlit("accounts-nonroot-uid0"),
        AnyCheck::PassMaxDays => reveal_strlit("accounts-pass-max-days"),
        AnyCheck::DefaultUmask => reveal_strlit("accounts-umask"),
        AnyCheck::ShadowEmptyPassword => reveal_strlit("accounts-shadow-empty-password"),
        AnyCheck::Aslr => reveal_strlit("kernel-aslr"),
        AnyCheck::TcpSyncookies => reveal_strlit("kernel-tcp-syncookies"),
        AnyCheck::RpFilter => reveal_strlit("kernel-rp-filter"),
        AnyCheck::IpForward => reveal_strlit("kernel-ip-forward"),
        AnyCheck::AcceptRedirects => reveal_strlit("kernel-accept-redirects"),
        AnyCheck::AcceptSourceRoute => reveal_strlit("kernel-source-route"),
        AnyCheck::FirewallEnabled => reveal_strlit("firewall-enabled"),
        AnyCheck::NftDefaultDeny => reveal_strlit("firewall-nft-default-deny"),
        AnyCheck::IptablesDefaultDeny => reveal_strlit("firewall-iptables-default-deny"),
        AnyCheck::SecurityUpdatesPending => reveal_strlit("updates-security-pending"),
        AnyCheck::SecurityUpdatesPendingDnf => reveal_strlit("updates-security-pending-dnf"),
        AnyCheck::AutoUpdatesEnabled => reveal_strlit("updates-auto-updates"),
        AnyCheck::CleartextPorts => reveal_strlit("services-cleartext-ports"),
        AnyCheck::RpcbindDisabled => reveal_strlit("services-rpcbind"),
        AnyCheck::Fail2banEnabled => reveal_strlit("services-fail2ban"),
        AnyCheck::AuditdEnabled => reveal_strlit("logging-auditd"),
        AnyCheck::SyslogEnabled => reveal_strlit("logging-syslog"),
    }
}

/// No two checks share an identifier.
pub proof fn law_ids_unique(a: AnyCheck, b: AnyCheck)
    requires
        a.info().id@ == b.info().id@,
    ensures
        a == b,
{
    lemma_mark(a);
    lemma_mark(b);
    assert(mark(a) == mark(b));
}

/// A check that stands outside the audit's registry: those of one packet-filter backend, and
/// the `dnf` one.
pub open spec fn stands_alone(check: AnyCheck) -> bool {
    check == AnyCheck::NftDefaultDeny || check == AnyCheck::IptablesDefaultDeny || check
        == AnyCheck::SecurityUpdatesPendingDnf
}

/// An audit runs twenty-four checks, each of them once, and every check but those that stand
/// alone is one of them.
pub proof fn law_registry_complete(check: AnyCheck)
    ensures
        registry().len() == 24,
        registry().no_duplicates(),
        registry().contains(check) <==> !stands_alone(check),
{
    assert(registry()[0] == AnyCheck::PermitRootLogin);
    assert(registry()[1] == AnyCheck::PasswordAuthentication);
    assert(registry()[2] == AnyCheck::PermitEmptyPasswords);
    assert(registry()[3] == AnyCheck::X11Forwarding);
    assert(registry()[4] == AnyCheck::MaxAuthTries);
    assert(registry()[5] == AnyCheck::WeakCrypto);
    assert(registry()[6] == AnyCheck::NonRootUid0);
    assert(registry()[7] == AnyCheck::PassMaxDays);
    assert(registry()[8] == AnyCheck::DefaultUmask);
    assert(registry()[9] == AnyCheck::ShadowEmptyPassword);
    assert(registry()[10] == AnyCheck::Aslr);
    assert(registry()[11] == AnyCheck::TcpSyncookies);
    assert(registry()[12] == AnyCheck::RpFilter);
    assert(registry()[13] == AnyCheck::IpForward);
    assert(registry()[14] == AnyCheck::AcceptRedirects);
    assert(registry()[15] == AnyCheck::AcceptSourceRoute);
    assert(registry()[16] == AnyCheck::FirewallEnabled);
    assert(registry()[17] == AnyCheck::SecurityUpdatesPending);
    assert(registry()[18] == AnyCheck::AutoUpdatesEnabled);
    assert(registry()[19] == AnyCheck::CleartextPorts);
    assert(registry()[20] == AnyCheck::RpcbindDisabled);
    assert(registry()[21] == AnyCheck::Fail2banEnabled);
    assert(registry()[22] == AnyCheck::AuditdEnabled);
    assert(registry()[23] == AnyCheck::SyslogEnabled);
}

/// Whether an entry has the key.
pub open spec fn entry_has<V>(e: Option<(Seq<char>, V)>, k: Seq<char>) -> bool {
    e matches Some((key, _)) && key == k
}

/// In keyword configuration the first occurrence of a keyword wins, as it does for sshd; a
/// keyword that occurs on no line is absent.
pub proof fn law_first_keyword_wins(output: Seq<char>, k: Seq<char>)
    ensures
        first_wins(lines(output), lookup(keyword_map(output), k), k),
{
    lemma_first_of(
        lines(output),
        |m: Seq<(Seq<char>, Seq<char>)>, l: Seq<char>| keyword_step(m, l),
        k,
    );
}

/// What is found is what the first line with the keyword says.
pub open spec fn first_wins(ls: Seq<Seq<char>>, found: Option<Seq<char>>, k: Seq<char>) -> bool {
    &&& found is Some ==> exists|i: int| #[trigger] first_with(ls, k, found->0, i)
    &&& found is None ==> forall|i: int|
        0 <= i < ls.len() ==> !entry_has(keyword(#[trigger] ls[i]), k)
}

/// Line `i` gives the keyword the value, and no earlier line has the keyword.
pub open spec fn first_with(ls: Seq<Seq<char>>, k: Seq<char>, v: Seq<char>, i: int) -> bool {
    &&& 0 <= i < ls.len()
    &&& keyword(ls[i]) == Some((k, v))
    &&& forall|j: int| 0 <= j < i ==> !entry_has(keyword(#[trigger] ls[j]), k)
}

proof fn lemma_first_found(ls: Seq<Seq<char>>, k: Seq<char>, v: Seq<char>, i: int)
    requires
        first_with(ls, k, v, i),
    ensures
        first_wins(ls, Some(v), k),
{
    let found = Some(v);
    assert(found->0 == v);
    assert(exists|i: int| #[trigger] first_with(ls, k, found->0, i));
}

proof fn lemma_first_of(
    ls: Seq<Seq<char>>,
    step: spec_fn(Seq<(Seq<char>, Seq<char>)>, Seq<char>) -> Seq<(Seq<char>, Seq<char>)>,
    k: Seq<char>,
)
    requires
        forall|m: Seq<(Seq<char>, Seq<char>)>, l: Seq<char>|
            #[trigger] step(m, l) == keyword_step(m, l),
    ensures
        first_wins(ls, lookup(ls.fold_left(Seq::empty(), step), k), k),
    decreases ls.len(),
{
    let empty = Seq::<(Seq<char>, Seq<char>)>::empty();
    let all = ls.fold_left(empty, step);
    if ls.len() == 0 {
        lemma_slot(empty, k);
        assert(all == empty);
    } else {
        let n = ls.len() - 1;
        let front = ls.take(n);
        lemma_first_of(front, step, k);
        lemma_fold_step(ls, empty, step, n);
        lemma_take_all(ls);
        let before = front.fold_left(empty, step);
        assert(all == step(before, ls[n]));
        assert(forall|i: int| 0 <= i < n ==> front[i] == #[trigger] ls[i]);
        match keyword(ls[n]) {
            Some((key, v)) => {
                lemma_lookup_put_if_absent(before, key, v, k);
                if key == k && lookup(before, k) is None {
                    assert forall|j: int| 0 <= j < n implies !entry_has(
                        keyword(#[trigger] ls[j]),
                        k,
                    ) by {
                        assert(!entry_has(keyword(front[j]), k));
                    }
                    lemma_first_found(ls, k, v, n);
                    assert(lookup(all, k) == Some(v));
                }
            },
            None => {},
        }
        match lookup(before, k) {
            Some(v) => {
                let i = choose|i: int| #[trigger] first_with(front, k, v, i);
                lemma_first_found(ls, k, v, i);
                assert(lookup(all, k) == Some(v));
            },
            None => {
                if !entry_has(keyword(ls[n]), k) {
                    assert forall|i: int| 0 <= i < ls.len() implies !entry_has(
                        keyword(#[trigger] ls[i]),
                        k,
                    ) by {
                        if i < n {
                            assert(!entry_has(keyword(front[i]), k));
                        }
                    }
                }
            },
        }
    }
}

/// Line `i` gives the key the value, and no later line has the key.
pub open spec fn last_with<V>(
    ls: Seq<Seq<char>>,
    entry: spec_fn(Seq<char>) -> Option<(Seq<char>, V)>,
    k: Seq<char>,
    v: V,
    i: int,
) -> bool {
    &&& 0 <= i < ls.len()
    &&& entry(ls[i]) == Some((k, v))
    &&& forall|j: int| i < j < ls.len() ==> !entry_has(entry(#[trigger] ls[j]), k)
}

/// Of kernel parameters, mounts and unit files the last occurrence of a key wins; a key that
/// occurs on no line is absent.
pub proof fn law_last_setting_wins(output: Seq<char>, k: Seq<char>)
    ensures
        last_wins(lines(output), |l: Seq<char>| sysctl_entry(l), sysctl_map(output), k),
        last_wins(lines(output), |l: Seq<char>| mount_entry(l), mounts_map(output), k),
        last_wins(lines(output), |l: Seq<char>| unit_entry(l), units_map(output), k),
{
    let ls = lines(output);
    lemma_last_of(
        ls,
        |l: Seq<char>| sysctl_entry(l),
        |m: Seq<(Seq<char>, Seq<char>)>, l: Seq<char>| sysctl_step(m, l),
        k,
    );
    lemma_last_of(
        ls,
        |l: Seq<char>| mount_entry(l),
        |m: Seq<(Seq<char>, Seq<Seq<char>>)>, l: Seq<char>| mounts_step(m, l),
        k,
    );
    lemma_last_of(
        ls,
        |l: Seq<char>| unit_entry(l),
        |m: Seq<(Seq<char>, Seq<char>)>, l: Seq<char>| units_step(m, l),
        k,
    );
}

/// The map holds under the key what the last line with the key says.
pub open spec fn last_wins<V>(
    ls: Seq<Seq<char>>,
    entry: spec_fn(Seq<char>) -> Option<(Seq<char>, V)>,
    m: Seq<(Seq<char>, V)>,
    k: Seq<char>,
) -> bool {
    &&& lookup(m, k) is Some ==> exists|i: int| #[trigger]
        last_with(ls, entry, k, lookup(m, k)->0, i)
    &&& lookup(m, k) is None ==> forall|i: int|
        0 <= i < ls.len() ==> !entry_has(entry(#[trigger] ls[i]), k)
}

proof fn lemma_last_found<V>(
    ls: Seq<Seq<char>>,
    entry: spec_fn(Seq<char>) -> Option<(Seq<char>, V)>,
    m: Seq<(Seq<char>, V)>,
    k: Seq<char>,
    v: V,
    i: int,
)
    requires
        last_with(ls, entry, k, v, i),
        lookup(m, k) == Some(v),
    ensures
        last_wins(ls, entry, m, k),
{
    assert(lookup(m, k)->0 == v);
    assert(exists|i: int| #[trigger] last_with(ls, entry, k, lookup(m, k)->0, i));
}

proof fn lemma_last_of<V>(
    ls: Seq<Seq<char>>,
    entry: spec_fn(Seq<char>) -> Option<(Seq<char>, V)>,
    step: spec_fn(Seq<(Seq<char>, V)>, Seq<char>) -> Seq<(Seq<char>, V)>,
    k: Seq<char>,
)
    requires
        forall|m: Seq<(Seq<char>, V)>, l: Seq<char>|
            #[trigger] step(m, l) == match entry(l) {
                Some((key, v)) => put(m, key, v),
                None => m,
            },
    ensures
        last_wins(ls, entry, ls.fold_left(Seq::empty(), step), k),
    decreases ls.len(),
{
    if ls.len() == 0 {
        lemma_slot(Seq::<(Seq<char>, V)>::empty(), k);
        assert(lookup(ls.fold_left(Seq::empty(), step), k) is None);
    } else {
        let n = ls.len() - 1;
        let front = ls.take(n);
        lemma_last_of(front, entry, step, k);
        lemma_fold_step(ls, Seq::empty(), step, n);
        lemma_take_all(ls);
        let before = front.fold_left(Seq::empty(), step);
        let all = ls.fold_left(Seq::empty(), step);
        assert(all == step(before, ls[n]));
        assert(forall|i: int| 0 <= i < n ==> front[i] == #[trigger] ls[i]);
        match entry(ls[n]) {
            Some((key, v)) => {
                lemma_lookup_put(before, key, v, k);
                if key == k {
                    lemma_last_found(ls, entry, all, k, v, n);
                }
            },
            None => {},
        }
        if !entry_has(entry(ls[n]), k) {
            match lookup(before, k) {
                Some(v) => {
                    let i = choose|i: int| #[trigger] last_with(front, entry, k, v, i);
                    lemma_last_found(ls, entry, all, k, v, i);
                },
                None => {
                    assert forall|i: int| 0 <= i < ls.len() implies !entry_has(
                        entry(#[trigger] ls[i]),
                        k,
                    ) by {
                        if i < n {
                            assert(!entry_has(entry(front[i]), k));
                        }
                    }
                },
            }
        }
    }
}

} // verus!
