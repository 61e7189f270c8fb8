//! Parsers of command output.

use linux_audit_mcp::checks::parse::{
    iptables_input_policy, nft_input_policy, parse_keyword_map, parse_listen_ports, parse_passwd,
    parse_proc_mounts, parse_sysctl, parse_unit_files, service_enabled,
    shadow_empty_password_accounts, shadow_nonexpiring_password_accounts,
    shadow_weak_hash_accounts, NftInput,
};

#[test]
fn keyword_map_lowercases_and_first_wins() {
    let m = parse_keyword_map("# c\nPermitRootLogin no\nPermitRootLogin yes\nUMASK 027\n");
    assert_eq!(m.get("permitrootlogin").map(String::as_str), Some("no"));
    assert_eq!(m.get("umask").map(String::as_str), Some("027"));
}

#[test]
fn parses_proc_mounts() {
    let out = "sysfs /sys sysfs rw,nosuid,nodev,noexec,relatime 0 0\n\
               tmpfs /dev/shm tmpfs rw,nosuid,nodev 0 0\n\
               tmpfs /tmp tmpfs rw,nosuid,nodev,noexec 0 0\n\
               garbage\n";
    let m = parse_proc_mounts(out);
    assert_eq!(
        &m.get("/dev/shm").unwrap().items,
        &vec!["rw".to_string(), "nosuid".to_string(), "nodev".to_string()]
    );
    assert!(m.get("/tmp").unwrap().items.contains(&"noexec".to_string()));
    assert!(!m.contains_key("garbage")); // short line skipped
}

#[test]
fn parses_passwd() {
    let out = "root:x:0:0:root:/root:/bin/bash\n\
               backup:x:34:34:backup:/var/backups:/usr/sbin/nologin\n\
               bad-line\n";
    let e = parse_passwd(out);
    assert_eq!(e.len(), 2);
    assert_eq!(e[0].name, "root");
    assert_eq!(e[0].uid, 0);
    assert_eq!(e[1].shell, "/usr/sbin/nologin");
}

#[test]
fn shadow_empty_passwords() {
    let out = "root:$6$abc$hash:19000:0:99999:7:::\n\
               daemon:*:19000:0:99999:7:::\n\
               locked:!:19000:0:99999:7:::\n\
               nopass::19000:0:99999:7:::\n\
               also_nopass::19000:0:99999:7:::\n";
    let empty = shadow_empty_password_accounts(out);
    assert_eq!(empty, vec!["nopass", "also_nopass"]);
    // A normal shadow yields nothing.
    assert!(shadow_empty_password_accounts("root:$6$x:19000::::::\n").is_empty());
}

#[test]
fn shadow_weak_hashes() {
    // `desuser` carries a 13-char traditional DES crypt hash.
    let out = "root:$6$abc$hash:19000:0:99999:7:::\n\
               sha256:$5$abc$hash:19000:0:99999:7:::\n\
               bcrypt:$2b$10$abcdefghijklmnopqrstuv:19000:0:99999:7:::\n\
               md5user:$1$Xy9z8W7v$0123456789AbCdEfGhIjK.:19000:0:99999:7:::\n\
               desuser:abcABC123./xy:19000:0:99999:7:::\n\
               locked:!:19000:0:99999:7:::\n\
               nopass::19000:0:99999:7:::\n";
    let weak = shadow_weak_hash_accounts(out);
    assert_eq!(
        weak,
        vec![
            ("md5user".to_string(), "MD5"),
            ("desuser".to_string(), "DES"),
        ]
    );
    // Strong hashes, locked and empty accounts are not weak-hash findings.
    assert!(shadow_weak_hash_accounts("root:$6$x$h:19000::::::\n").is_empty());
}

#[test]
fn shadow_nonexpiring_passwords() {
    let out = "root:$6$abc$hash:19700:0:99999:7:::\n\
               alice:$6$def$hash:19700:0:90:7:::\n\
               bob:$6$ghi$hash:19700:0::7:::\n\
               carol:$6$jkl$hash:19700:0:500:7:::\n\
               daemon:*:19700:0:99999:7:::\n\
               sshd:!:19700:0:99999:7:::\n\
               nopass::19700:0:99999:7:::\n";
    let flagged = shadow_nonexpiring_password_accounts(out, 365);
    // root (99999 -> never), bob (unset), carol (500 > 365); NOT alice (90),
    // NOT locked/disabled/empty accounts.
    assert_eq!(
        flagged,
        vec![
            ("root".to_string(), "99999 (never)".to_string()),
            ("bob".to_string(), "unset".to_string()),
            ("carol".to_string(), "500".to_string()),
        ]
    );
}

#[test]
fn parses_sysctl() {
    let m = parse_sysctl("kernel.randomize_va_space = 2\nnet.ipv4.ip_forward = 0\n");
    assert_eq!(
        m.get("kernel.randomize_va_space").map(String::as_str),
        Some("2")
    );
    assert_eq!(m.get("net.ipv4.ip_forward").map(String::as_str), Some("0"));
}

#[test]
fn parses_unit_files_and_enabled() {
    let out = "UNIT FILE            STATE    PRESET\n\
               firewalld.service    enabled  enabled\n\
               rpcbind.service      disabled disabled\n\
               \n\
               2 unit files listed.\n";
    let m = parse_unit_files(out);
    assert!(service_enabled(&m, "firewalld"));
    assert!(!service_enabled(&m, "rpcbind"));
    assert!(!service_enabled(&m, "ufw"));
}

#[test]
fn parses_listen_ports() {
    let out = "Netid State  Recv-Q Send-Q Local Address:Port Peer Address:Port\n\
               tcp   LISTEN 0      128    0.0.0.0:22         0.0.0.0:*\n\
               tcp   LISTEN 0      128    [::]:23            [::]:*\n\
               udp   UNCONN 0      0      0.0.0.0:53         0.0.0.0:*\n";
    let mut ports = parse_listen_ports(out);
    ports.sort_unstable();
    assert_eq!(ports, vec![22, 23, 53]);
}

#[test]
fn nft_empty_is_no_ruleset() {
    assert_eq!(nft_input_policy(""), NftInput::NoRuleset);
    assert_eq!(nft_input_policy("  \n"), NftInput::NoRuleset);
}

#[test]
fn nft_policy_drop_is_default_deny() {
    // ufw / hand-rolled nft: the input base chain drops by default.
    let out = "table inet filter {\n\
               \tchain input {\n\
               \t\ttype filter hook input priority filter; policy drop;\n\
               \t\tct state established,related accept\n\
               \t}\n\
               \tchain output {\n\
               \t\ttype filter hook output priority filter; policy accept;\n\
               \t}\n\
               }\n";
    assert_eq!(nft_input_policy(out), NftInput::DefaultDeny);
}

#[test]
fn nft_accept_policy_with_reject_rule_is_default_deny() {
    // firewalld pattern: policy accept, but a catch-all reject at the end.
    let out = "table inet firewalld {\n\
               \tchain filter_INPUT {\n\
               \t\ttype filter hook input priority filter + 10; policy accept;\n\
               \t\tct state established,related accept\n\
               \t\treject with icmpx admin-prohibited\n\
               \t}\n\
               }\n";
    assert_eq!(nft_input_policy(out), NftInput::DefaultDeny);
}

#[test]
fn nft_accept_policy_no_deny_is_accept_all() {
    let out = "table inet filter {\n\
               \tchain input {\n\
               \t\ttype filter hook input priority filter; policy accept;\n\
               \t\tct state established,related accept\n\
               \t}\n\
               }\n";
    assert_eq!(nft_input_policy(out), NftInput::AcceptAll);
}

#[test]
fn nft_posture_is_told_chain_by_chain() {
    // The hook and the verdict must stand in one chain.
    let apart = "table t {\nchain a {\ntype filter hook input;\n}\nchain b {\ndrop\n}\n}\n";
    assert_eq!(nft_input_policy(apart), NftInput::AcceptAll);
    let second = "table t {\nchain a {\nhook input\n}\nchain b {\nhook input\nREJECT;\n}\n}\n";
    assert_eq!(nft_input_policy(second), NftInput::DefaultDeny);
    // Braces inside a chain do not end it.
    let nested = "chain a {\nhook input\nset { 1, 2 }\nx {\ndrop\n}\n}\n";
    assert_eq!(nft_input_policy(nested), NftInput::DefaultDeny);
    // One that is never closed does not count.
    assert_eq!(nft_input_policy("chain a {\nhook input\ndrop\n"), NftInput::NoInputHook);
    // Nor does a verdict outside all chains.
    let outside = "drop\nchain a {\nhook input\n}\ndrop\n";
    assert_eq!(nft_input_policy(outside), NftInput::AcceptAll);
}

#[test]
fn nft_no_input_hook() {
    // A ruleset that only filters output/forward - nothing guards input. A
    // drop in the output chain must not be mistaken for input filtering.
    let out = "table inet filter {\n\
               \tchain output {\n\
               \t\ttype filter hook output priority filter; policy accept;\n\
               \t\tdrop\n\
               \t}\n\
               }\n";
    assert_eq!(nft_input_policy(out), NftInput::NoInputHook);
}

#[test]
fn iptables_policy_drop_is_default_deny() {
    let out = "-P INPUT DROP\n\
               -P FORWARD DROP\n\
               -P OUTPUT ACCEPT\n\
               -A INPUT -i lo -j ACCEPT\n\
               -A INPUT -m state --state RELATED,ESTABLISHED -j ACCEPT\n";
    assert_eq!(iptables_input_policy(out), NftInput::DefaultDeny);
}

#[test]
fn iptables_accept_policy_with_final_drop_is_default_deny() {
    // Default-accept policy but a catch-all DROP rule at the end.
    let out = "-P INPUT ACCEPT\n\
               -A INPUT -p tcp --dport 22 -j ACCEPT\n\
               -A INPUT -j DROP\n";
    assert_eq!(iptables_input_policy(out), NftInput::DefaultDeny);
}

#[test]
fn iptables_accept_policy_no_deny_is_accept_all() {
    let out = "-P INPUT ACCEPT\n\
               -P OUTPUT ACCEPT\n\
               -A INPUT -p tcp --dport 22 -j ACCEPT\n";
    assert_eq!(iptables_input_policy(out), NftInput::AcceptAll);
}

#[test]
fn iptables_verdict_is_the_target_of_the_rule() {
    // A comment that reads DROP is no verdict.
    let out = "-P INPUT ACCEPT\n-A INPUT -m comment --comment DROP -j ACCEPT\n";
    assert_eq!(iptables_input_policy(out), NftInput::AcceptAll);
    let out = "-P INPUT ACCEPT\n-A INPUT -m comment --comment ok -j REJECT --reject-with x\n";
    assert_eq!(iptables_input_policy(out), NftInput::DefaultDeny);
    let out = "-P INPUT ACCEPT\n-A INPUT -p tcp -j\n";
    assert_eq!(iptables_input_policy(out), NftInput::AcceptAll);
    // Another chain's verdict says nothing of INPUT.
    let out = "-P INPUT ACCEPT\n-A INPUT -j LOGDROP\n-A LOGDROP -j DROP\n";
    assert_eq!(iptables_input_policy(out), NftInput::AcceptAll);
}

#[test]
fn iptables_no_input_chain_and_empty() {
    assert_eq!(iptables_input_policy(""), NftInput::NoRuleset);
    // Only FORWARD/OUTPUT mentioned -> nothing guards INPUT.
    let out = "-P FORWARD DROP\n-P OUTPUT ACCEPT\n-A FORWARD -j DROP\n";
    assert_eq!(iptables_input_policy(out), NftInput::NoInputHook);
}

#[test]
fn iptables_bare_accept_policy_defers() {
    // nft-native host: legacy tables list a bare accept policy with no INPUT
    // rules -> inconclusive, defer (not a false AcceptAll).
    let out = "-P INPUT ACCEPT\n-P FORWARD ACCEPT\n-P OUTPUT ACCEPT\n";
    assert_eq!(iptables_input_policy(out), NftInput::NoInputHook);
}
