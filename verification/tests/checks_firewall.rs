//! The firewall checks.

use linux_audit_mcp::checks::firewall::{FirewallEnabled, IptablesDefaultDeny, NftDefaultDeny};
use linux_audit_mcp::checks::{Check, Status};

#[test]
fn firewall_enabled() {
    let on = "ufw.service enabled enabled\n";
    let off = "ufw.service disabled disabled\nnftables.service disabled disabled\n";
    assert_eq!(FirewallEnabled.evaluate(on).status, Status::Pass);
    assert_eq!(FirewallEnabled.evaluate(off).status, Status::Fail);
}

#[test]
fn nft_default_deny() {
    let deny = "table inet filter {\n\
                \tchain input {\n\
                \t\ttype filter hook input priority filter; policy drop;\n\
                \t}\n\
                }\n";
    // An nft-visible input hook that accepts everything is the confident fail.
    let accept = "table inet filter {\n\
                  \tchain input {\n\
                  \t\ttype filter hook input priority filter; policy accept;\n\
                  \t}\n\
                  }\n";
    assert_eq!(NftDefaultDeny.evaluate(deny).status, Status::Pass);
    assert_eq!(NftDefaultDeny.evaluate(accept).status, Status::Fail);
    // No input hook (e.g. ufw on the iptables-legacy backend): defer, not fail.
    assert_eq!(NftDefaultDeny.evaluate("").status, Status::Pass);
    let forward_only = "table ip filter {\n\
                        \tchain FORWARD {\n\
                        \t\ttype filter hook forward priority filter; policy drop;\n\
                        \t}\n\
                        }\n";
    assert_eq!(NftDefaultDeny.evaluate(forward_only).status, Status::Pass);
    assert!(NftDefaultDeny.privileged());
}

#[test]
fn iptables_default_deny() {
    assert!(IptablesDefaultDeny.privileged());
    // Policy DROP -> pass.
    let deny = "-P INPUT DROP\n-A INPUT -i lo -j ACCEPT\n";
    assert_eq!(IptablesDefaultDeny.evaluate(deny).status, Status::Pass);
    // Accept-all with no deny rule -> fail.
    let accept = "-P INPUT ACCEPT\n-A INPUT -p tcp --dport 22 -j ACCEPT\n";
    assert_eq!(IptablesDefaultDeny.evaluate(accept).status, Status::Fail);
    // No INPUT chain (nft-native host): defer, not fail.
    assert_eq!(IptablesDefaultDeny.evaluate("").status, Status::Pass);
    let forward_only = "-P FORWARD DROP\n-P OUTPUT ACCEPT\n";
    assert_eq!(
        IptablesDefaultDeny.evaluate(forward_only).status,
        Status::Pass
    );
}
