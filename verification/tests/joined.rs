//! Texts put together, reordered or read under another limit.

use linux_audit_mcp::checks::parse::{
    iptables_input_policy, parse_keyword_map, parse_sysctl, shadow_nonexpiring_password_accounts,
    NftInput,
};

#[test]
fn the_first_of_two_configurations_decides() {
    let a = "# comment\nPort 22\nPermitRootLogin no\n";
    let b = "permitrootlogin yes\nX11Forwarding  yes \nUseDNS\n";
    let both = parse_keyword_map(&format!("{a}{b}"));
    let get = |k: &str| both.get(k).map(String::as_str);
    assert_eq!(get("permitrootlogin"), Some("no"));
    assert_eq!(get("port"), Some("22"));
    assert_eq!(get("x11forwarding"), Some("yes"));
    assert_eq!(get("usedns"), Some(""));
    assert_eq!(get("#"), None);
    assert_eq!(both.entries.len(), 4);
    for (k, v) in &both.entries {
        assert!(!k.is_empty() && !k.starts_with('#'));
        assert!(k.chars().all(|c| !c.is_whitespace() && !c.is_ascii_uppercase()));
        assert_eq!(v.trim(), v);
    }
}

#[test]
fn the_second_of_two_settings_decides() {
    let a = "kernel.x = 1\nnet.y = a = b\n";
    let b = " kernel.x =  2 \n = 3\nno setting\n";
    let both = parse_sysctl(&format!("{a}{b}"));
    let get = |k: &str| both.get(k).map(String::as_str);
    assert_eq!(get("kernel.x"), Some("2"));
    assert_eq!(get("net.y"), Some("a = b"));
    assert_eq!(both.entries.len(), 2);
}

#[test]
fn a_longer_limit_reports_fewer_accounts() {
    let shadow = "a:$6$x:1:0:99999:7:::\nb:$6$x:1:0:365:7:::\nc:$6$x:1:0::7:::\n\
                  d::1:0:99999:7:::\ne:$6$x:1:0:400:7:::\n";
    let users = |days: u32| -> Vec<(String, String)> {
        shadow_nonexpiring_password_accounts(shadow, days)
    };
    let names = |days: u32| -> Vec<String> { users(days).into_iter().map(|(u, _)| u).collect() };
    assert_eq!(names(90), ["a", "b", "c", "e"]);
    // The limit itself is no fault.
    assert_eq!(names(365), ["a", "c", "e"]);
    assert_eq!(names(400), ["a", "c"]);
    assert_eq!(names(u32::MAX), ["c"]);
    assert!(users(90).contains(&("c".to_string(), "unset".to_string())));
}

#[test]
fn the_order_of_the_rules_does_not_matter() {
    let lines = ["-P INPUT ACCEPT", "-A INPUT -p tcp -j ACCEPT", "-A INPUT -j DROP", ""];
    let text = |order: [usize; 4]| -> String { order.map(|i| lines[i]).join("\n") };
    for order in [[0, 1, 2, 3], [3, 2, 1, 0], [1, 3, 0, 2], [2, 0, 3, 1]] {
        assert_eq!(iptables_input_policy(&text(order)), NftInput::DefaultDeny);
    }
    assert_eq!(iptables_input_policy(" \n\t\r\n"), NftInput::NoRuleset);
}
