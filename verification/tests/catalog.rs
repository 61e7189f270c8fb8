//! The command catalog.

use linux_audit_mcp::catalog::{is_allowed, validate, CatalogError, READONLY_COMMANDS};

#[test]
fn allows_every_catalog_command() {
    for cmd in READONLY_COMMANDS {
        assert!(is_allowed(cmd), "should allow catalog command: {cmd}");
    }
    // Surrounding whitespace is trimmed.
    assert!(is_allowed("  uname -a  "));
}

#[test]
fn rejects_commands_outside_the_catalog() {
    // Charset-clean, but not read-only / not listed -> refused.
    for cmd in [
        "systemctl restart sshd", // write action
        "cat /etc/shadow",        // root-only, deliberately absent
        "rm -rf /tmp",            // destructive
        "ss -tulnp",              // near-miss on a catalog entry
    ] {
        assert!(
            matches!(validate(cmd), Err(CatalogError::NotInCatalog(_))),
            "should reject via catalog: {cmd}"
        );
    }
}

#[test]
fn rejects_command_chaining_and_injection() {
    for cmd in [
        "cat /etc/passwd; rm -rf /",
        "sysctl -a && reboot",
        "ss -tuln | sh",
        "uname -a `id`",
        "cat /etc/os-release $(id)",
        "sysctl -a > /tmp/x",
        "cat \"/etc/passwd\"",
    ] {
        assert!(
            matches!(validate(cmd), Err(CatalogError::IllegalCharacter(_))),
            "should reject via charset: {cmd}"
        );
    }
}

#[test]
fn rejects_empty() {
    assert_eq!(validate(""), Err(CatalogError::Empty));
    assert_eq!(validate("   "), Err(CatalogError::Empty));
}

#[test]
fn allows_cert_read_for_absolute_paths_only() {
    // A cert-expiry read for an absolute path is allowed (parameterized).
    assert!(is_allowed(
        "openssl x509 -in /etc/letsencrypt/live/example.com/fullchain.pem -noout -enddate"
    ));
    assert!(is_allowed(
        "openssl x509 -in /etc/ssl/certs/site.pem -noout -enddate"
    ));
    // Relative path, `..` traversal, or a different openssl subcommand: rejected.
    assert!(!is_allowed(
        "openssl x509 -in etc/ssl/site.pem -noout -enddate"
    ));
    assert!(!is_allowed(
        "openssl x509 -in /etc/ssl/../shadow -noout -enddate"
    ));
    assert!(!is_allowed("openssl x509 -in /etc/ssl/site.pem -text"));
    assert!(!is_allowed(
        "openssl req -in /etc/ssl/site.pem -noout -enddate"
    ));
    // Chars are still enforced first: a metacharacter never reaches is_cert_read.
    assert!(matches!(
        validate("openssl x509 -in /etc/ssl/a;b.pem -noout -enddate"),
        Err(CatalogError::IllegalCharacter(';'))
    ));
}
