//! The ssh checks.

use linux_audit_mcp::checks::ssh::{MaxAuthTries, PasswordAuthentication, PermitEmptyPasswords, PermitRootLogin, WeakCrypto, X11Forwarding};
use linux_audit_mcp::checks::{Check, Status};

const HARDENED: &str = "PermitRootLogin no\n\
    PasswordAuthentication no\n\
    PermitEmptyPasswords no\n\
    X11Forwarding no\n\
    MaxAuthTries 3\n\
    Ciphers chacha20-poly1305@openssh.com,aes256-gcm@openssh.com\n\
    MACs hmac-sha2-512-etm@openssh.com\n\
    KexAlgorithms curve25519-sha256\n";

const OPEN: &str = "PermitRootLogin yes\n\
    PasswordAuthentication yes\n\
    PermitEmptyPasswords yes\n\
    X11Forwarding yes\n\
    MaxAuthTries 10\n\
    Ciphers aes256-ctr,aes128-cbc,3des-cbc\n\
    MACs hmac-sha2-256,hmac-md5\n\
    KexAlgorithms curve25519-sha256,diffie-hellman-group1-sha1\n";

// Only comments: every directive falls back to its OpenSSH default.
const DEFAULTS: &str = "# stock config\n";

#[test]
fn permit_root_login() {
    assert_eq!(PermitRootLogin.evaluate(HARDENED).status, Status::Pass);
    assert_eq!(PermitRootLogin.evaluate(OPEN).status, Status::Fail);
    // Default prohibit-password is not an explicit `no`.
    assert_eq!(PermitRootLogin.evaluate(DEFAULTS).status, Status::Fail);
}

#[test]
fn password_authentication() {
    assert_eq!(
        PasswordAuthentication.evaluate(HARDENED).status,
        Status::Pass
    );
    assert_eq!(PasswordAuthentication.evaluate(OPEN).status, Status::Fail);
    // Default is yes.
    assert_eq!(
        PasswordAuthentication.evaluate(DEFAULTS).status,
        Status::Fail
    );
}

#[test]
fn permit_empty_passwords() {
    assert_eq!(PermitEmptyPasswords.evaluate(HARDENED).status, Status::Pass);
    assert_eq!(PermitEmptyPasswords.evaluate(OPEN).status, Status::Fail);
    // Default is no.
    assert_eq!(PermitEmptyPasswords.evaluate(DEFAULTS).status, Status::Pass);
}

#[test]
fn x11_forwarding() {
    assert_eq!(X11Forwarding.evaluate(HARDENED).status, Status::Pass);
    assert_eq!(X11Forwarding.evaluate(OPEN).status, Status::Fail);
    // Default is no.
    assert_eq!(X11Forwarding.evaluate(DEFAULTS).status, Status::Pass);
}

#[test]
fn max_auth_tries() {
    assert_eq!(MaxAuthTries.evaluate(HARDENED).status, Status::Pass);
    assert_eq!(MaxAuthTries.evaluate(OPEN).status, Status::Fail);
    // Default is 6 (> 4).
    assert_eq!(MaxAuthTries.evaluate(DEFAULTS).status, Status::Fail);
}

#[test]
fn weak_crypto() {
    assert_eq!(WeakCrypto.evaluate(HARDENED).status, Status::Pass);
    assert_eq!(WeakCrypto.evaluate(OPEN).status, Status::Fail);
    // Unset directives -> pass (effective set needs root/sshd -T).
    assert_eq!(WeakCrypto.evaluate(DEFAULTS).status, Status::Pass);
    // A leading `-` value removes weak algos from the defaults -> not flagged.
    assert_eq!(
        WeakCrypto.evaluate("Ciphers -aes128-cbc,3des-cbc\n").status,
        Status::Pass
    );
    // The detail names the offending algorithms.
    let d = WeakCrypto.evaluate(OPEN).detail;
    assert!(d.contains("aes128-cbc") && d.contains("hmac-md5"), "{d}");
}
