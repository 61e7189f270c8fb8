//! SSH-domain checks (parsing `/etc/ssh/sshd_config`).
//!
//! Each check applies the OpenSSH built-in default when a directive is absent,
//! so a stock config is judged the way sshd would actually behave. Match blocks
//! are not considered when reading the file (see [`super::parse::parse_sshd_config`]).
//!
//! On a target opted in with `privileged = true`, every check upgrades to the
//! *effective* config from `sudo -n sshd -T` (compiled defaults + Match blocks
//! resolved), which supersedes the file read: see [`Check::effective_command`].
//! The same keyword parser handles both, since `sshd -T` emits `key value` lines.

use super::parse::{keyword_map, parse_sshd_config};
use super::{failing, passing, Check, CheckInfo, Domain, Outcome, OutcomeView, Severity};
use crate::text::chars::{
    chars_of, deep, lemma_deep_empty, lemma_deep_push, lowercase, lowercase_of, text_of,
};
use crate::text::compose::{join_texts, joined};
use crate::text::debug::{quote, quoted};
use crate::text::number::{digits, format_u64, parse_u32, u32_of};
use crate::text::search::{contains_text, eq_text, mentions};
use crate::text::split::{
    fields, lemma_filter_map_step, lemma_take_all, split_char, trim, trimmed,
};
use crate::textmap::{lookup, TextMap};
use vstd::prelude::*;
use vstd::slice::slice_subrange;
use vstd::string::StringExecFns;

verus! {

const SSHD_CMD: &'static str = "cat /etc/ssh/sshd_config";

/// Effective config on privileged targets; supersedes [`SSHD_CMD`].
const SSHD_EFFECTIVE_CMD: &'static str = "sudo -n sshd -T";

/// A check that reads the SSH server's configuration.
#[verifier::allow_in_spec]
pub fn sshd_info(
    id: &'static str,
    title: &'static str,
    severity: Severity,
    recommendation: &'static str,
) -> (r: CheckInfo)
    returns
        (CheckInfo {
            id,
            domain: Domain::Ssh,
            title,
            severity,
            recommendation,
            command: "cat /etc/ssh/sshd_config",
            privileged: false,
            effective_command: Some("sudo -n sshd -T"),
            skip_if_tool_missing: false,
            tolerate_nonzero_exit: false,
        }),
{
    CheckInfo {
        id,
        domain: Domain::Ssh,
        title,
        severity,
        recommendation,
        command: SSHD_CMD,
        privileged: false,
        effective_command: Some(SSHD_EFFECTIVE_CMD),
        skip_if_tool_missing: false,
        tolerate_nonzero_exit: false,
    }
}

/// The value of a directive in small letters, with sshd's built-in default where it is absent.
pub open spec fn directive_value(output: Seq<char>, key: Seq<char>, default: Seq<char>) -> Seq<
    char,
> {
    lowercase(
        match lookup(keyword_map(output), key) {
            Some(v) => v,
            None => default,
        },
    )
}

/// Value of `key` from sshd_config, falling back to sshd's built-in `default`.
/// Returned lowercased for case-insensitive comparison.
fn directive(output: &str, key: &str, default: &str) -> (r: String)
    ensures
        r@ == directive_value(output@, key@, default@),
{
    let cfg = parse_sshd_config(output);
    let raw = match cfg.get(key) {
        Some(v) => chars_of(v.as_str()),
        None => chars_of(default),
    };
    let small = lowercase_of(raw.as_slice());
    text_of(small.as_slice())
}

/// `lead`, a value and `tail`.
fn around(lead: &str, value: &str, tail: &str) -> (r: String)
    ensures
        r@ == lead@ + value@ + tail@,
{
    let mut s = lead.to_string();
    s.append(value);
    s.append(tail);
    s
}

/// Root can authenticate over SSH (`PermitRootLogin` is not `no`).
/// OpenSSH's default is prohibit-password; an explicit `no` is required.
pub struct PermitRootLogin;

impl Check for PermitRootLogin {
    open spec fn info(&self) -> CheckInfo {
        sshd_info(
            "ssh-permit-root-login",
            "Root login over SSH",
            Severity::High,
            "Set PermitRootLogin no; administer via an unprivileged account and sudo.",
        )
    }

    open spec fn verdict(&self, output: Seq<char>) -> OutcomeView {
        let v = directive_value(output, "permitrootlogin"@, "prohibit-password"@);
        if v == "no"@ {
            passing("PermitRootLogin is no."@)
        } else {
            failing("PermitRootLogin is '"@ + v + "' (root can log in over SSH)."@)
        }
    }

    fn facts(&self) -> (r: CheckInfo) {
        sshd_info(
            "ssh-permit-root-login",
            "Root login over SSH",
            Severity::High,
            "Set PermitRootLogin no; administer via an unprivileged account and sudo.",
        )
    }

    fn evaluate(&self, output: &str) -> (r: Outcome) {
        let v = directive(output, "permitrootlogin", "prohibit-password");
        if eq_text(v.as_str(), "no") {
            Outcome::pass("PermitRootLogin is no.".to_string())
        } else {
            Outcome::fail(around("PermitRootLogin is '", v.as_str(), "' (root can log in over SSH)."))
        }
    }
}

/// Password authentication is enabled (`PasswordAuthentication` is not `no`).
/// OpenSSH's default is yes.
pub struct PasswordAuthentication;

impl Check for PasswordAuthentication {
    open spec fn info(&self) -> CheckInfo {
        sshd_info(
            "ssh-password-authentication",
            "Password authentication over SSH",
            Severity::High,
            "Set PasswordAuthentication no and authenticate with SSH keys only.",
        )
    }

    open spec fn verdict(&self, output: Seq<char>) -> OutcomeView {
        let v = directive_value(output, "passwordauthentication"@, "yes"@);
        if v == "no"@ {
            passing("PasswordAuthentication is no."@)
        } else {
            failing("PasswordAuthentication is '"@ + v + "' (brute-forceable credentials)."@)
        }
    }

    fn facts(&self) -> (r: CheckInfo) {
        sshd_info(
            "ssh-password-authentication",
            "Password authentication over SSH",
            Severity::High,
            "Set PasswordAuthentication no and authenticate with SSH keys only.",
        )
    }

    fn evaluate(&self, output: &str) -> (r: Outcome) {
        let v = directive(output, "passwordauthentication", "yes");
        if eq_text(v.as_str(), "no") {
            Outcome::pass("PasswordAuthentication is no.".to_string())
        } else {
            Outcome::fail(around("PasswordAuthentication is '", v.as_str(), "' (brute-forceable credentials)."))
        }
    }
}

/// Empty passwords are accepted (`PermitEmptyPasswords yes`). OpenSSH's default is no.
pub struct PermitEmptyPasswords;

impl Check for PermitEmptyPasswords {
    open spec fn info(&self) -> CheckInfo {
        sshd_info(
            "ssh-permit-empty-passwords",
            "Empty passwords permitted over SSH",
            Severity::High,
            "Set PermitEmptyPasswords no.",
        )
    }

    open spec fn verdict(&self, output: Seq<char>) -> OutcomeView {
        if directive_value(output, "permitemptypasswords"@, "no"@) == "yes"@ {
            failing("PermitEmptyPasswords is yes (accounts without a password can log in)."@)
        } else {
            passing("PermitEmptyPasswords is no."@)
        }
    }

    fn facts(&self) -> (r: CheckInfo) {
        sshd_info(
            "ssh-permit-empty-passwords",
            "Empty passwords permitted over SSH",
            Severity::High,
            "Set PermitEmptyPasswords no.",
        )
    }

    fn evaluate(&self, output: &str) -> (r: Outcome) {
        let v = directive(output, "permitemptypasswords", "no");
        if eq_text(v.as_str(), "yes") {
            Outcome::fail("PermitEmptyPasswords is yes (accounts without a password can log in).".to_string())
        } else {
            Outcome::pass("PermitEmptyPasswords is no.".to_string())
        }
    }
}

/// X11 forwarding is enabled (`X11Forwarding yes`). OpenSSH's default is no.
pub struct X11Forwarding;

impl Check for X11Forwarding {
    open spec fn info(&self) -> CheckInfo {
        sshd_info(
            "ssh-x11-forwarding",
            "X11 forwarding enabled",
            Severity::Low,
            "Disable it unless required: X11Forwarding no.",
        )
    }

    open spec fn verdict(&self, output: Seq<char>) -> OutcomeView {
        if directive_value(output, "x11forwarding"@, "no"@) == "yes"@ {
            failing("X11Forwarding is yes (enlarges the attack surface)."@)
        } else {
            passing("X11Forwarding is no."@)
        }
    }

    fn facts(&self) -> (r: CheckInfo) {
        sshd_info(
            "ssh-x11-forwarding",
            "X11 forwarding enabled",
            Severity::Low,
            "Disable it unless required: X11Forwarding no.",
        )
    }

    fn evaluate(&self, output: &str) -> (r: Outcome) {
        let v = directive(output, "x11forwarding", "no");
        if eq_text(v.as_str(), "yes") {
            Outcome::fail("X11Forwarding is yes (enlarges the attack surface).".to_string())
        } else {
            Outcome::pass("X11Forwarding is no.".to_string())
        }
    }
}

/// `MaxAuthTries` allows too many authentication attempts per connection.
/// OpenSSH's default is 6.
pub struct MaxAuthTries;

impl Check for MaxAuthTries {
    open spec fn info(&self) -> CheckInfo {
        sshd_info(
            "ssh-max-auth-tries",
            "SSH MaxAuthTries too high",
            Severity::Low,
            "Lower it to slow brute-force attempts: MaxAuthTries 4 (or less).",
        )
    }

    open spec fn verdict(&self, output: Seq<char>) -> OutcomeView {
        let v = directive_value(output, "maxauthtries"@, "6"@);
        match u32_of(v) {
            Some(n) => if n <= 4 {
                passing("MaxAuthTries is "@ + digits(n as int) + "."@)
            } else {
                failing("MaxAuthTries is "@ + digits(n as int) + " (recommended 4 or less)."@)
            },
            None => failing("MaxAuthTries is not a number: "@ + quoted(v) + "."@),
        }
    }

    fn facts(&self) -> (r: CheckInfo) {
        sshd_info(
            "ssh-max-auth-tries",
            "SSH MaxAuthTries too high",
            Severity::Low,
            "Lower it to slow brute-force attempts: MaxAuthTries 4 (or less).",
        )
    }

    fn evaluate(&self, output: &str) -> (r: Outcome) {
        let v = directive(output, "maxauthtries", "6");
        let text = chars_of(v.as_str());
        match parse_u32(text.as_slice()) {
            Some(n) => {
                let shown = format_u64(n as u64);
                if n <= 4 {
                    Outcome::pass(around("MaxAuthTries is ", shown.as_str(), "."))
                } else {
                    Outcome::fail(
                        around("MaxAuthTries is ", shown.as_str(), " (recommended 4 or less)."),
                    )
                }
            },
            None => {
                let q = quote(v.as_str());
                Outcome::fail(around("MaxAuthTries is not a number: ", q.as_str(), "."))
            },
        }
    }
}

/// Substrings marking a weak SSH algorithm across ciphers, MACs and key
/// exchange. Case-insensitive; matched against each comma-separated token of
/// `Ciphers`, `MACs` and `KexAlgorithms`. Because cipher/MAC/kex names don't
/// share these fragments, one combined set is safe (a cipher never contains
/// `sha1`, a MAC never contains `-cbc`, etc.).
pub const WEAK_ALGO_MARKERS: [&'static str; 14] = [
    // ciphers
    "-cbc",
    "arcfour",
    "3des",
    "rc4",
    "blowfish",
    "cast128",
    // MACs
    "md5",
    "sha1",
    "-96",
    "umac-64",
    // key exchange
    "group1-sha1",
    "group-exchange-sha1",
    "gss-",
    "rsa1024",
];

/// The token holds one of the markers.
pub open spec fn weak_algorithm(token: Seq<char>) -> bool {
    exists|i: int|
        0 <= i < WEAK_ALGO_MARKERS@.len() && mentions(token, (#[trigger] WEAK_ALGO_MARKERS@[i])@)
}

/// The token in small letters, if it is weak.
pub open spec fn weak_token(raw: Seq<char>) -> Option<Seq<char>> {
    let token = lowercase(trim(raw));
    if token.len() > 0 && weak_algorithm(token) {
        Some(token)
    } else {
        None
    }
}

/// The weak tokens of one directive. A value with a leading `-` removes algorithms from the
/// defaults, so it holds none; a leading `+` or `^` is set aside.
pub open spec fn weak_in(value: Option<Seq<char>>) -> Seq<Seq<char>> {
    match value {
        None => Seq::empty(),
        Some(raw) => {
            let v = trim(raw);
            if v.len() > 0 && v[0] == '-' {
                Seq::empty()
            } else {
                let list = if v.len() > 0 && (v[0] == '+' || v[0] == '^') {
                    v.skip(1)
                } else {
                    v
                };
                fields(list, ',').filter_map(|t: Seq<char>| weak_token(t))
            }
        },
    }
}

/// The weak tokens across the three algorithm directives.
pub open spec fn weak_algorithms(output: Seq<char>) -> Seq<Seq<char>> {
    let cfg = keyword_map(output);
    weak_in(lookup(cfg, "ciphers"@)) + weak_in(lookup(cfg, "macs"@)) + weak_in(
        lookup(cfg, "kexalgorithms"@),
    )
}

fn is_weak_algorithm(token: &[char]) -> (r: bool)
    ensures
        r == weak_algorithm(token@),
{
    let markers = WEAK_ALGO_MARKERS;
    let mut i: usize = 0;
    while i < markers.len()
        invariant
            markers == WEAK_ALGO_MARKERS,
            i <= markers@.len(),
            forall|j: int|
                0 <= j < i ==> !mentions(token@, (#[trigger] WEAK_ALGO_MARKERS@[j])@),
        decreases markers@.len() - i,
    {
        if contains_text(token, markers[i]) {
            proof {
                assert(mentions(token@, WEAK_ALGO_MARKERS@[i as int]@));
            }
            return true;
        }
        i = i + 1;
    }
    false
}

fn weak_in_directive(cfg: &TextMap<String>, key: &str) -> (r: Vec<String>)
    ensures
        deep(r@) == weak_in(lookup(cfg@, key@)),
{
    broadcast use lemma_deep_empty;

    let mut out: Vec<String> = Vec::new();
    let text = match cfg.get(key) {
        Some(v) => chars_of(v.as_str()),
        None => {
            return out;
        },
    };
    let value = trimmed(text.as_slice());
    if value.len() > 0 && value[0] == '-' {
        return out;
    }
    let list = if value.len() > 0 && (value[0] == '+' || value[0] == '^') {
        slice_subrange(value, 1, value.len())
    } else {
        value
    };
    proof {
        if value@.len() > 0 && (value@[0] == '+' || value@[0] == '^') {
            assert(list@ == value@.skip(1));
        }
    }
    let tokens = split_char(list, ',');
    let ghost found = |t: Seq<char>| weak_token(t);
    let mut i: usize = 0;
    while i < tokens.len()
        invariant
            i <= tokens@.len(),
            found == |t: Seq<char>| weak_token(t),
            deep(out@) == deep(tokens@).take(i as int).filter_map(found),
        decreases tokens@.len() - i,
    {
        broadcast use lemma_deep_push;

        proof {
            lemma_filter_map_step(deep(tokens@), found, i as int);
        }
        let token = lowercase_of(trimmed(tokens[i]));
        if token.len() > 0 && is_weak_algorithm(token.as_slice()) {
            out.push(text_of(token.as_slice()));
        }
        i = i + 1;
    }
    proof {
        lemma_take_all(deep(tokens@));
    }
    out
}

/// Weak SSH ciphers/MACs/key-exchange algorithms are configured. On an
/// unprivileged target only what's *explicitly* set in sshd_config is judged, so
/// an absent directive passes (the effective set, compiled defaults + `Match`
/// blocks, isn't visible without root). On a `privileged` target the check reads
/// `sshd -T`, so the effective algorithm list is judged directly.
pub struct WeakCrypto;

impl WeakCrypto {
    /// Weak tokens across the three algorithm directives. A leading `-` value
    /// (`Ciphers -*-cbc`) *removes* algorithms from the defaults, which is
    /// hardening, so it is never flagged; `+`/`^` (add/prepend) are still judged.
    pub fn weak_tokens(output: &str) -> (r: Vec<String>)
        ensures
            deep(r@) == weak_algorithms(output@),
    {
        let cfg = parse_sshd_config(output);
        let mut weak = weak_in_directive(&cfg, "ciphers");
        let mut macs = weak_in_directive(&cfg, "macs");
        let mut kex = weak_in_directive(&cfg, "kexalgorithms");
        let ghost a = weak@;
        let ghost b = macs@;
        let ghost c = kex@;
        weak.append(&mut macs);
        weak.append(&mut kex);
        proof {
            assert(deep(a + b + c) =~= deep(a) + deep(b) + deep(c));
        }
        weak
    }
}

impl Check for WeakCrypto {
    open spec fn info(&self) -> CheckInfo {
        sshd_info(
            "ssh-weak-crypto",
            "Weak SSH ciphers/MACs/key exchange",
            Severity::Medium,
            "Remove legacy algorithms (CBC ciphers, arcfour/3DES, HMAC-MD5/SHA1, DH-group1/14-SHA1) from Ciphers/MACs/KexAlgorithms.",
        )
    }

    open spec fn verdict(&self, output: Seq<char>) -> OutcomeView {
        let weak = weak_algorithms(output);
        if weak.len() == 0 {
            passing("No weak SSH algorithms configured."@)
        } else {
            failing("Weak SSH algorithms configured: "@ + joined(weak, ", "@) + "."@)
        }
    }

    fn facts(&self) -> (r: CheckInfo) {
        sshd_info(
            "ssh-weak-crypto",
            "Weak SSH ciphers/MACs/key exchange",
            Severity::Medium,
            "Remove legacy algorithms (CBC ciphers, arcfour/3DES, HMAC-MD5/SHA1, DH-group1/14-SHA1) from Ciphers/MACs/KexAlgorithms.",
        )
    }

    fn evaluate(&self, output: &str) -> (r: Outcome) {
        let weak = WeakCrypto::weak_tokens(output);
        if weak.len() == 0 {
            Outcome::pass("No weak SSH algorithms configured.".to_string())
        } else {
            let list = join_texts(&weak, ", ");
            Outcome::fail(around("Weak SSH algorithms configured: ", list.as_str(), "."))
        }
    }
}

} // verus!
