//! Kernel-domain checks (`sysctl -a`).
//!
//! Each check reads one hardening-relevant sysctl. A key that isn't reported is
//! treated as a failure: the auditor can't confirm the safe value.

use super::parse::{parse_sysctl, sysctl_map};
use super::{
    failing, passing, plain_info, Check, CheckInfo, Domain, Outcome, OutcomeView, Severity,
};
use crate::text::chars::chars_of;
use crate::text::search::{contains_text, eq_text, mentions};
use crate::textmap::{lookup, TextMap};
use vstd::prelude::*;
use vstd::string::StringExecFns;

verus! {

/// Pass iff `key` reports `first` or `second`; fail with a clear reason otherwise.
pub open spec fn expected(
    output: Seq<char>,
    key: Seq<char>,
    first: Seq<char>,
    second: Seq<char>,
    secure_desc: Seq<char>,
) -> OutcomeView {
    match lookup(sysctl_map(output), key) {
        Some(v) => if v == first || v == second {
            passing(key + " = "@ + v + "."@)
        } else {
            failing(key + " = "@ + v + " ("@ + secure_desc + ")."@)
        },
        None => failing(key + " is not reported ("@ + secure_desc + ")."@),
    }
}

fn expect(output: &str, key: &str, first: &str, second: &str, secure_desc: &str) -> (r: Outcome)
    ensures
        r@ == expected(output@, key@, first@, second@, secure_desc@),
{
    let map = parse_sysctl(output);
    let mut s = key.to_string();
    match map.get(key) {
        Some(v) => {
            s.append(" = ");
            s.append(v.as_str());
            if eq_text(v.as_str(), first) || eq_text(v.as_str(), second) {
                s.append(".");
                Outcome::pass(s)
            } else {
                s.append(" (");
                s.append(secure_desc);
                s.append(").");
                Outcome::fail(s)
            }
        },
        None => {
            s.append(" is not reported (");
            s.append(secure_desc);
            s.append(").");
            Outcome::fail(s)
        },
    }
}

/// Full address-space layout randomization is on.
pub struct Aslr;

impl Check for Aslr {
    open spec fn info(&self) -> CheckInfo {
        plain_info(
            "kernel-aslr",
            Domain::Kernel,
            "Address-space layout randomization",
            Severity::Medium,
            "Enable full ASLR: sysctl -w kernel.randomize_va_space=2 (and persist it).",
            "sysctl -a",
            false,
        )
    }

    open spec fn verdict(&self, output: Seq<char>) -> OutcomeView {
        expected(output, "kernel.randomize_va_space"@, "2"@, "2"@, "full ASLR requires 2"@)
    }

    fn facts(&self) -> (r: CheckInfo) {
        plain_info(
            "kernel-aslr",
            Domain::Kernel,
            "Address-space layout randomization",
            Severity::Medium,
            "Enable full ASLR: sysctl -w kernel.randomize_va_space=2 (and persist it).",
            "sysctl -a",
            false,
        )
    }

    fn evaluate(&self, output: &str) -> (r: Outcome) {
        expect(output, "kernel.randomize_va_space", "2", "2", "full ASLR requires 2")
    }
}

/// SYN cookies are on.
pub struct TcpSyncookies;

impl Check for TcpSyncookies {
    open spec fn info(&self) -> CheckInfo {
        plain_info(
            "kernel-tcp-syncookies",
            Domain::Kernel,
            "TCP SYN cookies",
            Severity::Low,
            "Enable SYN cookies: net.ipv4.tcp_syncookies=1.",
            "sysctl -a",
            false,
        )
    }

    open spec fn verdict(&self, output: Seq<char>) -> OutcomeView {
        expected(output, "net.ipv4.tcp_syncookies"@, "1"@, "1"@, "SYN-flood protection requires 1"@)
    }

    fn facts(&self) -> (r: CheckInfo) {
        plain_info(
            "kernel-tcp-syncookies",
            Domain::Kernel,
            "TCP SYN cookies",
            Severity::Low,
            "Enable SYN cookies: net.ipv4.tcp_syncookies=1.",
            "sysctl -a",
            false,
        )
    }

    fn evaluate(&self, output: &str) -> (r: Outcome) {
        expect(output, "net.ipv4.tcp_syncookies", "1", "1", "SYN-flood protection requires 1")
    }
}

/// Reverse-path filtering is strict or loose.
pub struct RpFilter;

impl Check for RpFilter {
    open spec fn info(&self) -> CheckInfo {
        plain_info(
            "kernel-rp-filter",
            Domain::Kernel,
            "Reverse-path filtering",
            Severity::Low,
            "Enable reverse-path filtering: net.ipv4.conf.all.rp_filter=1.",
            "sysctl -a",
            false,
        )
    }

    open spec fn verdict(&self, output: Seq<char>) -> OutcomeView {
        expected(output, "net.ipv4.conf.all.rp_filter"@, "1"@, "2"@, "anti-spoofing requires 1 or 2"@)
    }

    fn facts(&self) -> (r: CheckInfo) {
        plain_info(
            "kernel-rp-filter",
            Domain::Kernel,
            "Reverse-path filtering",
            Severity::Low,
            "Enable reverse-path filtering: net.ipv4.conf.all.rp_filter=1.",
            "sysctl -a",
            false,
        )
    }

    fn evaluate(&self, output: &str) -> (r: Outcome) {
        expect(output, "net.ipv4.conf.all.rp_filter", "1", "2", "anti-spoofing requires 1 or 2")
    }
}

/// The parameters show a Docker/container bridge (`docker0` or a user-defined `br-*`
/// network), which appears as `net.*.conf.<iface>.*` keys. Such a host forwards packets by
/// design.
pub open spec fn container_host(sysctl: Seq<(Seq<char>, Seq<char>)>) -> bool {
    exists|i: int|
        0 <= i < sysctl.len() && (mentions((#[trigger] sysctl[i]).0, ".conf.docker0."@) || mentions(
            sysctl[i].0,
            ".conf.br-"@,
        ))
}

fn is_container_host(sysctl: &TextMap<String>) -> (r: bool)
    ensures
        r == container_host(sysctl@),
{
    let mut i: usize = 0;
    while i < sysctl.entries.len()
        invariant
            i <= sysctl.entries@.len(),
            forall|j: int|
                0 <= j < i ==> !mentions((#[trigger] sysctl@[j]).0, ".conf.docker0."@) && !mentions(
                    sysctl@[j].0,
                    ".conf.br-"@,
                ),
        decreases sysctl.entries@.len() - i,
    {
        let key = chars_of(sysctl.entries[i].0.as_str());
        proof {
            assert(sysctl@[i as int].0 == key@);
        }
        if contains_text(key.as_slice(), ".conf.docker0.") || contains_text(
            key.as_slice(),
            ".conf.br-",
        ) {
            return true;
        }
        i = i + 1;
    }
    false
}

/// IP forwarding on a non-router is a finding, except on a **container host**,
/// where Docker's bridge networking requires it. Docker is detected from the
/// same `sysctl -a` output (a `docker0`/`br-*` bridge), so no extra command is
/// needed; on such a host `ip_forward=1` passes with a note instead of failing.
pub struct IpForward;

impl Check for IpForward {
    open spec fn info(&self) -> CheckInfo {
        plain_info(
            "kernel-ip-forward",
            Domain::Kernel,
            "IP forwarding enabled",
            Severity::Medium,
            "Disable routing unless this host is a router or runs containers: net.ipv4.ip_forward=0.",
            "sysctl -a",
            false,
        )
    }

    open spec fn verdict(&self, output: Seq<char>) -> OutcomeView {
        let key = "net.ipv4.ip_forward"@;
        match lookup(sysctl_map(output), key) {
            Some(v) => if v == "0"@ {
                passing(key + " = "@ + v + "."@)
            } else if container_host(sysctl_map(output)) {
                passing(key + " = "@ + v + " (expected: a Docker/container bridge is present)."@)
            } else {
                failing(key + " = "@ + v + " (a non-router should not forward packets)."@)
            },
            None => failing(
                key + " is not reported (a non-router should not forward packets)."@,
            ),
        }
    }

    fn facts(&self) -> (r: CheckInfo) {
        plain_info(
            "kernel-ip-forward",
            Domain::Kernel,
            "IP forwarding enabled",
            Severity::Medium,
            "Disable routing unless this host is a router or runs containers: net.ipv4.ip_forward=0.",
            "sysctl -a",
            false,
        )
    }

    fn evaluate(&self, output: &str) -> (r: Outcome) {
        let sysctl = parse_sysctl(output);
        let mut s = "net.ipv4.ip_forward".to_string();
        match sysctl.get("net.ipv4.ip_forward") {
            Some(v) => {
                s.append(" = ");
                s.append(v.as_str());
                if eq_text(v.as_str(), "0") {
                    s.append(".");
                    Outcome::pass(s)
                } else if is_container_host(&sysctl) {
                    s.append(" (expected: a Docker/container bridge is present).");
                    Outcome::pass(s)
                } else {
                    s.append(" (a non-router should not forward packets).");
                    Outcome::fail(s)
                }
            },
            None => {
                s.append(" is not reported (a non-router should not forward packets).");
                Outcome::fail(s)
            },
        }
    }
}

/// ICMP redirects are ignored.
pub struct AcceptRedirects;

impl Check for AcceptRedirects {
    open spec fn info(&self) -> CheckInfo {
        plain_info(
            "kernel-accept-redirects",
            Domain::Kernel,
            "ICMP redirects accepted",
            Severity::Low,
            "Ignore ICMP redirects: net.ipv4.conf.all.accept_redirects=0.",
            "sysctl -a",
            false,
        )
    }

    open spec fn verdict(&self, output: Seq<char>) -> OutcomeView {
        expected(output, "net.ipv4.conf.all.accept_redirects"@, "0"@, "0"@, "accepting redirects allows route hijacking"@)
    }

    fn facts(&self) -> (r: CheckInfo) {
        plain_info(
            "kernel-accept-redirects",
            Domain::Kernel,
            "ICMP redirects accepted",
            Severity::Low,
            "Ignore ICMP redirects: net.ipv4.conf.all.accept_redirects=0.",
            "sysctl -a",
            false,
        )
    }

    fn evaluate(&self, output: &str) -> (r: Outcome) {
        expect(output, "net.ipv4.conf.all.accept_redirects", "0", "0", "accepting redirects allows route hijacking")
    }
}

/// Source-routed packets are rejected.
pub struct AcceptSourceRoute;

impl Check for AcceptSourceRoute {
    open spec fn info(&self) -> CheckInfo {
        plain_info(
            "kernel-source-route",
            Domain::Kernel,
            "Source-routed packets accepted",
            Severity::Low,
            "Reject source routing: net.ipv4.conf.all.accept_source_route=0.",
            "sysctl -a",
            false,
        )
    }

    open spec fn verdict(&self, output: Seq<char>) -> OutcomeView {
        expected(output, "net.ipv4.conf.all.accept_source_route"@, "0"@, "0"@, "source routing can bypass filtering"@)
    }

    fn facts(&self) -> (r: CheckInfo) {
        plain_info(
            "kernel-source-route",
            Domain::Kernel,
            "Source-routed packets accepted",
            Severity::Low,
            "Reject source routing: net.ipv4.conf.all.accept_source_route=0.",
            "sysctl -a",
            false,
        )
    }

    fn evaluate(&self, output: &str) -> (r: Outcome) {
        expect(output, "net.ipv4.conf.all.accept_source_route", "0", "0", "source routing can bypass filtering")
    }
}

} // verus!
