//! Services-domain checks: listening ports (`ss -tuln`) and risky units.

use super::parse::{
    enabled, listen_ports, parse_listen_ports, parse_unit_files, service_enabled, units_map,
};
use super::{
    failing, passing, plain_info, Check, CheckInfo, Domain, Outcome, OutcomeView, Severity,
};
use crate::text::chars::{deep, lemma_deep_empty, lemma_deep_push};
use crate::text::compose::{join_texts, joined};
use crate::text::split::{lemma_filter_map_step, lemma_take_all};
use vstd::prelude::*;
use vstd::string::StringExecFns;

verus! {

/// Cleartext / legacy services: (port, name).
pub const CLEARTEXT_PORTS: [(u16, &'static str); 5] = [
    (21, "ftp"),
    (23, "telnet"),
    (512, "rexec"),
    (513, "rlogin"),
    (514, "rsh"),
];

/// The names of the cleartext services among the listening ports.
pub open spec fn cleartext_services(ports: Seq<u16>) -> Seq<Seq<char>> {
    CLEARTEXT_PORTS@.filter_map(
        |p: (u16, &'static str)|
            if ports.contains(p.0) {
                Some(p.1@)
            } else {
                None
            },
    )
}

fn has_port(ports: &Vec<u16>, port: u16) -> (r: bool)
    ensures
        r == ports@.contains(port),
{
    let mut i: usize = 0;
    while i < ports.len()
        invariant
            i <= ports@.len(),
            forall|j: int| 0 <= j < i ==> ports@[j] != port,
        decreases ports@.len() - i,
    {
        if ports[i] == port {
            return true;
        }
        i = i + 1;
    }
    false
}

fn find_cleartext_services(ports: &Vec<u16>) -> (r: Vec<String>)
    ensures
        deep(r@) == cleartext_services(ports@),
{
    broadcast use lemma_deep_empty;

    let all = CLEARTEXT_PORTS;
    let ghost listening = ports@;
    let ghost found = |p: (u16, &'static str)|
        if listening.contains(p.0) {
            Some(p.1@)
        } else {
            None
        };
    let mut out: Vec<String> = Vec::new();
    let mut i: usize = 0;
    while i < all.len()
        invariant
            all == CLEARTEXT_PORTS,
            listening == ports@,
            i <= all@.len(),
            found == |p: (u16, &'static str)|
                if listening.contains(p.0) {
                    Some(p.1@)
                } else {
                    None
                },
            deep(out@) == all@.take(i as int).filter_map(found),
        decreases all@.len() - i,
    {
        broadcast use lemma_deep_push;

        proof {
            lemma_filter_map_step(all@, found, i as int);
        }
        if has_port(ports, all[i].0) {
            out.push(all[i].1.to_string());
        }
        i = i + 1;
    }
    proof {
        lemma_take_all(all@);
    }
    out
}

/// A cleartext/legacy service is listening.
pub struct CleartextPorts;

impl Check for CleartextPorts {
    open spec fn info(&self) -> CheckInfo {
        plain_info(
            "services-cleartext-ports",
            Domain::Services,
            "Cleartext service listening",
            Severity::Medium,
            "Disable telnet/ftp/r-services and use encrypted equivalents (ssh, sftp/ftps).",
            "ss -tuln",
            false,
        )
    }

    open spec fn verdict(&self, output: Seq<char>) -> OutcomeView {
        let found = cleartext_services(listen_ports(output));
        if found.len() == 0 {
            passing("No cleartext/legacy services listening."@)
        } else {
            failing("Cleartext services listening: "@ + joined(found, ", "@) + "."@)
        }
    }

    fn facts(&self) -> (r: CheckInfo) {
        plain_info(
            "services-cleartext-ports",
            Domain::Services,
            "Cleartext service listening",
            Severity::Medium,
            "Disable telnet/ftp/r-services and use encrypted equivalents (ssh, sftp/ftps).",
            "ss -tuln",
            false,
        )
    }

    fn evaluate(&self, output: &str) -> (r: Outcome) {
        let ports = parse_listen_ports(output);
        let found = find_cleartext_services(&ports);
        if found.len() == 0 {
            Outcome::pass("No cleartext/legacy services listening.".to_string())
        } else {
            let list = join_texts(&found, ", ");
            let mut s = "Cleartext services listening: ".to_string();
            s.append(list.as_str());
            s.append(".");
            Outcome::fail(s)
        }
    }
}

/// The RPC portmapper (`rpcbind`) is enabled: a common attack surface.
pub struct RpcbindDisabled;

impl Check for RpcbindDisabled {
    open spec fn info(&self) -> CheckInfo {
        plain_info(
            "services-rpcbind",
            Domain::Services,
            "rpcbind (portmapper) enabled",
            Severity::Low,
            "Disable it unless NFS/RPC is needed: systemctl disable --now rpcbind.",
            super::UNITS_CMD,
            false,
        )
    }

    open spec fn verdict(&self, output: Seq<char>) -> OutcomeView {
        if enabled(units_map(output), "rpcbind"@) {
            failing("rpcbind is enabled."@)
        } else {
            passing("rpcbind is not enabled."@)
        }
    }

    fn facts(&self) -> (r: CheckInfo) {
        plain_info(
            "services-rpcbind",
            Domain::Services,
            "rpcbind (portmapper) enabled",
            Severity::Low,
            "Disable it unless NFS/RPC is needed: systemctl disable --now rpcbind.",
            super::UNITS_CMD,
            false,
        )
    }

    fn evaluate(&self, output: &str) -> (r: Outcome) {
        let units = parse_unit_files(output);
        if service_enabled(&units, "rpcbind") {
            Outcome::fail("rpcbind is enabled.".to_string())
        } else {
            Outcome::pass("rpcbind is not enabled.".to_string())
        }
    }
}

/// fail2ban (brute-force throttling) is not enabled.
pub struct Fail2banEnabled;

impl Check for Fail2banEnabled {
    open spec fn info(&self) -> CheckInfo {
        plain_info(
            "services-fail2ban",
            Domain::Services,
            "fail2ban not enabled",
            Severity::Low,
            "Enable fail2ban to throttle brute-force attempts: systemctl enable --now fail2ban (defense-in-depth; most useful where password auth is reachable).",
            super::UNITS_CMD,
            false,
        )
    }

    open spec fn verdict(&self, output: Seq<char>) -> OutcomeView {
        if enabled(units_map(output), "fail2ban"@) {
            passing("fail2ban is enabled."@)
        } else {
            failing("fail2ban is not enabled (no brute-force throttling)."@)
        }
    }

    fn facts(&self) -> (r: CheckInfo) {
        plain_info(
            "services-fail2ban",
            Domain::Services,
            "fail2ban not enabled",
            Severity::Low,
            "Enable fail2ban to throttle brute-force attempts: systemctl enable --now fail2ban (defense-in-depth; most useful where password auth is reachable).",
            super::UNITS_CMD,
            false,
        )
    }

    fn evaluate(&self, output: &str) -> (r: Outcome) {
        let units = parse_unit_files(output);
        if service_enabled(&units, "fail2ban") {
            Outcome::pass("fail2ban is enabled.".to_string())
        } else {
            Outcome::fail("fail2ban is not enabled (no brute-force throttling).".to_string())
        }
    }
}

} // verus!
