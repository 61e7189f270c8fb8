//! Firewall-domain checks.
//!
//! [`FirewallEnabled`] is a non-root, unit-enablement view: which firewall
//! service is enabled at boot. [`NftDefaultDeny`] is the privileged upgrade: it reads the live
//! ruleset (`sudo -n nft list ruleset`) to confirm inbound traffic is actually
//! denied by default, not just that a firewall service is running.

use super::parse::{
    enabled, iptables_input_policy, iptables_posture, nft_input_policy, nft_posture,
    parse_unit_files, service_enabled, units_map, NftInput,
};
use super::{
    failing, passing, plain_info, Check, CheckInfo, Domain, Outcome, OutcomeView, Severity,
};
use crate::text::chars::{deep, lemma_deep_empty, lemma_deep_push};
use crate::text::compose::{join_texts, joined};
use crate::text::split::{lemma_filter_map_step, lemma_take_all};
use crate::textmap::TextMap;
use vstd::prelude::*;
use vstd::string::StringExecFns;

verus! {

/// The firewall services that are recognised.
pub const FIREWALL_UNITS: [&'static str; 3] = ["firewalld", "ufw", "nftables"];

/// The recognised firewall services that are enabled.
pub open spec fn active_firewalls(units: Seq<(Seq<char>, Seq<char>)>) -> Seq<Seq<char>> {
    FIREWALL_UNITS@.filter_map(
        |s: &'static str|
            if enabled(units, s@) {
                Some(s@)
            } else {
                None
            },
    )
}

fn find_active_firewalls(units: &TextMap<String>) -> (r: Vec<String>)
    ensures
        deep(r@) == active_firewalls(units@),
{
    broadcast use lemma_deep_empty;

    let all = FIREWALL_UNITS;
    let ghost m = units@;
    let ghost found = |s: &'static str|
        if enabled(m, s@) {
            Some(s@)
        } else {
            None
        };
    let mut out: Vec<String> = Vec::new();
    let mut i: usize = 0;
    while i < all.len()
        invariant
            all == FIREWALL_UNITS,
            m == units@,
            i <= all@.len(),
            found == |s: &'static str|
                if enabled(m, s@) {
                    Some(s@)
                } else {
                    None
                },
            deep(out@) == all@.take(i as int).filter_map(found),
        decreases all@.len() - i,
    {
        broadcast use lemma_deep_push;

        proof {
            lemma_filter_map_step(all@, found, i as int);
        }
        if service_enabled(units, all[i]) {
            out.push(all[i].to_string());
        }
        i = i + 1;
    }
    proof {
        lemma_take_all(all@);
    }
    out
}

/// No recognised host firewall service is enabled.
pub struct FirewallEnabled;

impl Check for FirewallEnabled {
    open spec fn info(&self) -> CheckInfo {
        plain_info(
            "firewall-enabled",
            Domain::Firewall,
            "No host firewall enabled",
            Severity::High,
            "Enable a host firewall (firewalld, ufw or nftables) and set a default-deny input policy.",
            super::UNITS_CMD,
            false,
        )
    }

    open spec fn verdict(&self, output: Seq<char>) -> OutcomeView {
        let active = active_firewalls(units_map(output));
        if active.len() == 0 {
            failing("No firewalld/ufw/nftables service is enabled."@)
        } else {
            passing("Firewall enabled: "@ + joined(active, ", "@) + "."@)
        }
    }

    fn facts(&self) -> (r: CheckInfo) {
        plain_info(
            "firewall-enabled",
            Domain::Firewall,
            "No host firewall enabled",
            Severity::High,
            "Enable a host firewall (firewalld, ufw or nftables) and set a default-deny input policy.",
            super::UNITS_CMD,
            false,
        )
    }

    fn evaluate(&self, output: &str) -> (r: Outcome) {
        let units = parse_unit_files(output);
        let active = find_active_firewalls(&units);
        if active.len() == 0 {
            Outcome::fail("No firewalld/ufw/nftables service is enabled.".to_string())
        } else {
            let list = join_texts(&active, ", ");
            let mut s = "Firewall enabled: ".to_string();
            s.append(list.as_str());
            s.append(".");
            Outcome::pass(s)
        }
    }
}

/// The live nftables ruleset has an input hook that accepts everything.
/// Privileged: reads `sudo -n nft list ruleset`, so it runs only on opted-in
/// targets and judges the *effective* inbound posture on nft-native firewalls
/// (firewalld, nftables, or ufw on the nft backend). When nft shows no input hook
/// the host may filter via the iptables-legacy backend (invisible to nft), so the
/// check defers rather than false-failing; [`FirewallEnabled`] already flags a
/// host with no firewall service at all.
pub struct NftDefaultDeny;

impl Check for NftDefaultDeny {
    open spec fn info(&self) -> CheckInfo {
        plain_info(
            "firewall-nft-default-deny",
            Domain::Firewall,
            "No default-deny on the input hook",
            Severity::Medium,
            "Set a default-deny inbound policy (ufw default deny incoming; firewalld default zone drop/reject; or nft `policy drop` on the input hook).",
            "sudo -n nft list ruleset",
            true,
        )
    }

    open spec fn verdict(&self, output: Seq<char>) -> OutcomeView {
        match nft_posture(output) {
            NftInput::DefaultDeny => passing(
                "Input hook denies (policy drop, or a drop/reject rule is present)."@,
            ),
            NftInput::AcceptAll => failing(
                "Input hook accepts by default with no deny rule (inbound traffic is open)."@,
            ),
            NftInput::NoInputHook | NftInput::NoRuleset => passing(
                "No nft input-hook chain; the firewall may use the iptables-legacy backend (not visible via nft)."@,
            ),
        }
    }

    fn facts(&self) -> (r: CheckInfo) {
        plain_info(
            "firewall-nft-default-deny",
            Domain::Firewall,
            "No default-deny on the input hook",
            Severity::Medium,
            "Set a default-deny inbound policy (ufw default deny incoming; firewalld default zone drop/reject; or nft `policy drop` on the input hook).",
            "sudo -n nft list ruleset",
            true,
        )
    }

    fn evaluate(&self, output: &str) -> (r: Outcome) {
        match nft_input_policy(output) {
            NftInput::DefaultDeny => Outcome::pass(
                "Input hook denies (policy drop, or a drop/reject rule is present).".to_string(),
            ),
            NftInput::AcceptAll => Outcome::fail(
                "Input hook accepts by default with no deny rule (inbound traffic is open).".to_string(),
            ),
            NftInput::NoInputHook | NftInput::NoRuleset => Outcome::pass(
                "No nft input-hook chain; the firewall may use the iptables-legacy backend (not visible via nft).".to_string(),
            ),
        }
    }
}

/// The live iptables-legacy ruleset has an INPUT chain that accepts everything.
/// Privileged: reads `sudo -n iptables -S`, the authoritative view of hosts on
/// the iptables-legacy backend (invisible to nft). Complements
/// [`NftDefaultDeny`]: on an nft-native host `iptables -S` shows no INPUT chain
/// and this defers (pass); on a legacy host nft defers and this gives the real
/// verdict. Symmetric defer semantics keep at most one firewall-posture failure
/// per host, so the two checks never double-penalise the same problem.
pub struct IptablesDefaultDeny;

impl Check for IptablesDefaultDeny {
    open spec fn info(&self) -> CheckInfo {
        plain_info(
            "firewall-iptables-default-deny",
            Domain::Firewall,
            "No default-deny on the iptables INPUT chain",
            Severity::Medium,
            "Set a default-deny inbound policy on the INPUT chain: iptables -P INPUT DROP (after allowing loopback and established connections), or adopt ufw/firewalld.",
            "sudo -n iptables -S",
            true,
        )
    }

    open spec fn verdict(&self, output: Seq<char>) -> OutcomeView {
        match iptables_posture(output) {
            NftInput::DefaultDeny => passing(
                "INPUT chain denies by default (policy DROP, or a DROP/REJECT rule is present)."@,
            ),
            NftInput::AcceptAll => failing(
                "INPUT chain accepts by default with no deny rule (inbound traffic is open)."@,
            ),
            NftInput::NoInputHook | NftInput::NoRuleset => passing(
                "No iptables-legacy INPUT chain; the host may filter via nftables (not visible via iptables-legacy)."@,
            ),
        }
    }

    fn facts(&self) -> (r: CheckInfo) {
        plain_info(
            "firewall-iptables-default-deny",
            Domain::Firewall,
            "No default-deny on the iptables INPUT chain",
            Severity::Medium,
            "Set a default-deny inbound policy on the INPUT chain: iptables -P INPUT DROP (after allowing loopback and established connections), or adopt ufw/firewalld.",
            "sudo -n iptables -S",
            true,
        )
    }

    fn evaluate(&self, output: &str) -> (r: Outcome) {
        match iptables_input_policy(output) {
            NftInput::DefaultDeny => Outcome::pass(
                "INPUT chain denies by default (policy DROP, or a DROP/REJECT rule is present).".to_string(),
            ),
            NftInput::AcceptAll => Outcome::fail(
                "INPUT chain accepts by default with no deny rule (inbound traffic is open).".to_string(),
            ),
            NftInput::NoInputHook | NftInput::NoRuleset => Outcome::pass(
                "No iptables-legacy INPUT chain; the host may filter via nftables (not visible via iptables-legacy).".to_string(),
            ),
        }
    }
}

} // verus!
