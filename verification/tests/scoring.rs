//! Scoring of findings.

use linux_audit_mcp::checks::{Domain, Finding, Severity, Status};
use linux_audit_mcp::scoring::{score, Profile};

fn finding(domain: Domain, severity: Severity, status: Status) -> Finding {
    Finding {
        id: "test",
        domain,
        title: "test",
        severity,
        status,
        detail: String::new(),
        recommendation: "",
    }
}

#[test]
fn profile_weights_sum_to_one() {
    for profile in [Profile::Baseline, Profile::Hardened] {
        // Weights are whole percents.
        let sum: u32 = profile.weights().iter().map(|&(_, w)| w).sum();
        assert_eq!(sum, 100, "{profile:?} weights sum to {sum}");
    }
}

#[test]
fn parse_profile() {
    assert_eq!(Profile::parse("baseline"), Some(Profile::Baseline));
    assert_eq!(Profile::parse("HARDENED"), Some(Profile::Hardened));
    assert_eq!(Profile::parse("nope"), None);
    assert_eq!(Profile::default(), Profile::Baseline);
}

#[test]
fn neither_place_nor_order_matters() {
    let fail = finding(Domain::Ssh, Severity::High, Status::Fail);
    let pass = finding(Domain::Kernel, Severity::Critical, Status::Pass);
    let low = finding(Domain::Logging, Severity::Low, Status::Fail);
    for profile in [Profile::Baseline, Profile::Hardened] {
        let base = vec![fail.clone(), low.clone()];
        let total = score(&base, profile).total;
        for i in 0..3 {
            let mut with_pass = base.clone();
            with_pass.insert(i, pass.clone());
            assert_eq!(score(&with_pass, profile).total, total);
            let mut with_fail = base.clone();
            with_fail.insert(i, finding(Domain::Kernel, Severity::Medium, Status::Fail));
            assert!(score(&with_fail, profile).total < total);
        }
        let one = score(&[fail.clone(), pass.clone(), low.clone()], profile);
        let two = score(&[low.clone(), fail.clone(), pass.clone()], profile);
        assert_eq!(one.total, two.total);
        assert_eq!(one.base, two.base);
        assert_eq!(one.penalties, two.penalties);
        assert_eq!(one.domains, two.domains);
    }
}

#[test]
fn empty_is_100() {
    assert_eq!(score(&[], Profile::Baseline).total, 100);
}

#[test]
fn all_pass_is_100() {
    let findings = vec![
        finding(Domain::Ssh, Severity::High, Status::Pass),
        finding(Domain::Accounts, Severity::Critical, Status::Pass),
    ];
    assert_eq!(score(&findings, Profile::Baseline).total, 100);
}

#[test]
fn single_high_failure_applies_domain_and_penalty() {
    // Ssh (weight 0.20) with one High fail: domain 70, base = 0.20*70 + 0.80*100 = 94,
    // minus penalty 8 -> 86.
    let findings = vec![finding(Domain::Ssh, Severity::High, Status::Fail)];
    let s = score(&findings, Profile::Baseline);
    assert_eq!(s.penalties, 8);
    assert_eq!(s.total, 86);
    let ssh = s.domains.iter().find(|d| d.domain == Domain::Ssh).unwrap();
    assert_eq!(ssh.score, 70);
    assert_eq!(ssh.failed, 1);
}

#[test]
fn critical_failure_penalized_hard() {
    // Accounts one Critical.
    // Baseline (0.15): domain 50, base = 92.5, penalty 20 -> 72.5 -> 73.
    // Hardened (0.20): domain 50, base = 90, penalty 20*1.5=30 -> 60.
    let findings = vec![finding(Domain::Accounts, Severity::Critical, Status::Fail)];
    let base = score(&findings, Profile::Baseline);
    assert_eq!(base.penalties, 20);
    assert_eq!(base.total, 73);
    let hard = score(&findings, Profile::Hardened);
    assert_eq!(hard.penalties, 30);
    assert_eq!(hard.total, 60);
    assert!(hard.total < base.total);
}

#[test]
fn domain_score_clamps_at_zero() {
    let findings = vec![
        finding(Domain::Kernel, Severity::High, Status::Fail),
        finding(Domain::Kernel, Severity::High, Status::Fail),
        finding(Domain::Kernel, Severity::High, Status::Fail),
        finding(Domain::Kernel, Severity::Critical, Status::Fail),
    ];
    let s = score(&findings, Profile::Baseline);
    let k = s
        .domains
        .iter()
        .find(|d| d.domain == Domain::Kernel)
        .unwrap();
    assert_eq!(k.score, 0);
}

#[test]
fn errored_checks_do_not_deduct() {
    let findings = vec![finding(Domain::Accounts, Severity::Critical, Status::Error)];
    let s = score(&findings, Profile::Baseline);
    assert_eq!(s.total, 100);
    assert_eq!(s.penalties, 0);
    let a = s
        .domains
        .iter()
        .find(|d| d.domain == Domain::Accounts)
        .unwrap();
    assert_eq!(a.errored, 1);
    assert_eq!(a.failed, 0);
}

#[test]
fn total_never_below_zero() {
    let findings: Vec<Finding> = [
        Domain::Ssh,
        Domain::Firewall,
        Domain::Accounts,
        Domain::Kernel,
        Domain::Services,
        Domain::Updates,
        Domain::Logging,
    ]
    .into_iter()
    .flat_map(|d| {
        std::iter::repeat_with(move || finding(d, Severity::Critical, Status::Fail)).take(5)
    })
    .collect();
    assert_eq!(score(&findings, Profile::Hardened).total, 0);
}
