//! Security scoring: turn findings into a 0-100 score with a per-domain
//! breakdown.
//!
//! `S = clamp( sum(weight_i x domain_score_i) - penalties, 0, 100 )`
//!
//! Each failed check deducts from its domain's score by severity, and High /
//! Critical failures add a *global* penalty so a single severe issue drags the
//! total even when its domain is lightly weighted (otherwise averaging would
//! dilute it). Checks that errored or were skipped are excluded.
//!
//! Two profiles select the weighting and how hard severe issues are penalized:
//! `baseline` (balanced) and `hardened` (stricter on accounts/kernel/ssh, with
//! heavier penalties).

use crate::checks::{Domain, Finding, FindingView, Severity, Status};
use crate::text::chars::{chars_of, deep, lowercase, lowercase_of};
use crate::text::search::spells;
use crate::text::split::lemma_take_all;
use vstd::prelude::*;

verus! {

/// Balanced defaults for a general-purpose server, in percent.
pub const BASELINE_WEIGHTS: [(Domain, u32); 7] = [
    (Domain::Ssh, 20),
    (Domain::Firewall, 15),
    (Domain::Accounts, 15),
    (Domain::Kernel, 15),
    (Domain::Services, 15),
    (Domain::Updates, 10),
    (Domain::Logging, 10),
];

/// Stricter: more weight on accounts, kernel and ssh; less on updates/logging. In percent.
pub const HARDENED_WEIGHTS: [(Domain, u32); 7] = [
    (Domain::Ssh, 22),
    (Domain::Firewall, 15),
    (Domain::Accounts, 20),
    (Domain::Kernel, 18),
    (Domain::Services, 13),
    (Domain::Updates, 6),
    (Domain::Logging, 6),
];

/// Audit profile: selects the domain weighting and the penalty multiplier.
#[derive(Debug, Clone, Copy, PartialEq, Eq, Structural)]
pub enum Profile {
    Baseline,
    Hardened,
}

impl View for Profile {
    type V = Profile;

    open spec fn view(&self) -> Profile {
        *self
    }
}

impl Default for Profile {
    fn default() -> (r: Self)
        ensures
            r == Profile::Baseline,
    {
        Profile::Baseline
    }
}

/// Domain weights in percent.
pub open spec fn weights_of(p: Profile) -> Seq<(Domain, u32)> {
    match p {
        Profile::Baseline => BASELINE_WEIGHTS@,
        Profile::Hardened => HARDENED_WEIGHTS@,
    }
}

/// Twice the multiplier applied to global High/Critical penalties.
pub open spec fn penalty_halves(p: Profile) -> int {
    match p {
        Profile::Baseline => 2,
        Profile::Hardened => 3,
    }
}

pub open spec fn profile_named(s: Seq<char>) -> Option<Profile> {
    if lowercase(s) == "baseline"@ {
        Some(Profile::Baseline)
    } else if lowercase(s) == "hardened"@ {
        Some(Profile::Hardened)
    } else {
        None
    }
}

impl Profile {
    /// Domain weights in percent. Each set sums to 100.
    pub fn weights(self) -> (r: [(Domain, u32); 7])
        ensures
            r@ == weights_of(self),
    {
        match self {
            Profile::Baseline => BASELINE_WEIGHTS,
            Profile::Hardened => HARDENED_WEIGHTS,
        }
    }

    /// Parses a profile name (case-insensitive); `None` if unknown.
    pub fn parse(s: &str) -> (r: Option<Self>)
        ensures
            r == profile_named(s@),
    {
        let text = chars_of(s);
        let small = lowercase_of(text.as_slice());
        if spells(small.as_slice(), "baseline") {
            Some(Profile::Baseline)
        } else if spells(small.as_slice(), "hardened") {
            Some(Profile::Hardened)
        } else {
            None
        }
    }
}

/// Points a failed check subtracts from its domain's score.
pub open spec fn points(severity: Severity) -> int {
    match severity {
        Severity::Info => 0,
        Severity::Low => 5,
        Severity::Medium => 15,
        Severity::High => 30,
        Severity::Critical => 50,
    }
}

fn deduction(severity: Severity) -> (r: u32)
    ensures
        r == points(severity),
{
    match severity {
        Severity::Info => 0,
        Severity::Low => 5,
        Severity::Medium => 15,
        Severity::High => 30,
        Severity::Critical => 50,
    }
}

/// Extra global penalty a severe failed check subtracts from the total.
pub open spec fn surcharge(severity: Severity) -> int {
    match severity {
        Severity::High => 8,
        Severity::Critical => 20,
        _ => 0,
    }
}

fn penalty(severity: Severity) -> (r: u32)
    ensures
        r == surcharge(severity),
{
    match severity {
        Severity::High => 8,
        Severity::Critical => 20,
        _ => 0,
    }
}

#[derive(Debug, Clone, Copy, PartialEq, Eq, Structural)]
pub struct DomainScore {
    pub domain: Domain,
    /// Weight in percent.
    pub weight: u32,
    pub score: u8,
    /// Evaluable (non-errored) checks in the domain.
    pub checks: usize,
    pub failed: usize,
    pub errored: usize,
}

impl View for DomainScore {
    type V = DomainScore;

    open spec fn view(&self) -> DomainScore {
        *self
    }
}

#[derive(Debug, Clone)]
pub struct Score {
    pub total: u8,
    pub profile: Profile,
    /// Weighted sum of domain scores, before penalties, in hundredths.
    pub base: u32,
    pub penalties: u32,
    pub domains: Vec<DomainScore>,
}

/// The model of a [`Score`].
pub ghost struct ScoreView {
    pub total: u8,
    pub profile: Profile,
    pub base: u32,
    pub penalties: u32,
    pub domains: Seq<DomainScore>,
}

impl View for Score {
    type V = ScoreView;

    open spec fn view(&self) -> ScoreView {
        ScoreView {
            total: self.total,
            profile: self.profile,
            base: self.base,
            penalties: self.penalties,
            domains: self.domains@,
        }
    }
}

/// How many findings of a domain have a status.
pub open spec fn tally(f: Seq<FindingView>, d: Domain, s: Status) -> int
    decreases f.len(),
{
    if f.len() == 0 {
        0
    } else {
        tally(f.drop_last(), d, s) + if f.last().domain == d && f.last().status == s {
            1int
        } else {
            0
        }
    }
}

/// The points that failed checks subtract from a domain.
pub open spec fn deducted(f: Seq<FindingView>, d: Domain) -> int
    decreases f.len(),
{
    if f.len() == 0 {
        0
    } else {
        deducted(f.drop_last(), d) + if f.last().domain == d && f.last().status == Status::Fail {
            points(f.last().severity)
        } else {
            0
        }
    }
}

/// The penalties of all failed checks, before the profile's multiplier.
pub open spec fn surcharges(f: Seq<FindingView>) -> int
    decreases f.len(),
{
    if f.len() == 0 {
        0
    } else {
        surcharges(f.drop_last()) + if f.last().status == Status::Fail {
            surcharge(f.last().severity)
        } else {
            0
        }
    }
}

/// A domain's score: 100 less its deductions, and not below 0.
pub open spec fn domain_points(f: Seq<FindingView>, d: Domain) -> int {
    if deducted(f, d) <= 100 {
        100 - deducted(f, d)
    } else {
        0
    }
}

pub open spec fn domain_score(f: Seq<FindingView>, w: (Domain, u32)) -> DomainScore {
    DomainScore {
        domain: w.0,
        weight: w.1,
        score: domain_points(f, w.0) as u8,
        checks: (tally(f, w.0, Status::Pass) + tally(f, w.0, Status::Fail)) as usize,
        failed: tally(f, w.0, Status::Fail) as usize,
        errored: tally(f, w.0, Status::Error) as usize,
    }
}

pub open spec fn domain_scores(f: Seq<FindingView>, p: Profile) -> Seq<DomainScore> {
    weights_of(p).map_values(|w: (Domain, u32)| domain_score(f, w))
}

/// The sum of the weighted domain scores, in hundredths.
pub open spec fn weighted_sum(f: Seq<FindingView>, w: Seq<(Domain, u32)>) -> int
    decreases w.len(),
{
    if w.len() == 0 {
        0
    } else {
        weighted_sum(f, w.drop_last()) + w.last().1 * domain_points(f, w.last().0)
    }
}

/// The global penalties: scaled, rounded half up, and held to what a `u32` can take.
pub open spec fn penalties_of(f: Seq<FindingView>, p: Profile) -> int {
    let scaled = (surcharges(f) * penalty_halves(p) + 1) / 2;
    if scaled <= u32::MAX {
        scaled
    } else {
        u32::MAX as int
    }
}

/// A number of hundredths, held to 0..=100 and rounded half up.
pub open spec fn clamped(hundredths: int) -> int {
    if hundredths <= 0 {
        0
    } else if hundredths >= 10_000 {
        100
    } else {
        (hundredths + 50) / 100
    }
}

/// The total score.
pub open spec fn total_of(f: Seq<FindingView>, p: Profile) -> int {
    clamped(weighted_sum(f, weights_of(p)) - penalties_of(f, p) * 100)
}

fn score_domain(findings: &[Finding], w: (Domain, u32)) -> (r: DomainScore)
    ensures
        r == domain_score(deep(findings@), w),
        r.score == domain_points(deep(findings@), w.0),
        r.score <= 100,
{
    let ghost f = deep(findings@);
    let domain = w.0;
    let mut passed: usize = 0;
    let mut failed: usize = 0;
    let mut errored: usize = 0;
    // Deductions past 100 make no difference.
    let mut lost: u32 = 0;
    let mut i: usize = 0;
    while i < findings.len()
        invariant
            i <= findings@.len(),
            f == deep(findings@),
            domain == w.0,
            passed == tally(f.take(i as int), domain, Status::Pass),
            failed == tally(f.take(i as int), domain, Status::Fail),
            errored == tally(f.take(i as int), domain, Status::Error),
            passed + failed + errored <= i,
            deducted(f.take(i as int), domain) >= 0,
            lost == if deducted(f.take(i as int), domain) <= 100 {
                deducted(f.take(i as int), domain)
            } else {
                100
            },
        decreases findings@.len() - i,
    {
        proof {
            assert(f.take(i + 1).drop_last() == f.take(i as int));
            assert(f.take(i + 1).last() == findings@[i as int]@);
        }
        if findings[i].domain == domain {
            match findings[i].status {
                Status::Error => {
                    errored = errored + 1;
                },
                Status::Pass => {
                    passed = passed + 1;
                },
                Status::Fail => {
                    failed = failed + 1;
                    let next: u32 = lost + deduction(findings[i].severity);
                    lost = if next <= 100 {
                        next
                    } else {
                        100
                    };
                },
                Status::Skipped => {},
            }
        }
        i = i + 1;
    }
    proof {
        lemma_take_all(f);
    }
    DomainScore {
        domain,
        weight: w.1,
        score: (100 - lost) as u8,
        checks: passed + failed,
        failed,
        errored,
    }
}

fn sum_surcharges(findings: &[Finding]) -> (r: u128)
    ensures
        r == surcharges(deep(findings@)),
        r <= 20 * findings@.len(),
{
    let ghost f = deep(findings@);
    let mut sum: u128 = 0;
    let mut i: usize = 0;
    while i < findings.len()
        invariant
            i <= findings@.len(),
            f == deep(findings@),
            sum == surcharges(f.take(i as int)),
            sum <= 20 * i,
        decreases findings@.len() - i,
    {
        proof {
            assert(f.take(i + 1).drop_last() == f.take(i as int));
            assert(f.take(i + 1).last() == findings@[i as int]@);
        }
        match findings[i].status {
            Status::Fail => {
                sum = sum + penalty(findings[i].severity) as u128;
            },
            _ => {},
        }
        i = i + 1;
    }
    proof {
        lemma_take_all(f);
    }
    sum
}

/// The score of findings under a profile.
pub open spec fn scored(f: Seq<FindingView>, p: Profile) -> ScoreView {
    ScoreView {
        total: total_of(f, p) as u8,
        profile: p,
        base: weighted_sum(f, weights_of(p)) as u32,
        penalties: penalties_of(f, p) as u32,
        domains: domain_scores(f, p),
    }
}

/// Computes the score for `findings` under `profile`.
pub fn score(findings: &[Finding], profile: Profile) -> (r: Score)
    ensures
        r.total == total_of(deep(findings@), profile),
        r.profile == profile,
        r.base == weighted_sum(deep(findings@), weights_of(profile)),
        r.penalties == penalties_of(deep(findings@), profile),
        r.domains@ == domain_scores(deep(findings@), profile),
        r@ == scored(deep(findings@), profile),
{
    let ghost f = deep(findings@);
    let weights = profile.weights();
    let mut domains: Vec<DomainScore> = Vec::new();
    let mut base: u32 = 0;
    let mut i: usize = 0;
    while i < weights.len()
        invariant
            f == deep(findings@),
            weights@ == weights_of(profile),
            i <= weights@.len(),
            domains@ == domain_scores(f, profile).take(i as int),
            base == weighted_sum(f, weights@.take(i as int)),
            base <= 2_200 * i,
        decreases weights@.len() - i,
    {
        proof {
            assert(weights@.take(i + 1).drop_last() == weights@.take(i as int));
            assert(weights@[i as int].1 <= 22);
        }
        let d = score_domain(findings, weights[i]);
        proof {
            let (a, b) = (weights@[i as int].1 as int, d.score as int);
            assert(0 <= a * b <= 2_200) by (nonlinear_arith)
                requires
                    0 <= a <= 22,
                    0 <= b <= 100,
            ;
        }
        base = base + weights[i].1 * d.score as u32;
        domains.push(d);
        proof {
            assert(domain_scores(f, profile).take(i + 1) == domain_scores(f, profile).take(
                i as int,
            ).push(domain_scores(f, profile)[i as int]));
        }
        i = i + 1;
    }
    proof {
        lemma_take_all(weights@);
        lemma_take_all(domain_scores(f, profile));
    }
    let raw = sum_surcharges(findings);
    let n: usize = findings.len();
    let halves: u128 = match profile {
        Profile::Baseline => 2,
        Profile::Hardened => 3,
    };
    proof {
        let (a, b) = (raw as int, halves as int);
        assert(0 <= a * b <= 60 * 0xffff_ffff_ffff_ffff) by (nonlinear_arith)
            requires
                0 <= a <= 20 * 0xffff_ffff_ffff_ffff,
                0 <= b <= 3,
        ;
    }
    let scaled: u128 = (raw * halves + 1) / 2;
    let penalties: u32 = if scaled <= u32::MAX as u128 {
        scaled as u32
    } else {
        u32::MAX
    };
    let rest: i64 = base as i64 - penalties as i64 * 100;
    let total: u8 = if rest <= 0 {
        0
    } else if rest >= 10_000 {
        100
    } else {
        ((rest + 50) / 100) as u8
    };
    Score { total, profile, base, penalties, domains }
}

/// Each set of weights sums to 100 percent.
pub proof fn law_weights_sum_to_hundred(p: Profile)
    ensures
        weights_of(p).len() == 7,
        weights_of(p)[0].1 + weights_of(p)[1].1 + weights_of(p)[2].1 + weights_of(p)[3].1
            + weights_of(p)[4].1 + weights_of(p)[5].1 + weights_of(p)[6].1 == 100,
{
}

/// Every domain has exactly one weight.
pub proof fn law_every_domain_weighed(p: Profile, d: Domain)
    ensures
        exists|i: int| 0 <= i < 7 && (#[trigger] weights_of(p)[i]).0 == d,
        forall|i: int, j: int|
            0 <= i < j < 7 ==> (#[trigger] weights_of(p)[i]).0 != (#[trigger] weights_of(p)[j]).0,
{
    let w = weights_of(p);
    assert(w[0].0 == Domain::Ssh);
    assert(w[1].0 == Domain::Firewall);
    assert(w[2].0 == Domain::Accounts);
    assert(w[3].0 == Domain::Kernel);
    assert(w[4].0 == Domain::Services);
    assert(w[5].0 == Domain::Updates);
    assert(w[6].0 == Domain::Logging);
}

/// The score stays within 0 and 100.
pub proof fn law_score_in_range(f: Seq<FindingView>, p: Profile)
    ensures
        0 <= total_of(f, p) <= 100,
{
}

proof fn lemma_weighted_sum_full(f: Seq<FindingView>, p: Profile)
    requires
        forall|d: Domain| #[trigger] deducted(f, d) == 0,
    ensures
        weighted_sum(f, weights_of(p)) == 10_000,
{
    reveal_with_fuel(weighted_sum, 8);
    let w = weights_of(p);
    assert(w.drop_last() =~= w.take(6));
    assert(w.take(6).drop_last() =~= w.take(5));
    assert(w.take(5).drop_last() =~= w.take(4));
    assert(w.take(4).drop_last() =~= w.take(3));
    assert(w.take(3).drop_last() =~= w.take(2));
    assert(w.take(2).drop_last() =~= w.take(1));
    assert(w.take(1).drop_last() =~= w.take(0));
    assert(deducted(f, Domain::Ssh) == 0);
    assert(deducted(f, Domain::Firewall) == 0);
    assert(deducted(f, Domain::Accounts) == 0);
    assert(deducted(f, Domain::Kernel) == 0);
    assert(deducted(f, Domain::Services) == 0);
    assert(deducted(f, Domain::Updates) == 0);
    assert(deducted(f, Domain::Logging) == 0);
}

proof fn lemma_nothing_failed(f: Seq<FindingView>, d: Domain)
    requires
        forall|i: int| 0 <= i < f.len() ==> (#[trigger] f[i]).status != Status::Fail,
    ensures
        deducted(f, d) == 0,
        surcharges(f) == 0,
    decreases f.len(),
{
    if f.len() > 0 {
        assert(f[f.len() - 1].status != Status::Fail);
        assert forall|i: int| 0 <= i < f.drop_last().len() implies (
        #[trigger] f.drop_last()[i]).status != Status::Fail by {
            assert(f.drop_last()[i] == f[i]);
        }
        lemma_nothing_failed(f.drop_last(), d);
    }
}

/// Where no check failed (all passed, errored or were skipped, or there are none), the score
/// is 100 and there are no penalties.
pub proof fn law_no_failure_is_hundred(f: Seq<FindingView>, p: Profile)
    requires
        forall|i: int| 0 <= i < f.len() ==> (#[trigger] f[i]).status != Status::Fail,
    ensures
        total_of(f, p) == 100,
        penalties_of(f, p) == 0,
{
    assert forall|d: Domain| #[trigger] deducted(f, d) == 0 by {
        lemma_nothing_failed(f, d);
    }
    lemma_nothing_failed(f, Domain::Ssh);
    lemma_weighted_sum_full(f, p);
}

proof fn lemma_weighted_sum_same(f: Seq<FindingView>, g: Seq<FindingView>, w: Seq<(Domain, u32)>)
    requires
        forall|d: Domain| #[trigger] deducted(f, d) == deducted(g, d),
    ensures
        weighted_sum(f, w) == weighted_sum(g, w),
    decreases w.len(),
{
    if w.len() > 0 {
        lemma_weighted_sum_same(f, g, w.drop_last());
        assert(deducted(f, w.last().0) == deducted(g, w.last().0));
    }
}

/// Where in a list of findings one more stands does not matter.
pub proof fn lemma_place(f: Seq<FindingView>, i: int, x: FindingView, d: Domain, s: Status)
    requires
        0 <= i <= f.len(),
    ensures
        tally(f.insert(i, x), d, s) == tally(f.push(x), d, s),
        deducted(f.insert(i, x), d) == deducted(f.push(x), d),
        surcharges(f.insert(i, x)) == surcharges(f.push(x)),
    decreases f.len(),
{
    let g = f.insert(i, x);
    assert(f.push(x).drop_last() == f);
    if i == f.len() {
        assert(g == f.push(x));
    } else {
        let front = f.drop_last();
        lemma_place(front, i, x, d, s);
        assert(front.push(x).drop_last() == front);
        assert(g.drop_last() == front.insert(i, x));
        assert(g.last() == f.last());
        assert(f.push(x).last() == x && front.push(x).last() == x);
        reveal_with_fuel(tally, 3);
        reveal_with_fuel(deducted, 3);
        reveal_with_fuel(surcharges, 3);
    }
}

/// A check that passed, errored or was skipped leaves the score as it is, however severe it is
/// and wherever it stands.
pub proof fn law_only_failures_count(f: Seq<FindingView>, i: int, x: FindingView, p: Profile)
    requires
        0 <= i <= f.len(),
        x.status != Status::Fail,
    ensures
        total_of(f.insert(i, x), p) == total_of(f, p),
        penalties_of(f.insert(i, x), p) == penalties_of(f, p),
        weighted_sum(f.insert(i, x), weights_of(p)) == weighted_sum(f, weights_of(p)),
{
    let g = f.insert(i, x);
    assert(f.push(x).drop_last() == f);
    assert forall|d: Domain| #[trigger] deducted(g, d) == deducted(f, d) by {
        lemma_place(f, i, x, d, Status::Pass);
    }
    lemma_place(f, i, x, Domain::Ssh, Status::Pass);
    lemma_weighted_sum_same(g, f, weights_of(p));
}

proof fn lemma_weighted_sum_less(f: Seq<FindingView>, g: Seq<FindingView>, w: Seq<(Domain, u32)>)
    requires
        forall|d: Domain| #[trigger] deducted(g, d) >= deducted(f, d),
    ensures
        weighted_sum(g, w) <= weighted_sum(f, w),
    decreases w.len(),
{
    if w.len() > 0 {
        lemma_weighted_sum_less(f, g, w.drop_last());
        let d = w.last().0;
        assert(deducted(g, d) >= deducted(f, d));
        let (a, x, y) = (w.last().1 as int, domain_points(g, d), domain_points(f, d));
        assert(a * x <= a * y) by (nonlinear_arith)
            requires
                a >= 0,
                x <= y,
        ;
    }
}

/// One more failed check, wherever it stands, never raises the score.
pub proof fn law_failure_never_raises(f: Seq<FindingView>, i: int, x: FindingView, p: Profile)
    requires
        0 <= i <= f.len(),
        x.status == Status::Fail,
    ensures
        total_of(f.insert(i, x), p) <= total_of(f, p),
        penalties_of(f.insert(i, x), p) >= penalties_of(f, p),
{
    let g = f.insert(i, x);
    assert(f.push(x).drop_last() == f);
    assert forall|d: Domain| #[trigger] deducted(g, d) >= deducted(f, d) by {
        lemma_place(f, i, x, d, Status::Fail);
    }
    lemma_place(f, i, x, Domain::Ssh, Status::Fail);
    lemma_weighted_sum_less(f, g, weights_of(p));
    let (a, b, k) = (surcharges(f), surcharges(g), penalty_halves(p));
    assert(b >= a);
    assert(b * k >= a * k) by (nonlinear_arith)
        requires
            b >= a,
            k > 0,
    ;
}

pub proof fn lemma_reordered(f: Seq<FindingView>, g: Seq<FindingView>, d: Domain, s: Status)
    requires
        f.to_multiset() == g.to_multiset(),
    ensures
        tally(f, d, s) == tally(g, d, s),
        deducted(f, d) == deducted(g, d),
        surcharges(f) == surcharges(g),
    decreases f.len(),
{
    broadcast use vstd::seq_lib::group_to_multiset_ensures;

    assert(f.to_multiset().len() == f.len());
    assert(g.to_multiset().len() == g.len());
    if f.len() > 0 {
        let x = f.last();
        let front = f.drop_last();
        assert(f.contains(x));
        assert(g.to_multiset().count(x) > 0);
        assert(g.contains(x));
        let i = g.index_of(x);
        let rest = g.remove(i);
        assert(g == rest.insert(i, x));
        assert(front == f.remove(f.len() - 1));
        assert(rest.to_multiset() == g.to_multiset().remove(x));
        assert(front.to_multiset() == f.to_multiset().remove(x));
        lemma_reordered(front, rest, d, s);
        lemma_place(rest, i, x, d, s);
        assert(rest.push(x).drop_last() == rest);
    }
}

/// The order of the findings does not change the score, nor any part of it.
pub proof fn law_order_is_immaterial(f: Seq<FindingView>, g: Seq<FindingView>, p: Profile)
    requires
        f.to_multiset() == g.to_multiset(),
    ensures
        scored(f, p) == scored(g, p),
        total_of(f, p) == total_of(g, p),
{
    assert forall|d: Domain| #[trigger] deducted(f, d) == deducted(g, d) by {
        lemma_reordered(f, g, d, Status::Pass);
    }
    lemma_reordered(f, g, Domain::Ssh, Status::Pass);
    lemma_weighted_sum_same(f, g, weights_of(p));
    let (a, b) = (domain_scores(f, p), domain_scores(g, p));
    assert forall|k: int| 0 <= k < a.len() implies a[k] == b[k] by {
        let d = weights_of(p)[k].0;
        lemma_reordered(f, g, d, Status::Pass);
        lemma_reordered(f, g, d, Status::Fail);
        lemma_reordered(f, g, d, Status::Error);
    }
    assert(a =~= b);
}

pub proof fn lemma_surcharges_nonneg(f: Seq<FindingView>)
    ensures
        surcharges(f) >= 0,
    decreases f.len(),
{
    if f.len() > 0 {
        lemma_surcharges_nonneg(f.drop_last());
    }
}

/// The hardened profile never penalizes less than the baseline one.
pub proof fn law_hardened_penalizes_more(f: Seq<FindingView>)
    ensures
        penalties_of(f, Profile::Hardened) >= penalties_of(f, Profile::Baseline),
{
    lemma_surcharges_nonneg(f);
}

} // verus!
