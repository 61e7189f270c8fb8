//! What a score says of the findings: what each failure costs, and how the parts make the whole.

use crate::checks::{Domain, FindingView, Severity, Status};
use crate::scoring::{
    deducted, domain_points, domain_score, domain_scores, lemma_place, lemma_surcharges_nonneg,
    penalties_of, penalty_halves, scored, surcharges, tally, weighted_sum, weights_of, Profile,
    ScoreView,
};
use vstd::prelude::*;

verus! {

/// The failed checks of a severity.
pub open spec fn failed_at(f: Seq<FindingView>, severity: Severity) -> Seq<FindingView> {
    f.filter(|x: FindingView| x.status == Status::Fail && x.severity == severity)
}

/// The findings of a domain with a status.
pub open spec fn standing(f: Seq<FindingView>, d: Domain, s: Status) -> Seq<FindingView> {
    f.filter(|x: FindingView| x.domain == d && x.status == s)
}

/// The first severity is no worse than the second: Info, Low, Medium, High, Critical.
pub open spec fn no_worse(a: Severity, b: Severity) -> bool {
    match a {
        Severity::Info => true,
        Severity::Low => !(b is Info),
        Severity::Medium => !(b is Info) && !(b is Low),
        Severity::High => b is High || b is Critical,
        Severity::Critical => b is Critical,
    }
}

/// The score that a domain has in a result.
pub open spec fn score_in(s: ScoreView, d: Domain) -> int {
    if s.domains[0].domain == d {
        s.domains[0].score as int
    } else if s.domains[1].domain == d {
        s.domains[1].score as int
    } else if s.domains[2].domain == d {
        s.domains[2].score as int
    } else if s.domains[3].domain == d {
        s.domains[3].score as int
    } else if s.domains[4].domain == d {
        s.domains[4].score as int
    } else if s.domains[5].domain == d {
        s.domains[5].score as int
    } else {
        s.domains[6].score as int
    }
}

proof fn lemma_score_in(f: Seq<FindingView>, p: Profile, d: Domain)
    ensures
        score_in(scored(f, p), d) == domain_points(f, d),
        0 <= domain_points(f, d) <= 100,
{
    lemma_deducted_nonneg(f, d);
    let w = weights_of(p);
    assert(w[0].0 == Domain::Ssh);
    assert(w[1].0 == Domain::Firewall);
    assert(w[2].0 == Domain::Accounts);
    assert(w[3].0 == Domain::Kernel);
    assert(w[4].0 == Domain::Services);
    assert(w[5].0 == Domain::Updates);
    assert(w[6].0 == Domain::Logging);
    let all = domain_scores(f, p);
    assert forall|i: int| 0 <= i < 7 implies #[trigger] all[i] == domain_score(f, w[i]) by {}
}

proof fn lemma_deducted_nonneg(f: Seq<FindingView>, d: Domain)
    ensures
        deducted(f, d) >= 0,
    decreases f.len(),
{
    if f.len() > 0 {
        lemma_deducted_nonneg(f.drop_last(), d);
    }
}

/// A failed check, wherever it stands among the findings, takes nothing, 5, 15, 30 or 50 points
/// off its domain's score by its severity, down to 0, and leaves every other domain alone.
pub proof fn law_failure_costs_by_severity(
    f: Seq<FindingView>,
    i: int,
    x: FindingView,
    p: Profile,
    d: Domain,
)
    requires
        0 <= i <= f.len(),
        x.status == Status::Fail,
    ensures
        ({
            let before = score_in(scored(f, p), d);
            let after = score_in(scored(f.insert(i, x), p), d);
            let cost = match x.severity {
                Severity::Info => 0int,
                Severity::Low => 5,
                Severity::Medium => 15,
                Severity::High => 30,
                Severity::Critical => 50,
            };
            if x.domain != d {
                after == before
            } else if before >= cost {
                after == before - cost
            } else {
                after == 0
            }
        }),
{
    lemma_score_in(f, p, d);
    lemma_score_in(f.insert(i, x), p, d);
    lemma_place(f, i, x, d, Status::Fail);
    lemma_deducted_nonneg(f, d);
    assert(f.push(x).drop_last() == f);
}

/// A domain in which no check failed has 100 points.
pub proof fn law_clean_domain_is_hundred(f: Seq<FindingView>, p: Profile, d: Domain)
    requires
        standing(f, d, Status::Fail).len() == 0,
    ensures
        score_in(scored(f, p), d) == 100,
{
    lemma_score_in(f, p, d);
    lemma_nothing_deducted(f, d);
}

proof fn lemma_nothing_deducted(f: Seq<FindingView>, d: Domain)
    requires
        standing(f, d, Status::Fail).len() == 0,
    ensures
        deducted(f, d) == 0,
    decreases f.len(),
{
    reveal(Seq::filter);
    if f.len() > 0 {
        lemma_nothing_deducted(f.drop_last(), d);
    }
}

/// A domain whose only failed check is of a severity has 100, 95, 85, 70 or 50 points.
pub proof fn law_single_failure(f: Seq<FindingView>, p: Profile, i: int)
    requires
        0 <= i < f.len(),
        f[i].status == Status::Fail,
        standing(f.remove(i), f[i].domain, Status::Fail).len() == 0,
    ensures
        score_in(scored(f, p), f[i].domain) == match f[i].severity {
            Severity::Info => 100int,
            Severity::Low => 95,
            Severity::Medium => 85,
            Severity::High => 70,
            Severity::Critical => 50,
        },
{
    let rest = f.remove(i);
    let x = f[i];
    assert(rest.insert(i, x) == f);
    law_clean_domain_is_hundred(rest, p, x.domain);
    law_failure_costs_by_severity(rest, i, x, p, x.domain);
}

/// A failed check that is made worse never raises its domain's score, nor the total.
pub proof fn law_worse_failure_never_scores_more(
    f: Seq<FindingView>,
    i: int,
    x: FindingView,
    y: FindingView,
    p: Profile,
)
    requires
        0 <= i <= f.len(),
        x.status == Status::Fail,
        y.status == Status::Fail,
        x.domain == y.domain,
        no_worse(x.severity, y.severity),
    ensures
        score_in(scored(f.insert(i, y), p), x.domain) <= score_in(
            scored(f.insert(i, x), p),
            x.domain,
        ),
        scored(f.insert(i, y), p).penalties >= scored(f.insert(i, x), p).penalties,
        scored(f.insert(i, y), p).total <= scored(f.insert(i, x), p).total,
{
    let a = f.insert(i, x);
    let b = f.insert(i, y);
    assert(f.push(x).drop_last() == f);
    assert(f.push(y).drop_last() == f);
    assert forall|d: Domain| #[trigger] deducted(b, d) >= deducted(a, d) by {
        lemma_place(f, i, x, d, Status::Fail);
        lemma_place(f, i, y, d, Status::Fail);
    }
    lemma_place(f, i, x, x.domain, Status::Fail);
    lemma_place(f, i, y, x.domain, Status::Fail);
    lemma_score_in(a, p, x.domain);
    lemma_score_in(b, p, x.domain);
    assert(deducted(b, x.domain) >= deducted(a, x.domain));
    lemma_less(a, b, weights_of(p));
    lemma_surcharges_nonneg(f);
    lemma_surcharges_nonneg(a);
    lemma_surcharges_nonneg(b);
    let (s, t, k) = (surcharges(a), surcharges(b), penalty_halves(p));
    assert(0 <= s * k <= t * k) by (nonlinear_arith)
        requires
            0 <= s <= t,
            k > 0,
    ;
}

proof fn lemma_less(f: Seq<FindingView>, g: Seq<FindingView>, w: Seq<(Domain, u32)>)
    requires
        forall|d: Domain| #[trigger] deducted(g, d) >= deducted(f, d),
    ensures
        weighted_sum(g, w) <= weighted_sum(f, w),
    decreases w.len(),
{
    if w.len() > 0 {
        lemma_less(f, g, w.drop_last());
        let d = w.last().0;
        assert(deducted(g, d) >= deducted(f, d));
        let (a, x, y) = (w.last().1 as int, domain_points(g, d), domain_points(f, d));
        assert(a * x <= a * y) by (nonlinear_arith)
            requires
                a >= 0,
                x <= y,
        ;
    }
}

/// The base is the weighted mean of the domain scores, in hundredths: ssh counts 20 percent
/// (hardened 22), accounts 15 (20), the kernel 15 (18), the firewall 15, services 15 (13),
/// updates and logging 10 (6) each.
pub proof fn law_base_is_weighted_mean(f: Seq<FindingView>, p: Profile)
    ensures
        ({
            let s = scored(f, p);
            s.base == match p {
                Profile::Baseline => 20 * score_in(s, Domain::Ssh) + 15 * score_in(
                    s,
                    Domain::Accounts,
                ) + 15 * score_in(s, Domain::Kernel) + 15 * score_in(s, Domain::Firewall) + 15
                    * score_in(s, Domain::Services) + 10 * score_in(s, Domain::Updates) + 10
                    * score_in(s, Domain::Logging),
                Profile::Hardened => 22 * score_in(s, Domain::Ssh) + 20 * score_in(
                    s,
                    Domain::Accounts,
                ) + 18 * score_in(s, Domain::Kernel) + 15 * score_in(s, Domain::Firewall) + 13
                    * score_in(s, Domain::Services) + 6 * score_in(s, Domain::Updates) + 6
                    * score_in(s, Domain::Logging),
            }
        }),
{
    lemma_score_in(f, p, Domain::Ssh);
    lemma_score_in(f, p, Domain::Accounts);
    lemma_score_in(f, p, Domain::Kernel);
    lemma_score_in(f, p, Domain::Firewall);
    lemma_score_in(f, p, Domain::Services);
    lemma_score_in(f, p, Domain::Updates);
    lemma_score_in(f, p, Domain::Logging);
    lemma_summed(f, p);
}

proof fn lemma_summed(f: Seq<FindingView>, p: Profile)
    ensures
        weighted_sum(f, weights_of(p)) == match p {
            Profile::Baseline => 20 * domain_points(f, Domain::Ssh) + 15 * domain_points(
                f,
                Domain::Accounts,
            ) + 15 * domain_points(f, Domain::Kernel) + 15 * domain_points(f, Domain::Firewall) + 15
                * domain_points(f, Domain::Services) + 10 * domain_points(f, Domain::Updates) + 10
                * domain_points(f, Domain::Logging),
            Profile::Hardened => 22 * domain_points(f, Domain::Ssh) + 20 * domain_points(
                f,
                Domain::Accounts,
            ) + 18 * domain_points(f, Domain::Kernel) + 15 * domain_points(f, Domain::Firewall) + 13
                * domain_points(f, Domain::Services) + 6 * domain_points(f, Domain::Updates) + 6
                * domain_points(f, Domain::Logging),
        },
{
    reveal_with_fuel(weighted_sum, 8);
    let w = weights_of(p);
    assert(w.drop_last() =~= w.take(6));
    assert(w.take(6).drop_last() =~= w.take(5));
    assert(w.take(5).drop_last() =~= w.take(4));
    assert(w.take(4).drop_last() =~= w.take(3));
    assert(w.take(3).drop_last() =~= w.take(2));
    assert(w.take(2).drop_last() =~= w.take(1));
    assert(w.take(1).drop_last() =~= w.take(0));
}

/// The penalties: 8 for each failed High and 20 for each failed Critical check, half as much
/// again under the hardened profile; as far as the field can hold them.
pub proof fn law_penalties_by_severity(f: Seq<FindingView>, p: Profile)
    ensures
        ({
            let high = failed_at(f, Severity::High).len() as int;
            let critical = failed_at(f, Severity::Critical).len() as int;
            let owed = match p {
                Profile::Baseline => 8 * high + 20 * critical,
                Profile::Hardened => 12 * high + 30 * critical,
            };
            scored(f, p).penalties == if owed <= u32::MAX {
                owed
            } else {
                u32::MAX as int
            }
        }),
{
    lemma_surcharges(f);
}

proof fn lemma_surcharges(f: Seq<FindingView>)
    ensures
        surcharges(f) == 8 * failed_at(f, Severity::High).len() + 20 * failed_at(
            f,
            Severity::Critical,
        ).len(),
    decreases f.len(),
{
    reveal(Seq::filter);
    if f.len() > 0 {
        lemma_surcharges(f.drop_last());
    }
}

/// The total is the base less the penalties, rounded to the nearest whole number (a half goes
/// up) and held between 0 and 100.
pub proof fn law_total_is_base_less_penalties(f: Seq<FindingView>, p: Profile)
    ensures
        ({
            let s = scored(f, p);
            let rest = s.base - 100 * s.penalties;
            &&& rest <= 0 ==> s.total == 0
            &&& rest >= 10_000 ==> s.total == 100
            &&& 0 < rest < 10_000 ==> 100 * s.total - 50 <= rest < 100 * s.total + 50
            &&& s.total <= 100
            &&& s.profile == p
        }),
{
    law_base_is_weighted_mean(f, p);
    law_penalties_by_severity(f, p);
    lemma_score_in(f, p, Domain::Ssh);
    lemma_score_in(f, p, Domain::Accounts);
    lemma_score_in(f, p, Domain::Kernel);
    lemma_score_in(f, p, Domain::Firewall);
    lemma_score_in(f, p, Domain::Services);
    lemma_score_in(f, p, Domain::Updates);
    lemma_score_in(f, p, Domain::Logging);
    lemma_sum_fits(f, p);
}

proof fn lemma_sum_fits(f: Seq<FindingView>, p: Profile)
    ensures
        0 <= weighted_sum(f, weights_of(p)) <= 10_000,
        0 <= penalties_of(f, p) <= u32::MAX,
{
    lemma_surcharges_nonneg(f);
    let (s, k) = (surcharges(f), penalty_halves(p));
    assert(s * k >= 0) by (nonlinear_arith)
        requires
            s >= 0,
            k > 0,
    ;
    lemma_score_in(f, p, Domain::Ssh);
    lemma_score_in(f, p, Domain::Accounts);
    lemma_score_in(f, p, Domain::Kernel);
    lemma_score_in(f, p, Domain::Firewall);
    lemma_score_in(f, p, Domain::Services);
    lemma_score_in(f, p, Domain::Updates);
    lemma_score_in(f, p, Domain::Logging);
    lemma_summed(f, p);
}

/// A domain's entry counts the checks that passed or failed, those that failed, and those that
/// errored; what was skipped counts nowhere.
pub proof fn law_entries_count_the_findings(f: Seq<FindingView>, p: Profile, k: int)
    requires
        0 <= k < scored(f, p).domains.len(),
        f.len() <= usize::MAX,
    ensures
        scored(f, p).domains.len() == 7,
        ({
            let e = scored(f, p).domains[k];
            let passed = standing(f, e.domain, Status::Pass).len();
            let failed = standing(f, e.domain, Status::Fail).len();
            &&& e.checks == passed + failed
            &&& e.failed == failed
            &&& e.errored == standing(f, e.domain, Status::Error).len()
        }),
{
    let w = weights_of(p)[k];
    assert(scored(f, p).domains[k] == domain_score(f, w));
    lemma_tally(f, w.0, Status::Pass);
    lemma_tally(f, w.0, Status::Fail);
    lemma_tally(f, w.0, Status::Error);
    lemma_apart(f, w.0);
}

proof fn lemma_tally(f: Seq<FindingView>, d: Domain, s: Status)
    ensures
        tally(f, d, s) == standing(f, d, s).len(),
    decreases f.len(),
{
    reveal(Seq::filter);
    if f.len() > 0 {
        lemma_tally(f.drop_last(), d, s);
    }
}

proof fn lemma_apart(f: Seq<FindingView>, d: Domain)
    ensures
        standing(f, d, Status::Pass).len() + standing(f, d, Status::Fail).len() + standing(
            f,
            d,
            Status::Error,
        ).len() <= f.len(),
    decreases f.len(),
{
    reveal(Seq::filter);
    if f.len() > 0 {
        lemma_apart(f.drop_last(), d);
    }
}

} // verus!
