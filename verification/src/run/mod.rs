//! Fan-out orchestration: the audit or the health snapshot against one or many targets (a
//! group), capturing per-host runtime failures so one unreachable host does not sink the whole
//! group.
//!
//! UI-agnostic: structured per-host outcomes that the command line and the server render.
//! Config problems (unknown group/member, conflicting group vars) fail fast; a
//! per-host connection/auth error is captured as that host's `Err`.

pub mod annotate;
pub mod group;

pub use annotate::{annotate_anomalies, annotate_changes};
pub use group::{audit_group_json, audit_group_text, health_group_json, health_group_text};

use crate::checks::{Finding, FindingView};
use crate::config::{
    resolution, Config, ConfigError, ConfigErrorView, ConfigView, ResolvedTarget,
    ResolvedTargetView,
};
use crate::health::{HealthReport, HealthReportView};
use crate::rank::{lemma_ranked, ranked, sort_descending};
use crate::scoring::{score, scored, Profile, Score, ScoreView};
use crate::text::chars::{deep, lemma_deep_empty, lemma_deep_push};
use crate::text::split::lemma_take_all;
use vstd::prelude::*;

verus! {

/// Result of auditing one host: its score+findings, or a runtime error message.
pub struct AuditOutcome {
    pub alias: String,
    pub result: Result<(Score, Vec<Finding>), String>,
}

/// The model of an [`AuditOutcome`].
pub ghost struct AuditOutcomeView {
    pub alias: Seq<char>,
    pub result: Result<(ScoreView, Seq<FindingView>), Seq<char>>,
}

impl View for AuditOutcome {
    type V = AuditOutcomeView;

    open spec fn view(&self) -> AuditOutcomeView {
        AuditOutcomeView {
            alias: self.alias@,
            result: match self.result {
                Ok((score, findings)) => Ok((score@, deep(findings@))),
                Err(e) => Err(e@),
            },
        }
    }
}

/// Result of a health snapshot of one host, or a runtime error message.
pub struct HealthOutcome {
    pub alias: String,
    pub result: Result<HealthReport, String>,
}

/// The model of a [`HealthOutcome`].
pub ghost struct HealthOutcomeView {
    pub alias: Seq<char>,
    pub result: Result<HealthReportView, Seq<char>>,
}

impl View for HealthOutcome {
    type V = HealthOutcomeView;

    open spec fn view(&self) -> HealthOutcomeView {
        HealthOutcomeView {
            alias: self.alias@,
            result: match self.result {
                Ok(report) => Ok(report@),
                Err(e) => Err(e@),
            },
        }
    }
}

/// One host to be visited: its alias and everything the visit needs.
pub struct Job {
    pub alias: String,
    pub target: ResolvedTarget,
}

/// The model of a [`Job`].
pub ghost struct JobView {
    pub alias: Seq<char>,
    pub target: ResolvedTargetView,
}

impl View for Job {
    type V = JobView;

    open spec fn view(&self) -> JobView {
        JobView { alias: self.alias@, target: self.target@ }
    }
}

/// The jobs for the aliases, in their order, or the error of the first one that does not
/// resolve.
pub open spec fn planned(c: ConfigView, aliases: Seq<Seq<char>>) -> Result<
    Seq<JobView>,
    ConfigErrorView,
>
    decreases aliases.len(),
{
    if aliases.len() == 0 {
        Ok(Seq::empty())
    } else {
        match planned(c, aliases.drop_last()) {
            Err(e) => Err(e),
            Ok(jobs) => match resolution(c, aliases.last()) {
                Ok(target) => Ok(jobs.push(JobView { alias: aliases.last(), target })),
                Err(e) => Err(e),
            },
        }
    }
}

/// Resolves each alias up front: a config error aborts before any host is visited.
pub fn plan_jobs(cfg: &Config, aliases: &[String]) -> (r: Result<Vec<Job>, ConfigError>)
    ensures
        match r {
            Ok(jobs) => planned(cfg@, deep(aliases@)) == Ok::<Seq<JobView>, ConfigErrorView>(
                deep(jobs@),
            ),
            Err(e) => planned(cfg@, deep(aliases@)) == Err::<Seq<JobView>, ConfigErrorView>(e@),
        },
{
    broadcast use lemma_deep_empty;

    let ghost all = deep(aliases@);
    let mut jobs: Vec<Job> = Vec::new();
    let mut i: usize = 0;
    while i < aliases.len()
        invariant
            all == deep(aliases@),
            i <= aliases@.len(),
            planned(cfg@, all.take(i as int)) == Ok::<Seq<JobView>, ConfigErrorView>(deep(jobs@)),
        decreases aliases@.len() - i,
    {
        broadcast use lemma_deep_push;

        proof {
            assert(all.take(i + 1).drop_last() == all.take(i as int));
            assert(all.take(i + 1).last() == aliases@[i as int]@);
        }
        match cfg.resolve(aliases[i].as_str()) {
            Ok(target) => {
                jobs.push(Job { alias: aliases[i].clone(), target });
            },
            Err(e) => {
                proof {
                    lemma_planned_error(cfg@, all, i as int);
                }
                return Err(e);
            },
        }
        i = i + 1;
    }
    proof {
        lemma_take_all(all);
    }
    Ok(jobs)
}

proof fn lemma_planned_error(c: ConfigView, aliases: Seq<Seq<char>>, i: int)
    requires
        0 <= i < aliases.len(),
        planned(c, aliases.take(i + 1)) is Err,
    ensures
        planned(c, aliases) == planned(c, aliases.take(i + 1)),
    decreases aliases.len(),
{
    if i + 1 < aliases.len() {
        let front = aliases.drop_last();
        assert(front.take(i + 1) == aliases.take(i + 1));
        lemma_planned_error(c, front, i);
    } else {
        lemma_take_all(aliases);
    }
}

/// Planning succeeds exactly where every alias resolves, and then gives one job for each alias,
/// in the order given, with what that alias resolves to.
pub proof fn law_plan_is_all_or_nothing(c: ConfigView, aliases: Seq<Seq<char>>)
    ensures
        planned(c, aliases) is Ok <==> forall|i: int|
            0 <= i < aliases.len() ==> resolution(c, #[trigger] aliases[i]) is Ok,
        match planned(c, aliases) {
            Ok(jobs) => {
                &&& jobs.len() == aliases.len()
                &&& forall|i: int|
                    0 <= i < aliases.len() ==> {
                        &&& (#[trigger] jobs[i]).alias == aliases[i]
                        &&& resolution(c, aliases[i]) == Ok::<ResolvedTargetView, ConfigErrorView>(
                            jobs[i].target,
                        )
                    }
            },
            Err(e) => exists|i: int|
                0 <= i < aliases.len() && resolution(c, #[trigger] aliases[i]) == Err::<
                    ResolvedTargetView,
                    ConfigErrorView,
                >(e),
        },
    decreases aliases.len(),
{
    if aliases.len() > 0 {
        let front = aliases.drop_last();
        let n = aliases.len() - 1;
        law_plan_is_all_or_nothing(c, front);
        assert(forall|i: int| 0 <= i < n ==> front[i] == aliases[i]);
        match planned(c, front) {
            Err(e) => {
                let k = choose|i: int|
                    0 <= i < front.len() && resolution(c, #[trigger] front[i]) == Err::<
                        ResolvedTargetView,
                        ConfigErrorView,
                    >(e);
                assert(resolution(c, aliases[k]) is Err);
            },
            Ok(jobs) => {
                assert(resolution(c, aliases[n]) == resolution(c, aliases.last()));
                if resolution(c, aliases[n]) is Ok {
                    assert forall|i: int| 0 <= i < aliases.len() implies resolution(
                        c,
                        #[trigger] aliases[i],
                    ) is Ok by {
                        if i < n {
                            assert(jobs[i].alias == front[i]);
                        }
                    }
                }
            },
        }
    }
}

/// The profile an audit goes by: the one asked for, else the target's own, else the default.
pub open spec fn effective_profile(asked: Option<Profile>, own: Option<Profile>) -> Profile {
    match asked {
        Some(p) => p,
        None => match own {
            Some(p) => p,
            None => Profile::Baseline,
        },
    }
}

/// The profile an audit goes by: the one asked for, else the target's own, else the default.
pub fn audit_profile(asked: Option<Profile>, own: Option<Profile>) -> (r: Profile)
    ensures
        r == effective_profile(asked, own),
{
    match asked {
        Some(p) => p,
        None => match own {
            Some(p) => p,
            None => Profile::Baseline,
        },
    }
}

/// What an audit of one host comes to.
pub open spec fn audit_result(
    reply: Result<Seq<FindingView>, Seq<char>>,
    profile: Profile,
) -> Result<(ScoreView, Seq<FindingView>), Seq<char>> {
    match reply {
        Ok(findings) => Ok((scored(findings, profile), findings)),
        Err(e) => Err(e),
    }
}

/// Scores the findings of one host, or keeps the message of what went wrong.
pub fn audit_outcome(
    alias: String,
    reply: Result<Vec<Finding>, String>,
    profile: Profile,
) -> (r: AuditOutcome)
    ensures
        r@.alias == alias@,
        r@.result == audit_result(
            match reply {
                Ok(f) => Ok(deep(f@)),
                Err(e) => Err(e@),
            },
            profile,
        ),
{
    match reply {
        Ok(findings) => {
            let s = score(findings.as_slice(), profile);
            AuditOutcome { alias, result: Ok((s, findings)) }
        },
        Err(e) => AuditOutcome { alias, result: Err(e) },
    }
}

/// The number by which replies are put in order: the smallest index first.
pub open spec fn by_index<A>() -> spec_fn((usize, A)) -> int {
    |p: (usize, A)| -(p.0 as int)
}

/// The replies without their indices, in ascending order of these.
pub open spec fn ordered<A>(replies: Seq<(usize, A)>) -> Seq<A> {
    ranked(replies, by_index()).map_values(|p: (usize, A)| p.1)
}

/// The replies of concurrent visits in the order of their jobs, whichever came back first.
pub fn collect_ordered<T: View>(replies: Vec<(usize, T)>) -> (r: Vec<T>)
    ensures
        deep(r@) == ordered(deep(replies@)),
{
    broadcast use lemma_deep_empty;

    let earlier = |a: &(usize, T), b: &(usize, T)| -> (o: bool)
        ensures
            o == (a.0 < b.0),
        { a.0 < b.0 };
    let in_order = sort_descending(replies, earlier, Ghost(by_index::<T::V>()));
    let ghost all = deep(in_order@);
    let mut out: Vec<T> = Vec::new();
    for p in it: in_order
        invariant
            all == deep(it.seq()),
            deep(out@) == all.take(it.index() as int).map_values(|q: (usize, T::V)| q.1),
    {
        broadcast use lemma_deep_push;

        let ghost i = it.index() as int;
        proof {
            assert(all.take(i + 1) == all.take(i).push(all[i]));
            assert(all.take(i + 1).map_values(|q: (usize, T::V)| q.1) =~= all.take(i).map_values(
                |q: (usize, T::V)| q.1,
            ).push(all[i].1));
        }
        out.push(p.1);
    }
    proof {
        lemma_take_all(all);
    }
    out
}

/// Where every index occurs once, the reply with index `i` comes out at place `i`.
pub proof fn law_replies_find_their_place<A>(replies: Seq<(usize, A)>, k: int)
    requires
        0 <= k < replies.len(),
        forall|i: int| 0 <= i < replies.len() ==> (#[trigger] replies[i]).0 < replies.len(),
        forall|i: int, j: int|
            0 <= i < j < replies.len() ==> (#[trigger] replies[i]).0 != (#[trigger] replies[j]).0,
    ensures
        ordered(replies).len() == replies.len(),
        ordered(replies)[replies[k].0 as int] == replies[k].1,
{
    broadcast use vstd::seq_lib::group_to_multiset_ensures;

    let n = replies.len();
    let r = ranked(replies, by_index());
    lemma_ranked(replies, by_index());
    assert(replies.no_duplicates()) by {
        assert forall|i: int, j: int| 0 <= i < n && 0 <= j < n && i != j implies replies[i]
            != replies[j] by {
            if i < j {
                assert(replies[i].0 != replies[j].0);
            } else {
                assert(replies[j].0 != replies[i].0);
            }
        }
    }
    replies.lemma_multiset_has_no_duplicates();
    r.lemma_multiset_has_no_duplicates_conv();
    assert forall|i: int| 0 <= i < n implies replies.contains(#[trigger] r[i]) by {
        assert(r.contains(r[i]));
        assert(r.to_multiset().count(r[i]) > 0);
    }
    assert forall|i: int, j: int| 0 <= i < j < n implies (#[trigger] r[i]).0 < (#[trigger] r[j]).0 by {
        let key = by_index::<A>();
        assert(key(r[i]) >= key(r[j]));
        if r[i].0 == r[j].0 {
            assert(replies.contains(r[i]));
            assert(replies.contains(r[j]));
            let a = choose|a: int| 0 <= a < n && replies[a] == r[i];
            let b = choose|b: int| 0 <= b < n && replies[b] == r[j];
            if a < b {
                assert(replies[a].0 != replies[b].0);
            } else if b < a {
                assert(replies[b].0 != replies[a].0);
            }
            assert(r[i] == r[j]);
            assert(false);
        }
    }
    assert forall|i: int| 0 <= i < n implies (#[trigger] r[i]).0 < n by {
        assert(replies.contains(r[i]));
    }
    lemma_indices_climb(r.map_values(|p: (usize, A)| p.0 as int));
    assert(replies.to_multiset().count(replies[k]) > 0) by {
        assert(replies.contains(replies[k]));
    }
    assert(r.contains(replies[k]));
    let i = choose|i: int| 0 <= i < n && r[i] == replies[k];
    let climbing = r.map_values(|p: (usize, A)| p.0 as int);
    assert(climbing[i] == r[i].0 as int);
    assert(ordered(replies)[i] == r[i].1);
}

/// A strictly climbing sequence of numbers below its length counts its own places.
proof fn lemma_indices_climb(s: Seq<int>)
    requires
        forall|i: int, j: int| 0 <= i < j < s.len() ==> #[trigger] s[i] < #[trigger] s[j],
        forall|i: int| 0 <= i < s.len() ==> 0 <= #[trigger] s[i] < s.len(),
    ensures
        forall|i: int| 0 <= i < s.len() ==> #[trigger] s[i] == i,
{
    assert forall|i: int| 0 <= i < s.len() implies #[trigger] s[i] == i by {
        lemma_climbs_at_least(s, 0, i);
        lemma_climbs_at_least(s, i, s.len() - 1);
    }
}

proof fn lemma_climbs_at_least(s: Seq<int>, i: int, j: int)
    requires
        forall|a: int, b: int| 0 <= a < b < s.len() ==> #[trigger] s[a] < #[trigger] s[b],
        0 <= i <= j < s.len(),
    ensures
        s[j] - s[i] >= j - i,
    decreases j - i,
{
    if i < j {
        lemma_climbs_at_least(s, i, j - 1);
        assert(s[j - 1] < s[j]);
    }
}

} // verus!
