//! The course of a health snapshot: which command is run next, and what its reply leads to.
//!
//! A [`Collector`] decides; whoever holds it runs the commands and waits. The single-shot
//! commands come first, then the network counters twice with a pause in between, then the
//! certificates.

use super::metrics::{kernel_events_reading, oom_reading};
use super::network::{cert_view, certs_view};
use super::snapshot::{
    absorb_probe, cert_command, complete, event_counters, law_health_commands_in_catalog,
    law_probes_are_health_commands, law_probes_respect_opt_in, optional_stdout, probe,
    probe_effect, probe_for, readings, run_single, snapshot_of, NetSamples, NetSamplesView, ProbeEffect,
    HEALTH_COMMANDS, SINGLE_SHOT,
};
use super::{
    HealthReport, HealthStatus, Thresholds, CONNTRACK_STAT, NETDEV, NETSTAT, OOM_DMESG, SNMP,
};
use crate::audit::{Outputs, OutputsView};
use crate::catalog::{
    cert_read, lemma_trim_identity, listed, refusal, CERT_READ_PREFIX, CERT_READ_SUFFIX,
};
use crate::ssh::{SshError, SshErrorView, SshOutput};
use crate::text::chars::{deep, deep_option, lemma_deep_empty, lemma_deep_push};
use crate::text::search::starts_with;
use crate::textmap::{lemma_lookup_put, lemma_slot, lookup, put};
use vstd::prelude::*;

verus! {

/// The counter files that are read twice.
pub const COUNTERS: [&'static str; 4] = [NETDEV, NETSTAT, CONNTRACK_STAT, SNMP];

/// Where a snapshot stands.
#[derive(Debug, Clone, Copy)]
pub enum Stage {
    /// A single-shot command, by its place, or on a retry what it falls back to.
    Single { place: usize, retry: bool },
    /// A counter file of the first sample, by its place.
    First { place: usize },
    /// Between the samples.
    Pause,
    /// A counter file of the second sample, by its place.
    Second { place: usize },
    /// A certificate, by its place.
    Certificate { place: usize },
    Done,
}

/// What is to be done next.
#[derive(Debug)]
pub enum Action {
    /// Run a command on the host and hand its reply to [`Collector::absorb`].
    Run(String),
    /// Wait for so many seconds, then go on with [`Collector::resume`].
    Wait(u64),
    /// Everything is collected: [`Collector::finish`] gives the report.
    Finish,
}

/// The model of an [`Action`].
pub ghost enum ActionView {
    Run(Seq<char>),
    Wait(u64),
    Finish,
}

impl View for Action {
    type V = ActionView;

    open spec fn view(&self) -> ActionView {
        match *self {
            Action::Run(cmd) => ActionView::Run(cmd@),
            Action::Wait(secs) => ActionView::Wait(secs),
            Action::Finish => ActionView::Finish,
        }
    }
}

/// A health snapshot in the making.
pub struct Collector {
    thr: Thresholds,
    privileged: bool,
    cert_paths: Vec<String>,
    stage: Stage,
    outputs: Outputs,
    first: Vec<String>,
    second: Vec<String>,
    samples: Option<NetSamples>,
    certs: Vec<(String, Option<String>)>,
}

/// The model of a [`Collector`].
pub ghost struct CollectorView {
    pub thr: Thresholds,
    pub privileged: bool,
    pub cert_paths: Seq<Seq<char>>,
    pub stage: Stage,
    pub outputs: OutputsView,
    /// What was read of each counter file in the first sample.
    pub first: Seq<Seq<char>>,
    /// What was read of each counter file in the second sample.
    pub second: Seq<Seq<char>>,
    pub samples: Option<NetSamplesView>,
    pub certs: Seq<(Seq<char>, Option<Seq<char>>)>,
}

impl View for Collector {
    type V = CollectorView;

    closed spec fn view(&self) -> CollectorView {
        CollectorView {
            thr: self.thr,
            privileged: self.privileged,
            cert_paths: deep(self.cert_paths@),
            stage: self.stage,
            outputs: self.outputs@,
            first: deep(self.first@),
            second: deep(self.second@),
            samples: deep_option(self.samples),
            certs: certs_view(self.certs@),
        }
    }
}

/// What is sent for the single-shot command at a place.
pub open spec fn wire_at(place: int, privileged: bool) -> Seq<char> {
    match probe(SINGLE_SHOT@[place]@, privileged) {
        Some((wire, _)) => wire,
        None => Seq::empty(),
    }
}

/// What the single-shot command at a place falls back to.
pub open spec fn fallback_at(place: int, privileged: bool) -> Option<Seq<char>> {
    match probe(SINGLE_SHOT@[place]@, privileged) {
        Some((_, fallback)) => fallback,
        None => None,
    }
}

/// The first place from `i` on whose command may be sent.
pub open spec fn next_single(i: int, privileged: bool) -> int
    decreases SINGLE_SHOT@.len() - i,
{
    if i < 0 || i >= SINGLE_SHOT@.len() || probe(SINGLE_SHOT@[i]@, privileged) is Some {
        i
    } else {
        next_single(i + 1, privileged)
    }
}

/// What follows the single-shot command before place `i`.
pub open spec fn single_from(i: int, privileged: bool) -> Stage {
    let n = next_single(i, privileged);
    if n < SINGLE_SHOT@.len() {
        Stage::Single { place: n as usize, retry: false }
    } else {
        Stage::First { place: 0 }
    }
}

/// What follows the certificate before place `i`.
pub open spec fn certificate_from(i: int, cert_paths: Seq<Seq<char>>) -> Stage {
    if i < cert_paths.len() {
        Stage::Certificate { place: i as usize }
    } else {
        Stage::Done
    }
}

/// Where a snapshot starts.
pub open spec fn started(
    thr: Thresholds,
    privileged: bool,
    cert_paths: Seq<Seq<char>>,
) -> CollectorView {
    CollectorView {
        thr,
        privileged,
        cert_paths,
        stage: single_from(0, privileged),
        outputs: Seq::empty(),
        first: Seq::empty(),
        second: Seq::empty(),
        samples: None,
        certs: Seq::empty(),
    }
}

/// Every single-shot command before place `i` that may be sent has its output.
pub open spec fn probed(outputs: OutputsView, i: int, privileged: bool) -> bool {
    forall|j: int|
        0 <= j < i && j < SINGLE_SHOT@.len() && probe(SINGLE_SHOT@[j]@, privileged) is Some
            ==> lookup(outputs, (#[trigger] SINGLE_SHOT@[j])@) is Some
}

/// The certificates read so far are the first of those asked for, in order.
pub open spec fn certs_read(st: CollectorView, n: int) -> bool {
    &&& n <= st.cert_paths.len()
    &&& st.certs.len() == n
    &&& forall|j: int| 0 <= j < n ==> (#[trigger] st.certs[j]).0 == st.cert_paths[j]
}

/// What holds of a snapshot in the making at every stage.
pub open spec fn consistent(st: CollectorView) -> bool {
    let all = SINGLE_SHOT@.len() as int;
    &&& st.cert_paths.len() <= usize::MAX
    &&& !st.privileged ==> lookup(st.outputs, OOM_DMESG@) is None
    &&& match st.stage {
        Stage::Single { place, retry } => {
            &&& place < all
            &&& probe(SINGLE_SHOT@[place as int]@, st.privileged) is Some
            &&& retry ==> fallback_at(place as int, st.privileged) is Some
            &&& probed(st.outputs, place as int, st.privileged)
            &&& st.first.len() == 0 && st.second.len() == 0 && certs_read(st, 0)
        },
        Stage::First { place } => {
            &&& place < COUNTERS@.len()
            &&& probed(st.outputs, all, st.privileged)
            &&& st.first.len() == place && st.second.len() == 0 && certs_read(st, 0)
        },
        Stage::Pause => {
            &&& probed(st.outputs, all, st.privileged)
            &&& st.first.len() == COUNTERS@.len() && st.second.len() == 0 && certs_read(st, 0)
        },
        Stage::Second { place } => {
            &&& place < COUNTERS@.len()
            &&& probed(st.outputs, all, st.privileged)
            &&& st.first.len() == COUNTERS@.len() && st.second.len() == place && certs_read(st, 0)
        },
        Stage::Certificate { place } => {
            &&& place < st.cert_paths.len()
            &&& probed(st.outputs, all, st.privileged)
            &&& certs_read(st, place as int)
        },
        Stage::Done => {
            &&& probed(st.outputs, all, st.privileged)
            &&& certs_read(st, st.cert_paths.len() as int)
        },
    }
}

/// What is to be done at a stage.
pub open spec fn action_at(st: CollectorView) -> ActionView {
    match st.stage {
        Stage::Single { place, retry } => ActionView::Run(
            if retry {
                fallback_at(place as int, st.privileged)->0
            } else {
                wire_at(place as int, st.privileged)
            },
        ),
        Stage::First { place } => ActionView::Run(COUNTERS@[place as int]@),
        Stage::Pause => ActionView::Wait(
            if st.thr.net_sample_secs > 1 {
                st.thr.net_sample_secs
            } else {
                1
            },
        ),
        Stage::Second { place } => ActionView::Run(COUNTERS@[place as int]@),
        Stage::Certificate { place } => ActionView::Run(
            CERT_READ_PREFIX@ + st.cert_paths[place as int] + CERT_READ_SUFFIX@,
        ),
        Stage::Done => ActionView::Finish,
    }
}

/// The text, or an empty one.
pub open spec fn or_empty(text: Option<Seq<char>>) -> Seq<char> {
    match text {
        Some(s) => s,
        None => Seq::empty(),
    }
}

/// The reply to a single-shot command: it is stored, retried, or ends the snapshot.
pub open spec fn after_single(
    st: CollectorView,
    place: usize,
    retry: bool,
    reply: Result<SshOutput, SshError>,
) -> Result<CollectorView, SshErrorView> {
    let cmd = SINGLE_SHOT@[place as int]@;
    let left = if retry {
        None
    } else {
        fallback_at(place as int, st.privileged)
    };
    match probe_effect(cmd, left, reply) {
        ProbeEffect::Store(v) => Ok(
            CollectorView {
                outputs: put(st.outputs, cmd, v),
                stage: single_from(place + 1, st.privileged),
                ..st
            },
        ),
        ProbeEffect::Retry(_) => Ok(
            CollectorView { stage: Stage::Single { place, retry: true }, ..st },
        ),
        ProbeEffect::Abort(e) => Err(e),
    }
}

/// The reply to a counter file of the first sample. Without the interface counters there is
/// no sample at all; any other file may be missing.
pub open spec fn after_first(
    st: CollectorView,
    place: usize,
    reply: Result<SshOutput, SshError>,
) -> Result<CollectorView, SshErrorView> {
    match optional_stdout(reply) {
        Err(e) => Err(e),
        Ok(text) => if place == 0 && text is None {
            Ok(CollectorView { stage: certificate_from(0, st.cert_paths), ..st })
        } else {
            Ok(
                CollectorView {
                    first: st.first.push(or_empty(text)),
                    stage: if place + 1 < COUNTERS@.len() {
                        Stage::First { place: (place + 1) as usize }
                    } else {
                        Stage::Pause
                    },
                    ..st
                },
            )
        },
    }
}

/// The two samples as they were read, `nanos` nanoseconds apart.
pub open spec fn sampled(
    first: Seq<Seq<char>>,
    second: Seq<Seq<char>>,
    nanos: u64,
) -> NetSamplesView {
    NetSamplesView {
        dev1: first[0],
        dev2: second[0],
        stat1: first[1],
        stat2: second[1],
        ct1: first[2],
        ct2: second[2],
        snmp1: first[3],
        snmp2: second[3],
        nanos,
    }
}

/// The reply to a counter file of the second sample; the last one completes the samples.
pub open spec fn after_second(
    st: CollectorView,
    place: usize,
    reply: Result<SshOutput, SshError>,
    nanos: u64,
) -> Result<CollectorView, SshErrorView> {
    match optional_stdout(reply) {
        Err(e) => Err(e),
        Ok(text) => if place == 0 && text is None {
            Ok(CollectorView { stage: certificate_from(0, st.cert_paths), ..st })
        } else {
            let second = st.second.push(or_empty(text));
            if place + 1 < COUNTERS@.len() {
                Ok(
                    CollectorView {
                        second,
                        stage: Stage::Second { place: (place + 1) as usize },
                        ..st
                    },
                )
            } else {
                Ok(
                    CollectorView {
                        second,
                        samples: Some(sampled(st.first, second, nanos)),
                        stage: certificate_from(0, st.cert_paths),
                        ..st
                    },
                )
            }
        },
    }
}

/// The reply to a certificate read; a remote failure marks the certificate unreadable.
pub open spec fn after_certificate(
    st: CollectorView,
    place: usize,
    reply: Result<SshOutput, SshError>,
) -> Result<CollectorView, SshErrorView> {
    match optional_stdout(reply) {
        Err(e) => Err(e),
        Ok(text) => Ok(
            CollectorView {
                certs: st.certs.push((st.cert_paths[place as int], text)),
                stage: certificate_from(place + 1, st.cert_paths),
                ..st
            },
        ),
    }
}

/// Where a reply leads to; nothing changes where none is awaited.
pub open spec fn absorbed(
    st: CollectorView,
    reply: Result<SshOutput, SshError>,
    nanos: u64,
) -> Result<CollectorView, SshErrorView> {
    match st.stage {
        Stage::Single { place, retry } => after_single(st, place, retry, reply),
        Stage::First { place } => after_first(st, place, reply),
        Stage::Second { place } => after_second(st, place, reply, nanos),
        Stage::Certificate { place } => after_certificate(st, place, reply),
        _ => Ok(st),
    }
}

/// Where the end of the pause leads to.
pub open spec fn resumed(st: CollectorView) -> CollectorView {
    match st.stage {
        Stage::Pause => CollectorView { stage: Stage::Second { place: 0 }, ..st },
        _ => st,
    }
}

proof fn lemma_next_single(i: int, privileged: bool)
    requires
        0 <= i <= SINGLE_SHOT@.len(),
    ensures
        i <= next_single(i, privileged) <= SINGLE_SHOT@.len(),
        next_single(i, privileged) < SINGLE_SHOT@.len() ==> probe(
            SINGLE_SHOT@[next_single(i, privileged)]@,
            privileged,
        ) is Some,
        forall|j: int|
            i <= j < next_single(i, privileged) ==> probe(
                (#[trigger] SINGLE_SHOT@[j])@,
                privileged,
            ) is None,
    decreases SINGLE_SHOT@.len() - i,
{
    if i < SINGLE_SHOT@.len() && probe(SINGLE_SHOT@[i]@, privileged) is None {
        lemma_next_single(i + 1, privileged);
    }
}

/// A reply keeps a snapshot in the making consistent.
pub proof fn law_replies_keep_consistency(
    st: CollectorView,
    reply: Result<SshOutput, SshError>,
    nanos: u64,
)
    requires
        consistent(st),
    ensures
        absorbed(st, reply, nanos) matches Ok(next) ==> consistent(next),
        consistent(resumed(st)),
{
    match st.stage {
        Stage::Single { place, retry } => {
            lemma_next_single(place + 1, st.privileged);
            let cmd = SINGLE_SHOT@[place as int]@;
            let left = if retry {
                None
            } else {
                fallback_at(place as int, st.privileged)
            };
            match probe_effect(cmd, left, reply) {
                ProbeEffect::Store(v) => {
                    let now = put(st.outputs, cmd, v);
                    let n = next_single(place + 1, st.privileged);
                    assert forall|j: int|
                        0 <= j < n && j < SINGLE_SHOT@.len() && probe(
                            SINGLE_SHOT@[j]@,
                            st.privileged,
                        ) is Some implies lookup(now, (#[trigger] SINGLE_SHOT@[j])@) is Some by {
                        lemma_lookup_put(st.outputs, cmd, v, SINGLE_SHOT@[j]@);
                        if j > place {
                            assert(probe(SINGLE_SHOT@[j]@, st.privileged) is None);
                        }
                    }
                    assert(probed(now, n, st.privileged));
                    lemma_lookup_put(st.outputs, cmd, v, OOM_DMESG@);
                },
                _ => {},
            }
        },
        _ => {},
    }
}

/// How many steps a snapshot may still take.
pub open spec fn steps_left(st: CollectorView) -> int {
    let n = st.cert_paths.len() as int;
    match st.stage {
        Stage::Single { place, retry } => 2 * (SINGLE_SHOT@.len() - place) - (if retry {
            1int
        } else {
            0
        }) + 9 + n,
        Stage::First { place } => 9 - place + n,
        Stage::Pause => 5 + n,
        Stage::Second { place } => 4 - place + n,
        Stage::Certificate { place } => n - place,
        Stage::Done => 0,
    }
}

/// Every reply and every pause brings a snapshot closer to its end, so that it comes to one.
pub proof fn law_every_step_is_progress(
    st: CollectorView,
    reply: Result<SshOutput, SshError>,
    nanos: u64,
)
    requires
        consistent(st),
    ensures
        steps_left(st) >= 0,
        steps_left(st) == 0 <==> st.stage is Done,
        action_at(st) is Run ==> (absorbed(st, reply, nanos) matches Ok(next) ==> steps_left(next)
            < steps_left(st)),
        action_at(st) is Wait ==> steps_left(resumed(st)) < steps_left(st),
        action_at(st) is Finish <==> st.stage is Done,
{
    match st.stage {
        Stage::Single { place, retry } => {
            lemma_next_single(place + 1, st.privileged);
        },
        _ => {},
    }
}

/// No command of a snapshot runs through `sudo` on a target that is not opted in.
pub proof fn law_collection_respects_opt_in(st: CollectorView)
    requires
        consistent(st),
        !st.privileged,
    ensures
        action_at(st) matches ActionView::Run(cmd) ==> !starts_with(cmd, "sudo -n "@),
{
    reveal_strlit("sudo -n ");
    match st.stage {
        Stage::Single { place, retry } => {
            law_probes_respect_opt_in(place as int);
        },
        Stage::Certificate { place } => {
            reveal_strlit("openssl x509 -in ");
            let cmd = CERT_READ_PREFIX@ + st.cert_paths[place as int] + CERT_READ_SUFFIX@;
            assert(cmd.take(8)[0] != "sudo -n "@[0]);
        },
        _ => {
            reveal_strlit("cat /proc/net/dev");
            reveal_strlit("cat /proc/net/netstat");
            reveal_strlit("cat /proc/net/stat/nf_conntrack");
            reveal_strlit("cat /proc/net/snmp");
            assert(NETDEV@.take(8)[0] != "sudo -n "@[0]);
            assert(NETSTAT@.take(8)[0] != "sudo -n "@[0]);
            assert(CONNTRACK_STAT@.take(8)[0] != "sudo -n "@[0]);
            assert(SNMP@.take(8)[0] != "sudo -n "@[0]);
        },
    }
}

/// Every command of a snapshot is in the read-only catalog, character for character. The paths
/// of the certificate reads are the operator's choice: one that is not refused is a certificate
/// read.
pub proof fn law_collection_in_catalog(st: CollectorView)
    requires
        consistent(st),
    ensures
        action_at(st) matches ActionView::Run(cmd) ==> {
            &&& !(st.stage is Certificate) ==> refusal(cmd) is None && listed(cmd)
            &&& refusal(cmd) is None ==> listed(cmd) || cert_read(cmd)
        },
{
    match st.stage {
        Stage::Single { place, retry } => {
            law_probes_are_health_commands(place as int, st.privileged);
            let cmd = action_at(st)->Run_0;
            let k = choose|k: int|
                0 <= k < HEALTH_COMMANDS@.len() && (#[trigger] HEALTH_COMMANDS@[k])@ == cmd;
            law_health_commands_in_catalog(k);
        },
        Stage::Certificate { place } => {
            let cmd = action_at(st)->Run_0;
            reveal_strlit("openssl x509 -in ");
            reveal_strlit(" -noout -enddate");
            assert(cmd[0] == CERT_READ_PREFIX@[0]);
            assert(cmd.last() == CERT_READ_SUFFIX@.last());
            lemma_trim_identity(cmd);
        },
        _ => {
            assert(HEALTH_COMMANDS@[19]@ == NETDEV@);
            law_health_commands_in_catalog(19);
            assert(HEALTH_COMMANDS@[20]@ == NETSTAT@);
            law_health_commands_in_catalog(20);
            assert(HEALTH_COMMANDS@[21]@ == CONNTRACK_STAT@);
            law_health_commands_in_catalog(21);
            assert(HEALTH_COMMANDS@[22]@ == SNMP@);
            law_health_commands_in_catalog(22);
        },
    }
}

/// A snapshot that has come to its end has an output for every single-shot command that may be
/// sent, and a read, or the lack of one, for every certificate, in the order asked for.
pub proof fn law_nothing_is_left_out(st: CollectorView, i: int)
    requires
        consistent(st),
        st.stage is Done,
    ensures
        0 <= i < SINGLE_SHOT@.len() && probe(SINGLE_SHOT@[i]@, st.privileged) is Some ==> lookup(
            st.outputs,
            SINGLE_SHOT@[i]@,
        ) is Some,
        st.certs.len() == st.cert_paths.len(),
        0 <= i < st.certs.len() ==> st.certs[i].0 == st.cert_paths[i],
{
}

/// On a target that has not opted in the kernel log is never held, whatever the host replies:
/// the two metrics that need it are in the report as unknown, and no counter comes from it.
pub proof fn law_no_kernel_log_without_opt_in(st: CollectorView, now: int)
    requires
        consistent(st),
        !st.privileged,
    ensures
        lookup(st.outputs, OOM_DMESG@) is None,
        event_counters(st.outputs) == Seq::<(Seq<char>, u64)>::empty(),
        ({
            let r = snapshot_of(st.outputs, st.samples, st.certs, st.thr, now);
            let oom = oom_reading(st.outputs);
            let events = kernel_events_reading(st.outputs);
            &&& r.metrics.contains(oom)
            &&& oom.id == "health-oom"@ && oom.status == HealthStatus::Unknown
            &&& r.metrics.contains(events)
            &&& events.id == "health-kernel-events"@ && events.status == HealthStatus::Unknown
        }),
{
    reveal(oom_reading);
    reveal(kernel_events_reading);
    let r = snapshot_of(st.outputs, st.samples, st.certs, st.thr, now);
    let all = readings(st.outputs, st.thr);
    let n = all.len() - 6;
    assert(all[n] == oom_reading(st.outputs));
    assert(all[n + 1] == kernel_events_reading(st.outputs));
    assert(r.metrics[n] == all[n]);
    assert(r.metrics[n + 1] == all[n + 1]);
}

impl Collector {
    #[verifier::type_invariant]
    closed spec fn well_formed(self) -> bool {
        consistent(self@)
    }

    /// Starts a snapshot. `privileged` opts in to the commands that run through `sudo`.
    pub fn new(thr: Thresholds, privileged: bool, cert_paths: Vec<String>) -> (r: Self)
        ensures
            r@ == started(thr, privileged, deep(cert_paths@)),
            consistent(r@),
    {
        broadcast use lemma_deep_empty;

        let ghost paths = deep(cert_paths@);
        let asked: usize = cert_paths.len();
        let stage = seek_single(0, privileged);
        let outputs = Outputs::new();
        let first: Vec<String> = Vec::new();
        let second: Vec<String> = Vec::new();
        let certs: Vec<(String, Option<String>)> = Vec::new();
        proof {
            assert(paths.len() == asked);
            lemma_started_consistent(thr, privileged, paths);
            assert(certs_view(certs@) =~= started(thr, privileged, paths).certs);
            assert(deep(first@) =~= started(thr, privileged, paths).first);
        }
        Collector {
            thr,
            privileged,
            cert_paths,
            stage,
            outputs,
            first,
            second,
            samples: None,
            certs,
        }
    }

    /// What is to be done next.
    pub fn next(&self) -> (r: Action)
        ensures
            r@ == action_at(self@),
    {
        proof {
            use_type_invariant(self);
        }
        match self.stage {
            Stage::Single { place, retry } => {
                let (wire, fallback) = match probe_for(SINGLE_SHOT[place], self.privileged) {
                    Some(p) => p,
                    None => ("", None),
                };
                match fallback {
                    Some(plain) => if retry {
                        Action::Run(plain.to_string())
                    } else {
                        Action::Run(wire.to_string())
                    },
                    None => Action::Run(wire.to_string()),
                }
            },
            Stage::First { place } => Action::Run(COUNTERS[place].to_string()),
            Stage::Pause => Action::Wait(
                if self.thr.net_sample_secs > 1 {
                    self.thr.net_sample_secs
                } else {
                    1
                },
            ),
            Stage::Second { place } => Action::Run(COUNTERS[place].to_string()),
            Stage::Certificate { place } => Action::Run(
                cert_command(self.cert_paths[place].as_str()),
            ),
            Stage::Done => Action::Finish,
        }
    }

    /// Takes in the reply to the command that was to be run. `nanos` is the time since the
    /// pause began. A host-level failure (auth, connection, timeout) ends the snapshot; a
    /// per-command remote failure becomes an `Unknown` metric for whatever needed it.
    pub fn absorb(self, reply: Result<SshOutput, SshError>, nanos: u64) -> (r: Result<
        Self,
        SshError,
    >)
        ensures
            absorbed(self@, reply, nanos) == match r {
                Ok(next) => Ok::<CollectorView, SshErrorView>(next@),
                Err(e) => Err(e@),
            },
    {
        proof {
            use_type_invariant(&self);
            law_replies_keep_consistency(self@, reply, nanos);
        }
        match self.stage {
            Stage::Single { place, retry } => self.absorb_single(place, retry, reply),
            Stage::First { place } => self.absorb_first(place, reply),
            Stage::Second { place } => self.absorb_second(place, reply, nanos),
            Stage::Certificate { place } => self.absorb_certificate(place, reply),
            _ => Ok(self),
        }
    }

    fn absorb_single(
        self,
        place: usize,
        retry: bool,
        reply: Result<SshOutput, SshError>,
    ) -> (r: Result<Self, SshError>)
        requires
            self@.stage == (Stage::Single { place, retry }),
        ensures
            after_single(self@, place, retry, reply) == match r {
                Ok(next) => Ok::<CollectorView, SshErrorView>(next@),
                Err(e) => Err(e@),
            },
    {
        proof {
            use_type_invariant(&self);
            law_replies_keep_consistency(self@, reply, 0);
        }
        let cmd = SINGLE_SHOT[place];
        let fallback = match probe_for(cmd, self.privileged) {
            Some((_, plain)) => if retry {
                None
            } else {
                plain
            },
            None => None,
        };
        let mut outputs = self.outputs;
        match absorb_probe(&mut outputs, cmd, fallback, reply) {
            Ok(Some(_)) => Ok(
                Collector { outputs, stage: Stage::Single { place, retry: true }, ..self },
            ),
            Ok(None) => {
                let stage = seek_single(place + 1, self.privileged);
                Ok(Collector { outputs, stage, ..self })
            },
            Err(e) => Err(e),
        }
    }

    fn absorb_first(
        self,
        place: usize,
        reply: Result<SshOutput, SshError>,
    ) -> (r: Result<Self, SshError>)
        requires
            self@.stage == (Stage::First { place }),
        ensures
            after_first(self@, place, reply) == match r {
                Ok(next) => Ok::<CollectorView, SshErrorView>(next@),
                Err(e) => Err(e@),
            },
    {
        broadcast use lemma_deep_push;

        proof {
            use_type_invariant(&self);
            law_replies_keep_consistency(self@, reply, 0);
        }
        let text = match run_single(reply) {
            Ok(text) => text,
            Err(e) => {
                return Err(e);
            },
        };
        if place == 0 && text.is_none() {
            let stage = seek_certificate(0, self.cert_paths.len(), Ghost(self@.cert_paths));
            return Ok(Collector { stage, ..self });
        }
        let mut first = self.first;
        first.push(or_nothing(text));
        let stage = if place + 1 < COUNTERS.len() {
            Stage::First { place: place + 1 }
        } else {
            Stage::Pause
        };
        Ok(Collector { first, stage, ..self })
    }

    fn absorb_second(
        self,
        place: usize,
        reply: Result<SshOutput, SshError>,
        nanos: u64,
    ) -> (r: Result<Self, SshError>)
        requires
            self@.stage == (Stage::Second { place }),
        ensures
            after_second(self@, place, reply, nanos) == match r {
                Ok(next) => Ok::<CollectorView, SshErrorView>(next@),
                Err(e) => Err(e@),
            },
    {
        broadcast use lemma_deep_push;

        proof {
            use_type_invariant(&self);
            law_replies_keep_consistency(self@, reply, nanos);
        }
        let text = match run_single(reply) {
            Ok(text) => text,
            Err(e) => {
                return Err(e);
            },
        };
        let stage = seek_certificate(0, self.cert_paths.len(), Ghost(self@.cert_paths));
        if place == 0 && text.is_none() {
            return Ok(Collector { stage, ..self });
        }
        let mut second = self.second;
        second.push(or_nothing(text));
        if place + 1 < COUNTERS.len() {
            return Ok(Collector { second, stage: Stage::Second { place: place + 1 }, ..self });
        }
        let samples = join_samples(&self.first, &second, nanos);
        Ok(Collector { second, samples: Some(samples), stage, ..self })
    }

    fn absorb_certificate(self, place: usize, reply: Result<SshOutput, SshError>) -> (r: Result<
        Self,
        SshError,
    >)
        requires
            self@.stage == (Stage::Certificate { place }),
        ensures
            after_certificate(self@, place, reply) == match r {
                Ok(next) => Ok::<CollectorView, SshErrorView>(next@),
                Err(e) => Err(e@),
            },
    {
        proof {
            use_type_invariant(&self);
            law_replies_keep_consistency(self@, reply, 0);
        }
        let text = match run_single(reply) {
            Ok(text) => text,
            Err(e) => {
                return Err(e);
            },
        };
        let stage = seek_certificate(place + 1, self.cert_paths.len(), Ghost(self@.cert_paths));
        let path = self.cert_paths[place].clone();
        let ghost before = self.certs@;
        let mut certs = self.certs;
        certs.push((path, text));
        proof {
            assert(certs_view(certs@) =~= certs_view(before).push(cert_view(certs@.last())));
        }
        Ok(Collector { certs, stage, ..self })
    }

    /// Goes on after the pause.
    pub fn resume(self) -> (r: Self)
        ensures
            r@ == resumed(self@),
    {
        proof {
            use_type_invariant(&self);
        }
        match self.stage {
            Stage::Pause => Collector { stage: Stage::Second { place: 0 }, ..self },
            _ => self,
        }
    }

    /// The report on everything that was collected; `now` is the unix time by which the
    /// certificates are judged.
    pub fn finish(&self, now: i64) -> (r: HealthReport)
        ensures
            r@ == snapshot_of(
                self@.outputs,
                self@.samples,
                self@.certs,
                self@.thr,
                now as int,
            ),
    {
        complete(&self.outputs, &self.samples, self.certs.as_slice(), &self.thr, now)
    }
}

fn join_samples(first: &Vec<String>, second: &Vec<String>, nanos: u64) -> (r: NetSamples)
    requires
        first@.len() == 4,
        second@.len() == 4,
    ensures
        r@ == sampled(deep(first@), deep(second@), nanos),
{
    NetSamples {
        dev1: first[0].clone(),
        dev2: second[0].clone(),
        stat1: first[1].clone(),
        stat2: second[1].clone(),
        ct1: first[2].clone(),
        ct2: second[2].clone(),
        snmp1: first[3].clone(),
        snmp2: second[3].clone(),
        nanos,
    }
}

/// The text, or an empty one.
fn or_nothing(text: Option<String>) -> (r: String)
    ensures
        r@ == or_empty(deep_option(text)),
{
    match text {
        Some(s) => s,
        None => String::new(),
    }
}

fn seek_certificate(from: usize, len: usize, Ghost(paths): Ghost<Seq<Seq<char>>>) -> (r: Stage)
    requires
        len == paths.len(),
    ensures
        r == certificate_from(from as int, paths),
{
    if from < len {
        Stage::Certificate { place: from }
    } else {
        Stage::Done
    }
}

proof fn lemma_started_consistent(thr: Thresholds, privileged: bool, paths: Seq<Seq<char>>)
    requires
        paths.len() <= usize::MAX,
    ensures
        consistent(started(thr, privileged, paths)),
{
    lemma_next_single(0, privileged);
    lemma_slot(started(thr, privileged, paths).outputs, OOM_DMESG@);
}

fn seek_single(from: usize, privileged: bool) -> (r: Stage)
    requires
        from <= SINGLE_SHOT@.len(),
    ensures
        r == single_from(from as int, privileged),
{
    let mut i: usize = from;
    while i < SINGLE_SHOT.len()
        invariant
            from <= i <= SINGLE_SHOT@.len(),
            next_single(from as int, privileged) == next_single(i as int, privileged),
        decreases SINGLE_SHOT@.len() - i,
    {
        if probe_for(SINGLE_SHOT[i], privileged).is_some() {
            return Stage::Single { place: i, retry: false };
        }
        i = i + 1;
    }
    Stage::First { place: 0 }
}

} // verus!
