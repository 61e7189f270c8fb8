//! Audit engine: run each check's command once (cached), then evaluate.

use crate::catalog::{listed, refusal};
use crate::checks::laws::{law_commands_in_catalog, law_privileged_is_sudo};
use crate::checks::{
    all_checks, registry, AnyCheck, Check, CheckInfo, Finding, FindingView, Outcome, OutcomeView,
    Status,
};
use crate::ssh::{
    ssh_error_text, SshError, SshErrorView, SshOutput,
};
use crate::text::chars::{chars_of, deep, deep_option, lemma_deep_empty, lemma_deep_push, text_of};
use crate::text::search::starts_with;
use crate::text::split::{lemma_fold_step, lemma_take_all, split_words, words};
use crate::textmap::{
    distinct_keys, lemma_put_distinct, lemma_slot, lemma_slot_is, lookup, put, put_if_absent, slot,
    TextMap,
};
use vstd::prelude::*;
use vstd::string::StringExecFns;

verus! {

/// Why a command produced no usable output. `not_found` marks "the tool isn't
/// installed on this host" (remote exit 127), as opposed to a genuine runtime
/// failure; a package-manager check ([`Check::skip_if_tool_missing`]) uses it to
/// skip (not applicable) rather than error.
#[derive(Debug, Clone)]
pub struct CmdError {
    pub message: String,
    pub not_found: bool,
}

/// The model of a [`CmdError`].
pub ghost struct CmdErrorView {
    pub message: Seq<char>,
    pub not_found: bool,
}

impl View for CmdError {
    type V = CmdErrorView;

    open spec fn view(&self) -> CmdErrorView {
        CmdErrorView { message: self.message@, not_found: self.not_found }
    }
}

impl CmdError {
    /// A failure that is not a missing tool (the common case).
    pub fn other(message: String) -> (r: Self)
        ensures
            r@ == (CmdErrorView { message: message@, not_found: false }),
    {
        CmdError { message, not_found: false }
    }
}

/// What one command produced: its stdout, or why there is none.
#[derive(Debug, Clone)]
pub enum CmdOutput {
    Done(String),
    Failed(CmdError),
}

/// The model of a [`CmdOutput`].
pub enum CmdOutputView {
    Done(Seq<char>),
    Failed(CmdErrorView),
}

impl View for CmdOutput {
    type V = CmdOutputView;

    open spec fn view(&self) -> CmdOutputView {
        match self {
            CmdOutput::Done(s) => CmdOutputView::Done(s@),
            CmdOutput::Failed(e) => CmdOutputView::Failed(e@),
        }
    }
}

/// The model of [`Outputs`]: each command with what it produced.
pub type OutputsView = Seq<(Seq<char>, CmdOutputView)>;

/// Command output collected once per distinct command: stdout, or a [`CmdError`] when the
/// command ran but failed on the host.
#[derive(Debug, Clone)]
pub struct Outputs {
    pub map: TextMap<CmdOutput>,
}

impl View for Outputs {
    type V = OutputsView;

    open spec fn view(&self) -> OutputsView {
        self.map@
    }
}

impl Outputs {
    pub fn new() -> (r: Self)
        ensures
            r@ == OutputsView::empty(),
    {
        Outputs { map: TextMap::new() }
    }

    pub fn insert(&mut self, cmd: &str, value: Result<String, CmdError>)
        ensures
            final(self)@ == put(
                old(self)@,
                cmd@,
                match value {
                    Ok(s) => CmdOutputView::Done(s@),
                    Err(e) => CmdOutputView::Failed(e@),
                },
            ),
    {
        let v = match value {
            Ok(s) => CmdOutput::Done(s),
            Err(e) => CmdOutput::Failed(e),
        };
        self.map.insert(cmd.to_string(), v);
    }

    /// The stdout of a command that was collected and did not fail.
    pub fn stdout(&self, cmd: &str) -> (r: Option<&str>)
        ensures
            deep_option(r) == collected(self@, cmd@),
    {
        match self.map.get(cmd) {
            Some(CmdOutput::Done(s)) => Some(s.as_str()),
            _ => None,
        }
    }
}

/// The stdout of a command that was collected and did not fail.
pub open spec fn collected(outputs: OutputsView, cmd: Seq<char>) -> Option<Seq<char>> {
    match lookup(outputs, cmd) {
        Some(CmdOutputView::Done(s)) => Some(s),
        _ => None,
    }
}

/// The output of a check's effective command, on a target that is opted in.
pub open spec fn effective_output(
    info: CheckInfo,
    outputs: OutputsView,
    privileged: bool,
) -> Option<Seq<char>> {
    match info.effective_command {
        Some(cmd) => if privileged {
            collected(outputs, cmd@)
        } else {
            None
        },
        None => None,
    }
}

/// The first word of a command.
pub open spec fn tool_name(command: Seq<char>) -> Seq<char> {
    if words(command).len() > 0 {
        words(command)[0]
    } else {
        "tool"@
    }
}

/// What a check comes to. On an opted-in target the effective source counts when it
/// succeeded; otherwise the normal command does. A command that is absent was never
/// collected: a privileged check on a target that isn't opted in.
pub open spec fn result_of<C: Check>(
    check: C,
    outputs: OutputsView,
    privileged: bool,
) -> OutcomeView {
    let info = check.info();
    match effective_output(info, outputs, privileged) {
        Some(output) => check.verdict(output),
        None => match lookup(outputs, info.command@) {
            Some(CmdOutputView::Done(output)) => check.verdict(output),
            Some(CmdOutputView::Failed(e)) => if e.not_found && info.skip_if_tool_missing {
                OutcomeView {
                    status: Status::Skipped,
                    detail: tool_name(info.command@)
                        + " is not installed on this host; check not applicable."@,
                }
            } else {
                OutcomeView { status: Status::Error, detail: e.message }
            },
            None => OutcomeView {
                status: Status::Skipped,
                detail: "privileged check not enabled for this target"@,
            },
        },
    }
}

/// The finding of a check.
pub open spec fn finding_of<C: Check>(
    check: C,
    outputs: OutputsView,
    privileged: bool,
) -> FindingView {
    let info = check.info();
    let result = result_of(check, outputs, privileged);
    FindingView {
        id: info.id@,
        domain: info.domain,
        title: info.title@,
        severity: info.severity,
        status: result.status,
        detail: result.detail,
        recommendation: info.recommendation@,
    }
}

/// One finding per check, in order.
pub open spec fn findings_of(
    checks: Seq<AnyCheck>,
    outputs: OutputsView,
    privileged: bool,
) -> Seq<FindingView> {
    checks.map_values(|c: AnyCheck| finding_of(c, outputs, privileged))
}

fn judge<C: Check>(check: &C, outputs: &Outputs, privileged: bool) -> (r: Outcome)
    ensures
        r@ == result_of(*check, outputs@, privileged),
{
    if privileged {
        match check.effective_command() {
            Some(cmd) => match outputs.stdout(cmd) {
                Some(output) => {
                    return check.evaluate(output);
                },
                None => {},
            },
            None => {},
        }
    }
    match outputs.map.get(check.command()) {
        Some(CmdOutput::Done(output)) => check.evaluate(output.as_str()),
        Some(CmdOutput::Failed(e)) => {
            if e.not_found && check.skip_if_tool_missing() {
                let command = chars_of(check.command());
                let ws = split_words(command.as_slice());
                let mut detail = if ws.len() > 0 {
                    text_of(ws[0])
                } else {
                    "tool".to_string()
                };
                detail.append(" is not installed on this host; check not applicable.");
                Outcome { status: Status::Skipped, detail }
            } else {
                Outcome { status: Status::Error, detail: e.message.clone() }
            }
        },
        None => Outcome {
            status: Status::Skipped,
            detail: "privileged check not enabled for this target".to_string(),
        },
    }
}

fn find<C: Check>(check: &C, outputs: &Outputs, privileged: bool) -> (r: Finding)
    ensures
        r@ == finding_of(*check, outputs@, privileged),
{
    let result = judge(check, outputs, privileged);
    Finding {
        id: check.id(),
        domain: check.domain(),
        title: check.title(),
        severity: check.severity(),
        status: result.status,
        detail: result.detail,
        recommendation: check.recommendation(),
    }
}

/// Builds findings by evaluating every check against pre-collected command outputs: the
/// full registry through [`evaluate_with`].
pub fn evaluate(outputs: &Outputs, privileged: bool) -> (r: Vec<Finding>)
    ensures
        deep(r@) == findings_of(registry(), outputs@, privileged),
{
    let checks = all_checks();
    evaluate_with(checks.as_slice(), outputs, privileged)
}

/// Builds findings by evaluating the given checks against pre-collected command outputs.
/// An error becomes an `Error` finding for every check that needs that output. Only these
/// checks produce findings, so a check that is not given is simply absent rather than
/// reported as skipped.
///
/// `privileged` mirrors the target's opt-in: when set, a check's
/// [`effective_command`](crate::checks::Check::effective_command) output (e.g.
/// `sshd -T`) supersedes its normal command if it was collected successfully;
/// otherwise the check falls back to its normal command, so the audit is robust
/// when the sudo grant is missing.
pub fn evaluate_with(checks: &[AnyCheck], outputs: &Outputs, privileged: bool) -> (r: Vec<Finding>)
    ensures
        deep(r@) == findings_of(checks@, outputs@, privileged),
{
    broadcast use lemma_deep_empty;

    let mut out: Vec<Finding> = Vec::new();
    let ghost all = findings_of(checks@, outputs@, privileged);
    let mut i: usize = 0;
    while i < checks.len()
        invariant
            i <= checks@.len(),
            all == findings_of(checks@, outputs@, privileged),
            deep(out@) == all.take(i as int),
        decreases checks@.len() - i,
    {
        broadcast use lemma_deep_push;

        out.push(find(&checks[i], outputs, privileged));
        proof {
            assert(all.take(i + 1) == all.take(i as int).push(all[i as int]));
        }
        i = i + 1;
    }
    proof {
        lemma_take_all(all);
    }
    out
}

/// The commands of one more check, behind those that are planned already. A privileged
/// command is planned only for a target that is opted in.
pub open spec fn plan_step(
    plan: Seq<(Seq<char>, bool)>,
    check: AnyCheck,
    privileged: bool,
) -> Seq<(Seq<char>, bool)> {
    let info = check.info();
    let with_command = if info.privileged && !privileged {
        plan
    } else {
        put_if_absent(plan, info.command@, info.tolerate_nonzero_exit)
    };
    match info.effective_command {
        Some(cmd) => if privileged {
            put_if_absent(with_command, cmd@, false)
        } else {
            with_command
        },
        None => with_command,
    }
}

/// The commands to run for the checks, each once and in order, with the flag that says
/// whether its output counts though it ended with an error.
pub open spec fn command_plan(checks: Seq<AnyCheck>, privileged: bool) -> Seq<(Seq<char>, bool)> {
    checks.fold_left(
        Seq::empty(),
        |plan: Seq<(Seq<char>, bool)>, c: AnyCheck| plan_step(plan, c, privileged),
    )
}

/// Plans the commands of an audit: each distinct command exactly once, only for the given
/// checks. A privileged command is never planned for a target that didn't opt in; the
/// effective (privileged) source is only planned for opted-in targets.
pub fn plan_commands(checks: &[AnyCheck], privileged: bool) -> (r: TextMap<bool>)
    ensures
        r@ == command_plan(checks@, privileged),
{
    let mut plan: TextMap<bool> = TextMap::new();
    let ghost step = |plan: Seq<(Seq<char>, bool)>, c: AnyCheck| plan_step(plan, c, privileged);
    let mut i: usize = 0;
    while i < checks.len()
        invariant
            i <= checks@.len(),
            step == |plan: Seq<(Seq<char>, bool)>, c: AnyCheck| plan_step(plan, c, privileged),
            plan@ == checks@.take(i as int).fold_left(Seq::empty(), step),
        decreases checks@.len() - i,
    {
        proof {
            lemma_fold_step(checks@, Seq::empty(), step, i as int);
        }
        let check = checks[i];
        if !(check.privileged() && !privileged) {
            plan.insert_new(check.command().to_string(), check.tolerate_nonzero_exit());
        }
        if privileged {
            match check.effective_command() {
                Some(cmd) => {
                    plan.insert_new(cmd.to_string(), false);
                },
                None => {},
            }
        }
        i = i + 1;
    }
    proof {
        lemma_take_all(checks@);
    }
    plan
}

/// What is recorded of a reply; `None` where the failure concerns the host as a whole.
pub open spec fn recorded(reply: Result<SshOutput, SshError>, tolerate: bool) -> Option<
    CmdOutputView,
> {
    match reply {
        Ok(out) => Some(CmdOutputView::Done(out.stdout@)),
        Err(e) => match e@ {
            SshErrorView::RemoteCommand { code, stdout, stderr } => if tolerate {
                Some(CmdOutputView::Done(stdout))
            } else {
                Some(
                    CmdOutputView::Failed(
                        CmdErrorView {
                            message: ssh_error_text(e@),
                            not_found: code == Some(127i32),
                        },
                    ),
                )
            },
            _ => None,
        },
    }
}

/// Records the reply to a command: its stdout, or why there is none when it connected but
/// failed. When `tolerate` is set, a non-zero exit still records the (partial) stdout. Exit
/// 127 ("command not found") means the tool isn't installed. A host-level failure (auth,
/// connection, timeout) is handed back and aborts the whole audit.
pub fn record(
    outputs: &mut Outputs,
    cmd: &str,
    tolerate: bool,
    reply: Result<SshOutput, SshError>,
) -> (r: Result<(), SshError>)
    ensures
        match recorded(reply, tolerate) {
            Some(v) => r.is_ok() && final(outputs)@ == put(old(outputs)@, cmd@, v),
            None => final(outputs)@ == old(outputs)@ && match (r, reply) {
                (Err(e), Err(e0)) => e@ == e0@,
                _ => false,
            },
        },
{
    match reply {
        Ok(out) => {
            outputs.insert(cmd, Ok(out.stdout));
            Ok(())
        },
        Err(e) => {
            let message = e.text();
            match e {
                SshError::RemoteCommand { code, stdout, stderr: _ } => {
                    if tolerate {
                        outputs.insert(cmd, Ok(stdout));
                    } else {
                        let not_found = match code {
                            Some(n) => n == 127,
                            None => false,
                        };
                        outputs.insert(cmd, Err(CmdError { message, not_found }));
                    }
                    Ok(())
                },
                other => Err(other),
            }
        },
    }
}

/// On an opted-in target, an effective source that succeeded supersedes the normal one.
pub proof fn law_effective_supersedes(check: AnyCheck, outputs: OutputsView, output: Seq<char>)
    requires
        check.info().effective_command matches Some(cmd) && collected(outputs, cmd@) == Some(
            output,
        ),
    ensures
        result_of(check, outputs, true) == check.verdict(output),
{
}

/// Without the opt-in, or when the effective command failed or was not collected, the check
/// is judged by its normal command.
pub proof fn law_falls_back(
    check: AnyCheck,
    outputs: OutputsView,
    privileged: bool,
    output: Seq<char>,
)
    requires
        !privileged || (check.info().effective_command matches Some(cmd) ==> collected(
            outputs,
            cmd@,
        ).is_none()),
        collected(outputs, check.info().command@) == Some(output),
    ensures
        result_of(check, outputs, privileged) == check.verdict(output),
{
}

/// The sources that an unprivileged audit collects never change under the opt-in flag: with
/// no effective output at hand the findings are the same.
pub proof fn law_opt_in_without_output_changes_nothing(
    checks: Seq<AnyCheck>,
    outputs: OutputsView,
)
    requires
        forall|i: int|
            0 <= i < checks.len() ==> ((
            #[trigger] checks[i]).info().effective_command matches Some(cmd) ==> collected(
                outputs,
                cmd@,
            ).is_none()),
    ensures
        findings_of(checks, outputs, true) == findings_of(checks, outputs, false),
{
    assert forall|i: int| 0 <= i < checks.len() implies #[trigger] findings_of(
        checks,
        outputs,
        true,
    )[i] == findings_of(checks, outputs, false)[i] by {
        let c = checks[i];
        assert(result_of(c, outputs, true) == result_of(c, outputs, false));
    }
    assert(findings_of(checks, outputs, true) =~= findings_of(checks, outputs, false));
}

/// Every check gives exactly one finding, under its own identifier.
pub proof fn law_one_finding_per_check(
    checks: Seq<AnyCheck>,
    outputs: OutputsView,
    privileged: bool,
    i: int,
)
    requires
        0 <= i < checks.len(),
    ensures
        findings_of(checks, outputs, privileged).len() == checks.len(),
        findings_of(checks, outputs, privileged)[i].id == checks[i].info().id@,
        findings_of(checks, outputs, privileged)[i].severity == checks[i].info().severity,
{
}

/// `p` holds of every planned command.
spec fn plan_all(plan: Seq<(Seq<char>, bool)>, p: spec_fn(Seq<char>) -> bool) -> bool {
    forall|i: int| 0 <= i < plan.len() ==> p((#[trigger] plan[i]).0)
}

proof fn lemma_plan_all(
    checks: Seq<AnyCheck>,
    privileged: bool,
    p: spec_fn(Seq<char>) -> bool,
)
    requires
        forall|c: AnyCheck|
            (!(#[trigger] c.info()).privileged || privileged) ==> p(c.info().command@),
        forall|c: AnyCheck|
            privileged ==> ((#[trigger] c.info()).effective_command matches Some(cmd) ==> p(cmd@)),
    ensures
        plan_all(command_plan(checks, privileged), p),
    decreases checks.len(),
{
    if checks.len() > 0 {
        let rest = checks.drop_last();
        let c = checks.last();
        lemma_plan_all(rest, privileged, p);
        let plan = command_plan(rest, privileged);
        assert(command_plan(checks, privileged) == plan_step(plan, c, privileged));
        assert(!c.info().privileged || privileged ==> p(c.info().command@));
    }
}

/// Every planned command is in the read-only catalog, character for character.
pub proof fn law_plan_in_catalog(checks: Seq<AnyCheck>, privileged: bool, i: int)
    requires
        0 <= i < command_plan(checks, privileged).len(),
    ensures
        refusal(command_plan(checks, privileged)[i].0).is_none(),
        listed(command_plan(checks, privileged)[i].0),
{
    let p = |cmd: Seq<char>| refusal(cmd).is_none() && listed(cmd);
    assert forall|c: AnyCheck|
        (!(#[trigger] c.info()).privileged || privileged) implies p(c.info().command@) by {
        law_commands_in_catalog(c);
    }
    assert forall|c: AnyCheck| privileged implies ((
    #[trigger] c.info()).effective_command matches Some(cmd) ==> p(cmd@)) by {
        law_commands_in_catalog(c);
    }
    lemma_plan_all(checks, privileged, p);
    assert(p(command_plan(checks, privileged)[i].0));
}

/// No command that runs through `sudo` is planned for a target that is not opted in.
pub proof fn law_plan_respects_opt_in(checks: Seq<AnyCheck>, i: int)
    requires
        0 <= i < command_plan(checks, false).len(),
    ensures
        !starts_with(command_plan(checks, false)[i].0, "sudo -n "@),
{
    let p = |cmd: Seq<char>| !starts_with(cmd, "sudo -n "@);
    assert forall|c: AnyCheck| (!(#[trigger] c.info()).privileged || false) implies p(
        c.info().command@,
    ) by {
        law_privileged_is_sudo(c);
    }
    lemma_plan_all(checks, false, p);
    assert(p(command_plan(checks, false)[i].0));
}

/// No command is planned twice.
pub proof fn law_plan_runs_each_once(checks: Seq<AnyCheck>, privileged: bool)
    ensures
        distinct_keys(command_plan(checks, privileged)),
    decreases checks.len(),
{
    if checks.len() > 0 {
        let rest = checks.drop_last();
        let c = checks.last();
        law_plan_runs_each_once(rest, privileged);
        let plan = command_plan(rest, privileged);
        assert(command_plan(checks, privileged) == plan_step(plan, c, privileged));
        lemma_put_distinct(plan, c.info().command@, c.info().tolerate_nonzero_exit);
        match c.info().effective_command {
            Some(cmd) => {
                let with_command = if c.info().privileged && !privileged {
                    plan
                } else {
                    put_if_absent(plan, c.info().command@, c.info().tolerate_nonzero_exit)
                };
                lemma_put_distinct(with_command, cmd@, false);
            },
            None => {},
        }
    }
}

proof fn lemma_absent_put(m: Seq<(Seq<char>, bool)>, k: Seq<char>, v: bool, q: Seq<char>)
    ensures
        lookup(put_if_absent(m, k, v), k).is_some(),
        lookup(m, q).is_some() ==> lookup(put_if_absent(m, k, v), q).is_some(),
{
    lemma_slot(m, k);
    lemma_slot(m, q);
    let n = put_if_absent(m, k, v);
    lemma_slot(n, k);
    lemma_slot(n, q);
    if lookup(m, k).is_none() {
        lemma_slot_is(n, k, m.len() as int);
    }
    if lookup(m, q).is_some() {
        lemma_slot_is(n, q, slot(m, q));
    }
}

/// The command of every check that may run on the target is planned.
pub proof fn law_plan_covers_checks(checks: Seq<AnyCheck>, privileged: bool, i: int)
    requires
        0 <= i < checks.len(),
        !checks[i].info().privileged || privileged,
    ensures
        lookup(command_plan(checks, privileged), checks[i].info().command@).is_some(),
    decreases checks.len(),
{
    let rest = checks.drop_last();
    let c = checks.last();
    let plan = command_plan(rest, privileged);
    let k = checks[i].info().command@;
    assert(command_plan(checks, privileged) == plan_step(plan, c, privileged));
    let with_command = if c.info().privileged && !privileged {
        plan
    } else {
        put_if_absent(plan, c.info().command@, c.info().tolerate_nonzero_exit)
    };
    lemma_absent_put(plan, c.info().command@, c.info().tolerate_nonzero_exit, k);
    match c.info().effective_command {
        Some(cmd) => lemma_absent_put(with_command, cmd@, false, k),
        None => {},
    }
    if i < rest.len() {
        law_plan_covers_checks(rest, privileged, i);
    }
}

} // verus!
