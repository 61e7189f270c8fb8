//! Audit checks: a check declares the read-only command it needs and a pure
//! `evaluate(output) -> Outcome`. Separating I/O from logic keeps every check
//! testable against fixtures without a host.

pub mod account_laws;
pub mod accounts;
pub mod chains;
pub mod detail_laws;
pub mod firewall;
pub mod joined;
pub mod kernel;
pub mod laws;
pub mod logging;
pub mod parse;
pub mod services;
pub mod ssh;
pub mod updates;
pub mod verdicts;

use vstd::prelude::*;

verus! {

/// The `systemctl list-unit-files` listing shared by the firewall, services,
/// logging and updates checks (each reads it via [`parse::parse_unit_files`]).
pub const UNITS_CMD: &'static str = "systemctl list-unit-files --type=service --no-pager";

/// How bad a failed check is: Info < Low < Medium < High < Critical.
#[derive(Debug, Clone, Copy, PartialEq, Eq, PartialOrd, Ord, Structural)]
pub enum Severity {
    Info,
    Low,
    Medium,
    High,
    Critical,
}

impl Severity {
    pub open spec fn level(self) -> int {
        match self {
            Severity::Info => 0,
            Severity::Low => 1,
            Severity::Medium => 2,
            Severity::High => 3,
            Severity::Critical => 4,
        }
    }

    /// The place on the scale, from 0.
    pub fn rank(self) -> (r: u8)
        ensures
            r == self.level(),
    {
        match self {
            Severity::Info => 0,
            Severity::Low => 1,
            Severity::Medium => 2,
            Severity::High => 3,
            Severity::Critical => 4,
        }
    }
}

#[derive(Debug, Clone, Copy, PartialEq, Eq, Structural)]
pub enum Domain {
    Ssh,
    Accounts,
    Kernel,
    Firewall,
    Updates,
    Services,
    Logging,
}

#[derive(Debug, Clone, Copy, PartialEq, Eq, Structural)]
pub enum Status {
    Pass,
    Fail,
    Error,
    /// A check that didn't run: a privileged one on a target that isn't opted in
    /// (`privileged = false`), or one whose tool isn't installed. Excluded from the
    /// score, like `Error`, but it is a deliberate skip rather than a failure.
    Skipped,
}

/// A single audit result.
#[derive(Debug, Clone)]
pub struct Finding {
    pub id: &'static str,
    pub domain: Domain,
    pub title: &'static str,
    pub severity: Severity,
    pub status: Status,
    pub detail: String,
    pub recommendation: &'static str,
}

/// The model of a [`Finding`].
pub ghost struct FindingView {
    pub id: Seq<char>,
    pub domain: Domain,
    pub title: Seq<char>,
    pub severity: Severity,
    pub status: Status,
    pub detail: Seq<char>,
    pub recommendation: Seq<char>,
}

impl View for Finding {
    type V = FindingView;

    open spec fn view(&self) -> FindingView {
        FindingView {
            id: self.id@,
            domain: self.domain,
            title: self.title@,
            severity: self.severity,
            status: self.status,
            detail: self.detail@,
            recommendation: self.recommendation@,
        }
    }
}

/// The verdict a check returns for a given host output.
#[derive(Debug, Clone)]
pub struct Outcome {
    pub status: Status,
    pub detail: String,
}

/// The model of an [`Outcome`].
pub ghost struct OutcomeView {
    pub status: Status,
    pub detail: Seq<char>,
}

impl View for Outcome {
    type V = OutcomeView;

    open spec fn view(&self) -> OutcomeView {
        OutcomeView { status: self.status, detail: self.detail@ }
    }
}

pub open spec fn passing(detail: Seq<char>) -> OutcomeView {
    OutcomeView { status: Status::Pass, detail }
}

pub open spec fn failing(detail: Seq<char>) -> OutcomeView {
    OutcomeView { status: Status::Fail, detail }
}

impl Outcome {
    pub fn pass(detail: String) -> (r: Self)
        ensures
            r@ == passing(detail@),
    {
        Outcome { status: Status::Pass, detail }
    }

    pub fn fail(detail: String) -> (r: Self)
        ensures
            r@ == failing(detail@),
    {
        Outcome { status: Status::Fail, detail }
    }
}

/// What a check declares of itself.
#[derive(Debug, Clone, Copy)]
pub struct CheckInfo {
    pub id: &'static str,
    pub domain: Domain,
    pub title: &'static str,
    pub severity: Severity,
    pub recommendation: &'static str,
    pub command: &'static str,
    pub privileged: bool,
    pub effective_command: Option<&'static str>,
    pub skip_if_tool_missing: bool,
    pub tolerate_nonzero_exit: bool,
}

/// A check that reads one command, as root where `privileged` is set.
#[verifier::allow_in_spec]
pub fn plain_info(
    id: &'static str,
    domain: Domain,
    title: &'static str,
    severity: Severity,
    recommendation: &'static str,
    command: &'static str,
    privileged: bool,
) -> (r: CheckInfo)
    returns
        (CheckInfo {
            id,
            domain,
            title,
            severity,
            recommendation,
            command,
            privileged,
            effective_command: None,
            skip_if_tool_missing: false,
            tolerate_nonzero_exit: false,
        }),
{
    CheckInfo {
        id,
        domain,
        title,
        severity,
        recommendation,
        command,
        privileged,
        effective_command: None,
        skip_if_tool_missing: false,
        tolerate_nonzero_exit: false,
    }
}

pub trait Check {
    /// What the check declares of itself.
    spec fn info(&self) -> CheckInfo;

    /// What the check makes of a command's output.
    spec fn verdict(&self, output: Seq<char>) -> OutcomeView;

    fn facts(&self) -> (r: CheckInfo)
        ensures
            r == self.info(),
    ;

    /// Pure evaluation of the command's output.
    fn evaluate(&self, output: &str) -> (r: Outcome)
        ensures
            r@ == self.verdict(output@),
    ;

    /// Stable identifier, e.g. `ssh-permit-root-login`.
    fn id(&self) -> (r: &'static str)
        ensures
            r == self.info().id,
    {
        self.facts().id
    }

    fn domain(&self) -> (r: Domain)
        ensures
            r == self.info().domain,
    {
        self.facts().domain
    }

    fn title(&self) -> (r: &'static str)
        ensures
            r == self.info().title,
    {
        self.facts().title
    }

    fn severity(&self) -> (r: Severity)
        ensures
            r == self.info().severity,
    {
        self.facts().severity
    }

    fn recommendation(&self) -> (r: &'static str)
        ensures
            r == self.info().recommendation,
    {
        self.facts().recommendation
    }

    /// The read-only command this check needs (must be in the catalog).
    fn command(&self) -> (r: &'static str)
        ensures
            r == self.info().command,
    {
        self.facts().command
    }

    /// `true` if the check needs root (its command is a `sudo -n ...` reader).
    /// Such checks run only on targets opted in with `privileged = true`, and
    /// are otherwise reported as [`Status::Skipped`].
    fn privileged(&self) -> (r: bool)
        ensures
            r == self.info().privileged,
    {
        self.facts().privileged
    }

    /// An optional privileged command whose output *supersedes* the normal command's
    /// when the target is opted in (`privileged = true`) and the command succeeded:
    /// `sudo -n sshd -T` yields the effective SSH config. When the target
    /// isn't opted in, or the command failed (no sudo grant), the check falls
    /// back to its normal command, so the audit never breaks. Must be in the
    /// catalog. `None` = the check has no privileged upgrade.
    fn effective_command(&self) -> (r: Option<&'static str>)
        ensures
            r == self.info().effective_command,
    {
        self.facts().effective_command
    }

    /// `true` if a missing tool means that the check does not apply to the host.
    fn skip_if_tool_missing(&self) -> (r: bool)
        ensures
            r == self.info().skip_if_tool_missing,
    {
        self.facts().skip_if_tool_missing
    }

    /// `true` if the output counts though the command ended with an error.
    fn tolerate_nonzero_exit(&self) -> (r: bool)
        ensures
            r == self.info().tolerate_nonzero_exit,
    {
        self.facts().tolerate_nonzero_exit
    }
}

/// Any of the checks, those outside the [`registry`] too.
#[derive(Debug, Clone, Copy, PartialEq, Eq, Structural)]
pub enum AnyCheck {
    PermitRootLogin,
    PasswordAuthentication,
    PermitEmptyPasswords,
    X11Forwarding,
    MaxAuthTries,
    WeakCrypto,
    NonRootUid0,
    PassMaxDays,
    DefaultUmask,
    ShadowEmptyPassword,
    Aslr,
    TcpSyncookies,
    RpFilter,
    IpForward,
    AcceptRedirects,
    AcceptSourceRoute,
    FirewallEnabled,
    NftDefaultDeny,
    IptablesDefaultDeny,
    SecurityUpdatesPending,
    SecurityUpdatesPendingDnf,
    AutoUpdatesEnabled,
    CleartextPorts,
    RpcbindDisabled,
    Fail2banEnabled,
    AuditdEnabled,
    SyslogEnabled,
}

impl Check for AnyCheck {
    open spec fn info(&self) -> CheckInfo {
        match self {
            AnyCheck::PermitRootLogin => ssh::PermitRootLogin.info(),
            AnyCheck::PasswordAuthentication => ssh::PasswordAuthentication.info(),
            AnyCheck::PermitEmptyPasswords => ssh::PermitEmptyPasswords.info(),
            AnyCheck::X11Forwarding => ssh::X11Forwarding.info(),
            AnyCheck::MaxAuthTries => ssh::MaxAuthTries.info(),
            AnyCheck::WeakCrypto => ssh::WeakCrypto.info(),
            AnyCheck::NonRootUid0 => accounts::NonRootUid0.info(),
            AnyCheck::PassMaxDays => accounts::PassMaxDays.info(),
            AnyCheck::DefaultUmask => accounts::DefaultUmask.info(),
            AnyCheck::ShadowEmptyPassword => accounts::ShadowEmptyPassword.info(),
            AnyCheck::Aslr => kernel::Aslr.info(),
            AnyCheck::TcpSyncookies => kernel::TcpSyncookies.info(),
            AnyCheck::RpFilter => kernel::RpFilter.info(),
            AnyCheck::IpForward => kernel::IpForward.info(),
            AnyCheck::AcceptRedirects => kernel::AcceptRedirects.info(),
            AnyCheck::AcceptSourceRoute => kernel::AcceptSourceRoute.info(),
            AnyCheck::FirewallEnabled => firewall::FirewallEnabled.info(),
            AnyCheck::NftDefaultDeny => firewall::NftDefaultDeny.info(),
            AnyCheck::IptablesDefaultDeny => firewall::IptablesDefaultDeny.info(),
            AnyCheck::SecurityUpdatesPending => updates::SecurityUpdatesPending.info(),
            AnyCheck::SecurityUpdatesPendingDnf => updates::SecurityUpdatesPendingDnf.info(),
            AnyCheck::AutoUpdatesEnabled => updates::AutoUpdatesEnabled.info(),
            AnyCheck::CleartextPorts => services::CleartextPorts.info(),
            AnyCheck::RpcbindDisabled => services::RpcbindDisabled.info(),
            AnyCheck::Fail2banEnabled => services::Fail2banEnabled.info(),
            AnyCheck::AuditdEnabled => logging::AuditdEnabled.info(),
            AnyCheck::SyslogEnabled => logging::SyslogEnabled.info(),
        }
    }

    open spec fn verdict(&self, output: Seq<char>) -> OutcomeView {
        match self {
            AnyCheck::PermitRootLogin => ssh::PermitRootLogin.verdict(output),
            AnyCheck::PasswordAuthentication => ssh::PasswordAuthentication.verdict(output),
            AnyCheck::PermitEmptyPasswords => ssh::PermitEmptyPasswords.verdict(output),
            AnyCheck::X11Forwarding => ssh::X11Forwarding.verdict(output),
            AnyCheck::MaxAuthTries => ssh::MaxAuthTries.verdict(output),
            AnyCheck::WeakCrypto => ssh::WeakCrypto.verdict(output),
            AnyCheck::NonRootUid0 => accounts::NonRootUid0.verdict(output),
            AnyCheck::PassMaxDays => accounts::PassMaxDays.verdict(output),
            AnyCheck::DefaultUmask => accounts::DefaultUmask.verdict(output),
            AnyCheck::ShadowEmptyPassword => accounts::ShadowEmptyPassword.verdict(output),
            AnyCheck::Aslr => kernel::Aslr.verdict(output),
            AnyCheck::TcpSyncookies => kernel::TcpSyncookies.verdict(output),
            AnyCheck::RpFilter => kernel::RpFilter.verdict(output),
            AnyCheck::IpForward => kernel::IpForward.verdict(output),
            AnyCheck::AcceptRedirects => kernel::AcceptRedirects.verdict(output),
            AnyCheck::AcceptSourceRoute => kernel::AcceptSourceRoute.verdict(output),
            AnyCheck::FirewallEnabled => firewall::FirewallEnabled.verdict(output),
            AnyCheck::NftDefaultDeny => firewall::NftDefaultDeny.verdict(output),
            AnyCheck::IptablesDefaultDeny => firewall::IptablesDefaultDeny.verdict(output),
            AnyCheck::SecurityUpdatesPending => updates::SecurityUpdatesPending.verdict(output),
            AnyCheck::SecurityUpdatesPendingDnf => updates::SecurityUpdatesPendingDnf.verdict(output),
            AnyCheck::AutoUpdatesEnabled => updates::AutoUpdatesEnabled.verdict(output),
            AnyCheck::CleartextPorts => services::CleartextPorts.verdict(output),
            AnyCheck::RpcbindDisabled => services::RpcbindDisabled.verdict(output),
            AnyCheck::Fail2banEnabled => services::Fail2banEnabled.verdict(output),
            AnyCheck::AuditdEnabled => logging::AuditdEnabled.verdict(output),
            AnyCheck::SyslogEnabled => logging::SyslogEnabled.verdict(output),
        }
    }

    fn facts(&self) -> (r: CheckInfo) {
        match self {
            AnyCheck::PermitRootLogin => ssh::PermitRootLogin.facts(),
            AnyCheck::PasswordAuthentication => ssh::PasswordAuthentication.facts(),
            AnyCheck::PermitEmptyPasswords => ssh::PermitEmptyPasswords.facts(),
            AnyCheck::X11Forwarding => ssh::X11Forwarding.facts(),
            AnyCheck::MaxAuthTries => ssh::MaxAuthTries.facts(),
            AnyCheck::WeakCrypto => ssh::WeakCrypto.facts(),
            AnyCheck::NonRootUid0 => accounts::NonRootUid0.facts(),
            AnyCheck::PassMaxDays => accounts::PassMaxDays.facts(),
            AnyCheck::DefaultUmask => accounts::DefaultUmask.facts(),
            AnyCheck::ShadowEmptyPassword => accounts::ShadowEmptyPassword.facts(),
            AnyCheck::Aslr => kernel::Aslr.facts(),
            AnyCheck::TcpSyncookies => kernel::TcpSyncookies.facts(),
            AnyCheck::RpFilter => kernel::RpFilter.facts(),
            AnyCheck::IpForward => kernel::IpForward.facts(),
            AnyCheck::AcceptRedirects => kernel::AcceptRedirects.facts(),
            AnyCheck::AcceptSourceRoute => kernel::AcceptSourceRoute.facts(),
            AnyCheck::FirewallEnabled => firewall::FirewallEnabled.facts(),
            AnyCheck::NftDefaultDeny => firewall::NftDefaultDeny.facts(),
            AnyCheck::IptablesDefaultDeny => firewall::IptablesDefaultDeny.facts(),
            AnyCheck::SecurityUpdatesPending => updates::SecurityUpdatesPending.facts(),
            AnyCheck::SecurityUpdatesPendingDnf => updates::SecurityUpdatesPendingDnf.facts(),
            AnyCheck::AutoUpdatesEnabled => updates::AutoUpdatesEnabled.facts(),
            AnyCheck::CleartextPorts => services::CleartextPorts.facts(),
            AnyCheck::RpcbindDisabled => services::RpcbindDisabled.facts(),
            AnyCheck::Fail2banEnabled => services::Fail2banEnabled.facts(),
            AnyCheck::AuditdEnabled => logging::AuditdEnabled.facts(),
            AnyCheck::SyslogEnabled => logging::SyslogEnabled.facts(),
        }
    }

    fn evaluate(&self, output: &str) -> (r: Outcome) {
        match self {
            AnyCheck::PermitRootLogin => ssh::PermitRootLogin.evaluate(output),
            AnyCheck::PasswordAuthentication => ssh::PasswordAuthentication.evaluate(output),
            AnyCheck::PermitEmptyPasswords => ssh::PermitEmptyPasswords.evaluate(output),
            AnyCheck::X11Forwarding => ssh::X11Forwarding.evaluate(output),
            AnyCheck::MaxAuthTries => ssh::MaxAuthTries.evaluate(output),
            AnyCheck::WeakCrypto => ssh::WeakCrypto.evaluate(output),
            AnyCheck::NonRootUid0 => accounts::NonRootUid0.evaluate(output),
            AnyCheck::PassMaxDays => accounts::PassMaxDays.evaluate(output),
            AnyCheck::DefaultUmask => accounts::DefaultUmask.evaluate(output),
            AnyCheck::ShadowEmptyPassword => accounts::ShadowEmptyPassword.evaluate(output),
            AnyCheck::Aslr => kernel::Aslr.evaluate(output),
            AnyCheck::TcpSyncookies => kernel::TcpSyncookies.evaluate(output),
            AnyCheck::RpFilter => kernel::RpFilter.evaluate(output),
            AnyCheck::IpForward => kernel::IpForward.evaluate(output),
            AnyCheck::AcceptRedirects => kernel::AcceptRedirects.evaluate(output),
            AnyCheck::AcceptSourceRoute => kernel::AcceptSourceRoute.evaluate(output),
            AnyCheck::FirewallEnabled => firewall::FirewallEnabled.evaluate(output),
            AnyCheck::NftDefaultDeny => firewall::NftDefaultDeny.evaluate(output),
            AnyCheck::IptablesDefaultDeny => firewall::IptablesDefaultDeny.evaluate(output),
            AnyCheck::SecurityUpdatesPending => updates::SecurityUpdatesPending.evaluate(output),
            AnyCheck::SecurityUpdatesPendingDnf => updates::SecurityUpdatesPendingDnf.evaluate(output),
            AnyCheck::AutoUpdatesEnabled => updates::AutoUpdatesEnabled.evaluate(output),
            AnyCheck::CleartextPorts => services::CleartextPorts.evaluate(output),
            AnyCheck::RpcbindDisabled => services::RpcbindDisabled.evaluate(output),
            AnyCheck::Fail2banEnabled => services::Fail2banEnabled.evaluate(output),
            AnyCheck::AuditdEnabled => logging::AuditdEnabled.evaluate(output),
            AnyCheck::SyslogEnabled => logging::SyslogEnabled.evaluate(output),
        }
    }
}

/// Every check that an audit runs, in the order of the report. The checks of one packet-filter
/// backend and the `dnf` check are not among them: they stand on their own.
pub open spec fn registry() -> Seq<AnyCheck> {
    seq![
        AnyCheck::PermitRootLogin,
        AnyCheck::PasswordAuthentication,
        AnyCheck::PermitEmptyPasswords,
        AnyCheck::X11Forwarding,
        AnyCheck::MaxAuthTries,
        AnyCheck::WeakCrypto,
        AnyCheck::NonRootUid0,
        AnyCheck::PassMaxDays,
        AnyCheck::DefaultUmask,
        AnyCheck::ShadowEmptyPassword,
        AnyCheck::Aslr,
        AnyCheck::TcpSyncookies,
        AnyCheck::RpFilter,
        AnyCheck::IpForward,
        AnyCheck::AcceptRedirects,
        AnyCheck::AcceptSourceRoute,
        AnyCheck::FirewallEnabled,
        AnyCheck::SecurityUpdatesPending,
        AnyCheck::AutoUpdatesEnabled,
        AnyCheck::CleartextPorts,
        AnyCheck::RpcbindDisabled,
        AnyCheck::Fail2banEnabled,
        AnyCheck::AuditdEnabled,
        AnyCheck::SyslogEnabled,
    ]
}

/// Every check that an audit runs.
pub fn all_checks() -> (r: Vec<AnyCheck>)
    ensures
        r@ == registry(),
{
    let all = vec![
        AnyCheck::PermitRootLogin,
        AnyCheck::PasswordAuthentication,
        AnyCheck::PermitEmptyPasswords,
        AnyCheck::X11Forwarding,
        AnyCheck::MaxAuthTries,
        AnyCheck::WeakCrypto,
        AnyCheck::NonRootUid0,
        AnyCheck::PassMaxDays,
        AnyCheck::DefaultUmask,
        AnyCheck::ShadowEmptyPassword,
        AnyCheck::Aslr,
        AnyCheck::TcpSyncookies,
        AnyCheck::RpFilter,
        AnyCheck::IpForward,
        AnyCheck::AcceptRedirects,
        AnyCheck::AcceptSourceRoute,
        AnyCheck::FirewallEnabled,
        AnyCheck::SecurityUpdatesPending,
        AnyCheck::AutoUpdatesEnabled,
        AnyCheck::CleartextPorts,
        AnyCheck::RpcbindDisabled,
        AnyCheck::Fail2banEnabled,
        AnyCheck::AuditdEnabled,
        AnyCheck::SyslogEnabled,
    ];
    proof {
        assert(all@ =~= registry());
    }
    all
}

} // verus!
