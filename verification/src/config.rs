//! Operator-owned inventory of audit targets and host groups.
//!
//! Sensitive connection details (host, user, key) live here, in a file the
//! operator controls, never in MCP tool arguments. The tools accept only a
//! target *alias* or a *group* name, so a (possibly prompt-injected) model can
//! neither choose an arbitrary host (SSRF) nor point at an arbitrary key file.
//!
//! Inventory model (Ansible-inspired): a `[groups.<name>]` lists `members`
//! (target aliases) and may carry shared vars that its members inherit. Per
//! field, precedence is host value -> group value -> built-in default; a host
//! inheriting the same field from two groups with different values is an error.

use crate::anomaly::{default_anomaly_config, AnomalyConfig};
use crate::health::{default_thresholds, Thresholds};
use crate::scoring::Profile;
use crate::ssh::{SshConfig, SshConfigView, StrictHostKey};
use crate::text::chars::{deep, deep_option, lemma_deep_empty, lemma_deep_push};
use crate::text::debug::{quote, quoted};
use crate::text::order::{ascending, lemma_sorted, sort_texts, sorted};
use crate::text::path::{expand_tilde, expanded, is_same_path, same_path};
use crate::text::search::eq_text;
use crate::text::split::{lemma_filter_map_step, lemma_take_all};
use crate::textmap::{lookup, TextList, TextMap};
use vstd::prelude::*;
use vstd::string::StringExecFns;

verus! {

/// A setting that a host can inherit from a group.
pub trait Setting: View + Sized {
    /// The values do not contradict each other.
    spec fn alike(a: Self::V, b: Self::V) -> bool;

    /// Whether two values are alike.
    fn same(&self, other: &Self) -> (r: bool)
        ensures
            r == Self::alike(self@, other@),
    ;

    /// A value like this one.
    fn duplicate(&self) -> (r: Self)
        ensures
            r@ == self@,
    ;
}

impl Setting for u16 {
    open spec fn alike(a: u16, b: u16) -> bool {
        a == b
    }

    fn same(&self, other: &Self) -> (r: bool) {
        *self == *other
    }

    fn duplicate(&self) -> (r: Self) {
        *self
    }
}

impl Setting for u64 {
    open spec fn alike(a: u64, b: u64) -> bool {
        a == b
    }

    fn same(&self, other: &Self) -> (r: bool) {
        *self == *other
    }

    fn duplicate(&self) -> (r: Self) {
        *self
    }
}

impl Setting for bool {
    open spec fn alike(a: bool, b: bool) -> bool {
        a == b
    }

    fn same(&self, other: &Self) -> (r: bool) {
        *self == *other
    }

    fn duplicate(&self) -> (r: Self) {
        *self
    }
}

impl Setting for String {
    open spec fn alike(a: Seq<char>, b: Seq<char>) -> bool {
        a == b
    }

    fn same(&self, other: &Self) -> (r: bool) {
        eq_text(self.as_str(), other.as_str())
    }

    fn duplicate(&self) -> (r: Self) {
        self.clone()
    }
}

impl Setting for TextList {
    open spec fn alike(a: Seq<Seq<char>>, b: Seq<Seq<char>>) -> bool {
        a == b
    }

    fn same(&self, other: &Self) -> (r: bool) {
        if self.items.len() != other.items.len() {
            proof {
                assert(self@.len() != other@.len());
            }
            return false;
        }
        let mut i: usize = 0;
        while i < self.items.len()
            invariant
                self.items@.len() == other.items@.len(),
                i <= self.items@.len(),
                forall|j: int| 0 <= j < i ==> self@[j] == other@[j],
            decreases self.items@.len() - i,
        {
            if !eq_text(self.items[i].as_str(), other.items[i].as_str()) {
                proof {
                    assert(self@[i as int] != other@[i as int]);
                }
                return false;
            }
            i = i + 1;
        }
        proof {
            assert(self@ =~= other@);
        }
        true
    }

    fn duplicate(&self) -> (r: Self) {
        TextList { items: copy_texts(&self.items) }
    }
}

impl Setting for StrictHostKeyMode {
    open spec fn alike(a: StrictHostKeyMode, b: StrictHostKeyMode) -> bool {
        a == b
    }

    fn same(&self, other: &Self) -> (r: bool) {
        *self == *other
    }

    fn duplicate(&self) -> (r: Self) {
        *self
    }
}

impl Setting for Profile {
    open spec fn alike(a: Profile, b: Profile) -> bool {
        a == b
    }

    fn same(&self, other: &Self) -> (r: bool) {
        *self == *other
    }

    fn duplicate(&self) -> (r: Self) {
        *self
    }
}

impl Setting for Thresholds {
    open spec fn alike(a: Thresholds, b: Thresholds) -> bool {
        a == b
    }

    fn same(&self, other: &Self) -> (r: bool) {
        *self == *other
    }

    fn duplicate(&self) -> (r: Self) {
        *self
    }
}

impl Setting for AnomalyConfig {
    open spec fn alike(a: AnomalyConfig, b: AnomalyConfig) -> bool {
        a == b
    }

    fn same(&self, other: &Self) -> (r: bool) {
        *self == *other
    }

    fn duplicate(&self) -> (r: Self) {
        *self
    }
}

/// The path of a key.
#[derive(Debug, Clone)]
pub struct KeyPath {
    pub text: String,
}

impl View for KeyPath {
    type V = Seq<char>;

    open spec fn view(&self) -> Seq<char> {
        self.text@
    }
}

impl Setting for KeyPath {
    open spec fn alike(a: Seq<char>, b: Seq<char>) -> bool {
        same_path(a, b)
    }

    fn same(&self, other: &Self) -> (r: bool) {
        is_same_path(self.text.as_str(), other.text.as_str())
    }

    fn duplicate(&self) -> (r: Self) {
        KeyPath { text: self.text.clone() }
    }
}

/// Copies texts.
pub fn copy_texts(v: &Vec<String>) -> (r: Vec<String>)
    ensures
        deep(r@) == deep(v@),
{
    broadcast use lemma_deep_empty;

    let mut out: Vec<String> = Vec::new();
    let mut i: usize = 0;
    while i < v.len()
        invariant
            i <= v@.len(),
            deep(out@) == deep(v@).take(i as int),
        decreases v@.len() - i,
    {
        broadcast use lemma_deep_push;

        out.push(v[i].clone());
        proof {
            assert(deep(v@).take(i + 1) == deep(v@).take(i as int).push(deep(v@)[i as int]));
        }
        i = i + 1;
    }
    proof {
        lemma_take_all(deep(v@));
    }
    out
}

#[derive(Debug, Clone, Copy, PartialEq, Eq, Structural)]
pub enum StrictHostKeyMode {
    Yes,
    AcceptNew,
    No,
}

impl View for StrictHostKeyMode {
    type V = StrictHostKeyMode;

    open spec fn view(&self) -> StrictHostKeyMode {
        *self
    }
}

impl Default for StrictHostKeyMode {
    fn default() -> (r: Self)
        ensures
            r == StrictHostKeyMode::AcceptNew,
    {
        StrictHostKeyMode::AcceptNew
    }
}

pub open spec fn ssh_mode(m: StrictHostKeyMode) -> StrictHostKey {
    match m {
        StrictHostKeyMode::Yes => StrictHostKey::Yes,
        StrictHostKeyMode::AcceptNew => StrictHostKey::AcceptNew,
        StrictHostKeyMode::No => StrictHostKey::No,
    }
}

impl From<StrictHostKeyMode> for StrictHostKey {
    fn from(m: StrictHostKeyMode) -> (r: Self) {
        match m {
            StrictHostKeyMode::Yes => StrictHostKey::Yes,
            StrictHostKeyMode::AcceptNew => StrictHostKey::AcceptNew,
            StrictHostKeyMode::No => StrictHostKey::No,
        }
    }
}

impl vstd::std_specs::convert::FromSpecImpl<StrictHostKeyMode> for StrictHostKey {
    open spec fn obeys_from_spec() -> bool {
        true
    }

    open spec fn from_spec(m: StrictHostKeyMode) -> StrictHostKey {
        ssh_mode(m)
    }
}

/// Connection/audit settings shared by targets and groups. Every field is
/// optional so "unset" is distinct from "default", which is what lets a group
/// value fill in for a host that didn't set it.
#[derive(Debug, Clone)]
pub struct HostVars {
    pub port: Option<u16>,
    pub user: Option<String>,
    pub identity_file: Option<String>,
    pub strict_host_key: Option<StrictHostKeyMode>,
    pub connect_timeout_secs: Option<u64>,
    pub command_timeout_secs: Option<u64>,
    pub profile: Option<Profile>,
    pub health: Option<Thresholds>,
    pub anomaly: Option<AnomalyConfig>,
    /// Opt in to privileged (`sudo -n ...`) checks for this target. Requires the
    /// operator to grant NOPASSWD sudo for exactly those commands.
    pub privileged: Option<bool>,
    /// Certificates whose expiry the health snapshot watches.
    pub cert_paths: Option<TextList>,
}

/// The model of [`HostVars`].
pub ghost struct HostVarsView {
    pub port: Option<u16>,
    pub user: Option<Seq<char>>,
    pub identity_file: Option<Seq<char>>,
    pub strict_host_key: Option<StrictHostKeyMode>,
    pub connect_timeout_secs: Option<u64>,
    pub command_timeout_secs: Option<u64>,
    pub profile: Option<Profile>,
    pub health: Option<Thresholds>,
    pub anomaly: Option<AnomalyConfig>,
    pub privileged: Option<bool>,
    pub cert_paths: Option<Seq<Seq<char>>>,
}

impl View for HostVars {
    type V = HostVarsView;

    open spec fn view(&self) -> HostVarsView {
        HostVarsView {
            port: self.port,
            user: deep_option(self.user),
            identity_file: deep_option(self.identity_file),
            strict_host_key: self.strict_host_key,
            connect_timeout_secs: self.connect_timeout_secs,
            command_timeout_secs: self.command_timeout_secs,
            profile: self.profile,
            health: self.health,
            anomaly: self.anomaly,
            privileged: self.privileged,
            cert_paths: deep_option(self.cert_paths),
        }
    }
}

/// Nothing is set.
pub open spec fn no_vars() -> HostVarsView {
    HostVarsView {
        port: None,
        user: None,
        identity_file: None,
        strict_host_key: None,
        connect_timeout_secs: None,
        command_timeout_secs: None,
        profile: None,
        health: None,
        anomaly: None,
        privileged: None,
        cert_paths: None,
    }
}

impl Default for HostVars {
    fn default() -> (r: Self)
        ensures
            r@ == no_vars(),
    {
        HostVars {
            port: None,
            user: None,
            identity_file: None,
            strict_host_key: None,
            connect_timeout_secs: None,
            command_timeout_secs: None,
            profile: None,
            health: None,
            anomaly: None,
            privileged: None,
            cert_paths: None,
        }
    }
}

#[derive(Debug, Clone)]
pub struct Target {
    pub host: String,
    pub vars: HostVars,
}

/// The model of a [`Target`].
pub ghost struct TargetView {
    pub host: Seq<char>,
    pub vars: HostVarsView,
}

impl View for Target {
    type V = TargetView;

    open spec fn view(&self) -> TargetView {
        TargetView { host: self.host@, vars: self.vars@ }
    }
}

#[derive(Debug, Clone)]
pub struct Group {
    pub members: Vec<String>,
    pub vars: HostVars,
}

/// The model of a [`Group`].
pub ghost struct GroupView {
    pub members: Seq<Seq<char>>,
    pub vars: HostVarsView,
}

impl View for Group {
    type V = GroupView;

    open spec fn view(&self) -> GroupView {
        GroupView { members: deep(self.members@), vars: self.vars@ }
    }
}

#[derive(Debug, Clone)]
pub struct Config {
    pub targets: TextMap<Target>,
    pub groups: TextMap<Group>,
}

/// The model of a [`Config`].
pub ghost struct ConfigView {
    pub targets: Seq<(Seq<char>, TargetView)>,
    pub groups: Seq<(Seq<char>, GroupView)>,
}

impl View for Config {
    type V = ConfigView;

    open spec fn view(&self) -> ConfigView {
        ConfigView { targets: self.targets@, groups: self.groups@ }
    }
}

/// A target with every field resolved (host + inherited group vars + defaults).
#[derive(Debug, Clone)]
pub struct ResolvedTarget {
    pub host: String,
    pub port: u16,
    pub user: String,
    pub identity_file: Option<String>,
    pub strict_host_key: StrictHostKeyMode,
    pub connect_timeout_secs: u64,
    pub command_timeout_secs: u64,
    pub profile: Option<Profile>,
    pub health: Thresholds,
    pub anomaly: AnomalyConfig,
    pub privileged: bool,
    pub cert_paths: Vec<String>,
}

/// The model of a [`ResolvedTarget`].
pub ghost struct ResolvedTargetView {
    pub host: Seq<char>,
    pub port: u16,
    pub user: Seq<char>,
    pub identity_file: Option<Seq<char>>,
    pub strict_host_key: StrictHostKeyMode,
    pub connect_timeout_secs: u64,
    pub command_timeout_secs: u64,
    pub profile: Option<Profile>,
    pub health: Thresholds,
    pub anomaly: AnomalyConfig,
    pub privileged: bool,
    pub cert_paths: Seq<Seq<char>>,
}

impl View for ResolvedTarget {
    type V = ResolvedTargetView;

    open spec fn view(&self) -> ResolvedTargetView {
        ResolvedTargetView {
            host: self.host@,
            port: self.port,
            user: self.user@,
            identity_file: deep_option(self.identity_file),
            strict_host_key: self.strict_host_key,
            connect_timeout_secs: self.connect_timeout_secs,
            command_timeout_secs: self.command_timeout_secs,
            profile: self.profile,
            health: self.health,
            anomaly: self.anomaly,
            privileged: self.privileged,
            cert_paths: deep(self.cert_paths@),
        }
    }
}

/// The connection parameters of a resolved target.
pub open spec fn ssh_config_of(
    t: ResolvedTargetView,
    override_key: Option<Seq<char>>,
    home: Option<Seq<char>>,
) -> SshConfigView {
    SshConfigView {
        host: t.host,
        port: t.port,
        user: t.user,
        identity_file: match override_key {
            Some(k) => Some(k),
            None => match t.identity_file {
                Some(path) => Some(expanded(path, home)),
                None => None,
            },
        },
        connect_timeout: t.connect_timeout_secs,
        command_timeout: t.command_timeout_secs,
        strict_host_key: ssh_mode(t.strict_host_key),
        known_hosts: None,
        extra_opts: Seq::empty(),
    }
}

impl ResolvedTarget {
    /// The connection parameters. `override_key` replaces the key path of every target, so
    /// the config file stays host-portable (a container recipe points the tool at the
    /// in-container mount). In the target's own key path a leading `~` stands for `home`.
    pub fn to_ssh_config(&self, override_key: Option<String>, home: Option<&str>) -> (r: SshConfig)
        ensures
            r@ == ssh_config_of(self@, deep_option(override_key), deep_option(home)),
    {
        broadcast use lemma_deep_empty;

        let identity_file = match override_key {
            Some(k) => Some(k),
            None => match &self.identity_file {
                Some(path) => Some(expand_tilde(path.as_str(), home)),
                None => None,
            },
        };
        SshConfig {
            host: self.host.clone(),
            port: self.port,
            user: self.user.clone(),
            identity_file,
            connect_timeout: self.connect_timeout_secs,
            command_timeout: self.command_timeout_secs,
            strict_host_key: StrictHostKey::from(self.strict_host_key),
            known_hosts: None,
            extra_opts: Vec::new(),
        }
    }
}

#[derive(Debug, Clone)]
pub enum ConfigError {
    Read { path: String, source: String },
    Parse(String),
    UnknownTarget(String),
    UnknownGroup(String),
    EmptyGroup(String),
    UnknownMember { group: String, member: String },
    ConflictingGroupVar { target: String, field: String },
}

/// The model of a [`ConfigError`].
pub enum ConfigErrorView {
    Read { path: Seq<char>, source: Seq<char> },
    Parse(Seq<char>),
    UnknownTarget(Seq<char>),
    UnknownGroup(Seq<char>),
    EmptyGroup(Seq<char>),
    UnknownMember { group: Seq<char>, member: Seq<char> },
    ConflictingGroupVar { target: Seq<char>, field: Seq<char> },
}

impl View for ConfigError {
    type V = ConfigErrorView;

    open spec fn view(&self) -> ConfigErrorView {
        match self {
            ConfigError::Read { path, source } => ConfigErrorView::Read {
                path: path@,
                source: source@,
            },
            ConfigError::Parse(e) => ConfigErrorView::Parse(e@),
            ConfigError::UnknownTarget(t) => ConfigErrorView::UnknownTarget(t@),
            ConfigError::UnknownGroup(g) => ConfigErrorView::UnknownGroup(g@),
            ConfigError::EmptyGroup(g) => ConfigErrorView::EmptyGroup(g@),
            ConfigError::UnknownMember { group, member } => ConfigErrorView::UnknownMember {
                group: group@,
                member: member@,
            },
            ConfigError::ConflictingGroupVar { target, field } => {
                ConfigErrorView::ConflictingGroupVar { target: target@, field: field@ }
            },
        }
    }
}

/// The message for an operator.
pub open spec fn config_error_text(e: ConfigErrorView) -> Seq<char> {
    match e {
        ConfigErrorView::Read { path, source } => "cannot read config "@ + path + ": "@ + source,
        ConfigErrorView::Parse(m) => "invalid config: "@ + m,
        ConfigErrorView::UnknownTarget(t) => "unknown target "@ + quoted(t),
        ConfigErrorView::UnknownGroup(g) => "unknown group "@ + quoted(g),
        ConfigErrorView::EmptyGroup(g) => "group "@ + quoted(g) + " has no members"@,
        ConfigErrorView::UnknownMember { group, member } => "group "@ + quoted(group)
            + " lists unknown target "@ + quoted(member),
        ConfigErrorView::ConflictingGroupVar { target, field } => "target "@ + quoted(target)
            + " inherits conflicting "@ + quoted(field)
            + " from two groups; set it on the target to disambiguate"@,
    }
}

impl ConfigError {
    /// The message for an operator.
    pub fn text(&self) -> (r: String)
        ensures
            r@ == config_error_text(self@),
    {
        match self {
            ConfigError::Read { path, source } => {
                let mut s = "cannot read config ".to_string();
                s.append(path.as_str());
                s.append(": ");
                s.append(source.as_str());
                s
            },
            ConfigError::Parse(m) => {
                let mut s = "invalid config: ".to_string();
                s.append(m.as_str());
                s
            },
            ConfigError::UnknownTarget(t) => {
                let mut s = "unknown target ".to_string();
                s.append(quote(t.as_str()).as_str());
                s
            },
            ConfigError::UnknownGroup(g) => {
                let mut s = "unknown group ".to_string();
                s.append(quote(g.as_str()).as_str());
                s
            },
            ConfigError::EmptyGroup(g) => {
                let mut s = "group ".to_string();
                s.append(quote(g.as_str()).as_str());
                s.append(" has no members");
                s
            },
            ConfigError::UnknownMember { group, member } => {
                let mut s = "group ".to_string();
                s.append(quote(group.as_str()).as_str());
                s.append(" lists unknown target ");
                s.append(quote(member.as_str()).as_str());
                s
            },
            ConfigError::ConflictingGroupVar { target, field } => {
                let mut s = "target ".to_string();
                s.append(quote(target.as_str()).as_str());
                s.append(" inherits conflicting ");
                s.append(quote(field.as_str()).as_str());
                s.append(" from two groups; set it on the target to disambiguate");
                s
            },
        }
    }
}

/// What the groups say of one field: nothing, one value, or values that differ.
pub enum Verdict<V> {
    Agreed(Option<V>),
    Conflict,
}

/// Values are alike where they are equal.
pub open spec fn equal<V>() -> spec_fn(V, V) -> bool {
    |a: V, b: V| a == b
}

/// Paths are alike where they have the same components.
pub open spec fn equal_path() -> spec_fn(Seq<char>, Seq<char>) -> bool {
    |a: Seq<char>, b: Seq<char>| same_path(a, b)
}

/// What the groups agree on: the first value, if all the others are like it.
pub open spec fn agreed<V>(values: Seq<Option<V>>, alike: spec_fn(V, V) -> bool) -> Verdict<V>
    decreases values.len(),
{
    if values.len() == 0 {
        Verdict::Agreed(None)
    } else {
        match (agreed(values.drop_last(), alike), values.last()) {
            (Verdict::Conflict, _) => Verdict::Conflict,
            (Verdict::Agreed(found), None) => Verdict::Agreed(found),
            (Verdict::Agreed(None), Some(v)) => Verdict::Agreed(Some(v)),
            (Verdict::Agreed(Some(w)), Some(v)) => if alike(w, v) {
                Verdict::Agreed(Some(w))
            } else {
                Verdict::Conflict
            },
        }
    }
}

/// One field: the host's own value, else what its groups agree on.
pub open spec fn inherited<V>(
    own: Option<V>,
    values: Seq<Option<V>>,
    alike: spec_fn(V, V) -> bool,
) -> Verdict<V> {
    match own {
        Some(v) => Verdict::Agreed(Some(v)),
        None => agreed(values, alike),
    }
}

/// The names of the groups that list an alias, in order.
pub open spec fn group_names(groups: Seq<(Seq<char>, GroupView)>, alias: Seq<char>) -> Seq<
    Seq<char>,
> {
    sorted(
        groups.filter_map(
            |g: (Seq<char>, GroupView)|
                if g.1.members.contains(alias) {
                    Some(g.0)
                } else {
                    None
                },
        ),
    )
}

/// The settings of a group.
pub open spec fn vars_of(groups: Seq<(Seq<char>, GroupView)>, name: Seq<char>) -> Option<
    HostVarsView,
> {
    match lookup(groups, name) {
        Some(g) => Some(g.vars),
        None => None,
    }
}

/// The settings of the groups that list an alias, in the order of the groups' names.
pub open spec fn group_vars(groups: Seq<(Seq<char>, GroupView)>, alias: Seq<char>) -> Seq<
    HostVarsView,
> {
    group_names(groups, alias).filter_map(|name: Seq<char>| vars_of(groups, name))
}

pub open spec fn conflict(alias: Seq<char>, field: Seq<char>) -> Result<
    ResolvedTargetView,
    ConfigErrorView,
> {
    Err(ConfigErrorView::ConflictingGroupVar { target: alias, field })
}

pub open spec fn or_else<V>(found: Option<V>, default: V) -> V {
    match found {
        Some(v) => v,
        None => default,
    }
}

/// A field as the host and its groups set it.
pub open spec fn field_of<V>(
    own: HostVarsView,
    groups: Seq<HostVarsView>,
    pick: spec_fn(HostVarsView) -> Option<V>,
    alike: spec_fn(V, V) -> bool,
) -> Verdict<V> {
    inherited(pick(own), groups.map_values(pick), alike)
}

/// The fields whose groups disagree, looked for in a fixed order.
pub open spec fn first_conflict(own: HostVarsView, g: Seq<HostVarsView>) -> Option<Seq<char>> {
    if field_of(own, g, |h: HostVarsView| h.port, equal()) is Conflict {
        Some("port"@)
    } else if field_of(own, g, |h: HostVarsView| h.user, equal()) is Conflict {
        Some("user"@)
    } else if field_of(own, g, |h: HostVarsView| h.identity_file, equal_path()) is Conflict {
        Some("identity_file"@)
    } else if field_of(own, g, |h: HostVarsView| h.strict_host_key, equal()) is Conflict {
        Some("strict_host_key"@)
    } else if field_of(own, g, |h: HostVarsView| h.connect_timeout_secs, equal()) is Conflict {
        Some("connect_timeout_secs"@)
    } else if field_of(own, g, |h: HostVarsView| h.command_timeout_secs, equal()) is Conflict {
        Some("command_timeout_secs"@)
    } else if field_of(own, g, |h: HostVarsView| h.profile, equal()) is Conflict {
        Some("profile"@)
    } else if field_of(own, g, |h: HostVarsView| h.health, equal()) is Conflict {
        Some("health"@)
    } else if field_of(own, g, |h: HostVarsView| h.anomaly, equal()) is Conflict {
        Some("anomaly"@)
    } else if field_of(own, g, |h: HostVarsView| h.privileged, equal()) is Conflict {
        Some("privileged"@)
    } else if field_of(own, g, |h: HostVarsView| h.cert_paths, equal()) is Conflict {
        Some("cert_paths"@)
    } else {
        None
    }
}

/// The value of a field whose groups do not disagree.
pub open spec fn settled<V>(v: Verdict<V>) -> Option<V> {
    match v {
        Verdict::Agreed(found) => found,
        Verdict::Conflict => None,
    }
}

/// A target with every field resolved: host value, else group value, else default.
pub open spec fn effective(t: TargetView, g: Seq<HostVarsView>) -> ResolvedTargetView {
    let own = t.vars;
    ResolvedTargetView {
        host: t.host,
        port: or_else(settled(field_of(own, g, |h: HostVarsView| h.port, equal())), 22),
        user: or_else(settled(field_of(own, g, |h: HostVarsView| h.user, equal())), "auditor"@),
        identity_file: settled(field_of(own, g, |h: HostVarsView| h.identity_file, equal_path())),
        strict_host_key: or_else(
            settled(field_of(own, g, |h: HostVarsView| h.strict_host_key, equal())),
            StrictHostKeyMode::AcceptNew,
        ),
        connect_timeout_secs: or_else(
            settled(field_of(own, g, |h: HostVarsView| h.connect_timeout_secs, equal())),
            10,
        ),
        command_timeout_secs: or_else(
            settled(field_of(own, g, |h: HostVarsView| h.command_timeout_secs, equal())),
            30,
        ),
        profile: settled(field_of(own, g, |h: HostVarsView| h.profile, equal())),
        health: or_else(
            settled(field_of(own, g, |h: HostVarsView| h.health, equal())),
            default_thresholds(),
        ),
        anomaly: or_else(
            settled(field_of(own, g, |h: HostVarsView| h.anomaly, equal())),
            default_anomaly_config(),
        ),
        privileged: or_else(settled(field_of(own, g, |h: HostVarsView| h.privileged, equal())), false),
        cert_paths: or_else(
            settled(field_of(own, g, |h: HostVarsView| h.cert_paths, equal())),
            Seq::empty(),
        ),
    }
}

/// What an alias resolves to.
pub open spec fn resolution(c: ConfigView, alias: Seq<char>) -> Result<
    ResolvedTargetView,
    ConfigErrorView,
> {
    match lookup(c.targets, alias) {
        None => Err(ConfigErrorView::UnknownTarget(alias)),
        Some(t) => {
            let g = group_vars(c.groups, alias);
            match first_conflict(t.vars, g) {
                Some(field) => conflict(alias, field),
                None => Ok(effective(t, g)),
            }
        },
    }
}

/// Resolves one field: the host's own value, else the single group value among
/// the target's groups, else `None`. Two groups disagreeing is an error.
fn inherit<T: Setting, F: Fn(&HostVars) -> Option<T>>(
    own: &HostVars,
    groups: &Vec<&HostVars>,
    pick: F,
    field: &str,
    alias: &str,
    Ghost(picked): Ghost<spec_fn(HostVarsView) -> Option<T::V>>,
    Ghost(alike): Ghost<spec_fn(T::V, T::V) -> bool>,
) -> (r: Result<Option<T>, ConfigError>)
    requires
        forall|a: T::V, b: T::V| #[trigger] alike(a, b) == T::alike(a, b),
        forall|h: &HostVars| call_requires(pick, (h,)),
        forall|h: &HostVars, o: Option<T>|
            call_ensures(pick, (h,), o) ==> deep_option(o) == picked(h@),
    ensures
        match r {
            Ok(v) => field_of(own@, deep(groups@), picked, alike) == Verdict::Agreed(
                deep_option(v),
            ),
            Err(e) => field_of(own@, deep(groups@), picked, alike) is Conflict && e@
                == (ConfigErrorView::ConflictingGroupVar { target: alias@, field: field@ }),
        },
{
    match pick(own) {
        Some(v) => {
            return Ok(Some(v));
        },
        None => {},
    }
    let ghost values = deep(groups@).map_values(picked);
    let mut found: Option<T> = None;
    let mut i: usize = 0;
    while i < groups.len()
        invariant
            i <= groups@.len(),
            picked(own@).is_none(),
            values == deep(groups@).map_values(picked),
            agreed(values.take(i as int), alike) == Verdict::Agreed(deep_option(found)),
            forall|a: T::V, b: T::V| #[trigger] alike(a, b) == T::alike(a, b),
            forall|h: &HostVars| call_requires(pick, (h,)),
            forall|h: &HostVars, o: Option<T>|
                call_ensures(pick, (h,), o) ==> deep_option(o) == picked(h@),
        decreases groups@.len() - i,
    {
        proof {
            assert(values.take(i + 1).drop_last() == values.take(i as int));
            assert(values.take(i + 1).last() == picked(groups@[i as int]@));
        }
        match pick(groups[i]) {
            Some(v) => {
                let clash = match &found {
                    Some(w) => {
                        proof {
                            assert(alike(w@, v@) == T::alike(w@, v@));
                        }
                        !w.same(&v)
                    },
                    None => false,
                };
                if clash {
                    proof {
                        assert(agreed(values.take(i + 1), alike) is Conflict);
                        lemma_conflict_stays(values, i + 1, alike);
                    }
                    return Err(
                        ConfigError::ConflictingGroupVar {
                            target: alias.to_string(),
                            field: field.to_string(),
                        },
                    );
                }
                if found.is_none() {
                    found = Some(v);
                }
            },
            None => {},
        }
        i = i + 1;
    }
    proof {
        lemma_take_all(values);
    }
    Ok(found)
}

proof fn lemma_conflict_stays<V>(
    values: Seq<Option<V>>,
    i: int,
    alike: spec_fn(V, V) -> bool,
)
    requires
        0 <= i <= values.len(),
        agreed(values.take(i), alike) is Conflict,
    ensures
        agreed(values, alike) is Conflict,
    decreases values.len(),
{
    if i < values.len() {
        assert(values.drop_last().take(i) == values.take(i));
        lemma_conflict_stays(values.drop_last(), i, alike);
    } else {
        lemma_take_all(values);
    }
}

pub fn lists(members: &Vec<String>, alias: &str) -> (r: bool)
    ensures
        r == deep(members@).contains(alias@),
{
    let mut i: usize = 0;
    while i < members.len()
        invariant
            i <= members@.len(),
            forall|j: int| 0 <= j < i ==> deep(members@)[j] != alias@,
        decreases members@.len() - i,
    {
        if eq_text(members[i].as_str(), alias) {
            proof {
                assert(deep(members@)[i as int] == alias@);
            }
            return true;
        }
        i = i + 1;
    }
    false
}

fn duplicate_option<T: Setting>(o: &Option<T>) -> (r: Option<T>)
    ensures
        deep_option(r) == deep_option(*o),
{
    match o {
        Some(v) => Some(v.duplicate()),
        None => None,
    }
}

/// What the members of a group come to.
pub open spec fn membership(c: ConfigView, name: Seq<char>) -> Result<
    Seq<Seq<char>>,
    ConfigErrorView,
> {
    match lookup(c.groups, name) {
        None => if name == "all"@ {
            Ok(sorted(c.targets.map_values(|t: (Seq<char>, TargetView)| t.0)))
        } else {
            Err(ConfigErrorView::UnknownGroup(name))
        },
        Some(g) => match first_stranger(c, g.members) {
            Some(member) => Err(ConfigErrorView::UnknownMember { group: name, member }),
            None => if g.members.len() == 0 {
                Err(ConfigErrorView::EmptyGroup(name))
            } else {
                Ok(g.members)
            },
        },
    }
}

/// The first member that is no target.
pub open spec fn first_stranger(c: ConfigView, members: Seq<Seq<char>>) -> Option<Seq<char>>
    decreases members.len(),
{
    if members.len() == 0 {
        None
    } else if lookup(c.targets, members[0]).is_none() {
        Some(members[0])
    } else {
        first_stranger(c, members.skip(1))
    }
}

impl Config {
    fn names_listing(&self, alias: &str) -> (r: Vec<String>)
        ensures
            deep(r@) == group_names(self@.groups, alias@),
    {
        broadcast use lemma_deep_empty;

        let ghost name = alias@;
        let ghost f = |g: (Seq<char>, GroupView)|
            if g.1.members.contains(name) {
                Some(g.0)
            } else {
                None
            };
        let mut out: Vec<String> = Vec::new();
        let mut i: usize = 0;
        while i < self.groups.entries.len()
            invariant
                i <= self.groups.entries@.len(),
                name == alias@,
                f == |g: (Seq<char>, GroupView)|
                    if g.1.members.contains(name) {
                        Some(g.0)
                    } else {
                        None
                    },
                deep(out@) == self@.groups.take(i as int).filter_map(f),
            decreases self.groups.entries@.len() - i,
        {
            broadcast use lemma_deep_push;

            proof {
                lemma_filter_map_step(self@.groups, f, i as int);
            }
            let group = &self.groups.entries[i].1;
            if lists(&group.members, alias) {
                out.push(self.groups.entries[i].0.clone());
            }
            i = i + 1;
        }
        proof {
            lemma_take_all(self@.groups);
        }
        sort_texts(out)
    }

    fn groups_of<'a>(&'a self, alias: &str) -> (r: Vec<&'a HostVars>)
        ensures
            deep(r@) == group_vars(self@.groups, alias@),
    {
        broadcast use lemma_deep_empty;

        let names = self.names_listing(alias);
        let ghost all = deep(names@);
        let ghost groups = self@.groups;
        let ghost f = |name: Seq<char>| vars_of(groups, name);
        let mut out: Vec<&'a HostVars> = Vec::new();
        let mut i: usize = 0;
        while i < names.len()
            invariant
                i <= names@.len(),
                all == deep(names@),
                groups == self@.groups,
                f == |name: Seq<char>| vars_of(groups, name),
                deep(out@) == all.take(i as int).filter_map(f),
            decreases names@.len() - i,
        {
            broadcast use lemma_deep_push;

            proof {
                lemma_filter_map_step(all, f, i as int);
            }
            match self.groups.get(names[i].as_str()) {
                Some(group) => {
                    out.push(&group.vars);
                },
                None => {},
            }
            i = i + 1;
        }
        proof {
            lemma_take_all(all);
        }
        out
    }

    /// Resolves a target alias into effective settings (host + group vars + defaults).
    pub fn resolve(&self, alias: &str) -> (r: Result<ResolvedTarget, ConfigError>)
        ensures
            match r {
                Ok(t) => resolution(self@, alias@) == Ok::<ResolvedTargetView, ConfigErrorView>(
                    t@,
                ),
                Err(e) => resolution(self@, alias@) == Err::<ResolvedTargetView, ConfigErrorView>(
                    e@,
                ),
            },
    {
        broadcast use lemma_deep_empty;

        let target = match self.targets.get(alias) {
            Some(t) => t,
            None => {
                return Err(ConfigError::UnknownTarget(alias.to_string()));
            },
        };
        let groups = self.groups_of(alias);
        let own = &target.vars;
        let pick_port = |h: &HostVars| -> (o: Option<u16>)
            ensures
                deep_option(o) == h@.port,
            { h.port };
        let port: Option<u16> = match inherit(
            own,
            &groups,
            pick_port,
            "port",
            alias,
            Ghost(|h: HostVarsView| h.port),
            Ghost(equal()),
        ) {
            Ok(v) => v,
            Err(e) => {
                return Err(e);
            },
        };
        let pick_user = |h: &HostVars| -> (o: Option<String>)
            ensures
                deep_option(o) == h@.user,
            { duplicate_option(&h.user) };
        let user: Option<String> = match inherit(
            own,
            &groups,
            pick_user,
            "user",
            alias,
            Ghost(|h: HostVarsView| h.user),
            Ghost(equal()),
        ) {
            Ok(v) => v,
            Err(e) => {
                return Err(e);
            },
        };
        let pick_key = |h: &HostVars| -> (o: Option<KeyPath>)
            ensures
                deep_option(o) == h@.identity_file,
            {
                match &h.identity_file {
                    Some(path) => Some(KeyPath { text: path.clone() }),
                    None => None,
                }
            };
        let key: Option<KeyPath> = match inherit(
            own,
            &groups,
            pick_key,
            "identity_file",
            alias,
            Ghost(|h: HostVarsView| h.identity_file),
            Ghost(equal_path()),
        ) {
            Ok(v) => v,
            Err(e) => {
                return Err(e);
            },
        };
        let identity_file: Option<String> = match key {
            Some(path) => Some(path.text),
            None => None,
        };
        let pick_mode = |h: &HostVars| -> (o: Option<StrictHostKeyMode>)
            ensures
                deep_option(o) == h@.strict_host_key,
            { h.strict_host_key };
        let strict_host_key: Option<StrictHostKeyMode> = match inherit(
            own,
            &groups,
            pick_mode,
            "strict_host_key",
            alias,
            Ghost(|h: HostVarsView| h.strict_host_key),
            Ghost(equal()),
        ) {
            Ok(v) => v,
            Err(e) => {
                return Err(e);
            },
        };
        let pick_connect = |h: &HostVars| -> (o: Option<u64>)
            ensures
                deep_option(o) == h@.connect_timeout_secs,
            { h.connect_timeout_secs };
        let connect: Option<u64> = match inherit(
            own,
            &groups,
            pick_connect,
            "connect_timeout_secs",
            alias,
            Ghost(|h: HostVarsView| h.connect_timeout_secs),
            Ghost(equal()),
        ) {
            Ok(v) => v,
            Err(e) => {
                return Err(e);
            },
        };
        let pick_command = |h: &HostVars| -> (o: Option<u64>)
            ensures
                deep_option(o) == h@.command_timeout_secs,
            { h.command_timeout_secs };
        let command: Option<u64> = match inherit(
            own,
            &groups,
            pick_command,
            "command_timeout_secs",
            alias,
            Ghost(|h: HostVarsView| h.command_timeout_secs),
            Ghost(equal()),
        ) {
            Ok(v) => v,
            Err(e) => {
                return Err(e);
            },
        };
        let pick_profile = |h: &HostVars| -> (o: Option<Profile>)
            ensures
                deep_option(o) == h@.profile,
            { h.profile };
        let profile: Option<Profile> = match inherit(
            own,
            &groups,
            pick_profile,
            "profile",
            alias,
            Ghost(|h: HostVarsView| h.profile),
            Ghost(equal()),
        ) {
            Ok(v) => v,
            Err(e) => {
                return Err(e);
            },
        };
        let pick_health = |h: &HostVars| -> (o: Option<Thresholds>)
            ensures
                deep_option(o) == h@.health,
            { h.health };
        let health: Option<Thresholds> = match inherit(
            own,
            &groups,
            pick_health,
            "health",
            alias,
            Ghost(|h: HostVarsView| h.health),
            Ghost(equal()),
        ) {
            Ok(v) => v,
            Err(e) => {
                return Err(e);
            },
        };
        let pick_anomaly = |h: &HostVars| -> (o: Option<AnomalyConfig>)
            ensures
                deep_option(o) == h@.anomaly,
            { h.anomaly };
        let anomaly: Option<AnomalyConfig> = match inherit(
            own,
            &groups,
            pick_anomaly,
            "anomaly",
            alias,
            Ghost(|h: HostVarsView| h.anomaly),
            Ghost(equal()),
        ) {
            Ok(v) => v,
            Err(e) => {
                return Err(e);
            },
        };
        let pick_privileged = |h: &HostVars| -> (o: Option<bool>)
            ensures
                deep_option(o) == h@.privileged,
            { h.privileged };
        let privileged: Option<bool> = match inherit(
            own,
            &groups,
            pick_privileged,
            "privileged",
            alias,
            Ghost(|h: HostVarsView| h.privileged),
            Ghost(equal()),
        ) {
            Ok(v) => v,
            Err(e) => {
                return Err(e);
            },
        };
        let pick_certs = |h: &HostVars| -> (o: Option<TextList>)
            ensures
                deep_option(o) == h@.cert_paths,
            { duplicate_option(&h.cert_paths) };
        let certs: Option<TextList> = match inherit(
            own,
            &groups,
            pick_certs,
            "cert_paths",
            alias,
            Ghost(|h: HostVarsView| h.cert_paths),
            Ghost(equal()),
        ) {
            Ok(v) => v,
            Err(e) => {
                return Err(e);
            },
        };
        Ok(
            ResolvedTarget {
                host: target.host.clone(),
                port: match port {
                    Some(v) => v,
                    None => 22,
                },
                user: match user {
                    Some(v) => v,
                    None => "auditor".to_string(),
                },
                identity_file,
                strict_host_key: match strict_host_key {
                    Some(v) => v,
                    None => StrictHostKeyMode::AcceptNew,
                },
                connect_timeout_secs: match connect {
                    Some(v) => v,
                    None => 10,
                },
                command_timeout_secs: match command {
                    Some(v) => v,
                    None => 30,
                },
                profile,
                health: match health {
                    Some(v) => v,
                    None => Thresholds::default(),
                },
                anomaly: match anomaly {
                    Some(v) => v,
                    None => AnomalyConfig::default(),
                },
                privileged: match privileged {
                    Some(v) => v,
                    None => false,
                },
                cert_paths: match certs {
                    Some(v) => v.items,
                    None => Vec::new(),
                },
            },
        )
    }

    fn find_stranger(&self, members: &Vec<String>) -> (r: Option<usize>)
        ensures
            match r {
                Some(i) => i < members@.len() && first_stranger(self@, deep(members@)) == Some(
                    members@[i as int]@,
                ),
                None => first_stranger(self@, deep(members@)).is_none(),
            },
    {
        let ghost all = deep(members@);
        let mut i: usize = 0;
        proof {
            assert(all.skip(0) == all);
        }
        while i < members.len()
            invariant
                i <= members@.len(),
                all == deep(members@),
                first_stranger(self@, all) == first_stranger(self@, all.skip(i as int)),
            decreases members@.len() - i,
        {
            proof {
                assert(all.skip(i as int)[0] == members@[i as int]@);
                assert(all.skip(i as int).skip(1) == all.skip(i + 1));
            }
            if !self.targets.contains_key(members[i].as_str()) {
                return Some(i);
            }
            i = i + 1;
        }
        None
    }

    fn aliases(&self) -> (r: Vec<String>)
        ensures
            deep(r@) == self@.targets.map_values(|t: (Seq<char>, TargetView)| t.0),
    {
        broadcast use lemma_deep_empty;

        let ghost all = self@.targets.map_values(|t: (Seq<char>, TargetView)| t.0);
        let mut out: Vec<String> = Vec::new();
        let mut i: usize = 0;
        while i < self.targets.entries.len()
            invariant
                i <= self.targets.entries@.len(),
                all == self@.targets.map_values(|t: (Seq<char>, TargetView)| t.0),
                deep(out@) == all.take(i as int),
            decreases self.targets.entries@.len() - i,
        {
            broadcast use lemma_deep_push;

            out.push(self.targets.entries[i].0.clone());
            proof {
                assert(all.take(i + 1) == all.take(i as int).push(all[i as int]));
            }
            i = i + 1;
        }
        proof {
            lemma_take_all(all);
        }
        out
    }

    /// The target aliases in a group, validated. The implicit `all` group (unless
    /// defined) is every target. Member order is preserved as declared.
    pub fn group_members(&self, name: &str) -> (r: Result<Vec<String>, ConfigError>)
        ensures
            match r {
                Ok(v) => membership(self@, name@) == Ok::<Seq<Seq<char>>, ConfigErrorView>(
                    deep(v@),
                ),
                Err(e) => membership(self@, name@) == Err::<Seq<Seq<char>>, ConfigErrorView>(e@),
            },
    {
        match self.groups.get(name) {
            None => {
                if eq_text(name, "all") {
                    Ok(sort_texts(self.aliases()))
                } else {
                    Err(ConfigError::UnknownGroup(name.to_string()))
                }
            },
            Some(group) => match self.find_stranger(&group.members) {
                Some(i) => Err(
                    ConfigError::UnknownMember {
                        group: name.to_string(),
                        member: group.members[i].clone(),
                    },
                ),
                None => {
                    if group.members.len() == 0 {
                        Err(ConfigError::EmptyGroup(name.to_string()))
                    } else {
                        Ok(copy_texts(&group.members))
                    }
                },
            },
        }
    }
}

/// The host's own value always counts, whatever its groups say.
pub proof fn law_host_overrides_groups<V>(
    v: V,
    values: Seq<Option<V>>,
    alike: spec_fn(V, V) -> bool,
)
    ensures
        inherited(Some(v), values, alike) == Verdict::Agreed(Some(v)),
{
}

/// To be alike is an equivalence.
pub open spec fn equivalence<V>(alike: spec_fn(V, V) -> bool) -> bool {
    &&& forall|a: V| #[trigger] alike(a, a)
    &&& forall|a: V, b: V| #[trigger] alike(a, b) ==> alike(b, a)
    &&& forall|a: V, b: V, c: V|
        #[trigger] alike(a, b) && #[trigger] alike(b, c) ==> alike(a, c)
}

/// Values are compared by an equivalence, whether they are paths or not.
pub proof fn law_alike_is_an_equivalence<V>()
    ensures
        equivalence(equal::<V>()),
        equivalence(equal_path()),
{
}

/// Two groups that set a field to different values make a conflict, unless the host sets
/// it; and nothing else makes one.
pub proof fn law_conflict_iff_groups_differ<V>(
    values: Seq<Option<V>>,
    alike: spec_fn(V, V) -> bool,
)
    requires
        equivalence(alike),
    ensures
        agreed(values, alike) is Conflict <==> exists|i: int, j: int|
            0 <= i < values.len() && 0 <= j < values.len() && (#[trigger] values[i]).is_some() && (
            #[trigger] values[j]).is_some() && !alike(values[i]->0, values[j]->0),
        agreed(values, alike) matches Verdict::Agreed(Some(v)) ==> (exists|i: int|
            0 <= i < values.len() && #[trigger] values[i] == Some(v)) && (forall|i: int|
            0 <= i < values.len() && (#[trigger] values[i]).is_some() ==> alike(
                v,
                values[i]->0,
            )),
        agreed(values, alike) == Verdict::Agreed(None::<V>) <==> forall|i: int|
            0 <= i < values.len() ==> (#[trigger] values[i]).is_none(),
    decreases values.len(),
{
    if values.len() > 0 {
        let rest = values.drop_last();
        let n = values.len() - 1;
        law_conflict_iff_groups_differ(rest, alike);
        assert forall|i: int| 0 <= i < n implies #[trigger] values[i] == rest[i] by {}
        assert(values[n] == values.last());
        match agreed(rest, alike) {
            Verdict::Conflict => {
                let (i, j) = choose|i: int, j: int|
                    0 <= i < rest.len() && 0 <= j < rest.len() && (#[trigger] rest[i]).is_some() && (
                    #[trigger] rest[j]).is_some() && !alike(rest[i]->0, rest[j]->0);
                assert(!alike(values[i]->0, values[j]->0));
            },
            Verdict::Agreed(Some(w)) => {
                let i = choose|i: int| 0 <= i < rest.len() && #[trigger] rest[i] == Some(w);
                assert(values[i] == Some(w));
                assert forall|j: int| 0 <= j < n && (#[trigger] values[j]).is_some() implies alike(
                    w,
                    values[j]->0,
                ) by {
                    assert(rest[j].is_some());
                }
                if values[n] is Some && alike(w, values[n]->0) {
                    assert forall|j: int, k: int|
                        0 <= j < values.len() && 0 <= k < values.len() && (
                        #[trigger] values[j]).is_some() && (
                        #[trigger] values[k]).is_some() implies alike(
                        values[j]->0,
                        values[k]->0,
                    ) by {
                        assert(alike(w, values[j]->0));
                        assert(alike(values[j]->0, w));
                        assert(alike(w, values[k]->0));
                    }
                }
                if values[n] is None {
                    assert forall|j: int, k: int|
                        0 <= j < values.len() && 0 <= k < values.len() && (
                        #[trigger] values[j]).is_some() && (
                        #[trigger] values[k]).is_some() implies alike(
                        values[j]->0,
                        values[k]->0,
                    ) by {
                        assert(alike(w, values[j]->0));
                        assert(alike(values[j]->0, w));
                        assert(alike(w, values[k]->0));
                    }
                }
            },
            Verdict::Agreed(None) => {
                if values[n] is Some {
                    let v = values[n]->0;
                    assert(alike(v, v));
                }
            },
        }
    }
}

/// A target that is in no group, and sets nothing, gets the defaults.
pub proof fn law_defaults(t: TargetView)
    requires
        t.vars == no_vars(),
    ensures
        first_conflict(t.vars, Seq::empty()).is_none(),
        ({
            let r = effective(t, Seq::empty());
            &&& r.host == t.host
            &&& r.port == 22
            &&& r.user == "auditor"@
            &&& r.identity_file.is_none()
            &&& r.strict_host_key == StrictHostKeyMode::AcceptNew
            &&& r.connect_timeout_secs == 10
            &&& r.command_timeout_secs == 30
            &&& r.profile.is_none()
            &&& r.health == default_thresholds()
            &&& r.anomaly == default_anomaly_config()
            &&& !r.privileged
            &&& r.cert_paths.len() == 0
        }),
{
}

/// The implicit `all` group lists every target exactly as often as the inventory does, in
/// ascending order.
pub proof fn law_all_is_everyone(c: ConfigView)
    requires
        lookup(c.groups, "all"@).is_none(),
    ensures
        membership(c, "all"@) matches Ok(m) && ascending(m) && m.to_multiset()
            == c.targets.map_values(|t: (Seq<char>, TargetView)| t.0).to_multiset(),
{
    lemma_sorted(c.targets.map_values(|t: (Seq<char>, TargetView)| t.0));
}

/// Whoever a declared group lists is a target, so every member of it can be resolved or
/// fails only for a conflict between groups.
pub proof fn law_members_are_targets(c: ConfigView, name: Seq<char>, i: int)
    requires
        lookup(c.groups, name).is_some(),
        membership(c, name) matches Ok(m) && 0 <= i < m.len(),
    ensures
        membership(c, name) matches Ok(m) && lookup(c.targets, m[i]).is_some(),
{
    let m = lookup(c.groups, name)->0.members;
    lemma_no_stranger(c, m, i);
}

proof fn lemma_no_stranger(c: ConfigView, members: Seq<Seq<char>>, i: int)
    requires
        first_stranger(c, members).is_none(),
        0 <= i < members.len(),
    ensures
        lookup(c.targets, members[i]).is_some(),
    decreases members.len(),
{
    if i > 0 {
        lemma_no_stranger(c, members.skip(1), i - 1);
    }
}

} // verus!
