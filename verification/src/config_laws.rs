//! How what the inventory says of a host reaches the connection to it.

use crate::anomaly::default_anomaly_config;
use crate::anomaly_laws::{lemma_from, lemma_kept};
use crate::config::{
    equal, equal_path, field_of, first_conflict, group_vars, law_alike_is_an_equivalence,
    law_conflict_iff_groups_differ, membership, or_else, resolution, settled, ssh_config_of,
    vars_of, ConfigErrorView, ConfigView, GroupView, HostVarsView, ResolvedTargetView,
    StrictHostKeyMode, Verdict,
};
use crate::health::default_thresholds;
use crate::scoring::Profile;
use crate::ssh::ssh_args;
use crate::text::number::digits;
use crate::text::order::{before, lemma_before_total, lemma_sorted, sorted};
use crate::text::path::{expanded, same_path};
use crate::textmap::{distinct_keys, lemma_slot_is, lookup};
use vstd::prelude::*;

verus! {

/// Group `i` of the inventory lists the host.
pub open spec fn listing(c: ConfigView, alias: Seq<char>, i: int) -> bool {
    0 <= i < c.groups.len() && c.groups[i].1.members.contains(alias)
}

/// A host has the value of a setting: its own, if it has one; else the one that a group which
/// lists it has; else the default.
pub open spec fn has<V>(
    c: ConfigView,
    alias: Seq<char>,
    pick: spec_fn(HostVarsView) -> Option<V>,
    default: V,
    value: V,
) -> bool {
    let own = pick(lookup(c.targets, alias)->0.vars);
    &&& own matches Some(v) ==> value == v
    &&& own is None ==> forall|i: int|
        #[trigger] listing(c, alias, i) ==> (pick(c.groups[i].1.vars) matches Some(v) ==> value
            == v)
    &&& own is None && (forall|i: int| #[trigger]
        listing(c, alias, i) ==> pick(c.groups[i].1.vars) is None) ==> value == default
}

proof fn lemma_listed(c: ConfigView, alias: Seq<char>, i: int) -> (k: int)
    requires
        distinct_keys(c.groups),
        listing(c, alias, i),
    ensures
        0 <= k < group_vars(c.groups, alias).len(),
        group_vars(c.groups, alias)[k] == c.groups[i].1.vars,
{
    broadcast use vstd::seq_lib::group_to_multiset_ensures;

    let groups = c.groups;
    let f = |g: (Seq<char>, GroupView)|
        if g.1.members.contains(alias) {
            Some(g.0)
        } else {
            None
        };
    let names = groups.filter_map(f);
    let name = groups[i].0;
    lemma_kept(groups, f, i);
    lemma_sorted(names);
    let ks = sorted(names);
    assert(names.to_multiset().count(name) > 0);
    assert(ks.contains(name));
    let n = ks.index_of(name);
    lemma_slot_is(groups, name, i);
    let v = |k: Seq<char>| vars_of(groups, k);
    lemma_kept(ks, v, n);
    let all = group_vars(groups, alias);
    assert(all.contains(groups[i].1.vars));
    all.index_of(groups[i].1.vars)
}

proof fn lemma_only_listed(c: ConfigView, alias: Seq<char>, k: int) -> (i: int)
    requires
        distinct_keys(c.groups),
        0 <= k < group_vars(c.groups, alias).len(),
    ensures
        listing(c, alias, i),
        group_vars(c.groups, alias)[k] == c.groups[i].1.vars,
{
    broadcast use vstd::seq_lib::group_to_multiset_ensures;

    let groups = c.groups;
    let f = |g: (Seq<char>, GroupView)|
        if g.1.members.contains(alias) {
            Some(g.0)
        } else {
            None
        };
    let names = groups.filter_map(f);
    lemma_sorted(names);
    let ks = sorted(names);
    let v = |k: Seq<char>| vars_of(groups, k);
    let n = lemma_from(ks, v, k);
    assert(ks.contains(ks[n]));
    assert(ks.to_multiset().count(ks[n]) > 0);
    assert(names.contains(ks[n]));
    let m = names.index_of(ks[n]);
    let i = lemma_from(groups, f, m);
    lemma_slot_is(groups, ks[n], i);
    i
}

proof fn lemma_has<V>(
    c: ConfigView,
    alias: Seq<char>,
    pick: spec_fn(HostVarsView) -> Option<V>,
    default: V,
)
    requires
        distinct_keys(c.groups),
        !(field_of(
            lookup(c.targets, alias)->0.vars,
            group_vars(c.groups, alias),
            pick,
            equal(),
        ) is Conflict),
    ensures
        has(
            c,
            alias,
            pick,
            default,
            or_else(
                settled(
                    field_of(
                        lookup(c.targets, alias)->0.vars,
                        group_vars(c.groups, alias),
                        pick,
                        equal(),
                    ),
                ),
                default,
            ),
        ),
{
    let own = lookup(c.targets, alias)->0.vars;
    let g = group_vars(c.groups, alias);
    let values = g.map_values(pick);
    let verdict = field_of(own, g, pick, equal());
    let value = or_else(settled(verdict), default);
    if pick(own) is None {
        law_alike_is_an_equivalence::<V>();
        law_conflict_iff_groups_differ(values, equal::<V>());
        assert forall|i: int| #[trigger] listing(c, alias, i) implies (pick(
            c.groups[i].1.vars,
        ) matches Some(v) ==> value == v) by {
            let k = lemma_listed(c, alias, i);
            assert(values[k] == pick(c.groups[i].1.vars));
        }
        if forall|i: int| #[trigger]
            listing(c, alias, i) ==> pick(c.groups[i].1.vars) is None {
            assert forall|k: int| 0 <= k < values.len() implies (#[trigger] values[k]).is_none() by {
                let i = lemma_only_listed(c, alias, k);
                assert(listing(c, alias, i));
            }
            assert(verdict == Verdict::Agreed(None::<V>));
        }
    }
}

/// The settings of a host that resolves: each is its own value, else the one of a group that
/// lists it, else the default: port 22, user `auditor`, new host keys accepted, 10 seconds to
/// connect and 30 for a command, no opt-in and no certificates. No two groups that list it
/// disagree on a setting that it has not got itself.
pub proof fn law_settings_are_inherited(c: ConfigView, alias: Seq<char>)
    requires
        distinct_keys(c.groups),
        resolution(c, alias) is Ok,
    ensures
        lookup(c.targets, alias) is Some,
        ({
            let t = resolution(c, alias)->Ok_0;
            &&& t.host == lookup(c.targets, alias)->0.host
            &&& has(c, alias, |h: HostVarsView| h.port, 22u16, t.port)
            &&& has(c, alias, |h: HostVarsView| h.user, "auditor"@, t.user)
            &&& has(
                c,
                alias,
                |h: HostVarsView| h.strict_host_key,
                StrictHostKeyMode::AcceptNew,
                t.strict_host_key,
            )
            &&& has(c, alias, |h: HostVarsView| h.connect_timeout_secs, 10u64, t.connect_timeout_secs)
            &&& has(c, alias, |h: HostVarsView| h.command_timeout_secs, 30u64, t.command_timeout_secs)
            &&& has(c, alias, |h: HostVarsView| h.health, default_thresholds(), t.health)
            &&& has(c, alias, |h: HostVarsView| h.anomaly, default_anomaly_config(), t.anomaly)
            &&& has(c, alias, |h: HostVarsView| h.privileged, false, t.privileged)
            &&& has(
                c,
                alias,
                |h: HostVarsView| h.cert_paths,
                Seq::<Seq<char>>::empty(),
                t.cert_paths,
            )
        }),
{
    let t = lookup(c.targets, alias)->0;
    let g = group_vars(c.groups, alias);
    assert(first_conflict(t.vars, g) is None);
    lemma_has(c, alias, |h: HostVarsView| h.port, 22u16);
    lemma_has(c, alias, |h: HostVarsView| h.user, "auditor"@);
    lemma_has(c, alias, |h: HostVarsView| h.strict_host_key, StrictHostKeyMode::AcceptNew);
    lemma_has(c, alias, |h: HostVarsView| h.connect_timeout_secs, 10u64);
    lemma_has(c, alias, |h: HostVarsView| h.command_timeout_secs, 30u64);
    lemma_has(c, alias, |h: HostVarsView| h.health, default_thresholds());
    lemma_has(c, alias, |h: HostVarsView| h.anomaly, default_anomaly_config());
    lemma_has(c, alias, |h: HostVarsView| h.privileged, false);
    lemma_has(c, alias, |h: HostVarsView| h.cert_paths, Seq::<Seq<char>>::empty());
}

/// A host has the value of a setting that may be missing.
pub open spec fn may_have<V>(
    c: ConfigView,
    alias: Seq<char>,
    pick: spec_fn(HostVarsView) -> Option<V>,
    same: spec_fn(V, V) -> bool,
    value: Option<V>,
) -> bool {
    let own = pick(lookup(c.targets, alias)->0.vars);
    &&& own is Some ==> value == own
    &&& own is None ==> forall|i: int|
        #[trigger] listing(c, alias, i) ==> (pick(c.groups[i].1.vars) matches Some(v) ==> (
        value matches Some(w) && same(w, v)))
    &&& own is None ==> (value matches Some(w) ==> exists|i: int|
        #[trigger] listing(c, alias, i) && pick(c.groups[i].1.vars) == Some(w))
}

proof fn lemma_may_have<V>(
    c: ConfigView,
    alias: Seq<char>,
    pick: spec_fn(HostVarsView) -> Option<V>,
    same: spec_fn(V, V) -> bool,
)
    requires
        distinct_keys(c.groups),
        crate::config::equivalence(same),
        !(field_of(
            lookup(c.targets, alias)->0.vars,
            group_vars(c.groups, alias),
            pick,
            same,
        ) is Conflict),
    ensures
        may_have(
            c,
            alias,
            pick,
            same,
            settled(
                field_of(
                    lookup(c.targets, alias)->0.vars,
                    group_vars(c.groups, alias),
                    pick,
                    same,
                ),
            ),
        ),
{
    let own = lookup(c.targets, alias)->0.vars;
    let g = group_vars(c.groups, alias);
    let values = g.map_values(pick);
    let verdict = field_of(own, g, pick, same);
    let value = settled(verdict);
    if pick(own) is None {
        law_conflict_iff_groups_differ(values, same);
        assert forall|i: int| #[trigger] listing(c, alias, i) implies (pick(
            c.groups[i].1.vars,
        ) matches Some(v) ==> (value matches Some(w) && same(w, v))) by {
            let k = lemma_listed(c, alias, i);
            assert(values[k] == pick(c.groups[i].1.vars));
            if values[k] is Some {
                assert(verdict != Verdict::Agreed(None::<V>));
            }
        }
        if value is Some {
            let w = value->0;
            let k = choose|k: int| 0 <= k < values.len() && #[trigger] values[k] == Some(w);
            let i = lemma_only_listed(c, alias, k);
            assert(listing(c, alias, i) && pick(c.groups[i].1.vars) == Some(w));
        }
    }
}

/// The key and the profile of a host that resolves are its own, else those of a group that lists
/// it, else there are none. Key paths of several groups name the same file.
pub proof fn law_key_and_profile_are_inherited(c: ConfigView, alias: Seq<char>)
    requires
        distinct_keys(c.groups),
        resolution(c, alias) is Ok,
    ensures
        ({
            let t = resolution(c, alias)->Ok_0;
            &&& may_have(
                c,
                alias,
                |h: HostVarsView| h.identity_file,
                |a: Seq<char>, b: Seq<char>| same_path(a, b),
                t.identity_file,
            )
            &&& may_have(
                c,
                alias,
                |h: HostVarsView| h.profile,
                |a: Profile, b: Profile| a == b,
                t.profile,
            )
        }),
{
    let t = lookup(c.targets, alias)->0;
    assert(first_conflict(t.vars, group_vars(c.groups, alias)) is None);
    law_alike_is_an_equivalence::<Profile>();
    lemma_may_have(c, alias, |h: HostVarsView| h.identity_file, equal_path());
    lemma_may_have(c, alias, |h: HostVarsView| h.profile, equal::<Profile>());
}

/// A host that the inventory does not know does not resolve, and one that no group lists always
/// does.
pub proof fn law_known_hosts_resolve(c: ConfigView, alias: Seq<char>)
    ensures
        lookup(c.targets, alias) is None <==> resolution(c, alias)
            == Err::<ResolvedTargetView, ConfigErrorView>(ConfigErrorView::UnknownTarget(alias)),
        distinct_keys(c.groups) && lookup(c.targets, alias) is Some && (forall|i: int|
            !#[trigger] listing(c, alias, i)) ==> resolution(c, alias) is Ok,
{
    if distinct_keys(c.groups) && (forall|i: int| !#[trigger] listing(c, alias, i)) {
        let g = group_vars(c.groups, alias);
        if g.len() > 0 {
            let i = lemma_only_listed(c, alias, 0);
            assert(listing(c, alias, i));
        }
        assert(g =~= Seq::<HostVarsView>::empty());
    }
}

/// What ssh is told of the host-key mode.
pub open spec fn host_key_word(m: StrictHostKeyMode) -> Seq<char> {
    match m {
        StrictHostKeyMode::Yes => "yes"@,
        StrictHostKeyMode::AcceptNew => "accept-new"@,
        StrictHostKeyMode::No => "no"@,
    }
}

/// The settings of a host reach the ssh invocation: it starts with the port, the destination is
/// the user at the host, and the options name the time to connect, the host-key mode and the
/// key. A key that is given for all hosts replaces the host's own, in which `~` stands for the
/// home directory.
pub proof fn law_settings_reach_ssh(
    t: ResolvedTargetView,
    override_key: Option<Seq<char>>,
    home: Option<Seq<char>>,
    command: Seq<char>,
)
    ensures
        ({
            let s = ssh_config_of(t, override_key, home);
            let args = ssh_args(s, s.identity_file, command);
            let key = match override_key {
                Some(k) => Some(k),
                None => match t.identity_file {
                    Some(p) => Some(expanded(p, home)),
                    None => None,
                },
            };
            let n = args.len() as int;
            let d = if key is Some {
                4int
            } else {
                0
            };
            &&& args[0] == "-p"@
            &&& args[1] == digits(t.port as int)
            &&& key matches Some(k) ==> args[2] == "-i"@ && args[3] == k
            &&& args[d + 6] == "-o"@
            &&& args[d + 7] == "ConnectTimeout="@ + digits(t.connect_timeout_secs as int)
            &&& args[d + 8] == "-o"@
            &&& args[d + 9] == "StrictHostKeyChecking="@ + host_key_word(t.strict_host_key)
            &&& args[n - 2] == t.user + "@"@ + t.host
            &&& n == d + 12
            &&& s.command_timeout == t.command_timeout_secs
            &&& s.identity_file == key
        }),
{
}

/// A host that resolves is connected to on the port that it sets, else on the one that a group
/// which lists it sets, else on 22; likewise as the user, where `auditor` is the default.
pub proof fn law_port_and_user_reach_ssh(
    c: ConfigView,
    alias: Seq<char>,
    override_key: Option<Seq<char>>,
    home: Option<Seq<char>>,
    command: Seq<char>,
    i: int,
    port: u16,
    user: Seq<char>,
)
    requires
        distinct_keys(c.groups),
        resolution(c, alias) is Ok,
    ensures
        ({
            let own = lookup(c.targets, alias)->0;
            let s = ssh_config_of(resolution(c, alias)->Ok_0, override_key, home);
            let args = ssh_args(s, s.identity_file, command);
            let n = args.len() as int;
            &&& args[0] == "-p"@
            &&& own.vars.port == Some(port) ==> args[1] == digits(port as int)
            &&& own.vars.port is None && listing(c, alias, i) && c.groups[i].1.vars.port == Some(
                port,
            ) ==> args[1] == digits(port as int)
            &&& own.vars.port is None && (forall|j: int| #[trigger]
                listing(c, alias, j) ==> c.groups[j].1.vars.port is None) ==> args[1] == digits(22)
            &&& own.vars.user == Some(user) ==> args[n - 2] == user + "@"@ + own.host
            &&& own.vars.user is None && listing(c, alias, i) && c.groups[i].1.vars.user == Some(
                user,
            ) ==> args[n - 2] == user + "@"@ + own.host
            &&& own.vars.user is None && (forall|j: int| #[trigger]
                listing(c, alias, j) ==> c.groups[j].1.vars.user is None) ==> args[n - 2]
                == "auditor"@ + "@"@ + own.host
        }),
{
    law_settings_are_inherited(c, alias);
    law_settings_reach_ssh(resolution(c, alias)->Ok_0, override_key, home, command);
}

/// A declared group that resolves gives the members that it declares, in their order; a name
/// that is not declared gives all hosts for `all`, and is refused otherwise.
pub proof fn law_groups_give_their_members(c: ConfigView, name: Seq<char>)
    ensures
        lookup(c.groups, name) matches Some(g) ==> (membership(c, name) matches Ok(m) ==> m
            == g.members && m.len() > 0),
        lookup(c.groups, name) matches Some(g) ==> (g.members.len() == 0 ==> membership(c, name)
            is Err),
        lookup(c.groups, name) matches Some(g) ==> (forall|i: int|
            0 <= i < g.members.len() && lookup(c.targets, #[trigger] g.members[i]) is None
                ==> membership(c, name) is Err),
        lookup(c.groups, name) is None && name != "all"@ ==> membership(c, name) == Err::<
            Seq<Seq<char>>,
            ConfigErrorView,
        >(ConfigErrorView::UnknownGroup(name)),
        lookup(c.groups, name) is None && name == "all"@ ==> (membership(c, name) matches Ok(m)
            && m.len() == c.targets.len()),
{
    lemma_sorted(
        c.targets.map_values(|t: (Seq<char>, crate::config::TargetView)| t.0),
    );
    match lookup(c.groups, name) {
        Some(g) => {
            assert forall|i: int|
                0 <= i < g.members.len() && lookup(c.targets, #[trigger] g.members[i])
                    is None implies membership(c, name) is Err by {
                lemma_stranger(c, g.members, i);
            }
        },
        None => {},
    }
}

/// All hosts are given in the order of their names, each once.
pub proof fn law_all_hosts_are_in_order(c: ConfigView, i: int, j: int)
    requires
        lookup(c.groups, "all"@) is None,
        0 <= i < c.targets.len(),
        0 <= j < c.targets.len(),
    ensures
        membership(c, "all"@) matches Ok(m) && m.len() == c.targets.len() && m.contains(
            c.targets[i].0,
        ) && (i < j ==> !before(m[j], m[i])),
{
    broadcast use vstd::seq_lib::group_to_multiset_ensures;

    let names = c.targets.map_values(|t: (Seq<char>, crate::config::TargetView)| t.0);
    lemma_sorted(names);
    assert(names.contains(names[i]));
    assert(names.to_multiset().count(names[i]) > 0);
    assert(sorted(names).contains(names[i]));
    if i < j {
        let m = sorted(names);
        lemma_before_total(m[i], m[j]);
    }
}

proof fn lemma_stranger(c: ConfigView, members: Seq<Seq<char>>, i: int)
    requires
        0 <= i < members.len(),
        lookup(c.targets, members[i]) is None,
    ensures
        crate::config::first_stranger(c, members) is Some,
    decreases members.len(),
{
    if i > 0 {
        lemma_stranger(c, members.skip(1), i - 1);
    }
}

/// Two groups that list the host differ on a setting that it has not got itself.
pub open spec fn disagree<V>(
    c: ConfigView,
    alias: Seq<char>,
    pick: spec_fn(HostVarsView) -> Option<V>,
    same: spec_fn(V, V) -> bool,
) -> bool {
    &&& lookup(c.targets, alias) is Some
    &&& pick(lookup(c.targets, alias)->0.vars) is None
    &&& exists|i: int, j: int| #[trigger]
        listing(c, alias, i) && #[trigger] listing(c, alias, j) && (pick(
            c.groups[i].1.vars,
        ) matches Some(a) && pick(c.groups[j].1.vars) matches Some(b) && !same(a, b))
}

proof fn lemma_disagree<V>(
    c: ConfigView,
    alias: Seq<char>,
    pick: spec_fn(HostVarsView) -> Option<V>,
    same: spec_fn(V, V) -> bool,
)
    requires
        distinct_keys(c.groups),
        lookup(c.targets, alias) is Some,
        crate::config::equivalence(same),
    ensures
        field_of(
            lookup(c.targets, alias)->0.vars,
            group_vars(c.groups, alias),
            pick,
            same,
        ) is Conflict <==> disagree(c, alias, pick, same),
{
    let own = lookup(c.targets, alias)->0.vars;
    let g = group_vars(c.groups, alias);
    let values = g.map_values(pick);
    law_conflict_iff_groups_differ(values, same);
    if pick(own) is None {
        if field_of(own, g, pick, same) is Conflict {
            let (k, l) = choose|k: int, l: int|
                0 <= k < values.len() && 0 <= l < values.len() && (#[trigger] values[k]).is_some() && (
                #[trigger] values[l]).is_some() && !same(values[k]->0, values[l]->0);
            let i = lemma_only_listed(c, alias, k);
            let j = lemma_only_listed(c, alias, l);
            assert(listing(c, alias, i) && listing(c, alias, j));
            assert(pick(c.groups[i].1.vars) == values[k] && pick(c.groups[j].1.vars) == values[l]);
        }
        if disagree(c, alias, pick, same) {
            let (i, j) = choose|i: int, j: int| #[trigger]
                listing(c, alias, i) && #[trigger] listing(c, alias, j) && (pick(
                    c.groups[i].1.vars,
                ) matches Some(a) && pick(c.groups[j].1.vars) matches Some(b) && !same(a, b));
            let k = lemma_listed(c, alias, i);
            let l = lemma_listed(c, alias, j);
            assert(values[k] == pick(c.groups[i].1.vars) && values[l] == pick(c.groups[j].1.vars));
        }
    }
}

/// Two values are the same.
pub open spec fn same_value<V>() -> spec_fn(V, V) -> bool {
    |a: V, b: V| a == b
}

/// Two paths name the same file.
pub open spec fn same_file() -> spec_fn(Seq<char>, Seq<char>) -> bool {
    |a: Seq<char>, b: Seq<char>| same_path(a, b)
}

/// A host whose groups differ on a setting that it has not got itself is refused, and the first
/// setting of these, in a fixed order, is named; without any such setting, a host that the
/// inventory has resolves.
pub proof fn law_conflicts_are_named(c: ConfigView, alias: Seq<char>)
    requires
        distinct_keys(c.groups),
        lookup(c.targets, alias) is Some,
    ensures
        resolution(c, alias) matches Err(e) ==> e matches ConfigErrorView::ConflictingGroupVar {
            target,
            field,
        } && target == alias,
        ({
            let named = match resolution(c, alias) {
                Err(ConfigErrorView::ConflictingGroupVar { target, field }) => Some(field),
                _ => None,
            };
            named == if disagree(c, alias, |h: HostVarsView| h.port, same_value()) {
                Some("port"@)
            } else if disagree(c, alias, |h: HostVarsView| h.user, same_value()) {
                Some("user"@)
            } else if disagree(c, alias, |h: HostVarsView| h.identity_file, same_file()) {
                Some("identity_file"@)
            } else if disagree(c, alias, |h: HostVarsView| h.strict_host_key, same_value()) {
                Some("strict_host_key"@)
            } else if disagree(c, alias, |h: HostVarsView| h.connect_timeout_secs, same_value()) {
                Some("connect_timeout_secs"@)
            } else if disagree(c, alias, |h: HostVarsView| h.command_timeout_secs, same_value()) {
                Some("command_timeout_secs"@)
            } else if disagree(c, alias, |h: HostVarsView| h.profile, same_value()) {
                Some("profile"@)
            } else if disagree(c, alias, |h: HostVarsView| h.health, same_value()) {
                Some("health"@)
            } else if disagree(c, alias, |h: HostVarsView| h.anomaly, same_value()) {
                Some("anomaly"@)
            } else if disagree(c, alias, |h: HostVarsView| h.privileged, same_value()) {
                Some("privileged"@)
            } else if disagree(c, alias, |h: HostVarsView| h.cert_paths, same_value()) {
                Some("cert_paths"@)
            } else {
                None
            }
        }),
{
    law_alike_is_an_equivalence::<u16>();
    law_alike_is_an_equivalence::<u64>();
    law_alike_is_an_equivalence::<bool>();
    law_alike_is_an_equivalence::<Seq<char>>();
    law_alike_is_an_equivalence::<Seq<Seq<char>>>();
    law_alike_is_an_equivalence::<StrictHostKeyMode>();
    law_alike_is_an_equivalence::<Profile>();
    law_alike_is_an_equivalence::<crate::health::Thresholds>();
    law_alike_is_an_equivalence::<crate::anomaly::AnomalyConfig>();
    lemma_disagree(c, alias, |h: HostVarsView| h.port, equal());
    lemma_disagree(c, alias, |h: HostVarsView| h.user, equal());
    lemma_disagree(c, alias, |h: HostVarsView| h.identity_file, equal_path());
    lemma_disagree(c, alias, |h: HostVarsView| h.strict_host_key, equal());
    lemma_disagree(c, alias, |h: HostVarsView| h.connect_timeout_secs, equal());
    lemma_disagree(c, alias, |h: HostVarsView| h.command_timeout_secs, equal());
    lemma_disagree(c, alias, |h: HostVarsView| h.profile, equal());
    lemma_disagree(c, alias, |h: HostVarsView| h.health, equal());
    lemma_disagree(c, alias, |h: HostVarsView| h.anomaly, equal());
    lemma_disagree(c, alias, |h: HostVarsView| h.privileged, equal());
    lemma_disagree(c, alias, |h: HostVarsView| h.cert_paths, equal());
}

/// A group that lists a host which the inventory has not got is refused by its own name and that
/// of the first such host.
pub proof fn law_strangers_are_named(c: ConfigView, name: Seq<char>, i: int)
    requires
        lookup(c.groups, name) is Some,
        0 <= i < lookup(c.groups, name)->0.members.len(),
        lookup(c.targets, lookup(c.groups, name)->0.members[i]) is None,
        forall|j: int|
            0 <= j < i ==> lookup(c.targets, #[trigger] lookup(c.groups, name)->0.members[j])
                is Some,
    ensures
        membership(c, name) == Err::<Seq<Seq<char>>, ConfigErrorView>(
            ConfigErrorView::UnknownMember {
                group: name,
                member: lookup(c.groups, name)->0.members[i],
            },
        ),
{
    lemma_first_stranger(c, lookup(c.groups, name)->0.members, i);
}

proof fn lemma_first_stranger(c: ConfigView, members: Seq<Seq<char>>, i: int)
    requires
        0 <= i < members.len(),
        lookup(c.targets, members[i]) is None,
        forall|j: int| 0 <= j < i ==> lookup(c.targets, #[trigger] members[j]) is Some,
    ensures
        crate::config::first_stranger(c, members) == Some(members[i]),
    decreases members.len(),
{
    if i > 0 {
        let rest = members.skip(1);
        assert(lookup(c.targets, members[0]) is Some);
        assert forall|j: int| 0 <= j < i - 1 implies lookup(c.targets, #[trigger] rest[j])
            is Some by {
            assert(rest[j] == members[j + 1]);
        }
        lemma_first_stranger(c, rest, i - 1);
    }
}

} // verus!
