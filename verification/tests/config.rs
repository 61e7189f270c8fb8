//! Targets, groups and what they resolve to.

use linux_audit_mcp::anomaly::AnomalyConfig;
use linux_audit_mcp::config::{
    Config, ConfigError, Group, HostVars, StrictHostKeyMode, Target,
};
use linux_audit_mcp::health::Thresholds;
use linux_audit_mcp::scoring::Profile;
use linux_audit_mcp::ssh::StrictHostKey;
use linux_audit_mcp::text::path::{expand_tilde, is_same_path};
use linux_audit_mcp::textmap::TextMap;
use std::path::Path;
use toml::Table;

/// A reading in millionths.
fn micros(x: f64) -> i64 {
    (x * 1_000_000.0).round() as i64
}

/// The settings of a table, and what is in it besides.
fn vars(table: &Table) -> HostVars {
    let mut v = HostVars::default();
    for (key, value) in table {
        match key.as_str() {
            "host" | "members" => {}
            "port" => v.port = Some(value.as_integer().unwrap() as u16),
            "user" => v.user = Some(value.as_str().unwrap().to_string()),
            "identity_file" => v.identity_file = Some(value.as_str().unwrap().to_string()),
            "strict_host_key" => {
                v.strict_host_key = Some(match value.as_str().unwrap() {
                    "yes" => StrictHostKeyMode::Yes,
                    "accept-new" => StrictHostKeyMode::AcceptNew,
                    "no" => StrictHostKeyMode::No,
                    other => panic!("strict_host_key {other}"),
                })
            }
            "profile" => v.profile = Profile::parse(value.as_str().unwrap()),
            "privileged" => v.privileged = Some(value.as_bool().unwrap()),
            "health" => {
                let mut t = Thresholds::default();
                for (key, value) in value.as_table().unwrap() {
                    match key.as_str() {
                        "disk_warn_pct" => t.disk_warn_pct = value.as_integer().unwrap() as u8,
                        other => panic!("health.{other}"),
                    }
                }
                v.health = Some(t);
            }
            "anomaly" => {
                let mut a = AnomalyConfig::default();
                for (key, value) in value.as_table().unwrap() {
                    match key.as_str() {
                        "k" => a.k = micros(value.as_float().unwrap()),
                        "min_samples" => a.min_samples = value.as_integer().unwrap() as usize,
                        other => panic!("anomaly.{other}"),
                    }
                }
                v.anomaly = Some(a);
            }
            other => panic!("unknown setting {other}"),
        }
    }
    v
}

fn config(text: &str) -> Config {
    let table: Table = text.parse().unwrap();
    let mut targets = TextMap::new();
    let mut groups = TextMap::new();
    for (section, entries) in &table {
        for (name, entry) in entries.as_table().unwrap() {
            let entry = entry.as_table().unwrap();
            match section.as_str() {
                "targets" => {
                    let host = entry["host"].as_str().unwrap().to_string();
                    targets.insert(name.clone(), Target { host, vars: vars(entry) });
                }
                "groups" => {
                    let members = entry["members"].as_array().unwrap();
                    let members = members
                        .iter()
                        .map(|m| m.as_str().unwrap().to_string())
                        .collect();
                    groups.insert(name.clone(), Group { members, vars: vars(entry) });
                }
                other => panic!("unknown section {other}"),
            }
        }
    }
    Config { targets, groups }
}


#[test]
fn resolves_targets_with_defaults() {
    let cfg = config(
        r#"
        [targets.web]
        host = "192.168.1.10"

        [targets.db]
        host = "10.0.0.5"
        port = 2222
        user = "audit"
        strict_host_key = "yes"
        profile = "hardened"
        "#,
    );

    let web = cfg.resolve("web").unwrap();
    assert_eq!(web.port, 22);
    assert_eq!(web.user, "auditor");
    assert_eq!(web.profile, None);

    let db = cfg.resolve("db").unwrap();
    assert_eq!(db.port, 2222);
    assert_eq!(db.profile, Some(Profile::Hardened));
    let ssh = db.to_ssh_config(None, None);
    assert_eq!(ssh.host, "10.0.0.5");
    assert_eq!(ssh.user, "audit");
    assert_eq!(ssh.strict_host_key, StrictHostKey::Yes);
}

#[test]
fn unknown_target_is_an_error() {
    let cfg = config("[targets.web]\nhost = \"1.1.1.1\"");
    assert!(matches!(
        cfg.resolve("nope"),
        Err(ConfigError::UnknownTarget(_))
    ));
}

#[test]
fn group_vars_are_inherited_and_host_overrides() {
    let cfg = config(
        r#"
        [groups.mtproto]
        user = "root"
        profile = "hardened"
        members = ["web", "mt2"]

        [targets.web]
        host = "1.1.1.1"

        [targets.mt2]
        host = "2.2.2.2"
        user = "audit"
        "#,
    );

    // web inherits user + profile from the group.
    let web = cfg.resolve("web").unwrap();
    assert_eq!(web.user, "root");
    assert_eq!(web.profile, Some(Profile::Hardened));

    // mt2 overrides user, still inherits profile.
    let mt2 = cfg.resolve("mt2").unwrap();
    assert_eq!(mt2.user, "audit");
    assert_eq!(mt2.profile, Some(Profile::Hardened));
}

#[test]
fn conflicting_group_vars_error() {
    let cfg = config(
        r#"
        [groups.a]
        user = "root"
        members = ["web"]
        [groups.b]
        user = "audit"
        members = ["web"]
        [targets.web]
        host = "1.1.1.1"
        "#,
    );
    assert!(matches!(
        cfg.resolve("web"),
        Err(ConfigError::ConflictingGroupVar { .. })
    ));

    // Setting it on the target disambiguates.
    let cfg2 = config(
        r#"
        [groups.a]
        user = "root"
        members = ["web"]
        [groups.b]
        user = "audit"
        members = ["web"]
        [targets.web]
        host = "1.1.1.1"
        user = "ops"
        "#,
    );
    assert_eq!(cfg2.resolve("web").unwrap().user, "ops");
}

#[test]
fn group_membership_and_validation() {
    let cfg = config(
        r#"
        [groups.mtproto]
        members = ["web", "mt2"]
        [targets.web]
        host = "1.1.1.1"
        [targets.mt2]
        host = "2.2.2.2"
        [targets.other]
        host = "3.3.3.3"
        "#,
    );

    assert_eq!(cfg.group_members("mtproto").unwrap(), vec!["web", "mt2"]);
    // implicit `all` = every target, sorted.
    assert_eq!(
        cfg.group_members("all").unwrap(),
        vec!["mt2", "other", "web"]
    );
    assert!(matches!(
        cfg.group_members("nope"),
        Err(ConfigError::UnknownGroup(_))
    ));
}

#[test]
fn group_with_unknown_member_errors() {
    let cfg = config(
        r#"
        [groups.g]
        members = ["web", "ghost"]
        [targets.web]
        host = "1.1.1.1"
        "#,
    );
    assert!(matches!(
        cfg.group_members("g"),
        Err(ConfigError::UnknownMember { .. })
    ));
}

#[test]
fn health_thresholds_parse_and_inherit() {
    // `[targets.x.health]` and `[groups.x.health]` are nested tables inside a
    // flattened HostVars - guard that serde still routes them correctly.
    let cfg = config(
        r#"
        [groups.mtproto]
        members = ["web", "mt2"]
        [groups.mtproto.health]
        disk_warn_pct = 70

        [targets.web]
        host = "1.1.1.1"

        [targets.mt2]
        host = "2.2.2.2"
        [targets.mt2.health]
        disk_warn_pct = 60
        "#,
    );

    // web inherits the group's health thresholds.
    assert_eq!(cfg.resolve("web").unwrap().health.disk_warn_pct, 70);
    // mt2 overrides with its own.
    assert_eq!(cfg.resolve("mt2").unwrap().health.disk_warn_pct, 60);
}

#[test]
fn anomaly_config_parses_and_inherits() {
    let cfg = config(
        r#"
        [groups.prod]
        members = ["web", "db"]
        [groups.prod.anomaly]
        k = 4.0

        [targets.web]
        host = "1.1.1.1"

        [targets.db]
        host = "2.2.2.2"
        [targets.db.anomaly]
        k = 5.0
        min_samples = 20
        "#,
    );

    // web inherits the group's anomaly settings; unset fields keep defaults.
    let web = cfg.resolve("web").unwrap();
    assert_eq!(web.anomaly.k, micros(4.0));
    // unset fields keep their defaults
    assert_eq!(web.anomaly.min_samples, 8);

    // db overrides with its own values.
    let db = cfg.resolve("db").unwrap();
    assert_eq!(db.anomaly.k, micros(5.0));
    assert_eq!(db.anomaly.min_samples, 20);
    // A target with no anomaly table gets the full default (enabled).
    assert!(cfg.resolve("web").unwrap().anomaly.enabled);
}

#[test]
fn privileged_flag_parses_and_inherits() {
    let cfg = config(
        r#"
        [groups.secure]
        members = ["a", "b"]
        privileged = true
        [targets.a]
        host = "1.1.1.1"
        [targets.b]
        host = "2.2.2.2"
        privileged = false
        "#,
    );
    assert!(cfg.resolve("a").unwrap().privileged); // inherited from group
    assert!(!cfg.resolve("b").unwrap().privileged); // host overrides to false

    // Default is false (opt-in).
    let plain = config("[targets.c]\nhost = \"3.3.3.3\"");
    assert!(!plain.resolve("c").unwrap().privileged);
}

#[test]
fn identity_file_override() {
    let cfg = config(
        "[targets.web]\nhost = \"1.1.1.1\"\nidentity_file = \"~/.ssh/audit_ed25519\"",
    );
    let web = cfg.resolve("web").unwrap();
    assert_eq!(web.identity_file.as_deref(), Some("~/.ssh/audit_ed25519"));

    // No override: the target's own (tilde-expanded) path is used.
    let home = Some("/home/me");
    assert_eq!(
        web.to_ssh_config(None, home).identity_file.as_deref(),
        Some("/home/me/.ssh/audit_ed25519")
    );

    // An override wins, so the config stays host-portable.
    let key = Some("/keys/id_ed25519".to_string());
    assert_eq!(web.to_ssh_config(key.clone(), home).identity_file, key);
}

#[test]
fn a_leading_tilde_is_the_home_directory() {
    let home = Some("/home/me");
    assert_eq!(expand_tilde("~/.ssh/id", home), "/home/me/.ssh/id");
    assert_eq!(expand_tilde("~//.ssh/id", home), "/home/me/.ssh/id");
    assert_eq!(expand_tilde("~/.ssh/id", Some("/root/")), "/root/.ssh/id");
    assert_eq!(expand_tilde("~", home), "/home/me/");
    assert_eq!(expand_tilde("~other/id", home), "~other/id");
    assert_eq!(expand_tilde("/keys/~/id", home), "/keys/~/id");
    assert_eq!(expand_tilde("~/.ssh/id", None), "~/.ssh/id");
    assert_eq!(expand_tilde("", home), "");
    // Separators and `.` at either end of what follows do not count.
    assert_eq!(expand_tilde("~/x/", Some("/h")), "/h/x");
    assert_eq!(expand_tilde("~/./x/.", Some("/h")), "/h/x");
    assert_eq!(expand_tilde("~/a/./b//c", Some("/h")), "/h/a/./b//c");
    for path in ["~", "~/", "~/.", "~/x", "~//x/", "~/./x/./", "~/../x", "~/.x/..", "~x", "."] {
        let p = Path::new(path);
        let want = match p.strip_prefix("~") {
            Ok(rest) => Path::new("/h").join(rest).display().to_string(),
            Err(_) => path.to_string(),
        };
        assert_eq!(expand_tilde(path, Some("/h")), want, "{path}");
    }
}

#[test]
fn paths_are_the_same_by_their_components() {
    let paths = [
        "", ".", "/", "//", "/.", "./", "a", "a/", "a/.", "./a", "/a", "//a", "/a/", "a/b", "a//b",
        "a/./b", "a/b/", "./a/b", "a/../b", "../a", "/k/id", "/k//id", "/k/./id", "k/id", ".a", "a.",
    ];
    for a in paths {
        for b in paths {
            assert_eq!(is_same_path(a, b), Path::new(a) == Path::new(b), "{a:?} {b:?}");
        }
    }
}

#[test]
fn groups_may_spell_one_key_path_in_two_ways() {
    let cfg = config(
        r#"
        [groups.b]
        identity_file = "/k//id"
        members = ["web"]
        [groups.a]
        identity_file = "/k/id/"
        members = ["web"]
        [targets.web]
        host = "1.1.1.1"
        "#,
    );
    // The first group by name decides how it is spelled.
    assert_eq!(cfg.resolve("web").unwrap().identity_file.as_deref(), Some("/k/id/"));
    let cfg = config(
        r#"
        [groups.a]
        identity_file = "/k/id"
        members = ["web"]
        [groups.b]
        identity_file = "k/id"
        members = ["web"]
        [targets.web]
        host = "1.1.1.1"
        "#,
    );
    assert!(matches!(
        cfg.resolve("web"),
        Err(ConfigError::ConflictingGroupVar { field, .. }) if field == "identity_file"
    ));
}

#[test]
fn errors_say_what_is_wrong() {
    let cfg = config(
        r#"
        [groups.g]
        members = ["web", "ghost"]
        [groups.none]
        members = []
        [groups.a]
        user = "root"
        members = ["web"]
        [groups.b]
        user = "audit"
        members = ["web"]
        [targets.web]
        host = "1.1.1.1"
        "#,
    );
    let text = |e: ConfigError| e.text();
    assert!(text(cfg.resolve("x").unwrap_err()).contains("\"x\""));
    assert!(text(cfg.group_members("x").unwrap_err()).contains("\"x\""));
    assert!(text(cfg.group_members("none").unwrap_err()).contains("none"));
    let member = text(cfg.group_members("g").unwrap_err());
    assert!(member.contains("ghost") && member.contains('g'), "{member}");
    let conflict = text(cfg.resolve("web").unwrap_err());
    assert!(conflict.contains("web") && conflict.contains("user"), "{conflict}");
}

#[test]
fn agreeing_groups_do_not_conflict() {
    let cfg = config(
        r#"
        [groups.a]
        user = "root"
        members = ["web"]
        [groups.b]
        user = "root"
        port = 2200
        members = ["web"]
        [targets.web]
        host = "1.1.1.1"
        "#,
    );
    let web = cfg.resolve("web").unwrap();
    assert_eq!(web.user, "root");
    assert_eq!(web.port, 2200);
    assert_eq!(web.connect_timeout_secs, 10);
    assert_eq!(web.command_timeout_secs, 30);
    assert_eq!(web.strict_host_key, StrictHostKeyMode::AcceptNew);
    assert_eq!(StrictHostKey::from(StrictHostKeyMode::No), StrictHostKey::No);
}

#[test]
fn a_group_named_all_replaces_the_implicit_one() {
    let cfg = config(
        r#"
        [groups.all]
        members = ["web"]
        [targets.web]
        host = "1.1.1.1"
        [targets.db]
        host = "2.2.2.2"
        "#,
    );
    assert_eq!(cfg.group_members("all").unwrap(), vec!["web"]);
}
