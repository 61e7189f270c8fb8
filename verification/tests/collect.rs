//! Collecting a health snapshot.

use linux_audit_mcp::audit::Outputs;
use linux_audit_mcp::catalog::is_allowed;
use linux_audit_mcp::health::collect::{Action, Collector};
use linux_audit_mcp::health::network::net_deltas;
use linux_audit_mcp::health::parse::{
    parse_cert_notafter, parse_readonly_mounts, parse_reboot_required, parse_timedatectl_synced,
};
use linux_audit_mcp::health::snapshot::{
    absorb_probe, cert_command, complete, probe_for, run_single, NetSamples, HEALTH_COMMANDS,
    SINGLE_SHOT,
};
use linux_audit_mcp::health::{HealthStatus, Thresholds, DOCKER_PS, OOM_DMESG, UPTIME};
use linux_audit_mcp::ssh::{SshError, SshOutput};

fn said(stdout: &str) -> Result<SshOutput, SshError> {
    Ok(SshOutput {
        stdout: stdout.to_string(),
        stderr: String::new(),
    })
}

fn failed() -> Result<SshOutput, SshError> {
    Err(SshError::RemoteCommand {
        code: Some(1),
        stdout: "part".to_string(),
        stderr: "no".to_string(),
    })
}

#[test]
fn a_target_that_is_not_opted_in_gets_no_sudo() {
    for cmd in SINGLE_SHOT {
        match probe_for(cmd, false) {
            Some((wire, fallback)) => {
                assert!(!wire.starts_with("sudo") && fallback.is_none(), "{wire}")
            }
            None => assert_eq!(cmd, OOM_DMESG),
        }
    }
    assert_eq!(probe_for(OOM_DMESG, true), Some((OOM_DMESG, None)));
    assert_eq!(probe_for(UPTIME, true), Some((UPTIME, None)));
    assert_eq!(
        probe_for(DOCKER_PS, true),
        Some(("sudo -n docker ps -a", Some(DOCKER_PS)))
    );
}

#[test]
fn a_container_probe_falls_back() {
    let mut o = Outputs::new();
    // The privileged read fails: the plain command is next.
    let next = absorb_probe(&mut o, DOCKER_PS, Some(DOCKER_PS), failed()).unwrap();
    assert_eq!(next, Some(DOCKER_PS));
    assert_eq!(o.stdout(DOCKER_PS), None);
    assert_eq!(absorb_probe(&mut o, DOCKER_PS, None, said("rows")).unwrap(), None);
    assert_eq!(o.stdout(DOCKER_PS), Some("rows"));
    // A host-level failure aborts.
    let gone = Err(SshError::Connection("down".to_string()));
    assert!(absorb_probe(&mut o, UPTIME, None, gone).is_err());
}

#[test]
fn a_single_read_may_be_missing() {
    assert_eq!(run_single(said("x")).unwrap(), Some("x".to_string()));
    assert_eq!(run_single(failed()).unwrap(), None);
    assert!(run_single(Err(SshError::Timeout)).is_err());
}

#[test]
fn a_certificate_read_is_allowed_for_clean_absolute_paths() {
    assert!(is_allowed(&cert_command("/etc/ssl/site.pem")));
    assert!(!is_allowed(&cert_command("site.pem")));
    assert!(!is_allowed(&cert_command("/etc/ssl/x -text")));
    assert_eq!(
        parse_cert_notafter("notAfter=Nov 15 12:00:00 2026 GMT\n"),
        Some(1_794_744_000)
    );
    assert_eq!(parse_cert_notafter("notAfter=Nox 15 12:00:00 2026 GMT\n"), None);
    assert_eq!(parse_cert_notafter(""), None);
}

#[test]
fn host_state_is_read() {
    assert_eq!(parse_timedatectl_synced("A=b\nNTPSynchronized=yes\n"), Some(true));
    assert_eq!(parse_timedatectl_synced("NTPSynchronized=no\n"), Some(false));
    assert_eq!(parse_timedatectl_synced("A=b\n"), None);
    assert!(parse_reboot_required("lock\nreboot-required\n"));
    assert!(!parse_reboot_required("lock\nreboot-required.pkgs\n"));
    let mounts = "/dev/sdb1 /data ext4 ro,relatime 0 0\ntmpfs /run tmpfs ro 0 0\n";
    let ro = parse_readonly_mounts(mounts);
    assert_eq!(ro.len(), 1);
    assert!(ro[0].0.contains("/data") || ro[0].1.contains("/data"), "{ro:?}");
}

fn samples(ct2: &str) -> NetSamples {
    let dev = |rx: u64| format!(" eth0: {rx} 5 0 0 0 0 0 0 0 4 0 0 0 0 0 0\n");
    NetSamples {
        dev1: dev(0),
        dev2: dev(3 * 1024 * 1024),
        stat1: String::new(),
        stat2: String::new(),
        ct1: String::new(),
        ct2: ct2.to_string(),
        snmp1: String::new(),
        snmp2: String::new(),
        nanos: 2_000_000_000,
    }
}

#[test]
fn a_snapshot_is_completed_from_samples_and_certificates() {
    let thr = Thresholds::default();
    let ct = "drop early_drop insert_failed\n0000000a 00000002 00000001\n";
    let certs = [(
        "/a".to_string(),
        Some("notAfter=Nov 15 12:00:00 2026 GMT\n".to_string()),
    )];
    let now = 1_794_744_000 - 3 * 86_400;
    let r = complete(&Outputs::new(), &Some(samples(ct)), &certs, &thr, now);
    let find = |id: &str| r.metrics.iter().find(|m| m.id == id).unwrap();
    let net = find("health-net-throughput");
    assert!(net.value.contains("eth0 rx 1.50 / tx 0.00"), "{}", net.value);
    assert_eq!(find("health-cert-expiry").status, HealthStatus::Crit);
    assert_eq!(find("health-listen-overflows").status, HealthStatus::Unknown);
    assert_eq!(r.overall, HealthStatus::Crit);
    assert_eq!(r.event_counters.get("conntrack table pressure"), Some(&3));
}

#[test]
fn with_nothing_collected_everything_is_unknown() {
    let r = complete(&Outputs::new(), &None, &[], &Thresholds::default(), 0);
    assert!(r.metrics.iter().all(|m| m.status == HealthStatus::Unknown));
    assert!(r.metrics.iter().all(|m| m.numeric.is_none()));
    assert_eq!(r.overall, HealthStatus::Unknown);
    assert!(r.event_counters.is_empty());
}

#[test]
fn interfaces_are_paired_by_name() {
    let dev = |name: &str, rx: u64| format!(" {name}: {rx} 5 0 0 0 0 0 0 0 4 0 0 0 0 0 0\n");
    let before = dev("eth0", 100) + &dev("gone", 1);
    let after = dev("new", 2) + &dev("eth0", 40);
    let pairs = net_deltas(&before, &after);
    assert_eq!(pairs.len(), 1);
    let (name, a, b) = &pairs[0];
    assert_eq!((name.as_str(), a.rx_bytes, b.rx_bytes), ("eth0", 100, 40));
}

/// Runs a collection against a host that answers by a function; gives what was run, the pauses,
/// and how it ended.
fn drive(
    privileged: bool,
    certs: &[&str],
    answer: impl Fn(&str) -> Result<SshOutput, SshError>,
) -> (Vec<String>, Vec<u64>, Result<Collector, SshError>) {
    let certs = certs.iter().map(|s| s.to_string()).collect();
    let mut c = Collector::new(Thresholds::default(), privileged, certs);
    let (mut ran, mut pauses) = (Vec::new(), Vec::new());
    loop {
        match c.next() {
            Action::Run(cmd) => {
                let reply = answer(&cmd);
                ran.push(cmd);
                c = match c.absorb(reply, 2_000_000_000) {
                    Ok(c) => c,
                    Err(e) => return (ran, pauses, Err(e)),
                };
            }
            Action::Wait(secs) => {
                pauses.push(secs);
                c = c.resume();
            }
            Action::Finish => return (ran, pauses, Ok(c)),
        }
    }
}

#[test]
fn the_kernel_log_is_not_held_without_opt_in() {
    let log = "[1.0] Out of memory: Killed process 1 (a)\n[2.0] BUG: soft lockup - CPU#0\n";
    let status = |privileged: bool, id: &str| {
        let (_, _, end) = drive(privileged, &[], |_| said(log));
        let report = end.unwrap().finish(0);
        let m = report.metrics.iter().find(|m| m.id == id).unwrap();
        (m.status, report.event_counters.entries.is_empty())
    };
    for id in ["health-oom", "health-kernel-events"] {
        assert_eq!(status(false, id), (HealthStatus::Unknown, true), "{id}");
        assert_ne!(status(true, id), (HealthStatus::Unknown, true), "{id}");
    }
}

#[test]
fn a_collection_runs_everything_in_order() {
    let counters = [
        "cat /proc/net/dev",
        "cat /proc/net/netstat",
        "cat /proc/net/stat/nf_conntrack",
        "cat /proc/net/snmp",
    ];
    let (ran, pauses, end) = drive(false, &["/a.pem", "/b.pem"], |_| said("x"));
    let mut want: Vec<String> = SINGLE_SHOT
        .iter()
        .filter(|c| **c != OOM_DMESG)
        .chain(&counters)
        .chain(&counters)
        .map(|c| c.to_string())
        .collect();
    want.push(cert_command("/a.pem"));
    want.push(cert_command("/b.pem"));
    assert_eq!(ran, want);
    assert_eq!(pauses, vec![1]);
    assert!(end.is_ok());
}

#[test]
fn a_privileged_collection_prefers_sudo_and_falls_back() {
    let (ran, _, end) = drive(true, &[], |cmd| {
        if cmd == "sudo -n docker ps -a" {
            failed()
        } else {
            said("x")
        }
    });
    let at = |cmd: &str| ran.iter().position(|c| c == cmd);
    let sudo = at("sudo -n docker ps -a").unwrap();
    assert_eq!(at("docker ps -a"), Some(sudo + 1));
    assert!(at("sudo -n podman ps -a").is_some());
    assert_eq!(at("podman ps -a"), None);
    assert!(at("sudo -n dmesg").is_some());
    assert!(ran.iter().all(|c| HEALTH_COMMANDS.contains(&c.as_str())));
    assert!(end.is_ok());
}

#[test]
fn without_interface_counters_there_is_no_sample() {
    let (ran, pauses, end) = drive(false, &[], |cmd| {
        if cmd == "cat /proc/net/dev" {
            failed()
        } else {
            said("x")
        }
    });
    assert_eq!(ran.last().map(String::as_str), Some("cat /proc/net/dev"));
    assert!(pauses.is_empty());
    let r = end.unwrap().finish(0);
    let net = r.metrics.iter().find(|m| m.id == "health-net-throughput").unwrap();
    assert_eq!(net.status, HealthStatus::Unknown);
    assert!(format!("{net:?}").contains("/proc/net/dev unavailable"));
}

#[test]
fn other_counters_and_certificates_may_be_missing() {
    let (_, _, end) = drive(false, &["/a.pem"], |cmd| match cmd {
        "cat /proc/net/dev" => said(" eth0: 5 5 0 0 0 0 0 0 0 4 0 0 0 0 0 0\n"),
        "uptime" => said("load average: 2.0, 1.0, 1.0"),
        "nproc" => said("2"),
        _ => failed(),
    });
    let r = end.unwrap().finish(0);
    let status = |id: &str| r.metrics.iter().find(|m| m.id == id).unwrap().status;
    assert_eq!(status("health-net-throughput"), HealthStatus::Okay);
    assert_eq!(status("health-listen-overflows"), HealthStatus::Unknown);
    assert_eq!(status("health-cert-expiry"), HealthStatus::Unknown);
    assert_eq!(status("health-load"), HealthStatus::Warn);
    assert_eq!(r.overall, HealthStatus::Warn);
}

#[test]
fn a_host_level_failure_ends_the_collection() {
    for stop in ["uptime", "cat /proc/net/dev", "cat /proc/net/snmp"] {
        let (ran, _, end) = drive(false, &["/a.pem"], |cmd| {
            if cmd == stop {
                Err(SshError::Timeout)
            } else {
                said("x")
            }
        });
        assert_eq!(ran.last().map(String::as_str), Some(stop));
        assert!(matches!(end, Err(SshError::Timeout)));
    }
}
