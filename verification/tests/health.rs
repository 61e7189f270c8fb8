//! Health metrics and the snapshot.

use linux_audit_mcp::audit::Outputs;
use linux_audit_mcp::catalog;
use linux_audit_mcp::health::metrics::{
    clock_sync_metric, conntrack_metric, containers_metric, disk_metric, failed_units_metric,
    fd_metric, fs_readonly_metric, inodes_metric, iowait_metric, kernel_events_metric,
    load_metric, pids_metric, reboot_required_metric, tcp_mem_metric,
};
use linux_audit_mcp::health::network::{
    cert_expiry_metric, net_conntrack_drops_metric, net_errors_metric, net_listen_metric,
    net_tcp_errors_metric, net_throughput_metric,
};
use linux_audit_mcp::health::snapshot::{container_command, HEALTH_COMMANDS};
use linux_audit_mcp::health::{
    evaluate, HealthStatus, Thresholds, DOCKER_PS, PODMAN_PS, SUDO_DOCKER_PS, SUDO_PODMAN_PS,
};

fn outputs(pairs: &[(&'static str, &str)]) -> Outputs {
    let mut o = Outputs::new();
    for (k, v) in pairs {
        o.insert(k, Ok(v.to_string()));
    }
    o
}

/// A reading in millionths.
fn micros(x: f64) -> i64 {
    (x * 1_000_000.0).round() as i64
}

/// One second, in nanoseconds.
const SECOND: u64 = 1_000_000_000;

#[test]
fn all_health_commands_are_in_catalog() {
    for cmd in HEALTH_COMMANDS {
        assert!(
            catalog::validate(cmd).is_ok(),
            "health command not in catalog: {cmd:?}"
        );
    }
}

#[test]
fn load_thresholds() {
    let thr = Thresholds::default();
    // 3.0 over 4 cores = 0.75/core -> Ok.
    let ok = outputs(&[("uptime", "load average: 3.0, 1.0, 0.5"), ("nproc", "4")]);
    assert_eq!(load_metric(&ok, &thr).status, HealthStatus::Okay);
    // 6.0 over 4 cores = 1.5/core -> Warn.
    let warn = outputs(&[("uptime", "load average: 6.0, 1.0, 0.5"), ("nproc", "4")]);
    assert_eq!(load_metric(&warn, &thr).status, HealthStatus::Warn);
    // 10.0 over 4 cores = 2.5/core -> Crit.
    let crit = outputs(&[("uptime", "load average: 10.0, 1.0, 0.5"), ("nproc", "4")]);
    assert_eq!(load_metric(&crit, &thr).status, HealthStatus::Crit);
}

#[test]
fn missing_input_is_unknown_not_a_failure() {
    let thr = Thresholds::default();
    let m = load_metric(&outputs(&[]), &thr);
    assert_eq!(m.status, HealthStatus::Unknown);
}

#[test]
fn net_errors_flag_rising_errors_not_drops() {
    let thr = Thresholds::default();
    // rx/tx: bytes pkts errs drop fifo frame comp mcast | bytes pkts errs drop ...
    let s1 = "  eth0: 1000 10 0 0 0 0 0 0 2000 20 0 0 0 0 0 0\n";
    // +50 rx errors over 1s -> 50/s -> Crit (>= 10).
    let s2 = "  eth0: 2000 20 50 0 0 0 0 0 3000 30 0 0 0 0 0 0\n";
    let m = net_errors_metric(s1, s2, SECOND, &thr);
    assert_eq!(m.status, HealthStatus::Crit);
    assert_eq!(m.numeric, Some(micros(50.0)));

    // No change -> Ok, and the value states there are no errors.
    let ok = net_errors_metric(s1, s1, SECOND, &thr);
    assert_eq!(ok.status, HealthStatus::Okay);
    assert!(ok.value.contains("no interface errors"), "{}", ok.value);

    // Drops alone (no errors) must not raise the status.
    let dropping = "  eth0: 2000 20 0 99 0 0 0 0 3000 30 0 0 0 0 0 0\n";
    let d = net_errors_metric(s1, dropping, SECOND, &thr);
    assert_eq!(d.status, HealthStatus::Okay);

    // A counter reset (second sample lower) yields 0, not a spike.
    let reset = net_errors_metric(s2, s1, SECOND, &thr);
    assert_eq!(reset.status, HealthStatus::Okay);
}

#[test]
fn net_listen_flags_rising_overflows() {
    let thr = Thresholds::default(); // warn 1/s, crit 10/s
    let hdr = "TcpExt: SyncookiesSent ListenOverflows ListenDrops\n";
    let s1 = format!("{hdr}TcpExt: 3 100 200\n");
    // +50 overflows over 1s -> 50/s -> Crit.
    let s2 = format!("{hdr}TcpExt: 3 150 260\n");
    let m = net_listen_metric(&s1, &s2, SECOND, &thr);
    assert_eq!(m.status, HealthStatus::Crit);
    assert_eq!(m.numeric, Some(micros(50.0)));
    // No change -> Ok, value says no overflows.
    let ok = net_listen_metric(&s1, &s1, SECOND, &thr);
    assert_eq!(ok.status, HealthStatus::Okay);
    assert!(
        ok.value.contains("no accept-queue overflows"),
        "{}",
        ok.value
    );
    // Counter reset (second lower) -> 0, not a spike.
    assert_eq!(
        net_listen_metric(&s2, &s1, SECOND, &thr).status,
        HealthStatus::Okay
    );
    // Missing netstat -> Unknown (never gates).
    assert_eq!(
        net_listen_metric("", "", SECOND, &thr).status,
        HealthStatus::Unknown
    );
}

#[test]
fn net_conntrack_drops_flags_table_pressure_not_generic_drop() {
    let thr = Thresholds::default(); // warn 1/s, crit 10/s
    let hdr = "entries found drop early_drop insert_failed\n";
    // Gate = early_drop + insert_failed. s1: e=2,i=1 -> 3; s2: e=9,i=4 -> 13.
    let s1 = format!("{hdr}00000064 00000000 0000000a 00000002 00000001\n");
    // +10 pressure over 1s -> 10/s -> Crit. (drop also jumps but is ignored.)
    let s2 = format!("{hdr}00000064 00000000 00000064 00000009 00000004\n");
    let m = net_conntrack_drops_metric(&s1, &s2, SECOND, &thr);
    assert_eq!(m.status, HealthStatus::Crit);
    assert_eq!(m.numeric, Some(micros(10.0)));

    // A big generic `drop` delta with NO early_drop/insert_failed change ->
    // Ok (the noisy-drop case that WARN'd mt3 in live-verify).
    let noisy = format!("{hdr}00000064 00000000 00010000 00000002 00000001\n");
    let nm = net_conntrack_drops_metric(&s1, &noisy, SECOND, &thr);
    assert_eq!(nm.status, HealthStatus::Okay);
    assert!(
        nm.value.contains("no conntrack table pressure"),
        "{}",
        nm.value
    );
    assert!(nm.value.contains("early_drop 2"), "{}", nm.value);

    // Counter reset (second lower) -> 0, not a spike.
    assert_eq!(
        net_conntrack_drops_metric(&s2, &s1, SECOND, &thr).status,
        HealthStatus::Okay
    );
    // Module not loaded / unparseable -> Unknown (never gates).
    assert_eq!(
        net_conntrack_drops_metric("", "", SECOND, &thr).status,
        HealthStatus::Unknown
    );
}

#[test]
fn net_tcp_errors_flags_pressure_not_retransmits() {
    let thr = Thresholds::default(); // warn 1/s, crit 10/s
    let ext = "TcpExt: TCPAbortOnMemory PruneCalled TCPRcvQDrop TCPHPHits\n";
    // Gate = abort + prune + rcvq. s1: 2+1+0=3; s2: 8+4+1=13 -> +10/s -> Crit.
    let s1 = format!("{ext}TcpExt: 2 1 0 999\n");
    let s2 = format!("{ext}TcpExt: 8 4 1 999\n");
    // Retransmits jump hugely but must NOT gate (context only).
    let snmp1 = "Tcp: RetransSegs InErrs\nTcp: 100 0\n";
    let snmp2 = "Tcp: RetransSegs InErrs\nTcp: 9999 0\n";
    let m = net_tcp_errors_metric(snmp1, snmp2, &s1, &s2, SECOND, &thr);
    assert_eq!(m.status, HealthStatus::Crit);
    assert_eq!(m.numeric, Some(micros(10.0)));
    assert!(m.detail.contains("retrans"), "{}", m.detail);

    // Only retransmits rising (no pressure delta) -> Ok.
    let ok = net_tcp_errors_metric(snmp1, snmp2, &s1, &s1, SECOND, &thr);
    assert_eq!(ok.status, HealthStatus::Okay);
    assert!(ok.value.contains("no TCP stack errors"), "{}", ok.value);

    // Counter reset (second lower) -> 0, not a spike.
    assert_eq!(
        net_tcp_errors_metric(snmp1, snmp2, &s2, &s1, SECOND, &thr).status,
        HealthStatus::Okay
    );
    // Missing TcpExt -> Unknown (never gates); absent SNMP just drops the note.
    assert_eq!(
        net_tcp_errors_metric("", "", "", "", SECOND, &thr).status,
        HealthStatus::Unknown
    );
    let no_snmp = net_tcp_errors_metric("", "", &s1, &s2, SECOND, &thr);
    assert_eq!(no_snmp.status, HealthStatus::Crit);
    assert!(!no_snmp.detail.contains("retrans"), "{}", no_snmp.detail);
}

#[test]
fn kernel_events_metric_ranks_and_gates() {
    // Absent dmesg (non-privileged) -> Unknown (never gates).
    assert_eq!(
        kernel_events_metric(&outputs(&[])).status,
        HealthStatus::Unknown
    );
    // Clean log -> Ok.
    let clean = kernel_events_metric(&outputs(&[("sudo -n dmesg", "[0.0] booting\n")]));
    assert_eq!(clean.status, HealthStatus::Okay);
    assert_eq!(clean.numeric, Some(micros(0.0)));
    // A soft (FS) event only -> Warn.
    let warn = kernel_events_metric(&outputs(&[(
        "sudo -n dmesg",
        "[1.0] EXT4-fs error (device vda1): reading directory\n",
    )]));
    assert_eq!(warn.status, HealthStatus::Warn);
    // A hard fault -> Crit.
    let crit = kernel_events_metric(&outputs(&[(
        "sudo -n dmesg",
        "[1.0] Kernel panic - not syncing: Attempted to kill init!\n",
    )]));
    assert_eq!(crit.status, HealthStatus::Crit);
    assert_eq!(crit.numeric, Some(micros(1.0)));
}

#[test]
fn clock_sync_flags_unsynchronized() {
    let m = |v: &str| clock_sync_metric(&outputs(&[("timedatectl show", v)]));
    assert_eq!(m("NTPSynchronized=yes\n").status, HealthStatus::Okay);
    assert_eq!(m("NTPSynchronized=no\n").status, HealthStatus::Warn);
    // Field absent -> Unknown (never gates); no output -> Unknown.
    assert_eq!(m("Timezone=UTC\n").status, HealthStatus::Unknown);
    assert_eq!(
        clock_sync_metric(&outputs(&[])).status,
        HealthStatus::Unknown
    );
}

#[test]
fn reboot_required_flags_pending() {
    let m = |v: &str| reboot_required_metric(&outputs(&[("ls /run", v)]));
    assert_eq!(
        m("systemd\nreboot-required\nlock\n").status,
        HealthStatus::Warn
    );
    assert_eq!(m("systemd\nlock\n").status, HealthStatus::Okay);
    assert_eq!(
        reboot_required_metric(&outputs(&[])).status,
        HealthStatus::Unknown
    );
}

#[test]
fn fs_readonly_flags_block_device_ro() {
    // A /dev-backed ro filesystem -> Crit, naming the mountpoint.
    let ro = fs_readonly_metric(&outputs(&[(
        "cat /proc/mounts",
        "/dev/sda1 / ext4 rw,relatime 0 0\n/dev/sdb1 /data ext4 ro,relatime 0 0\n",
    )]));
    assert_eq!(ro.status, HealthStatus::Crit);
    assert!(ro.value.contains("/data"), "{}", ro.value);
    // All writable (pseudo ro fs ignored) -> Ok.
    let ok = fs_readonly_metric(&outputs(&[(
        "cat /proc/mounts",
        "/dev/sda1 / ext4 rw,relatime 0 0\ntmpfs /dev/shm tmpfs ro,nosuid 0 0\n",
    )]));
    assert_eq!(ok.status, HealthStatus::Okay);
    // No output -> Unknown.
    assert_eq!(
        fs_readonly_metric(&outputs(&[])).status,
        HealthStatus::Unknown
    );
}

#[test]
fn cert_expiry_gates_on_nearest() {
    let thr = Thresholds::default(); // warn 21, crit 7 days
    let na = 1_794_744_000_i64; // Nov 15 2026 12:00 UTC
    let day = 86_400_i64;
    let cert = |p: &str| {
        (
            p.to_string(),
            Some("notAfter=Nov 15 12:00:00 2026 GMT\n".to_string()),
        )
    };
    // 30 / 14 / 3 days out -> Ok / Warn / Crit.
    assert_eq!(
        cert_expiry_metric(&[cert("/a")], &thr, na - 30 * day).status,
        HealthStatus::Okay
    );
    assert_eq!(
        cert_expiry_metric(&[cert("/a")], &thr, na - 14 * day).status,
        HealthStatus::Warn
    );
    assert_eq!(
        cert_expiry_metric(&[cert("/a")], &thr, na - 3 * day).status,
        HealthStatus::Crit
    );
    // Already expired -> Crit, value says EXPIRED.
    let exp = cert_expiry_metric(&[cert("/a")], &thr, na + 5 * day);
    assert_eq!(exp.status, HealthStatus::Crit);
    assert!(exp.value.contains("EXPIRED"), "{}", exp.value);
    // However low the limits are set, an expired certificate is Crit.
    let low = Thresholds {
        cert_expiry_warn_days: -20,
        cert_expiry_crit_days: -10,
        ..thr
    };
    assert_eq!(
        cert_expiry_metric(&[cert("/a")], &low, na + 5 * day).status,
        HealthStatus::Crit
    );
    assert_eq!(cert_expiry_metric(&[cert("/a")], &low, na).status, HealthStatus::Okay);
    // The nearest cert gates: a far cert plus a near one -> Crit.
    let far = (
        "/far".to_string(),
        Some("notAfter=Nov 15 12:00:00 2027 GMT\n".to_string()),
    );
    assert_eq!(
        cert_expiry_metric(&[far, cert("/near")], &thr, na - 3 * day).status,
        HealthStatus::Crit
    );
    // No configured paths -> Unknown; all unreadable -> Unknown.
    assert_eq!(
        cert_expiry_metric(&[], &thr, na).status,
        HealthStatus::Unknown
    );
    assert_eq!(
        cert_expiry_metric(&[("/x".to_string(), None)], &thr, na).status,
        HealthStatus::Unknown
    );
    // One unreadable + one good -> uses the good one, notes the unreadable.
    let mixed = cert_expiry_metric(
        &[("/x".to_string(), None), cert("/ok")],
        &thr,
        na - 30 * day,
    );
    assert_eq!(mixed.status, HealthStatus::Okay);
    assert!(mixed.detail.contains("unreadable"), "{}", mixed.detail);
}

#[test]
fn iowait_thresholds() {
    let thr = Thresholds::default();
    let vm = |wa: u32| {
        format!(
            "r b swpd free buff cache si so bi bo in cs us sy id wa st\n\
             1 0 0 100 100 100 0 0 10 20 100 200 5 2 90 {wa} 0\n"
        )
    };
    let (ok, warn, crit) = (vm(5), vm(30), vm(60));
    assert_eq!(
        iowait_metric(&outputs(&[("vmstat 1 2", ok.as_str())]), &thr).status,
        HealthStatus::Okay
    );
    assert_eq!(
        iowait_metric(&outputs(&[("vmstat 1 2", warn.as_str())]), &thr).status,
        HealthStatus::Warn
    );
    assert_eq!(
        iowait_metric(&outputs(&[("vmstat 1 2", crit.as_str())]), &thr).status,
        HealthStatus::Crit
    );
    // Missing vmstat -> Unknown (never gates).
    assert_eq!(
        iowait_metric(&outputs(&[]), &thr).status,
        HealthStatus::Unknown
    );
}

#[test]
fn failed_units_status() {
    let thr = Thresholds::default();
    const CMD: &str =
        "systemctl list-units --type=service --state=failed --no-legend --no-pager";
    // No failed units (empty output) -> Ok.
    assert_eq!(
        failed_units_metric(&outputs(&[(CMD, "")]), &thr).status,
        HealthStatus::Okay
    );
    // One failed unit -> Warn (default: crit escalation disabled).
    let one = "nginx.service loaded failed failed A web server\n";
    let m = failed_units_metric(&outputs(&[(CMD, one)]), &thr);
    assert_eq!(m.status, HealthStatus::Warn);
    assert!(m.detail.contains("nginx.service"));
    assert_eq!(m.numeric, Some(micros(1.0)));
    // With a crit threshold, enough failed units escalate to Crit.
    let strict = Thresholds {
        failed_units_crit: 2,
        ..Thresholds::default()
    };
    let two = "a.service x x x d\nb.service x x x d\n";
    assert_eq!(
        failed_units_metric(&outputs(&[(CMD, two)]), &strict).status,
        HealthStatus::Crit
    );
    // Missing systemctl -> Unknown (never gates).
    assert_eq!(
        failed_units_metric(&outputs(&[]), &thr).status,
        HealthStatus::Unknown
    );
}

#[test]
fn container_command_prefers_sudo_when_privileged() {
    // Privileged: sudo variant is preferred, plain is the fallback.
    assert_eq!(
        container_command(DOCKER_PS, true),
        (SUDO_DOCKER_PS, Some(DOCKER_PS))
    );
    assert_eq!(
        container_command(PODMAN_PS, true),
        (SUDO_PODMAN_PS, Some(PODMAN_PS))
    );
    // Unprivileged: plain command, no fallback.
    assert_eq!(container_command(DOCKER_PS, false), (DOCKER_PS, None));
    assert_eq!(container_command(PODMAN_PS, false), (PODMAN_PS, None));
    // Every wire variant is a catalog member.
    for cmd in [SUDO_DOCKER_PS, SUDO_PODMAN_PS] {
        assert!(catalog::validate(cmd).is_ok(), "{cmd:?}");
    }
}

#[test]
fn containers_status() {
    let hdr = "CONTAINER ID IMAGE COMMAND CREATED STATUS PORTS NAMES\n";
    // No runtime at all -> Unknown (never gates).
    assert_eq!(
        containers_metric(&outputs(&[])).status,
        HealthStatus::Unknown
    );
    // Docker present, everything Up -> Ok.
    let healthy = format!("{hdr}a img x x Up 2 days 80/tcp web\n");
    assert_eq!(
        containers_metric(&outputs(&[("docker ps -a", &healthy)])).status,
        HealthStatus::Okay
    );
    // An unhealthy container -> Warn.
    let unhealthy = format!("{hdr}b img x x Up 3 days (unhealthy) 5432/tcp db\n");
    assert_eq!(
        containers_metric(&outputs(&[("docker ps -a", &unhealthy)])).status,
        HealthStatus::Warn
    );
    // A restarting (crash-looping) container -> Crit, named in detail. Podman
    // path also works.
    let looping = format!("{hdr}c img x x Restarting (2) 5 seconds ago 443/tcp mtproxy\n");
    let m = containers_metric(&outputs(&[("podman ps -a", &looping)]));
    assert_eq!(m.status, HealthStatus::Crit);
    assert!(m.detail.contains("mtproxy"));
}

#[test]
fn disk_reports_worst_mount() {
    let thr = Thresholds::default();
    let df = "Filesystem 1024-blocks Used Available Capacity Mounted on\n\
              /dev/sda1 100 50 50 50% /\n\
              /dev/sdb1 100 97 3 97% /data\n";
    let m = disk_metric(&outputs(&[("df -P", df)]), &thr);
    assert_eq!(m.status, HealthStatus::Crit);
    assert!(m.value.contains("/data"));
}

#[test]
fn inodes_worst_mount_and_unknown() {
    let thr = Thresholds::default();
    // Blocks free but inodes nearly gone on / -> Crit (reuses disk thresholds).
    let dfi = "Filesystem Inodes IUsed IFree IUse% Mounted on\n\
               /dev/sda1 1000000 980000 20000 98% /\n\
               tmpfs 100000 5 99995 1% /run\n";
    let m = inodes_metric(&outputs(&[("df -Pi", dfi)]), &thr);
    assert_eq!(m.status, HealthStatus::Crit);
    assert!(m.value.contains("98%"), "{}", m.value);
    // Missing df -Pi -> Unknown (never gates).
    assert_eq!(
        inodes_metric(&outputs(&[]), &thr).status,
        HealthStatus::Unknown
    );
}

#[test]
fn fd_thresholds_and_unknown() {
    let thr = Thresholds::default(); // fd warn 80, crit 95
    let m = |a: &str| fd_metric(&outputs(&[("cat /proc/sys/fs/file-nr", a)]), &thr).status;
    assert_eq!(m("4096 0 400000"), HealthStatus::Okay); // ~1%
    assert_eq!(m("170000 0 200000"), HealthStatus::Warn); // 85%
    assert_eq!(m("196000 0 200000"), HealthStatus::Crit); // 98%
                                                          // Missing input or a zero maximum -> Unknown (never gates).
    assert_eq!(fd_metric(&outputs(&[]), &thr).status, HealthStatus::Unknown);
    assert_eq!(m("5 0 0"), HealthStatus::Unknown); // max 0
}

#[test]
fn conntrack_thresholds_and_unknown() {
    let thr = Thresholds::default(); // warn 80, crit 90
    let m = |a: &str| {
        conntrack_metric(
            &outputs(&[(
                "cat /proc/sys/net/netfilter/nf_conntrack_count /proc/sys/net/netfilter/nf_conntrack_max",
                a,
            )]),
            &thr,
        )
        .status
    };
    assert_eq!(m("5000\n262144\n"), HealthStatus::Okay); // ~2%
    assert_eq!(m("170000\n200000\n"), HealthStatus::Warn); // 85%
    assert_eq!(m("195000\n200000\n"), HealthStatus::Crit); // 97%
                                                           // Module not loaded (files absent) -> Unknown, never gates.
    assert_eq!(
        conntrack_metric(&outputs(&[]), &thr).status,
        HealthStatus::Unknown
    );
}

#[test]
fn pids_thresholds_and_unknown() {
    let thr = Thresholds::default(); // warn 80, crit 90
    let m = |a: &str| {
        pids_metric(
            &outputs(&[("cat /proc/loadavg /proc/sys/kernel/pid_max", a)]),
            &thr,
        )
        .status
    };
    assert_eq!(m("0.1 0.1 0.1 1/150 900\n32768\n"), HealthStatus::Okay); // ~0.5%
    assert_eq!(m("5 5 5 3/27000 900\n32768\n"), HealthStatus::Warn); // 82%
    assert_eq!(m("9 9 9 5/31000 900\n32768\n"), HealthStatus::Crit); // 95%
    assert_eq!(
        pids_metric(&outputs(&[]), &thr).status,
        HealthStatus::Unknown
    );
}

#[test]
fn tcp_mem_worst_of_three_dimensions() {
    let thr = Thresholds::default(); // warn 80, crit 90
    const CMD: &str = "cat /proc/net/sockstat /proc/sys/net/ipv4/tcp_mem /proc/sys/net/ipv4/tcp_max_orphans /proc/sys/net/ipv4/tcp_max_tw_buckets";
    let sock = |mem: u64, orphan: u64, tw: u64| {
        format!(
            "sockets: used 1\n\
             TCP: inuse 1 orphan {orphan} tw {tw} alloc 1 mem {mem}\n\
             4096 6144 9216\n65536\n65536\n"
        )
    };
    let m = |a: String| tcp_mem_metric(&outputs(&[(CMD, a.as_str())]), &thr).status;
    // All low -> Ok.
    assert_eq!(m(sock(100, 100, 100)), HealthStatus::Okay);
    // TIME_WAIT near its bucket max (55000/65536 = 84%) -> Warn.
    assert_eq!(m(sock(100, 100, 55000)), HealthStatus::Warn);
    // TCP memory near tcp_mem max (9000/9216 = 98%) -> Crit, even if others low.
    let crit = tcp_mem_metric(&outputs(&[(CMD, sock(9000, 100, 100).as_str())]), &thr);
    assert_eq!(crit.status, HealthStatus::Crit);
    assert!(crit.value.contains("mem"), "{}", crit.value);
    // Missing input -> Unknown.
    assert_eq!(
        tcp_mem_metric(&outputs(&[]), &thr).status,
        HealthStatus::Unknown
    );
}

#[test]
fn overall_is_worst_and_ignores_unknown() {
    let thr = Thresholds::default();
    // df crit, everything else unknown -> overall Crit.
    let df = "Filesystem 1024-blocks Used Available Capacity Mounted on\n\
              /dev/sda1 100 99 1 99% /\n";
    let r = evaluate(&outputs(&[("df -P", df)]), &thr);
    assert_eq!(r.overall, HealthStatus::Crit);
}

// rx grows by 2 MiB, tx flat, over the given interface.
fn netdev(iface: &str, rx: u64, tx: u64) -> String {
    format!("Inter-|\n face |\n {iface}: {rx} 5 0 0 0 0 0 0 {tx} 4 0 0 0 0 0 0\n")
}

#[test]
fn net_throughput_computes_rate_and_is_informational_by_default() {
    let thr = Thresholds::default();
    let s1 = netdev("eth0", 1_000_000, 500_000);
    let s2 = netdev("eth0", 1_000_000 + 2 * 1024 * 1024, 500_000);
    let m = net_throughput_metric(&s1, &s2, SECOND, &thr);
    assert_eq!(m.status, HealthStatus::Okay); // no thresholds set
    assert!(m.value.contains("eth0 rx 2.00 / tx 0.00"), "{}", m.value);
}

#[test]
fn net_throughput_crosses_threshold() {
    let thr = Thresholds {
        net_rx_crit_mibps: micros(1.0),
        ..Thresholds::default()
    };
    let s1 = netdev("eth0", 0, 0);
    let s2 = netdev("eth0", 2 * 1024 * 1024, 0);
    assert_eq!(
        net_throughput_metric(&s1, &s2, SECOND, &thr).status,
        HealthStatus::Crit
    );
}

#[test]
fn net_throughput_counter_reset_is_not_a_spike() {
    let thr = Thresholds {
        net_rx_warn_mibps: micros(1.0),
        ..Thresholds::default()
    };
    // s2 < s1 (reboot/wrap): saturating delta -> 0, so no false Warn.
    let s1 = netdev("eth0", 5_000_000, 5_000_000);
    let s2 = netdev("eth0", 1000, 1000);
    assert_eq!(
        net_throughput_metric(&s1, &s2, SECOND, &thr).status,
        HealthStatus::Okay
    );
}

#[test]
fn net_throughput_unknown_without_data() {
    let thr = Thresholds::default();
    assert_eq!(
        net_throughput_metric("", "", SECOND, &thr).status,
        HealthStatus::Unknown
    );
    assert_eq!(
        net_throughput_metric(&netdev("eth0", 1, 1), &netdev("eth0", 2, 2), 0, &thr).status,
        HealthStatus::Unknown // no measurable interval
    );
}

#[test]
fn top_processes_split_by_resource() {
    let thr = Thresholds {
        top_n: 2,
        ..Thresholds::default()
    };
    let ps = "PID COMMAND %CPU %MEM\n\
              1 a 90.0 1.0\n\
              2 b 10.0 80.0\n\
              3 c 5.0 40.0\n";
    let r = evaluate(
        &outputs(&[("ps -eo pid,comm,pcpu,pmem --sort=-pcpu", ps)]),
        &thr,
    );
    assert_eq!(r.top_cpu[0].comm, "a"); // highest cpu
    assert_eq!(r.top_mem[0].comm, "b"); // highest mem
    assert_eq!(r.top_cpu.len(), 2);
}
