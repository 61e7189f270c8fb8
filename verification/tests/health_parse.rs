//! Parsers of health command output.

use linux_audit_mcp::health::parse::{
    parse_conntrack, parse_conntrack_drops, parse_container_problems, parse_container_uptimes,
    parse_df, parse_failed_units, parse_file_nr, parse_free, parse_kernel_events,
    parse_load_average, parse_net_dev, parse_netstat_listen, parse_netstat_tcp_errors,
    parse_nproc, parse_oom_kills, parse_pid_usage, parse_ps, parse_snmp_tcp, parse_sockstat,
    parse_ss_summary, parse_vmstat, parse_zombie_count,
};

/// A reading in millionths.
fn micros(x: f64) -> i64 {
    (x * 1_000_000.0).round() as i64
}


#[test]
fn load_average_dot_and_comma() {
    let out = " 14:23:05 up 10 days,  3:45,  2 users,  load average: 0.15, 1.10, 2.05\n";
    assert_eq!(parse_load_average(out), Some((micros(0.15), micros(1.10), micros(2.05))));
    let comma = "load average: 0,15, 1,10, 2,05";
    assert_eq!(parse_load_average(comma), Some((micros(0.15), micros(1.10), micros(2.05))));
    assert_eq!(parse_load_average("no averages here"), None);
}

#[test]
fn nproc() {
    assert_eq!(parse_nproc("4\n"), Some(4));
    assert_eq!(parse_nproc("  8 "), Some(8));
    assert_eq!(parse_nproc("x"), None);
}

#[test]
fn failed_units() {
    // Empty output = no failed units.
    assert!(parse_failed_units("").is_empty());
    assert!(parse_failed_units("\n  \n").is_empty());
    // Plain lines and a leading status bullet are both handled.
    let out = "nginx.service    loaded failed failed A high performance web server\n\
               ● docker.service loaded failed failed Docker Application Container Engine\n";
    assert_eq!(
        parse_failed_units(out),
        vec!["nginx.service".to_string(), "docker.service".to_string()]
    );
    // A stray non-unit line (no dot) is skipped.
    assert!(parse_failed_units("garbage line here\n").is_empty());
}

#[test]
fn container_problems() {
    let out = "CONTAINER ID   IMAGE          COMMAND   CREATED       STATUS                       PORTS   NAMES\n\
               a1b2c3d4e5f6   nginx:latest   \"...\"     2 days ago    Up 2 days                    80/tcp  web\n\
               b2c3d4e5f6a7   redis:7        \"...\"     2 days ago    Up 2 days (healthy)          6379/tcp cache\n\
               c3d4e5f6a7b8   postgres:16    \"...\"     3 days ago    Up 3 days (unhealthy)        5432/tcp db\n\
               d4e5f6a7b8c9   proxy:latest   \"...\"     3 months ago  Restarting (2) 5 seconds ago 443/tcp mtproxy\n\
               e5f6a7b8c9d0   old:latest     \"...\"     1 week ago    Exited (0) 3 days ago                stopped\n";
    let p = parse_container_problems(out);
    assert_eq!(
        p,
        vec![
            ("db".to_string(), "unhealthy"),
            ("mtproxy".to_string(), "restarting"),
        ]
    );
    // Header-only / empty output -> nothing.
    assert!(parse_container_problems(
        "CONTAINER ID   IMAGE   COMMAND   CREATED   STATUS   PORTS   NAMES\n"
    )
    .is_empty());
    assert!(parse_container_problems("").is_empty());
}

#[test]
fn container_uptimes() {
    let out = "CONTAINER ID   IMAGE          COMMAND   CREATED       STATUS                       PORTS   NAMES\n\
               a1b2c3d4e5f6   nginx:latest   \"...\"     2 days ago    Up 2 days                    80/tcp  web\n\
               b2c3d4e5f6a7   redis:7        \"...\"     2 hours ago   Up About an hour (healthy)   6379/tcp cache\n\
               c3d4e5f6a7b8   busy:16        \"...\"     1 min ago     Up 40 seconds                5432/tcp fresh\n\
               d4e5f6a7b8c9   proxy:latest   \"...\"     3 months ago  Restarting (2) 5 seconds ago 443/tcp mtproxy\n\
               e5f6a7b8c9d0   old:latest     \"...\"     1 week ago    Exited (0) 3 days ago                stopped\n";
    let up = parse_container_uptimes(out);
    assert_eq!(
        up,
        vec![
            ("web".to_string(), 172_800), // 2 days
            ("cache".to_string(), 3_600), // About an hour
            ("fresh".to_string(), 40),    // 40 seconds
        ]
    );
    // Restarting/Exited/Created have no stable uptime and are skipped.
    assert!(!up.iter().any(|(n, _)| n == "mtproxy" || n == "stopped"));
    // "Less than a second" -> 0, still tracked so a later restart is a drop.
    let sub = "CONTAINER ID x\nx img c cr Up Less than a second p tiny\n";
    assert_eq!(parse_container_uptimes(sub), vec![("tiny".to_string(), 0)]);
}

#[test]
fn free_mem_and_swap() {
    let out = "              total        used        free      shared  buff/cache   available\n\
               Mem:     8000000000  2000000000  1000000000    50000000  5000000000  5500000000\n\
               Swap:    2000000000   500000000  1500000000\n";
    let m = parse_free(out).unwrap();
    assert_eq!(m.mem_total, 8_000_000_000);
    assert_eq!(m.mem_available, 5_500_000_000);
    assert_eq!(m.swap_total, 2_000_000_000);
    assert_eq!(m.swap_used, 500_000_000);
}

#[test]
fn free_without_swap() {
    let out = "              total        used        free      shared  buff/cache   available\n\
               Mem:     1000000000   400000000   200000000    10000000   400000000   500000000\n\
               Swap:             0           0           0\n";
    let m = parse_free(out).unwrap();
    assert_eq!(m.swap_total, 0);
}

#[test]
fn df_drops_pseudo_and_reads_capacity() {
    let out = "Filesystem     1024-blocks     Used Available Capacity Mounted on\n\
               /dev/sda1         41251136 32000000   9251136      78% /\n\
               tmpfs              4061728        0   4061728       0% /dev/shm\n\
               devtmpfs           4000000        0   4000000       0% /dev\n\
               /dev/sdb1        100000000 95000000   5000000      95% /data\n";
    let mounts = parse_df(out);
    assert_eq!(mounts.len(), 2);
    assert_eq!(mounts[0].mount, "/");
    assert_eq!(mounts[0].use_pct, 78);
    assert_eq!(mounts[1].mount, "/data");
    assert_eq!(mounts[1].use_pct, 95);
}

#[test]
fn file_nr_reads_allocated_and_max() {
    assert_eq!(
        parse_file_nr("8064\t0\t9223372036854775807\n"),
        Some((8064, 9_223_372_036_854_775_807))
    );
    assert_eq!(parse_file_nr("170000 0 200000"), Some((170_000, 200_000)));
    assert_eq!(parse_file_nr("garbage"), None);
}

#[test]
fn conntrack_reads_count_and_max() {
    assert_eq!(parse_conntrack("12345\n262144\n"), Some((12345, 262_144)));
    assert_eq!(parse_conntrack("5"), None); // max line missing (module absent)
}

#[test]
fn sockstat_reads_usage_and_ceilings() {
    let out = "sockets: used 431\n\
               TCP: inuse 20 orphan 5 tw 34 alloc 25 mem 9000\n\
               UDP: inuse 8 mem 1\n\
               FRAG: inuse 0 memory 0\n\
               4096 6144 9216\n\
               65536\n\
               16384\n";
    let s = parse_sockstat(out).unwrap();
    assert_eq!(s.tcp_mem, 9000);
    assert_eq!(s.tcp_mem_max, 9216); // 3rd tcp_mem value
    assert_eq!((s.orphan, s.max_orphans), (5, 65536));
    assert_eq!((s.tw, s.max_tw), (34, 16384));
    // Missing ceilings -> None.
    assert!(parse_sockstat("TCP: inuse 1 orphan 0 tw 0 mem 1\n").is_none());
}

#[test]
fn netstat_listen_finds_columns_by_name() {
    let out = "TcpExt: SyncookiesSent ListenOverflows ListenDrops TCPHPHits\n\
               TcpExt: 3 12 34 999\n\
               IpExt: InNoRoutes InTruncatedPkts\n\
               IpExt: 0 0\n";
    assert_eq!(parse_netstat_listen(out), Some((12, 34)));
    // No TcpExt value line -> None.
    assert_eq!(parse_netstat_listen("IpExt: A B\nIpExt: 1 2\n"), None);
}

#[test]
fn conntrack_drops_sums_hex_across_cpus() {
    // Header + two CPU rows; values are hex. drop=0x0a+0x00=10,
    // early_drop=0x02+0x03=5, insert_failed=0x01+0x00=1.
    let out = "entries searched found new invalid ignore delete delete_list insert insert_failed drop early_drop\n\
               0000004a 00000000 00000000 00000000 00000000 00000000 00000000 00000000 00000000 00000001 0000000a 00000002\n\
               0000004a 00000000 00000000 00000000 00000000 00000000 00000000 00000000 00000000 00000000 00000000 00000003\n";
    assert_eq!(parse_conntrack_drops(out), Some((10, 5, 1)));
    // No drop-related columns -> None.
    assert_eq!(
        parse_conntrack_drops("entries found\n00000001 00000002\n"),
        None
    );
    // Header only, no data rows -> None.
    assert_eq!(parse_conntrack_drops("entries drop early_drop\n"), None);
}

#[test]
fn netstat_tcp_errors_finds_columns_by_name() {
    let out = "TcpExt: SyncookiesSent TCPAbortOnMemory PruneCalled TCPRcvQDrop TCPHPHits\n\
               TcpExt: 3 7 12 4 999\n\
               IpExt: InNoRoutes InTruncatedPkts\n\
               IpExt: 0 0\n";
    assert_eq!(parse_netstat_tcp_errors(out), Some((7, 12, 4)));
    // Older kernel missing a column -> that column contributes 0.
    let old = "TcpExt: SyncookiesSent PruneCalled\n\
               TcpExt: 3 12\n";
    assert_eq!(parse_netstat_tcp_errors(old), Some((0, 12, 0)));
    // No TcpExt value line -> None.
    assert_eq!(parse_netstat_tcp_errors("IpExt: A B\nIpExt: 1 2\n"), None);
}

#[test]
fn snmp_tcp_reads_retrans_segs() {
    let out = "Tcp: RtoAlgorithm RtoMin RtoMax MaxConn ActiveOpens RetransSegs InErrs\n\
               Tcp: 1 200 120000 -1 5 42 0\n\
               Udp: InDatagrams NoPorts\n\
               Udp: 100 2\n";
    assert_eq!(parse_snmp_tcp(out), Some(42));
    // No RetransSegs column -> None.
    assert_eq!(parse_snmp_tcp("Tcp: RtoMin\nTcp: 200\n"), None);
    // No Tcp value line -> None.
    assert_eq!(parse_snmp_tcp("Udp: InDatagrams\nUdp: 1\n"), None);
}

#[test]
fn pid_usage_reads_tasks_and_max() {
    assert_eq!(
        parse_pid_usage("0.15 0.10 0.05 1/234 5678\n32768\n"),
        Some((234, 32768))
    );
    assert_eq!(parse_pid_usage("bad\n32768\n"), None);
}

#[test]
fn ps_skips_header() {
    let out = "    PID COMMAND         %CPU %MEM\n\
               \x20     1 systemd          0.0  0.1\n\
               \x20   823 mysqld          12.3  8.4\n";
    let p = parse_ps(out);
    assert_eq!(p.len(), 2);
    assert_eq!(p[1].comm, "mysqld");
    assert_eq!(p[1].cpu, micros(12.3));
    assert_eq!(p[1].mem, micros(8.4));
}

#[test]
fn zombie_count() {
    let out = "Ss\nR\nS\nZ\nS+\nZ+\nSl\n";
    assert_eq!(parse_zombie_count(out), 2);
    // No zombies.
    assert_eq!(parse_zombie_count("Ss\nR\nS+\n"), 0);
    assert_eq!(parse_zombie_count(""), 0);
}

#[test]
fn oom_kills() {
    let out = "[12345.6] some driver message\n\
               [12346.0] Out of memory: Killed process 4242 (mysqld) total-vm:...\n\
               [12347.1] oom-killer: gfp_mask=0x...\n\
               [20000.0] Out of memory: Kill process 999 (java) score 500\n";
    // Two victim lines (both spellings), not the oom-killer invocation line.
    assert_eq!(parse_oom_kills(out), 2);
    assert_eq!(parse_oom_kills("clean boot\n"), 0);
    assert_eq!(parse_oom_kills(""), 0);
}

#[test]
fn kernel_events_categorize_and_rank() {
    let out = "[0.0] Linux version 6.1.0\n\
               [1.2] EXT4-fs (vda1): mounted filesystem\n\
               [3.4] EXT4-fs error (device vda1): ext4_find_entry: reading directory\n\
               [5.6] nf_conntrack: table full, dropping packet\n\
               [7.8] watchdog: BUG: soft lockup - CPU#0 stuck for 22s\n\
               [9.0] mce: [Hardware Error]: CPU 0: Machine Check: 0 Bank 4\n";
    let ev = parse_kernel_events(out);
    assert_eq!(ev.total(), 4); // ext4-error, conntrack-full, soft-lockup, hardware-error
    assert!(ev.any_critical()); // soft lockup + hardware error are critical
                                // The benign `EXT4-fs (vda1): mounted` line is NOT matched.
    let ext4 = ev
        .categories
        .iter()
        .find(|c| c.label == "ext4 filesystem error")
        .unwrap();
    assert_eq!(ext4.count, 1);
    assert!(!ext4.critical);
    // `BUG: soft lockup` lands in soft-lockup (ordered first), not kernel BUG.
    assert!(ev.categories.iter().any(|c| c.label == "soft lockup"));
    assert!(!ev.categories.iter().any(|c| c.label == "kernel BUG"));
    // A clean log -> nothing, not critical.
    let clean = parse_kernel_events("[0.0] booting\n[1.0] all good\n");
    assert_eq!(clean.total(), 0);
    assert!(!clean.any_critical());
}

#[test]
fn kernel_events_come_in_signature_order() {
    let out = "[1.0] EXT4-fs error (device vda1)\n[2.0] watchdog: BUG: soft lockup - CPU#0 stuck\n";
    let ev = parse_kernel_events(out);
    let found: Vec<(&str, usize, bool)> = ev
        .categories
        .iter()
        .map(|c| (c.label, c.count, c.critical))
        .collect();
    assert_eq!(found, [("soft lockup", 1, true), ("ext4 filesystem error", 1, false)]);
    assert_eq!(ev.categories[1].last_line, "[1.0] EXT4-fs error (device vda1)");

    // The last line of a category is kept, trimmed.
    let more = "[3.0] BUG: bad page\n  [4.0] BUG: sleeping  \n[5.0] Oops: 0002 BUG: x\n";
    let ev = parse_kernel_events(more);
    let found: Vec<(&str, usize)> = ev.categories.iter().map(|c| (c.label, c.count)).collect();
    assert_eq!(found, [("kernel oops", 1), ("kernel BUG", 2)]);
    assert_eq!(ev.categories[1].last_line, "[4.0] BUG: sleeping");

    // Every matching line counts once, so the totals of two logs add up.
    let both = format!("{out}{more}");
    assert_eq!(parse_kernel_events(&both).total(), 5);
}

#[test]
fn netstat_columns_may_stand_in_any_order() {
    let a = "TcpExt: ListenDrops Other ListenOverflows\nTcpExt: 7 1 5\n";
    let b = "IpExt: X\nTcpExt: Other ListenOverflows ListenDrops\nIpExt: 3\nTcpExt: 1 5 7\n";
    assert_eq!(parse_netstat_listen(a), Some((5, 7)));
    assert_eq!(parse_netstat_listen(b), Some((5, 7)));
    assert_eq!(parse_netstat_listen("TcpExt: ListenDrops\nTcpExt: 7\n"), None);
    assert_eq!(parse_netstat_listen("IpExt: ListenDrops ListenOverflows\nIpExt: 7 5\n"), None);
}

#[test]
fn ss_summary() {
    let out = "Total: 230\n\
               TCP:   15 (estab 8, closed 2, orphaned 0, timewait 1)\n";
    let s = parse_ss_summary(out).unwrap();
    assert_eq!(s.total, 230);
    assert_eq!(s.tcp_estab, 8);
}

#[test]
fn vmstat_uses_last_sample_by_column_name() {
    let out = "procs -----------memory---------- ---swap-- -----io---- -system-- ------cpu-----\n\
               \x20r  b   swpd   free   buff  cache   si   so    bi    bo   in   cs us sy id wa st\n\
               \x201  0      0 600000 200000 150000    0    0     5    12   90  180  3  1 95  1  0\n\
               \x204  2      0 590000 200000 150000    0    0   200   500  450  900 12  6 57 25  0\n";
    let v = parse_vmstat(out).unwrap();
    assert_eq!(v.iowait, micros(25.0)); // second (delta) row, not the boot average
    assert_eq!(v.blocked, 2);
    assert_eq!(v.steal, micros(0.0));
}

#[test]
fn vmstat_without_steal_column() {
    // Older/no-virt vmstat may omit `st`; steal defaults to 0.
    let out = " r  b   swpd   free   buff  cache   si   so    bi    bo   in   cs us sy id wa\n\
               \x203  1      0 800000 100000 300000    0    0   120   340  400  800 10  5 60 25\n";
    let v = parse_vmstat(out).unwrap();
    assert_eq!(v.iowait, micros(25.0));
    assert_eq!(v.steal, micros(0.0));
}

#[test]
fn vmstat_garbage_is_none() {
    assert_eq!(parse_vmstat("no header here\n1 2 3\n"), None);
}

#[test]
fn net_dev_skips_headers_and_lo() {
    let out = "Inter-|   Receive                                                |  Transmit\n\
               \x20face |bytes    packets errs drop fifo frame compressed multicast|bytes    packets errs drop fifo colls carrier compressed\n\
               \x20   lo: 1000 10 0 0 0 0 0 0 1000 10 0 0 0 0 0 0\n\
               \x20 eth0: 500000 500 0 0 0 0 0 0 200000 400 0 0 0 0 0 0\n";
    let m = parse_net_dev(out);
    assert_eq!(m.len(), 1); // lo dropped
    let eth0 = m.get("eth0").unwrap();
    assert_eq!(eth0.rx_bytes, 500_000);
    assert_eq!(eth0.tx_bytes, 200_000);
}
