use perfo::net::{
    add_socket_table, interface_rows, link_state_from, netdev_from, pid_of, proc_net_from, socket_class,
    socket_inode, socket_line, tally_sockets, tcp_stats_from, NetInfo, NetMonitor, Sock,
};

fn dev_line() -> &'static str {
    "  enp3s0: 1000 200 3 4 0 0 0 0 5000 100 2 6 0 0 0 0\n"
}

#[test]
fn netdev_parses_columns() {
    let m = netdev_from(&format!(
        "Inter-|   Receive ...\nface |bytes ...\n{}",
        dev_line()
    ));
    let c = m.get("enp3s0").unwrap();
    assert_eq!(c.0, 1000); // rx_bytes
    assert_eq!(c.1, 200); // rx_packets
    assert_eq!(c.2, 3); // rx_errs
    assert_eq!(c.3, 4); // rx_drop
    assert_eq!(c.4, 5000); // tx_bytes
    assert_eq!(c.5, 100); // tx_packets
    assert_eq!(c.6, 2); // tx_errs
    assert_eq!(c.7, 6); // tx_drop
}

#[test]
fn netdev_skips_garbage() {
    let m = netdev_from("not an interface line\nlo: 1 2 3 4 5\n");
    assert_eq!(m.len(), 0);
}

#[test]
fn netdev_accepts_twelve_columns() {
    let m = netdev_from("wlan0:1 2 3 4 5 6 7 8 9 10 11 12\n");
    assert_eq!(m.get("wlan0").unwrap(), &(1, 2, 3, 4, 9, 10, 11, 12));
}

#[test]
fn tcp_stats_parses_retrans_and_established() {
    let snmp = "Tcp: RtoAlgorithm RtoMin RtoMax MaxConn ActiveOpens PassiveOpens AttemptFails EstabResets CurrEstab InSegs OutSegs RetransSegs InErrs OutRsts\nTcp: 1 200 120000 -1 10 5 0 2 3 100 90 7 0 1\n";
    let tcp = "sl  local_address rem_address   st tx_queue rx_queue tr tm->when retrnsmt   uid  timeout inode\n  0: 0100007F:1F90 00000000:0000 0A 00000000:00000000 00:00000000 00000000    30        0 1000 2 3\n  1: 0100007F:C350 00000000:0000 0A 00000000:00000000 00:00000000 00000000    30        0 1000 2 3\n";
    let (retrans, established) = tcp_stats_from(snmp, tcp);
    assert_eq!(retrans, 7);
    assert_eq!(established, 2);
}

#[test]
fn tcp_stats_without_values_line_is_zero() {
    assert_eq!(tcp_stats_from("Ip: 1 2\nTcp: A B C\n", ""), (0, 0));
    assert_eq!(tcp_stats_from("Tcp: A\nTcp: 1 2 3\n", "x\ny\n"), (0, 2));
}

#[test]
fn socket_line_parses_state_and_inode() {
    let tcp_est = "  0: 0100007F:1F90 00000000:0000 01 00000000:00000000 00:00000000 00000000    30        0 12345 2 3\n";
    let tcp_listen = "  1: 00000000:0050 00000000:0000 0A 00000000:00000000 00:00000000 00000000    30        0 99999 1 3\n";
    let udp = "  2: 00000000:0035 00000000:0000 07 00000000:00000000 00:00000000 00000000    30        0 77777 1 3\n";
    assert_eq!(socket_line(tcp_est, false), Some((12345, Sock::TcpEst)));
    assert_eq!(
        socket_line(tcp_listen, false),
        Some((99999, Sock::TcpListen))
    );
    assert_eq!(socket_line(udp, true), Some((77777, Sock::Udp)));
    assert_eq!(socket_line("garbage", false), None);
}

#[test]
fn socket_tables_skip_header_and_last_entry_wins() {
    let mut entries = Vec::new();
    add_socket_table(
        &mut entries,
        "  sl header 0 01 0 0 0 0 0 5\n  0: a b 01 x x x x x 11 1\n  1: a b 06 x x x x x 12 1\n",
        false,
    );
    assert_eq!(entries, vec![(11, Sock::TcpEst), (12, Sock::TcpOther)]);
    add_socket_table(&mut entries, "header\n  0: a b 07 x x x x x 11 1\n", true);
    assert_eq!(socket_class(&entries, 11), Some(Sock::Udp));
    assert_eq!(socket_class(&entries, 12), Some(Sock::TcpOther));
    assert_eq!(socket_class(&entries, 13), None);
    add_socket_table(&mut entries, "", true);
    assert_eq!(entries.len(), 3);
}

#[test]
fn socket_links_and_pids() {
    assert_eq!(socket_inode("socket:[12345]"), Some(12345));
    assert_eq!(socket_inode("socket:[]"), None);
    assert_eq!(socket_inode("pipe:[12345]"), None);
    assert_eq!(socket_inode("socket:[12"), None);
    assert_eq!(pid_of("1234"), Some(1234));
    assert_eq!(pid_of("self"), None);
    assert_eq!(pid_of("4294967296"), None);
}

#[test]
fn link_state_reads_speed_and_carrier() {
    assert_eq!(link_state_from(Some("1000\n"), Some("1\n")), (Some(1000), true));
    assert_eq!(link_state_from(Some("-1\n"), Some("0\n")), (None, false));
    assert_eq!(link_state_from(Some("0\n"), None), (None, false));
    assert_eq!(link_state_from(None, Some(" 1 ")), (None, true));
}

#[test]
fn sockets_are_tallied_per_process() {
    let ev = vec![
        (10, Sock::TcpEst),
        (20, Sock::Udp),
        (10, Sock::TcpListen),
        (10, Sock::TcpEst),
        (30, Sock::TcpOther),
    ];
    let t = tally_sockets(&ev);
    assert_eq!(t.len(), 3);
    assert_eq!((t[0].pid, t[0].tcp_est, t[0].tcp_listen, t[0].udp), (10, 2, 1, 0));
    assert_eq!((t[1].pid, t[1].udp), (20, 1));
    assert_eq!((t[2].pid, t[2].tcp_est + t[2].tcp_listen + t[2].udp), (30, 0));
    let top = proc_net_from(&ev);
    assert_eq!(top.iter().map(|p| p.pid).collect::<Vec<_>>(), vec![10, 20, 30]);
}

#[test]
fn proc_list_keeps_the_busiest_32() {
    let mut ev = Vec::new();
    for pid in 0..40u32 {
        for _ in 0..pid {
            ev.push((pid, Sock::Udp));
        }
        ev.push((pid, Sock::TcpOther));
    }
    let top = proc_net_from(&ev);
    assert_eq!(top.len(), 32);
    assert_eq!(top[0].pid, 39);
    assert_eq!(top[31].pid, 8);
    assert!(top.windows(2).all(|w| w[0].udp >= w[1].udp));
}

fn info(name: &str, rx: u64, tx: u64) -> NetInfo {
    NetInfo {
        name: name.to_string(),
        rx_bps: rx,
        tx_bps: tx,
        rx_pps: 0,
        tx_pps: 0,
        rx_errs_s: 0,
        tx_errs_s: 0,
        rx_drops_s: 0,
        tx_drops_s: 0,
        link_mbps: None,
        link_up: false,
        total_rx_bytes: 0,
        total_tx_bytes: 0,
    }
}

#[test]
fn monitor_starts_empty_and_first_refresh_has_no_interfaces() {
    let m = NetMonitor::new();
    let s = m.snapshot();
    assert!(s.ifaces.is_empty());
    assert!(s.proc_net.is_empty());
    assert_eq!((s.totals.rx_bps, s.totals.tx_bps, s.totals.tcp_retrans_s), (0, 0, 0));
    let cur = netdev_from(dev_line());
    assert!(m.interface_deltas(&cur).is_empty());
    assert_eq!(m.retrans_delta(9), 9);
}

#[test]
fn monitor_refresh_round_trip() {
    let mut m = NetMonitor::new();
    let first = netdev_from("eth0: 100 10 0 0 0 0 0 0 50 5 0 0\nlo: 7 7 0 0 0 0 0 0 7 7 0 0\n");
    m.store_refresh(first, 40, Vec::new(), 0, 0, Vec::new());
    assert_eq!(m.retrans_delta(45), 5);
    assert_eq!(m.retrans_delta(10), 0);
    let second = netdev_from("eth0: 300 30 1 0 0 0 0 0 80 6 0 2\nwlan0: 1 1 0 0 0 0 0 0 1 1 0 0\nlo: 7 7 0 0 0 0 0 0 7 7 0 0\n");
    let d = m.interface_deltas(&second);
    assert_eq!(d.len(), 2);
    assert_eq!(d[0].name, "eth0");
    assert_eq!(d[0].delta, (200, 20, 1, 0, 30, 1, 0, 2));
    assert_eq!(d[0].current.0, 300);
    assert_eq!(d[1].name, "lo");
    assert_eq!(d[1].delta, (0, 0, 0, 0, 0, 0, 0, 0));
    m.store_refresh(
        second,
        45,
        vec![info("lo", 0, 0), info("eth0", 100, 15), info("wlan0", 300, 1)],
        2,
        3,
        Vec::new(),
    );
    let s = m.snapshot();
    let names: Vec<&str> = s.ifaces.iter().map(|i| i.name.as_str()).collect();
    assert_eq!(names, vec!["wlan0", "eth0", "lo"]);
    assert_eq!((s.totals.rx_bps, s.totals.tx_bps), (400, 16));
    assert_eq!((s.totals.tcp_retrans_s, s.totals.tcp_established), (2, 3));
}

#[test]
fn indented_socket_header_is_not_counted() {
    let tcp = "  sl  local_address rem_address   st tx_queue rx_queue tr tm->when retrnsmt   uid  timeout inode\n  0: 0100007F:1F90 00000000:0000 01 00000000:00000000 00:00000000 00000000    30        0 12345 2 3\n";
    assert_eq!(tcp_stats_from("", tcp), (0, 1));
    assert_eq!(tcp_stats_from("", "  sl  local_address\n"), (0, 0));
}

#[test]
fn netdev_of_joined_texts_later_interface_wins() {
    let a = "eth0: 1 0 0 0 0 0 0 0 0 0 0 0\nlo: 2 0 0 0 0 0 0 0 0 0 0 0\n";
    let b = "lo: 5 0 0 0 0 0 0 0 0 0 0 0\nwlan0: 6 0 0 0 0 0 0 0 0 0 0 0";
    let m = netdev_from(&format!("{a}{b}"));
    assert_eq!(m.len(), 3);
    assert_eq!(m.get("eth0").unwrap().0, 1);
    assert_eq!(m.get("lo").unwrap().0, 5);
    assert_eq!(m.get("wlan0").unwrap().0, 6);
}

#[test]
fn interface_rows_take_names_rates_and_totals() {
    let mut m = NetMonitor::new();
    m.store_refresh(netdev_from("eth0: 10 1 0 0 0 0 0 0 20 2 0 0\n"), 0, Vec::new(), 0, 0, Vec::new());
    let deltas = m.interface_deltas(&netdev_from("eth0: 30 3 0 0 0 0 0 0 60 4 0 0\n"));
    let rows = interface_rows(&deltas, &vec![(1, 2, 3, 4, 5, 6, 7, 8)], &vec![(Some(100), true)]);
    assert_eq!(rows.len(), 1);
    let r = &rows[0];
    assert_eq!(r.name, "eth0");
    assert_eq!((r.rx_bps, r.rx_pps, r.rx_errs_s, r.rx_drops_s), (1, 2, 3, 4));
    assert_eq!((r.tx_bps, r.tx_pps, r.tx_errs_s, r.tx_drops_s), (5, 6, 7, 8));
    assert_eq!((r.link_mbps, r.link_up), (Some(100), true));
    assert_eq!((r.total_rx_bytes, r.total_tx_bytes), (30, 60));
}

#[test]
fn unreadable_dev_file_shows_nothing_now_or_next() {
    let mut m = NetMonitor::new();
    m.store_refresh(netdev_from("eth0: 10 1 0 0 0 0 0 0 20 2 0 0\n"), 0, Vec::new(), 0, 0, Vec::new());
    let empty = netdev_from("");
    let deltas = m.interface_deltas(&empty);
    assert!(deltas.is_empty());
    let rows = interface_rows(&deltas, &Vec::new(), &Vec::new());
    m.store_refresh(empty, 0, rows, 0, 0, Vec::new());
    let s = m.snapshot();
    assert!(s.ifaces.is_empty());
    assert_eq!((s.totals.rx_bps, s.totals.tx_bps), (0, 0));
    assert!(m.interface_deltas(&netdev_from("eth0: 30 3 0 0 0 0 0 0 60 4 0 0\n")).is_empty());
}
