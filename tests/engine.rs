use ppkiller::{
    build_port_directory, get_ports_list, get_processes_list, inode_set, kill_all_ports, memory_tenths,
    parse_pid, parse_row, parse_socket_link, resolve_owners, scan_listening_sockets, tenths_string,
    top_processes, Family, KillAction, KillEvent, Mechanism, Phase, PortInfo, ProcessFds, ProcessRecord,
    Signal, SocketEntry, Termination,
};
use std::collections::{HashMap, HashSet};

const HEADER: &str = "  sl  local_address rem_address   st tx_queue rx_queue tr tm->when retrnsmt   uid  timeout inode\n";

fn row(port_hex: &str, state: &str, inode: &str) -> String {
    format!(
        "   0: 00000000:{} 00000000:0000 {} 00000000:00000000 00:00000000 00000000  1000        0 {} 1 0000000000000000 100 0 0 10 0\n",
        port_hex, state, inode
    )
}

fn sock(port: u16, inode: i64) -> SocketEntry {
    SocketEntry { port, inode, family: Family::V4 }
}

fn record(pid: i32, name: &str, owner: Option<&str>, cpu_tenths: u32, memory_tenths: u64) -> ProcessRecord {
    ProcessRecord {
        pid,
        name: name.to_string(),
        owner: owner.map(|o| o.to_string()),
        cpu_tenths,
        memory_tenths,
    }
}

fn fds(pid: i32, links: &[&str]) -> ProcessFds {
    ProcessFds { pid, links: links.iter().map(|l| l.as_bytes().to_vec()).collect() }
}

fn ports_of(d: &[PortInfo]) -> Vec<String> {
    d.iter().map(|p| p.port.clone()).collect()
}

#[test]
fn row_in_listen_state_is_parsed() {
    let line = row("1F90", "0A", "12345");
    let e = parse_row(line.as_bytes(), Family::V4).unwrap();
    assert_eq!(e, SocketEntry { port: 8080, inode: 12345, family: Family::V4 });
}

#[test]
fn row_lower_case_hex_port() {
    let line = row("1f90", "0A", "7");
    assert_eq!(parse_row(line.as_bytes(), Family::V6).unwrap().port, 8080);
}

#[test]
fn row_not_listening_is_skipped() {
    let line = row("1F90", "01", "12345");
    assert_eq!(parse_row(line.as_bytes(), Family::V4), None);
}

#[test]
fn short_row_is_skipped() {
    assert_eq!(parse_row(b"   0: 00000000:1F90 00000000:0000 0A", Family::V4), None);
    assert_eq!(parse_row(b"", Family::V4), None);
}

#[test]
fn malformed_port_or_inode_is_skipped() {
    assert_eq!(parse_row(row("XYZ", "0A", "1").as_bytes(), Family::V4), None);
    assert_eq!(parse_row(row("10000", "0A", "1").as_bytes(), Family::V4), None);
    assert_eq!(parse_row(row("1F90", "0A", "12a").as_bytes(), Family::V4), None);
    let no_colon = "   0: 000000001F90 00000000:0000 0A 00000000:00000000 00:00000000 00000000  1000        0 5 1\n";
    assert_eq!(parse_row(no_colon.as_bytes(), Family::V4), None);
}

#[test]
fn largest_port_and_inode() {
    let e = parse_row(row("FFFF", "0A", "9223372036854775807").as_bytes(), Family::V4).unwrap();
    assert_eq!(e.port, 65535);
    assert_eq!(e.inode, i64::MAX);
    assert_eq!(parse_row(row("FFFF", "0A", "9223372036854775808").as_bytes(), Family::V4), None);
}

#[test]
fn table_skips_header_and_bad_rows() {
    let table = format!("{}{}{}garbage line\n{}", HEADER, row("0016", "0A", "100"), row("0050", "06", "101"), row("1F90", "0A", "102"));
    let r = scan_listening_sockets(table.as_bytes(), Family::V4);
    assert_eq!(r, vec![sock(22, 100), sock(8080, 102)]);
}

#[test]
fn table_last_row_without_newline_and_ipv6_address() {
    let six = "   1: 00000000000000000000000000000000:0016 00000000000000000000000000000000:0000 0A 00000000:00000000 00:00000000 00000000     0        0 555 1 0000000000000000 100 0 0 10 0";
    let table = format!("{}{}", HEADER, six);
    let r = scan_listening_sockets(table.as_bytes(), Family::V6);
    assert_eq!(r, vec![SocketEntry { port: 22, inode: 555, family: Family::V6 }]);
}

#[test]
fn empty_or_header_only_table() {
    assert!(scan_listening_sockets(b"", Family::V4).is_empty());
    assert!(scan_listening_sockets(HEADER.as_bytes(), Family::V4).is_empty());
    assert!(scan_listening_sockets(row("0016", "0A", "1").as_bytes(), Family::V4).is_empty());
}

#[test]
fn socket_links() {
    assert_eq!(parse_socket_link(b"socket:[12345]"), Some(12345));
    assert_eq!(parse_socket_link(b"pipe:[12345]"), None);
    assert_eq!(parse_socket_link(b"socket:[]"), None);
    assert_eq!(parse_socket_link(b"socket:[12x]"), None);
    assert_eq!(parse_socket_link(b"/dev/null"), None);
}

#[test]
fn pid_names() {
    assert_eq!(parse_pid(b"4242"), Some(4242));
    assert_eq!(parse_pid(b"self"), None);
    assert_eq!(parse_pid(b""), None);
    assert_eq!(parse_pid(b"2147483648"), None);
}

#[test]
fn owners_only_for_requested_inodes_last_claim_wins() {
    let inodes = inode_set(&vec![sock(80, 10), sock(443, 11)]);
    let tables = vec![
        fds(100, &["socket:[10]", "/dev/null", "socket:[99]"]),
        fds(200, &["pipe:[11]", "socket:[11]"]),
        fds(300, &["socket:[10]"]),
    ];
    let m = resolve_owners(&inodes, &tables);
    let mut want = HashMap::new();
    want.insert(10i64, 300i32);
    want.insert(11i64, 200i32);
    assert_eq!(m, want);
}

#[test]
fn inode_set_collects_distinct() {
    let s = inode_set(&vec![sock(1, 5), sock(2, 5), sock(3, 6)]);
    let want: HashSet<i64> = [5i64, 6].into_iter().collect();
    assert_eq!(s, want);
}

#[test]
fn directory_sorted_without_duplicates() {
    let entries = vec![sock(8080, 1), sock(22, 2), sock(443, 3), sock(22, 4), sock(3000, 5), sock(80, 6)];
    let d = build_port_directory(&entries, &HashMap::new(), &vec![]);
    assert_eq!(ports_of(&d), vec!["22", "80", "443", "3000", "8080"]);
}

#[test]
fn shared_port_keeps_last_socket() {
    let entries = vec![sock(5432, 1), SocketEntry { port: 5432, inode: 2, family: Family::V6 }];
    let mut owners = HashMap::new();
    owners.insert(1i64, 10i32);
    owners.insert(2i64, 20i32);
    let procs = vec![record(10, "first", Some("alice"), 0, 0), record(20, "second", Some("bob"), 0, 0)];
    let d = build_port_directory(&entries, &owners, &procs);
    assert_eq!(d.len(), 1);
    assert_eq!(d[0].pid, Some(20));
    assert_eq!(d[0].process_name.as_deref(), Some("second"));
    assert_eq!(d[0].user, "bob");
    let again = build_port_directory(&entries, &owners, &procs);
    assert_eq!(d, again);
}

#[test]
fn unresolved_ports_use_privilege_guess() {
    let d = build_port_directory(&vec![sock(22, 1), sock(8080, 2), sock(1023, 3), sock(1024, 4)], &HashMap::new(), &vec![]);
    assert_eq!(d[0], PortInfo { port: "22".to_string(), pid: None, process_name: None, user: "root".to_string() });
    assert_eq!(d[1].user, "root");
    assert_eq!(d[2].user, "unknown");
    assert_eq!(d[3], PortInfo { port: "8080".to_string(), pid: None, process_name: None, user: "unknown".to_string() });
}

#[test]
fn owner_missing_from_snapshot_is_root_system() {
    let mut owners = HashMap::new();
    owners.insert(7i64, 999i32);
    let d = build_port_directory(&vec![sock(9000, 7)], &owners, &vec![record(1, "init", Some("root"), 0, 0)]);
    assert_eq!(d[0], PortInfo { port: "9000".to_string(), pid: Some(999), process_name: None, user: "root/system".to_string() });
}

#[test]
fn resolved_owner_without_user_name_is_unknown() {
    let mut owners = HashMap::new();
    owners.insert(7i64, 5i32);
    let d = build_port_directory(&vec![sock(80, 7)], &owners, &vec![record(5, "nginx", None, 0, 0)]);
    assert_eq!(d[0], PortInfo { port: "80".to_string(), pid: Some(5), process_name: Some("nginx".to_string()), user: "unknown".to_string() });
}

#[test]
fn ports_list_from_tables() {
    let tcp4 = format!("{}{}{}", HEADER, row("1F90", "0A", "500"), row("0016", "0A", "501"));
    let six = "   0: 00000000000000000000000000000000:1F90 00000000000000000000000000000000:0000 0A 00000000:00000000 00:00000000 00000000  1000        0 502 1 0\n";
    let tcp6 = format!("{}{}", HEADER, six);
    let tables = vec![fds(42, &["socket:[500]", "socket:[502]"]), fds(43, &["socket:[777]"])];
    let procs = vec![record(42, "server", Some("dev"), 15, 2048)];
    let d = get_ports_list(tcp4.as_bytes(), tcp6.as_bytes(), &tables, &procs);
    assert_eq!(d.len(), 2);
    assert_eq!(d[0], PortInfo { port: "22".to_string(), pid: None, process_name: None, user: "root".to_string() });
    assert_eq!(d[1], PortInfo { port: "8080".to_string(), pid: Some(42), process_name: Some("server".to_string()), user: "dev".to_string() });
    let second = get_ports_list(tcp4.as_bytes(), tcp6.as_bytes(), &tables, &procs);
    assert_eq!(d, second);
}

#[test]
fn ports_list_with_unreadable_tables_is_empty() {
    assert!(get_ports_list(b"", b"", &vec![], &vec![]).is_empty());
}

#[test]
fn kill_all_targets_every_resolved_pid() {
    let mut owners = HashMap::new();
    owners.insert(1i64, 11i32);
    owners.insert(3i64, 33i32);
    owners.insert(4i64, 44i32);
    let d = build_port_directory(&vec![sock(80, 1), sock(81, 2), sock(82, 3), sock(83, 4)], &owners, &vec![]);
    assert_eq!(kill_all_ports(&d), vec![11, 33, 44]);
    assert!(kill_all_ports(&vec![]).is_empty());
}

fn run(pid: i32, events: &[KillEvent]) -> (Vec<KillAction>, Termination) {
    let (mut t, first) = Termination::start(pid);
    let mut actions = vec![first];
    for e in events {
        let (next, a) = t.step(*e);
        t = next;
        actions.push(a);
    }
    (actions, t)
}

#[test]
fn terminate_missing_pid_fails() {
    let (actions, t) = run(999_999, &[KillEvent::Unavailable, KillEvent::Refused, KillEvent::Refused]);
    assert_eq!(
        actions,
        vec![
            KillAction::Send { pid: 999_999, signal: Signal::Term, via: Mechanism::Direct },
            KillAction::Send { pid: 999_999, signal: Signal::Term, via: Mechanism::Command },
            KillAction::Send { pid: 999_999, signal: Signal::Kill, via: Mechanism::Command },
            KillAction::Done { success: false },
        ]
    );
    assert_eq!(t.phase, Phase::Finished(false));
    let (again, _) = t.step(KillEvent::Refused);
    assert_eq!(again.phase, Phase::Finished(false));
}

#[test]
fn terminate_non_positive_pid_sends_nothing() {
    for pid in [0, -1, i32::MIN] {
        let (t, first) = Termination::start(pid);
        assert_eq!(first, KillAction::Done { success: false });
        assert_eq!(t.phase, Phase::Finished(false));
    }
}

#[test]
fn terminate_direct_success_ignores_graceful_outcome() {
    let (actions, t) = run(7, &[KillEvent::Refused, KillEvent::Delivered]);
    assert_eq!(actions[1], KillAction::Send { pid: 7, signal: Signal::Kill, via: Mechanism::Direct });
    assert_eq!(actions[2], KillAction::Done { success: true });
    assert_eq!(t.phase, Phase::Finished(true));
}

#[test]
fn terminate_permission_denied_fails() {
    let (actions, _) = run(1, &[KillEvent::Refused, KillEvent::Refused]);
    assert_eq!(actions[2], KillAction::Done { success: false });
}

#[test]
fn terminate_falls_back_to_command_on_forceful_step() {
    let (actions, t) = run(5, &[KillEvent::Delivered, KillEvent::Unavailable, KillEvent::Refused, KillEvent::Delivered]);
    assert_eq!(actions[2], KillAction::Send { pid: 5, signal: Signal::Term, via: Mechanism::Command });
    assert_eq!(actions[4], KillAction::Done { success: true });
    assert_eq!(t.phase, Phase::Finished(true));
}

#[test]
fn terminate_command_that_cannot_run_fails() {
    let (actions, _) = run(5, &[KillEvent::Unavailable, KillEvent::Unavailable, KillEvent::Unavailable]);
    assert_eq!(actions[3], KillAction::Done { success: false });
}

#[test]
fn top_ten_of_fifteen_by_score() {
    let procs: Vec<ProcessRecord> = (0..15)
        .map(|i| record(i, &format!("p{}", i), Some("u"), ((i * 7) % 15) as u32 * 10, (i as u64 * 37) % 100))
        .collect();
    let top = top_processes(&procs, 10);
    assert_eq!(top.len(), 10);
    let score = |p: &ProcessRecord| p.cpu_tenths as f64 / 10.0 + (p.memory_tenths as f64 / 10.0) / 10.0;
    for w in top.windows(2) {
        assert!(score(&w[0]) >= score(&w[1]));
    }
    let lowest = score(&top[9]);
    for p in &procs {
        if !top.iter().any(|t| t.pid == p.pid) {
            assert!(score(p) <= lowest);
        }
    }
}

#[test]
fn top_processes_fewer_than_asked() {
    let procs = vec![record(1, "a", None, 10, 0), record(2, "b", None, 0, 200), record(3, "c", None, 5, 0)];
    let top = top_processes(&procs, 10);
    let pids: Vec<i32> = top.iter().map(|p| p.pid).collect();
    assert_eq!(pids, vec![2, 1, 3]);
    assert!(top_processes(&procs, 0).is_empty());
}

#[test]
fn process_listing_with_texts() {
    let procs = vec![record(1, "idle", None, 0, 5), record(2, "busy", Some("ann"), 1234, 20480), record(3, "mid", Some("bo"), 57, 0)];
    let l = get_processes_list(&procs);
    assert_eq!(l.len(), 3);
    assert_eq!(l[0].pid, 2);
    assert_eq!(l[0].name, "busy");
    assert_eq!(l[0].cpu, "123.4");
    assert_eq!(l[0].mem, "2048.0");
    assert_eq!(l[0].user, "ann");
    assert_eq!(l[1].cpu, "5.7");
    assert_eq!(l[2].cpu, "0.0");
    assert_eq!(l[2].mem, "0.5");
    assert_eq!(l[2].user, "unknown");
}

#[test]
fn process_listing_by_weighted_score() {
    let procs = vec![record(1, "cpu", None, 10, 0), record(2, "memory", None, 0, 500), record(3, "both", None, 20, 90)];
    let l = get_processes_list(&procs);
    let pids: Vec<i32> = l.iter().map(|p| p.pid).collect();
    assert_eq!(pids, vec![2, 3, 1]);
}

#[test]
fn process_listing_keeps_at_most_hundred() {
    let procs: Vec<ProcessRecord> = (0..120).map(|i| record(i, "x", None, i as u32, 0)).collect();
    let l = get_processes_list(&procs);
    assert_eq!(l.len(), 100);
    assert_eq!(l[0].pid, 119);
    assert_eq!(l[99].pid, 20);
}

#[test]
fn memory_rounded_to_tenth_of_megabyte() {
    assert_eq!(memory_tenths(0), 0);
    assert_eq!(memory_tenths(1048576), 10);
    assert_eq!(memory_tenths(1572864), 15);
    assert_eq!(memory_tenths(52428), 0);
    assert_eq!(memory_tenths(52429), 1);
    assert_eq!(memory_tenths(u64::MAX), 175921860444160);
}

#[test]
fn tenths_texts() {
    assert_eq!(tenths_string(0), "0.0");
    assert_eq!(tenths_string(7), "0.7");
    assert_eq!(tenths_string(1005), "100.5");
}
