use ppkiller::{parse_ss_row, ss_listing, Family, PortInfo, ProcessRecord};

const SS: &str = "State  Recv-Q Send-Q Local Address:Port  Peer Address:Port Process\n\
LISTEN 0      4096   127.0.0.53%lo:53       0.0.0.0:*     users:((\"systemd-resolve\",pid=612,fd=14))\n\
LISTEN 0      128    0.0.0.0:22             0.0.0.0:*     users:((\"sshd\",pid=900,fd=3))\n\
LISTEN 0      128    [::]:22                [::]:*        users:((\"sshd\",pid=901,fd=4))\n\
LISTEN 0      511    *:8080                 *:*           users:((\"/usr/bin/node\",pid=1234,fd=20))\n\
LISTEN 0      100    0.0.0.0:631            0.0.0.0:*\n\
LISTEN 0      100    0.0.0.0:9090           0.0.0.0:*\r\n\
LISTEN 0      100    0.0.0.0:*              0.0.0.0:*\n";

fn info(port: &str, pid: Option<i32>, name: Option<&str>, user: &str) -> PortInfo {
    PortInfo { port: port.to_string(), pid, process_name: name.map(|n| n.to_string()), user: user.to_string() }
}

fn proc_rec(pid: i32, name: &str, owner: &str) -> ProcessRecord {
    ProcessRecord { pid, name: name.to_string(), owner: Some(owner.to_string()), cpu_tenths: 0, memory_tenths: 0 }
}

#[test]
fn ss_output_merged_like_the_socket_tables() {
    let procs = vec![proc_rec(612, "systemd-resolve", "systemd-resolve"), proc_rec(900, "sshd", "root"), proc_rec(1234, "node", "dev")];
    let r = ss_listing(SS.as_bytes(), &procs);
    assert_eq!(
        r,
        vec![
            info("22", Some(901), None, "root/system"),
            info("53", Some(612), Some("systemd-resolve"), "systemd-resolve"),
            info("631", None, None, "root"),
            info("8080", Some(1234), Some("node"), "dev"),
            info("9090", None, None, "unknown"),
        ]
    );
}

#[test]
fn ss_output_one_owned_listener() {
    let out = "State Recv-Q Send-Q Local Address:Port Peer Address:Port Process\nLISTEN 0 4096 0.0.0.0:8080 0.0.0.0:* users:((\"/usr/bin/node\",pid=4242,fd=21))\n";
    let r = ss_listing(out.as_bytes(), &vec![proc_rec(4242, "node", "dev")]);
    assert_eq!(r, vec![info("8080", Some(4242), Some("node"), "dev")]);
}

#[test]
fn ss_output_empty_or_header_only() {
    assert!(ss_listing(b"", &vec![]).is_empty());
    assert!(ss_listing(b"State Recv-Q Send-Q Local Peer\n", &vec![]).is_empty());
}

#[test]
fn ss_row_with_captures() {
    let line = b"LISTEN 0 128 0.0.0.0:22 0.0.0.0:* users:((\"a/sshd\",pid=900,fd=3))";
    let text = std::str::from_utf8(line).unwrap();
    let name_start = text.find("a/sshd").unwrap();
    let pid_start = text.find("900").unwrap();
    let r = parse_ss_row(line, Some((name_start, name_start + 6, pid_start, pid_start + 3)));
    assert_eq!(r, Some((22, Some(900), Family::V4)));
}

#[test]
fn ss_row_without_captures_or_port() {
    assert_eq!(parse_ss_row(b"LISTEN 0 128 [::]:5432 [::]:*", None), Some((5432, None, Family::V6)));
    assert_eq!(parse_ss_row(b"LISTEN 0 128", None), None);
    assert_eq!(parse_ss_row(b"LISTEN 0 128 0.0.0.0:", None), None);
    assert_eq!(parse_ss_row(b"LISTEN 0 128 *:*", None), None);
    assert_eq!(parse_ss_row(b"LISTEN 0 128 0.0.0.0:70000", None), None);
}
