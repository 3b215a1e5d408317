use vstd::prelude::*;
use crate::directory::{build_port_directory, port_directory, port_views, PortInfo, PortView};
use crate::owners::{inode_set, inodes_of, owners_of, resolve_owners, ProcessFds};
use crate::processes::ProcessRecord;
use crate::socket_table::{scan_listening_sockets, socket_table, Family, SocketEntry};

verus! {

/// The sockets of both tables: those of the IPv4 table, then those of the
/// IPv6 table.
pub open spec fn listening_sockets(tcp4: Seq<u8>, tcp6: Seq<u8>) -> Seq<SocketEntry> {
    socket_table(tcp4, Family::V4) + socket_table(tcp6, Family::V6)
}

/// The port directory of one snapshot: the socket tables `tcp4` and `tcp6`,
/// the descriptor tables of the processes, and the process table.
pub open spec fn ports_snapshot(tcp4: Seq<u8>, tcp6: Seq<u8>, fd_tables: Seq<ProcessFds>, procs: Seq<ProcessRecord>) -> Seq<PortView> {
    let entries = listening_sockets(tcp4, tcp6);
    port_directory(entries, owners_of(inodes_of(entries), fd_tables), procs)
}

/// The process ids of the records of a directory that have one, in order.
pub open spec fn resolved_pids(d: Seq<PortView>) -> Seq<i32>
    decreases d.len(),
{
    if d.len() == 0 {
        seq![]
    } else {
        resolved_pids(d.drop_last()) + match d.last().pid {
            Some(p) => seq![p],
            None => seq![],
        }
    }
}

/// The number of records of a directory that have a process id.
pub open spec fn resolved_count(d: Seq<PortView>) -> nat
    decreases d.len(),
{
    if d.len() == 0 {
        0
    } else {
        resolved_count(d.drop_last()) + if d.last().pid is Some { 1nat } else { 0nat }
    }
}

/// Killing every listening port attempts exactly one termination per record
/// that has a process id, in the directory's order: the record at `i` is the
/// one after `resolved_count(d.take(i))` earlier attempts, whatever became of
/// them.
pub proof fn lemma_kill_all_attempts(d: Seq<PortView>)
    ensures
        resolved_pids(d).len() == resolved_count(d),
        forall|i: int| 0 <= i < d.len() && (#[trigger] d[i]).pid is Some
            ==> resolved_count(d.take(i)) < resolved_pids(d).len()
                && resolved_pids(d)[resolved_count(d.take(i)) as int] == d[i].pid.unwrap(),
    decreases d.len(),
{
    if d.len() > 0 {
        let u = d.drop_last();
        lemma_kill_all_attempts(u);
        assert(d.take(d.len() - 1) =~= u);
        assert forall|i: int| 0 <= i < d.len() && (#[trigger] d[i]).pid is Some
            implies resolved_count(d.take(i)) < resolved_pids(d).len()
                && resolved_pids(d)[resolved_count(d.take(i)) as int] == d[i].pid.unwrap() by {
            if i < d.len() - 1 {
                assert(d.take(i) =~= u.take(i));
                assert(u[i] == d[i]);
            }
        }
    }
}

/// Two scans of an unchanged system give the same directory, in order and
/// content: the directory depends on the tables read and nothing else.
pub proof fn lemma_scan_repeatable(
    tcp4: Seq<u8>,
    tcp6: Seq<u8>,
    fd_tables: Seq<ProcessFds>,
    procs: Seq<ProcessRecord>,
    first: Seq<PortInfo>,
    second: Seq<PortInfo>,
)
    requires
        port_views(first) == ports_snapshot(tcp4, tcp6, fd_tables, procs),
        port_views(second) == ports_snapshot(tcp4, tcp6, fd_tables, procs),
    ensures
        port_views(first) == port_views(second),
        first.len() == second.len(),
{
    assert(first.len() == port_views(first).len());
    assert(second.len() == port_views(second).len());
}

/// Builds the port directory of one snapshot: parses both socket tables,
/// resolves the owners of their inodes in one pass over the descriptor
/// tables, and merges the result with the process table.
pub fn get_ports_list(tcp4: &[u8], tcp6: &[u8], fd_tables: &Vec<ProcessFds>, procs: &Vec<ProcessRecord>) -> (r: Vec<PortInfo>)
    ensures
        port_views(r@) == ports_snapshot(tcp4@, tcp6@, fd_tables@, procs@),
{
    let mut entries = scan_listening_sockets(tcp4, Family::V4);
    let mut v6 = scan_listening_sockets(tcp6, Family::V6);
    entries.append(&mut v6);
    let inodes = inode_set(&entries);
    let owners = resolve_owners(&inodes, fd_tables);
    build_port_directory(&entries, &owners, procs)
}

/// The processes that killing every listening port terminates: the process
/// id of each record of `directory` that has one, in the directory's order,
/// one termination each.
pub fn kill_all_ports(directory: &Vec<PortInfo>) -> (r: Vec<i32>)
    ensures
        r@ == resolved_pids(port_views(directory@)),
{
    let mut r: Vec<i32> = Vec::new();
    let mut k: usize = 0;
    while k < directory.len()
        invariant
            k <= directory@.len(),
            r@ == resolved_pids(port_views(directory@.take(k as int))),
        decreases directory@.len() - k,
    {
        proof {
            assert(port_views(directory@.take(k + 1)).drop_last() =~= port_views(directory@.take(k as int)));
            assert(port_views(directory@.take(k + 1)).last() == directory@[k as int]@);
        }
        if let Some(p) = directory[k].pid {
            r.push(p);
        }
        k = k + 1;
    }
    proof {
        assert(directory@.take(k as int) =~= directory@);
    }
    r
}

} // verus!
