use vstd::prelude::*;
use vstd::string::*;
use std::collections::HashMap;
use crate::digits::{decimal, decimal_string, lemma_decimal_value, port_order_value};
use crate::processes::{owner_label, owner_text, ProcessRecord};
use crate::socket_table::SocketEntry;

verus! {

broadcast use vstd::std_specs::hash::group_hash_axioms;

/// One listening port of the directory.
#[derive(Clone, Debug, PartialEq, Eq)]
pub struct PortInfo {
    pub port: String,
    pub pid: Option<i32>,
    pub process_name: Option<String>,
    pub user: String,
}

/// What a `PortInfo` says, with its texts as character sequences.
pub struct PortView {
    pub port: Seq<char>,
    pub pid: Option<i32>,
    pub process_name: Option<Seq<char>>,
    pub user: Seq<char>,
}

impl View for PortInfo {
    type V = PortView;

    open spec fn view(&self) -> PortView {
        PortView {
            port: self.port@,
            pid: self.pid,
            process_name: match self.process_name {
                Some(n) => Some(n@),
                None => None,
            },
            user: self.user@,
        }
    }
}

/// The views of a sequence of records.
pub open spec fn port_views(r: Seq<PortInfo>) -> Seq<PortView> {
    r.map_values(|x: PortInfo| x@)
}

/// The user to whom a port with no known owner is attributed: the
/// privileged account below 1024, `unknown` from there on.
pub open spec fn privilege_guess(port: u16) -> Seq<char> {
    if port < 1024 { "root"@ } else { "unknown"@ }
}

/// The first position at or after `k` of the process `pid` in `procs`.
pub open spec fn process_index(procs: Seq<ProcessRecord>, pid: i32, k: int) -> Option<int>
    decreases procs.len() - k,
{
    if k < 0 || k >= procs.len() {
        None
    } else if procs[k].pid == pid {
        Some(k)
    } else {
        process_index(procs, pid, k + 1)
    }
}

/// The record of the socket `e`: its owner from `owners`, and that owner's
/// name and user from `procs`; an owner missing from `procs` is attributed to
/// `root/system`, a socket with no owner by `privilege_guess`.
pub open spec fn port_view(e: SocketEntry, owners: Map<i64, i32>, procs: Seq<ProcessRecord>) -> PortView {
    if owners.contains_key(e.inode) {
        let pid = owners[e.inode];
        match process_index(procs, pid, 0) {
            Some(i) => PortView {
                port: decimal(e.port as nat),
                pid: Some(pid),
                process_name: Some(procs[i].name@),
                user: owner_label(procs[i].owner),
            },
            None => PortView {
                port: decimal(e.port as nat),
                pid: Some(pid),
                process_name: None,
                user: "root/system"@,
            },
        }
    } else {
        PortView { port: decimal(e.port as nat), pid: None, process_name: None, user: privilege_guess(e.port) }
    }
}

/// The position of the last socket on port `p` in `entries`.
pub open spec fn last_on_port(entries: Seq<SocketEntry>, p: int) -> Option<int>
    decreases entries.len(),
{
    if entries.len() == 0 {
        None
    } else if entries.last().port == p {
        Some(entries.len() - 1)
    } else {
        last_on_port(entries.drop_last(), p)
    }
}

/// The records of the ports below `p`, one per port that some socket of
/// `entries` listens on, in ascending order of port; each describes the last
/// socket on its port.
pub open spec fn directory_below(entries: Seq<SocketEntry>, owners: Map<i64, i32>, procs: Seq<ProcessRecord>, p: int) -> Seq<PortView>
    decreases p,
{
    if p <= 0 {
        seq![]
    } else {
        directory_below(entries, owners, procs, p - 1) + match last_on_port(entries, p - 1) {
            Some(k) => seq![port_view(entries[k], owners, procs)],
            None => seq![],
        }
    }
}

/// The port directory of `entries`.
pub open spec fn port_directory(entries: Seq<SocketEntry>, owners: Map<i64, i32>, procs: Seq<ProcessRecord>) -> Seq<PortView> {
    directory_below(entries, owners, procs, 0x10000)
}

proof fn lemma_last_on_port_bounds(entries: Seq<SocketEntry>, p: int)
    ensures
        match last_on_port(entries, p) {
            Some(k) => 0 <= k < entries.len() && entries[k].port == p,
            None => forall|k: int| 0 <= k < entries.len() ==> entries[k].port != p,
        },
    decreases entries.len(),
{
    if entries.len() > 0 {
        lemma_last_on_port_bounds(entries.drop_last(), p);
        assert(forall|k: int| 0 <= k < entries.len() - 1 ==> entries[k] == entries.drop_last()[k]);
    }
}

/// The port value of a record's port text.
pub open spec fn record_port(v: PortView) -> nat {
    port_order_value(v.port)
}

proof fn lemma_last_on_port_after(entries: Seq<SocketEntry>, b: int)
    requires
        0 <= b < entries.len(),
    ensures
        last_on_port(entries, entries[b].port as int) is Some,
        last_on_port(entries, entries[b].port as int).unwrap() >= b,
    decreases entries.len(),
{
    if b < entries.len() - 1 && entries.last().port != entries[b].port {
        lemma_last_on_port_after(entries.drop_last(), b);
    }
}

proof fn lemma_port_view_port(e: SocketEntry, owners: Map<i64, i32>, procs: Seq<ProcessRecord>)
    ensures
        record_port(port_view(e, owners, procs)) == e.port,
{
    lemma_decimal_value(e.port as nat);
}

proof fn lemma_directory_below(entries: Seq<SocketEntry>, owners: Map<i64, i32>, procs: Seq<ProcessRecord>, p: int)
    requires
        0 <= p <= 0x10000,
    ensures
        ({
            let d = directory_below(entries, owners, procs, p);
            &&& forall|i: int, j: int| 0 <= i < j < d.len() ==> record_port(d[i]) < record_port(d[j])
            &&& forall|i: int| #![trigger d[i]] 0 <= i < d.len() ==> {
                let v = record_port(d[i]) as int;
                &&& 0 <= v < p
                &&& last_on_port(entries, v) is Some
                &&& d[i] == port_view(entries[last_on_port(entries, v).unwrap()], owners, procs)
            }
            &&& forall|q: int| 0 <= q < p && (#[trigger] last_on_port(entries, q)) is Some
                ==> exists|i: int| 0 <= i < d.len() && record_port(d[i]) == q
        }),
    decreases p,
{
    if p > 0 {
        lemma_directory_below(entries, owners, procs, p - 1);
        lemma_last_on_port_bounds(entries, p - 1);
        let prev = directory_below(entries, owners, procs, p - 1);
        let d = directory_below(entries, owners, procs, p);
        match last_on_port(entries, p - 1) {
            Some(k) => {
                lemma_port_view_port(entries[k], owners, procs);
                assert(d =~= prev.push(port_view(entries[k], owners, procs)));
                assert(record_port(d[d.len() - 1]) == p - 1);
                assert forall|i: int| 0 <= i < prev.len() implies #[trigger] d[i] == prev[i] by {}
                assert forall|q: int| 0 <= q < p && (#[trigger] last_on_port(entries, q)) is Some
                    implies exists|i: int| 0 <= i < d.len() && record_port(d[i]) == q by {
                    if q < p - 1 {
                        let i = choose|i: int| 0 <= i < prev.len() && record_port(prev[i]) == q;
                        assert(d[i] == prev[i]);
                    } else {
                        assert(record_port(d[d.len() - 1]) == q);
                    }
                }
            },
            None => {
                assert(d =~= prev);
            },
        }
    }
}

/// The port directory is sorted in strictly ascending order of the numeric
/// value of its port texts: ascending, with no port twice.
pub proof fn lemma_directory_sorted(entries: Seq<SocketEntry>, owners: Map<i64, i32>, procs: Seq<ProcessRecord>)
    ensures
        forall|i: int, j: int| #![trigger port_directory(entries, owners, procs)[i], port_directory(entries, owners, procs)[j]]
            0 <= i < j < port_directory(entries, owners, procs).len()
            ==> port_order_value(port_directory(entries, owners, procs)[i].port)
                < port_order_value(port_directory(entries, owners, procs)[j].port),
{
    lemma_directory_below(entries, owners, procs, 0x10000);
}

/// Where two sockets share a port, the directory holds exactly one record of
/// that port, and it describes the last socket on the port, which comes no
/// earlier than either of the two.
pub proof fn lemma_shared_port_kept_once(entries: Seq<SocketEntry>, owners: Map<i64, i32>, procs: Seq<ProcessRecord>, a: int, b: int)
    requires
        0 <= a < b < entries.len(),
        entries[a].port == entries[b].port,
    ensures
        ({
            let d = port_directory(entries, owners, procs);
            let k = last_on_port(entries, entries[b].port as int).unwrap();
            &&& b <= k < entries.len()
            &&& entries[k].port == entries[b].port
            &&& exists|i: int| #![trigger d[i]] 0 <= i < d.len()
                && record_port(d[i]) == entries[b].port
                && d[i] == port_view(entries[k], owners, procs)
                && forall|j: int| 0 <= j < d.len() && j != i ==> record_port(d[j]) != entries[b].port
        }),
{
    let d = port_directory(entries, owners, procs);
    let p = entries[b].port as int;
    lemma_directory_below(entries, owners, procs, 0x10000);
    lemma_last_on_port_after(entries, b);
    lemma_last_on_port_bounds(entries, p);
    assert(last_on_port(entries, p) is Some);
    let i = choose|i: int| 0 <= i < d.len() && record_port(d[i]) == p;
    assert(d[i] == port_view(entries[last_on_port(entries, p).unwrap()], owners, procs));
    assert forall|j: int| 0 <= j < d.len() && j != i implies record_port(d[j]) != p by {
        if j < i {
            assert(record_port(d[j]) < record_port(d[i]));
        } else {
            assert(record_port(d[i]) < record_port(d[j]));
        }
    }
}

/// A port whose last socket has no known owner is still listed, with no
/// process id or name, and attributed by `privilege_guess`.
pub proof fn lemma_unresolved_port_listed(entries: Seq<SocketEntry>, owners: Map<i64, i32>, procs: Seq<ProcessRecord>, k: int)
    requires
        0 <= k < entries.len(),
        forall|j: int| k <= j < entries.len() && entries[j].port == entries[k].port
            ==> !owners.contains_key(#[trigger] entries[j].inode),
    ensures
        exists|i: int| 0 <= i < port_directory(entries, owners, procs).len()
            && #[trigger] port_directory(entries, owners, procs)[i] == (PortView {
                port: decimal(entries[k].port as nat),
                pid: None,
                process_name: None,
                user: privilege_guess(entries[k].port),
            }),
{
    let d = port_directory(entries, owners, procs);
    let p = entries[k].port as int;
    lemma_directory_below(entries, owners, procs, 0x10000);
    lemma_last_on_port_after(entries, k);
    lemma_last_on_port_bounds(entries, p);
    let last = last_on_port(entries, p).unwrap();
    assert(!owners.contains_key(entries[last].inode));
    let i = choose|i: int| 0 <= i < d.len() && record_port(d[i]) == p;
    assert(d[i] == port_view(entries[last], owners, procs));
}

fn find_process(procs: &Vec<ProcessRecord>, pid: i32) -> (r: Option<usize>)
    ensures
        match r {
            Some(i) => process_index(procs@, pid, 0) == Some(i as int) && i < procs@.len(),
            None => process_index(procs@, pid, 0) is None,
        },
{
    let mut k: usize = 0;
    while k < procs.len()
        invariant
            k <= procs@.len(),
            process_index(procs@, pid, 0) == process_index(procs@, pid, k as int),
        decreases procs@.len() - k,
    {
        if procs[k].pid == pid {
            return Some(k);
        }
        k = k + 1;
    }
    None
}

fn port_info(e: SocketEntry, owners: &HashMap<i64, i32>, procs: &Vec<ProcessRecord>) -> (r: PortInfo)
    ensures
        r@ == port_view(e, owners@, procs@),
{
    let port = decimal_string(e.port as u64);
    match owners.get(&e.inode) {
        Some(pid) => {
            let pid = *pid;
            match find_process(procs, pid) {
                Some(i) => PortInfo {
                    port,
                    pid: Some(pid),
                    process_name: Some(procs[i].name.clone()),
                    user: owner_text(&procs[i].owner),
                },
                None => PortInfo { port, pid: Some(pid), process_name: None, user: String::from_str("root/system") },
            }
        },
        None => {
            let user = if e.port < 1024 { String::from_str("root") } else { String::from_str("unknown") };
            PortInfo { port, pid: None, process_name: None, user }
        },
    }
}

/// Merges the sockets with their owners and the process snapshot into the
/// port directory: one record per listening port, in ascending order of
/// port; where several sockets share a port, the last of them is described.
pub fn build_port_directory(entries: &Vec<SocketEntry>, owners: &HashMap<i64, i32>, procs: &Vec<ProcessRecord>) -> (r: Vec<PortInfo>)
    ensures
        port_views(r@) == port_directory(entries@, owners@, procs@),
{
    let mut slots: Vec<usize> = Vec::new();
    while slots.len() < 0x10000
        invariant
            slots@.len() <= 0x10000,
            forall|p: int| 0 <= p < slots@.len() ==> slots@[p] == 0,
        decreases 0x10000 - slots@.len(),
    {
        slots.push(0);
    }
    let mut k: usize = 0;
    while k < entries.len()
        invariant
            k <= entries@.len(),
            slots@.len() == 0x10000,
            forall|p: int| 0 <= p < 0x10000 ==> #[trigger] slots@[p] == match last_on_port(entries@.take(k as int), p) {
                Some(j) => j + 1,
                None => 0,
            },
        decreases entries@.len() - k,
    {
        let p = entries[k].port;
        slots.set(p as usize, k + 1);
        proof {
            assert(entries@.take(k + 1).drop_last() =~= entries@.take(k as int));
        }
        k = k + 1;
    }
    proof {
        assert(entries@.take(k as int) =~= entries@);
    }
    let mut r: Vec<PortInfo> = Vec::new();
    let mut p: usize = 0;
    while p < 0x10000
        invariant
            p <= 0x10000,
            slots@.len() == 0x10000,
            forall|q: int| 0 <= q < 0x10000 ==> #[trigger] slots@[q] == match last_on_port(entries@, q) {
                Some(j) => j + 1,
                None => 0,
            },
            port_views(r@) == directory_below(entries@, owners@, procs@, p as int),
        decreases 0x10000 - p,
    {
        let s = slots[p];
        proof {
            lemma_last_on_port_bounds(entries@, p as int);
        }
        let ghost before = r@;
        if s != 0 {
            let info = port_info(entries[s - 1], owners, procs);
            r.push(info);
            proof {
                assert(r@ =~= before.push(info));
            }
        }
        proof {
            assert(port_views(r@) =~= directory_below(entries@, owners@, procs@, p + 1));
        }
        p = p + 1;
    }
    r
}

} // verus!
