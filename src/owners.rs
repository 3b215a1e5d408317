use vstd::prelude::*;
use std::collections::{HashMap, HashSet};
use crate::scan::bounded_number;
use crate::scan::read_number;
use crate::socket_table::SocketEntry;

verus! {

broadcast use vstd::std_specs::hash::group_hash_axioms;

/// The start of a descriptor link to a socket: `socket:[`.
pub open spec fn socket_link_prefix() -> Seq<u8> {
    seq![115u8, 111u8, 99u8, 107u8, 101u8, 116u8, 58u8, 91u8]
}

/// The inode that a descriptor link `socket:[N]` names; `None` for a link
/// of another shape.
pub open spec fn link_inode(l: Seq<u8>) -> Option<i64> {
    if l.len() >= 10 && l.take(8) == socket_link_prefix() && l.last() == 93 {
        match bounded_number(l.subrange(8, l.len() - 1), 10, i64::MAX as nat) {
            Some(n) => Some(n as i64),
            None => None,
        }
    } else {
        None
    }
}

/// The process id that a directory name under `/proc` spells, if it is one.
pub open spec fn pid_name(name: Seq<u8>) -> Option<i32> {
    match bounded_number(name, 10, i32::MAX as nat) {
        Some(n) => Some(n as i32),
        None => None,
    }
}

/// The targets of the open file descriptors of one process.
#[derive(Clone, Debug, PartialEq, Eq)]
pub struct ProcessFds {
    pub pid: i32,
    pub links: Vec<Vec<u8>>,
}

/// `m` after the descriptors `links` of process `pid` claim the sockets of
/// `inodes` that they name; a later claim replaces an earlier one.
pub open spec fn claim_links(m: Map<i64, i32>, inodes: Set<i64>, pid: i32, links: Seq<Vec<u8>>) -> Map<i64, i32>
    decreases links.len(),
{
    if links.len() == 0 {
        m
    } else {
        let before = claim_links(m, inodes, pid, links.drop_last());
        match link_inode(links.last()@) {
            Some(n) => if inodes.contains(n) { before.insert(n, pid) } else { before },
            None => before,
        }
    }
}

/// The owning process of each socket inode of `inodes` that some descriptor
/// of `tables` names, walking the tables in order; the last claim wins.
pub open spec fn owners_of(inodes: Set<i64>, tables: Seq<ProcessFds>) -> Map<i64, i32>
    decreases tables.len(),
{
    if tables.len() == 0 {
        Map::empty()
    } else {
        claim_links(owners_of(inodes, tables.drop_last()), inodes, tables.last().pid, tables.last().links@)
    }
}

/// The inodes of the sockets of `entries`.
pub open spec fn inodes_of(entries: Seq<SocketEntry>) -> Set<i64> {
    Set::new(|n: i64| exists|k: int| 0 <= k < entries.len() && (#[trigger] entries[k]).inode == n)
}

/// Reads the inode out of a descriptor link `socket:[N]`.
pub fn parse_socket_link(link: &[u8]) -> (r: Option<i64>)
    ensures
        r == link_inode(link@),
{
    let n = link.len();
    if n < 10 || link[0] != 115 || link[1] != 111 || link[2] != 99 || link[3] != 107
        || link[4] != 101 || link[5] != 116 || link[6] != 58 || link[7] != 91 || link[n - 1] != 93 {
        proof {
            if n >= 10 && link@.take(8) == socket_link_prefix() {
                assert(link@.take(8)[0] == link@[0]);
                assert(link@.take(8)[1] == link@[1]);
                assert(link@.take(8)[2] == link@[2]);
                assert(link@.take(8)[3] == link@[3]);
                assert(link@.take(8)[4] == link@[4]);
                assert(link@.take(8)[5] == link@[5]);
                assert(link@.take(8)[6] == link@[6]);
                assert(link@.take(8)[7] == link@[7]);
            }
        }
        return None;
    }
    proof {
        assert(link@.take(8) =~= socket_link_prefix());
    }
    match read_number(link, 8, n - 1, 10, 0x7fff_ffff_ffff_ffff) {
        Some(v) => Some(v as i64),
        None => None,
    }
}

/// Reads a process id out of a directory name under `/proc`.
pub fn parse_pid(name: &[u8]) -> (r: Option<i32>)
    ensures
        r == pid_name(name@),
{
    proof {
        assert(name@.subrange(0, name@.len() as int) =~= name@);
    }
    match read_number(name, 0, name.len(), 10, 0x7fff_ffff) {
        Some(v) => Some(v as i32),
        None => None,
    }
}

/// The set of the inodes of `entries`.
pub fn inode_set(entries: &Vec<SocketEntry>) -> (r: HashSet<i64>)
    ensures
        r@ == inodes_of(entries@),
{
    let mut r: HashSet<i64> = HashSet::new();
    let mut k: usize = 0;
    while k < entries.len()
        invariant
            k <= entries@.len(),
            r@ == inodes_of(entries@.take(k as int)),
        decreases entries@.len() - k,
    {
        r.insert(entries[k].inode);
        proof {
            assert(entries@.take(k + 1).drop_last() =~= entries@.take(k as int));
            assert(r@ =~= inodes_of(entries@.take(k + 1))) by {
                assert forall|n: i64| inodes_of(entries@.take(k + 1)).contains(n) implies r@.contains(n) by {
                    let j = choose|j: int| 0 <= j < k + 1 && (#[trigger] entries@.take(k + 1)[j]).inode == n;
                    if j < k {
                        assert(entries@.take(k as int)[j].inode == n);
                    }
                }
                assert forall|n: i64| r@.contains(n) implies inodes_of(entries@.take(k + 1)).contains(n) by {
                    if n != entries@[k as int].inode {
                        let j = choose|j: int| 0 <= j < k && (#[trigger] entries@.take(k as int)[j]).inode == n;
                        assert(entries@.take(k + 1)[j].inode == n);
                    } else {
                        assert(entries@.take(k + 1)[k as int].inode == n);
                    }
                }
            }
        }
        k = k + 1;
    }
    proof {
        assert(entries@.take(k as int) =~= entries@);
    }
    r
}

/// Maps each inode of `inodes` to the process whose descriptors name it,
/// walking `tables` in order; where several processes name one inode, the
/// last one walked is kept.
pub fn resolve_owners(inodes: &HashSet<i64>, tables: &Vec<ProcessFds>) -> (r: HashMap<i64, i32>)
    ensures
        r@ == owners_of(inodes@, tables@),
{
    let mut m: HashMap<i64, i32> = HashMap::new();
    let mut t: usize = 0;
    while t < tables.len()
        invariant
            t <= tables@.len(),
            m@ == owners_of(inodes@, tables@.take(t as int)),
        decreases tables@.len() - t,
    {
        let table = &tables[t];
        let ghost base = m@;
        let mut j: usize = 0;
        while j < table.links.len()
            invariant
                j <= table.links@.len(),
                table == tables@[t as int],
                m@ == claim_links(base, inodes@, table.pid, table.links@.take(j as int)),
            decreases table.links@.len() - j,
        {
            let link = &table.links[j];
            proof {
                assert(table.links@.take(j + 1).drop_last() =~= table.links@.take(j as int));
            }
            if let Some(n) = parse_socket_link(link.as_slice()) {
                if inodes.contains(&n) {
                    m.insert(n, table.pid);
                }
            }
            j = j + 1;
        }
        proof {
            assert(table.links@.take(j as int) =~= table.links@);
            assert(tables@.take(t + 1).drop_last() =~= tables@.take(t as int));
        }
        t = t + 1;
    }
    proof {
        assert(tables@.take(t as int) =~= tables@);
    }
    m
}

} // verus!
