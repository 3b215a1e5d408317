use vstd::prelude::*;
use crate::scan::{bounded_number, fields, read_number, span_texts, split_fields};

verus! {

/// The address family of a socket table.
#[derive(Clone, Copy, Debug, PartialEq, Eq, Structural)]
pub enum Family {
    V4,
    V6,
}

/// A listening TCP socket: its local port and the inode that backs it.
#[derive(Clone, Copy, Debug, PartialEq, Eq, Structural)]
pub struct SocketEntry {
    pub port: u16,
    pub inode: i64,
    pub family: Family,
}

/// The state field of a socket in the LISTEN state: `0A`.
pub open spec fn listen_state() -> Seq<u8> {
    seq![48u8, 65u8]
}

/// `c` is the first position of a colon in `addr`.
pub open spec fn first_colon_at(addr: Seq<u8>, c: int) -> bool {
    &&& 0 <= c < addr.len()
    &&& addr[c] == 58
    &&& forall|m: int| 0 <= m < c ==> addr[m] != 58
}

/// The port of a local address `HEX:HEX`: the hexadecimal number after the
/// first colon, when it fits in 16 bits.
pub open spec fn address_port(addr: Seq<u8>) -> Option<nat> {
    if exists|c: int| first_colon_at(addr, c) {
        let c = choose|c: int| first_colon_at(addr, c);
        bounded_number(addr.subrange(c + 1, addr.len() as int), 16, 0xffff)
    } else {
        None
    }
}

/// The listening socket that one row of a socket table describes: at least
/// ten fields, the state (fourth field) `0A`, the port from the local address
/// (second field) and the inode from the tenth field.
pub open spec fn row_entry(f: Seq<Seq<u8>>, family: Family) -> Option<SocketEntry> {
    if f.len() < 10 || f[3] != listen_state() {
        None
    } else {
        match (address_port(f[1]), bounded_number(f[9], 10, i64::MAX as nat)) {
            (Some(p), Some(n)) => Some(SocketEntry { port: p as u16, inode: n as i64, family }),
            _ => None,
        }
    }
}

pub open spec fn option_seq<T>(o: Option<T>) -> Seq<T> {
    match o {
        Some(x) => seq![x],
        None => seq![],
    }
}

/// The listening sockets of the rows of `s` from position `i` on, where the
/// row under way began at `start` and `header` says whether it is the first
/// row, which holds the column titles.
pub open spec fn table_acc(s: Seq<u8>, i: int, start: int, header: bool, family: Family) -> Seq<SocketEntry>
    decreases s.len() - i,
{
    if i >= s.len() {
        if header { seq![] } else { option_seq(row_entry(fields(s, start, s.len() as int), family)) }
    } else if s[i] == 10 {
        (if header { seq![] } else { option_seq(row_entry(fields(s, start, i), family)) })
            + table_acc(s, i + 1, i + 1, false, family)
    } else {
        table_acc(s, i + 1, start, header, family)
    }
}

/// The listening sockets that a socket table lists, in the order of its rows.
pub open spec fn socket_table(s: Seq<u8>, family: Family) -> Seq<SocketEntry> {
    table_acc(s, 0, 0, true, family)
}

fn row_in(s: &[u8], lo: usize, hi: usize, family: Family) -> (r: Option<SocketEntry>)
    requires
        lo <= hi <= s@.len(),
    ensures
        r == row_entry(fields(s@, lo as int, hi as int), family),
{
    let spans = split_fields(s, lo, hi);
    let ghost f = fields(s@, lo as int, hi as int);
    proof {
        assert(span_texts(s@, spans@).len() == spans@.len());
    }
    if spans.len() < 10 {
        return None;
    }
    let (sa, se) = spans[3];
    proof {
        assert(f[3] == s@.subrange(sa as int, se as int));
        assert(spans@[3] == (sa, se));
    }
    if se - sa != 2 || s[sa] != 48 || s[sa + 1] != 65 {
        proof {
            if f[3] == listen_state() {
                assert(f[3][0] == s@[sa as int]);
                assert(f[3][1] == s@[sa + 1]);
            }
        }
        return None;
    }
    proof {
        assert(f[3] =~= listen_state());
    }
    let (aa, ae) = spans[1];
    let ghost addr = s@.subrange(aa as int, ae as int);
    proof {
        assert(spans@[1] == (aa, ae));
        assert(f[1] == addr);
    }
    let mut k: usize = aa;
    while k < ae && s[k] != 58
        invariant
            lo <= aa <= k <= ae <= hi <= s@.len(),
            addr == s@.subrange(aa as int, ae as int),
            forall|m: int| aa <= m < k ==> s@[m] != 58,
        decreases ae - k,
    {
        k = k + 1;
    }
    if k == ae {
        proof {
            if exists|c: int| first_colon_at(addr, c) {
                let c = choose|c: int| first_colon_at(addr, c);
                assert(s@[aa + c] == 58);
            }
        }
        return None;
    }
    let ghost c: int = k - aa;
    proof {
        assert(first_colon_at(addr, c));
        let c2 = choose|c2: int| first_colon_at(addr, c2);
        assert(c2 == c) by {
            if c2 < c {
                assert(addr[c2] != 58);
            }
            if c < c2 {
                assert(addr[c] != 58);
            }
        }
        assert(addr.subrange(c + 1, addr.len() as int) =~= s@.subrange(k + 1, ae as int));
    }
    let port = read_number(s, k + 1, ae, 16, 0xffff);
    let (na, ne) = spans[9];
    proof {
        assert(spans@[9] == (na, ne));
        assert(f[9] == s@.subrange(na as int, ne as int));
    }
    let inode = read_number(s, na, ne, 10, 0x7fff_ffff_ffff_ffff);
    match (port, inode) {
        (Some(p), Some(n)) => Some(SocketEntry { port: p as u16, inode: n as i64, family }),
        _ => None,
    }
}

/// Parses one row of a socket table into the listening socket it describes.
pub fn parse_row(line: &[u8], family: Family) -> (r: Option<SocketEntry>)
    ensures
        r == row_entry(fields(line@, 0, line@.len() as int), family),
{
    row_in(line, 0, line.len(), family)
}

/// Parses a socket table (`/proc/net/tcp` or `/proc/net/tcp6`): skips the
/// header row and each row that is malformed or not in the LISTEN state, and
/// keeps the order of the rest.
pub fn scan_listening_sockets(table: &[u8], family: Family) -> (r: Vec<SocketEntry>)
    ensures
        r@ == socket_table(table@, family),
{
    let mut r: Vec<SocketEntry> = Vec::new();
    let mut i: usize = 0;
    let mut start: usize = 0;
    let mut header = true;
    while i < table.len()
        invariant
            start <= i <= table@.len(),
            r@ + table_acc(table@, i as int, start as int, header, family) == socket_table(table@, family),
        decreases table@.len() - i,
    {
        if table[i] == 10 {
            let ghost before = r@;
            if !header {
                let row = row_in(table, start, i, family);
                if let Some(e) = row {
                    r.push(e);
                }
            }
            proof {
                assert(r@ + table_acc(table@, i + 1, i + 1, false, family)
                    =~= before + table_acc(table@, i as int, start as int, header, family));
            }
            header = false;
            start = i + 1;
        }
        i = i + 1;
    }
    let ghost before = r@;
    if !header {
        let row = row_in(table, start, table.len(), family);
        if let Some(e) = row {
            r.push(e);
        }
    }
    proof {
        assert(r@ =~= before + table_acc(table@, i as int, start as int, header, family));
    }
    r
}

} // verus!
