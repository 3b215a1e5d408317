use vstd::prelude::*;
use vstd::slice::slice_subrange;
use std::collections::HashMap;
use crate::directory::{build_port_directory, lemma_directory_sorted, port_directory, port_views, PortInfo, PortView};
use crate::digits::port_order_value;
use crate::processes::ProcessRecord;
use crate::scan::{bounded_number, fields, read_number, span_texts, split_fields};
use crate::socket_table::{Family, SocketEntry};

verus! {

broadcast use vstd::std_specs::hash::group_hash_axioms;

/// The byte spans of the first two groups of the leftmost match of the
/// regular expression `pattern` in `hay`; `None` where there is no match or
/// the pattern is invalid.
pub uninterp spec fn regex_captures(pattern: Seq<char>, hay: Seq<u8>) -> Option<(usize, usize, usize, usize)>;

/// Relies on `regex::bytes::Regex::new` and `regex::bytes::Regex::captures`:
/// the spans of the first two groups of the leftmost match, each within `hay`.
#[verifier::external_body]
fn capture_spans(pattern: &str, hay: &[u8]) -> (r: Option<(usize, usize, usize, usize)>)
    ensures
        r == regex_captures(pattern@, hay@),
        match r {
            Some((a, b, c, d)) => a <= b <= hay@.len() && c <= d <= hay@.len(),
            None => true,
        },
{
    let re = regex::bytes::Regex::new(pattern).ok()?;
    let caps = re.captures(hay)?;
    let one = caps.get(1)?;
    let two = caps.get(2)?;
    Some((one.start(), one.end(), two.start(), two.end()))
}

/// The pattern of the `users:` column of `ss -p`: the process name and id of
/// a socket's owner.
pub open spec fn users_pattern() -> Seq<char> {
    "users:\\(\\(\"([^\"]+)\",pid=(\\d+),"@
}

/// The position of the last `c` in `t`, or -1.
pub open spec fn last_index_of(t: Seq<u8>, c: u8) -> int
    decreases t.len(),
{
    if t.len() == 0 {
        -1
    } else if t.last() == c {
        t.len() - 1
    } else {
        last_index_of(t.drop_last(), c)
    }
}

/// What follows the last `c` in `t`; all of `t` if it holds none.
pub open spec fn after_last(t: Seq<u8>, c: u8) -> Seq<u8> {
    t.subrange(last_index_of(t, c) + 1, t.len() as int)
}

/// The listening socket that one row of `ss -nltp` output shows: its port
/// (the decimal number after the last colon of the fourth field, the local
/// address), the owner's process id where the `users:` column shows one
/// (`caps` holds what that pattern captured in the row), and the family (an
/// address in brackets is IPv6). Rows with fewer than four fields or no port
/// give nothing.
pub open spec fn ss_listener(line: Seq<u8>, caps: Option<(usize, usize, usize, usize)>) -> Option<(u16, Option<i32>, Family)> {
    let f = fields(line, 0, line.len() as int);
    if f.len() < 4 {
        None
    } else {
        match bounded_number(after_last(f[3], 58), 10, 0xffff) {
            None => None,
            Some(p) => Some((
                p as u16,
                match caps {
                    Some((a, b, c, d)) => match bounded_number(line.subrange(c as int, d as int), 10, i32::MAX as nat) {
                        Some(n) => Some(n as i32),
                        None => None,
                    },
                    None => None,
                },
                if f[3].len() > 0 && f[3][0] == 91 { Family::V6 } else { Family::V4 },
            )),
        }
    }
}

fn after_last_start(t: &[u8], lo: usize, hi: usize, c: u8) -> (r: usize)
    requires
        lo <= hi <= t@.len(),
    ensures
        lo <= r <= hi,
        r == lo + last_index_of(t@.subrange(lo as int, hi as int), c) + 1,
{
    let mut k: usize = hi;
    while k > lo
        invariant
            lo <= k <= hi <= t@.len(),
            last_index_of(t@.subrange(lo as int, hi as int), c) == last_index_of(t@.subrange(lo as int, k as int), c),
        decreases k - lo,
    {
        proof {
            assert(t@.subrange(lo as int, k as int).drop_last() =~= t@.subrange(lo as int, k - 1));
        }
        if t[k - 1] == c {
            return k;
        }
        k = k - 1;
    }
    k
}

/// Reads one row of `ss -nltp` output, given the spans that the `users:`
/// pattern captured in it.
pub fn parse_ss_row(line: &[u8], caps: Option<(usize, usize, usize, usize)>) -> (r: Option<(u16, Option<i32>, Family)>)
    requires
        match caps {
            Some((a, b, c, d)) => a <= b <= line@.len() && c <= d <= line@.len(),
            None => true,
        },
    ensures
        r == ss_listener(line@, caps),
{
    let spans = split_fields(line, 0, line.len());
    proof {
        assert(span_texts(line@, spans@).len() == spans@.len());
    }
    if spans.len() < 4 {
        return None;
    }
    let (fa, fe) = spans[3];
    proof {
        assert(spans@[3] == (fa, fe));
        assert(fields(line@, 0, line@.len() as int)[3] == line@.subrange(fa as int, fe as int));
    }
    let ps = after_last_start(line, fa, fe, 58);
    proof {
        assert(line@.subrange(ps as int, fe as int) =~= after_last(line@.subrange(fa as int, fe as int), 58));
    }
    let port = match read_number(line, ps, fe, 10, 0xffff) {
        Some(v) => v as u16,
        None => return None,
    };
    let pid = match caps {
        Some((_a, _b, c, d)) => match read_number(line, c, d, 10, 0x7fff_ffff) {
            Some(n) => Some(n as i32),
            None => None,
        },
        None => None,
    };
    let family = if fe > fa && line[fa] == 91 { Family::V6 } else { Family::V4 };
    proof {
        if fe > fa {
            assert(line@.subrange(fa as int, fe as int)[0] == line@[fa as int]);
        }
    }
    Some((port, pid, family))
}

/// The rows of `s` from position `i` on, where the row under way began at
/// `start` and `header` says whether it is the first row, the column titles.
pub open spec fn lines_acc(s: Seq<u8>, i: int, start: int, header: bool) -> Seq<Seq<u8>>
    decreases s.len() - i,
{
    if i >= s.len() {
        if header { seq![] } else { seq![s.subrange(start, s.len() as int)] }
    } else if s[i] == 10 {
        (if header { seq![] } else { seq![s.subrange(start, i)] }) + lines_acc(s, i + 1, i + 1, false)
    } else {
        lines_acc(s, i + 1, start, header)
    }
}

/// The rows of a command's output after its header row.
pub open spec fn body_lines(s: Seq<u8>) -> Seq<Seq<u8>> {
    lines_acc(s, 0, 0, true)
}

/// The listening sockets that the rows `lines` show, in order.
pub open spec fn ss_listeners(lines: Seq<Seq<u8>>) -> Seq<(u16, Option<i32>, Family)>
    decreases lines.len(),
{
    if lines.len() == 0 {
        seq![]
    } else {
        ss_listeners(lines.drop_last()) + match ss_listener(lines.last(), regex_captures(users_pattern(), lines.last())) {
            Some(x) => seq![x],
            None => seq![],
        }
    }
}

/// The sockets of `l`, each keyed by its position in `l`.
pub open spec fn listener_sockets(l: Seq<(u16, Option<i32>, Family)>) -> Seq<SocketEntry>
    decreases l.len(),
{
    if l.len() == 0 {
        seq![]
    } else {
        listener_sockets(l.drop_last()).push(
            SocketEntry { port: l.last().0, inode: (l.len() - 1) as i64, family: l.last().2 },
        )
    }
}

/// The owner of each socket of `l` whose owner is shown, by the socket's key.
pub open spec fn listener_owners(l: Seq<(u16, Option<i32>, Family)>) -> Map<i64, i32>
    decreases l.len(),
{
    if l.len() == 0 {
        Map::empty()
    } else {
        let m = listener_owners(l.drop_last());
        match l.last().1 {
            Some(p) => m.insert((l.len() - 1) as i64, p),
            None => m,
        }
    }
}

/// The port directory of `ss -nltp` output and a process snapshot.
pub open spec fn ss_directory(output: Seq<u8>, procs: Seq<ProcessRecord>) -> Seq<PortView> {
    let l = ss_listeners(body_lines(output));
    port_directory(listener_sockets(l), listener_owners(l), procs)
}

/// The directory of `ss -nltp` output is sorted in strictly ascending order
/// of the numeric value of its port texts: ascending, with no port twice.
pub proof fn lemma_ss_directory_sorted(output: Seq<u8>, procs: Seq<ProcessRecord>)
    ensures
        forall|i: int, j: int| #![trigger ss_directory(output, procs)[i], ss_directory(output, procs)[j]]
            0 <= i < j < ss_directory(output, procs).len()
            ==> port_order_value(ss_directory(output, procs)[i].port)
                < port_order_value(ss_directory(output, procs)[j].port),
{
    let l = ss_listeners(body_lines(output));
    lemma_directory_sorted(listener_sockets(l), listener_owners(l), procs);
}

fn take_row(output: &[u8], start: usize, end: usize, rows: &mut Vec<(u16, Option<i32>, Family)>)
    requires
        start <= end <= output@.len(),
    ensures
        final(rows)@ == old(rows)@ + match ss_listener(
            output@.subrange(start as int, end as int),
            regex_captures(users_pattern(), output@.subrange(start as int, end as int)),
        ) {
            Some(x) => seq![x],
            None => seq![],
        },
{
    let line = slice_subrange(output, start, end);
    let caps = capture_spans("users:\\(\\(\"([^\"]+)\",pid=(\\d+),", line);
    match parse_ss_row(line, caps) {
        Some(x) => {
            let ghost before = rows@;
            rows.push(x);
            proof {
                assert(rows@ =~= before + seq![x]);
            }
        },
        None => {
            proof {
                assert(rows@ =~= rows@ + seq![]);
            }
        },
    }
}

proof fn lemma_listeners_push(lines: Seq<Seq<u8>>, l: Seq<u8>)
    ensures
        ss_listeners(lines.push(l)) == ss_listeners(lines) + match ss_listener(l, regex_captures(users_pattern(), l)) {
            Some(x) => seq![x],
            None => seq![],
        },
{
    assert(lines.push(l).drop_last() =~= lines);
}

/// The port directory of `ss -nltp` output: each row after the header gives
/// a listening socket and, where the `users:` column shows it, its owner;
/// these are merged with the process snapshot `procs` by the rules of
/// `build_port_directory`.
pub fn ss_listing(output: &[u8], procs: &Vec<ProcessRecord>) -> (r: Vec<PortInfo>)
    ensures
        port_views(r@) == ss_directory(output@, procs@),
{
    let mut rows: Vec<(u16, Option<i32>, Family)> = Vec::new();
    let ghost mut lines: Seq<Seq<u8>> = seq![];
    let mut i: usize = 0;
    let mut start: usize = 0;
    let mut header = true;
    while i < output.len()
        invariant
            start <= i <= output@.len(),
            lines + lines_acc(output@, i as int, start as int, header) == body_lines(output@),
            rows@ == ss_listeners(lines),
        decreases output@.len() - i,
    {
        if output[i] == 10 {
            let ghost before = lines;
            if !header {
                take_row(output, start, i, &mut rows);
                proof {
                    lemma_listeners_push(lines, output@.subrange(start as int, i as int));
                    lines = lines.push(output@.subrange(start as int, i as int));
                }
            }
            proof {
                assert(lines + lines_acc(output@, i + 1, i + 1, false)
                    =~= before + lines_acc(output@, i as int, start as int, header));
            }
            header = false;
            start = i + 1;
        }
        i = i + 1;
    }
    let ghost before = lines;
    if !header {
        take_row(output, start, output.len(), &mut rows);
        proof {
            lemma_listeners_push(lines, output@.subrange(start as int, i as int));
            lines = lines.push(output@.subrange(start as int, i as int));
        }
    }
    proof {
        assert(lines =~= before + lines_acc(output@, i as int, start as int, header));
    }
    let mut entries: Vec<SocketEntry> = Vec::new();
    let mut owners: HashMap<i64, i32> = HashMap::new();
    let mut k: usize = 0;
    while k < rows.len()
        invariant
            k <= rows@.len(),
            entries@ == listener_sockets(rows@.take(k as int)),
            owners@ == listener_owners(rows@.take(k as int)),
        decreases rows@.len() - k,
    {
        let (port, pid, family) = rows[k];
        proof {
            assert(rows@.take(k + 1).drop_last() =~= rows@.take(k as int));
        }
        entries.push(SocketEntry { port, inode: k as i64, family });
        if let Some(p) = pid {
            owners.insert(k as i64, p);
        }
        k = k + 1;
    }
    proof {
        assert(rows@.take(k as int) =~= rows@);
    }
    build_port_directory(&entries, &owners, procs)
}

} // verus!
