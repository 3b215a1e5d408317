use vstd::prelude::*;
use vstd::string::*;
use crate::digits::{decimal, decimal_string};
use crate::ranking::{is_ranking, key_values, rank_indices};

verus! {

/// One process of a snapshot of the process table. CPU use and resident
/// memory are kept in tenths: `cpu_tenths` of a percent, `memory_tenths` of a
/// megabyte.
#[derive(Clone, Debug, PartialEq, Eq)]
pub struct ProcessRecord {
    pub pid: i32,
    pub name: String,
    pub owner: Option<String>,
    pub cpu_tenths: u32,
    pub memory_tenths: u64,
}

/// The owner name of a process, or `unknown` where its user could not be
/// resolved.
pub open spec fn owner_label(owner: Option<String>) -> Seq<char> {
    match owner {
        Some(u) => u@,
        None => "unknown"@,
    }
}

pub(crate) fn owner_text(owner: &Option<String>) -> (r: String)
    ensures
        r@ == owner_label(*owner),
{
    match owner {
        Some(u) => u.clone(),
        None => String::from_str("unknown"),
    }
}

impl ProcessRecord {
    /// A copy of the record.
    pub fn duplicate(&self) -> (r: ProcessRecord)
        ensures
            r == *self,
    {
        let owner = match &self.owner {
            Some(u) => Some(u.clone()),
            None => None,
        };
        ProcessRecord {
            pid: self.pid,
            name: self.name.clone(),
            owner,
            cpu_tenths: self.cpu_tenths,
            memory_tenths: self.memory_tenths,
        }
    }
}

/// One process as the process listing shows it: CPU percent and memory in
/// megabytes as texts with one decimal.
#[derive(Clone, Debug, PartialEq, Eq)]
pub struct ProcessInfo {
    pub pid: i32,
    pub name: String,
    pub cpu: String,
    pub mem: String,
    pub user: String,
}

/// The weight by which processes rank, `cpu_percent + memory_mb / 10`, in
/// hundredths: `10 * cpu_tenths + memory_tenths`.
pub open spec fn score(p: ProcessRecord) -> int {
    10 * p.cpu_tenths + p.memory_tenths
}

/// The text of a quantity given in tenths, with one decimal: `12.3`.
pub open spec fn tenths_text(t: nat) -> Seq<char> {
    decimal(t / 10) + "."@ + decimal(t % 10)
}

/// Resident memory in tenths of a megabyte, rounded to the nearest tenth.
pub open spec fn memory_tenths_of(bytes: nat) -> nat {
    (bytes * 10 + 524288) / 1048576
}

/// `r` lists the records of `procs` that the positions `idx` pick, in order.
pub open spec fn picks(r: Seq<ProcessRecord>, procs: Seq<ProcessRecord>, idx: Seq<usize>) -> bool {
    &&& r.len() == idx.len()
    &&& forall|i: int| 0 <= i < r.len() ==> r[i] == procs[idx[i] as int]
}

/// The scores of `procs`.
pub open spec fn scores(procs: Seq<ProcessRecord>) -> Seq<int> {
    procs.map_values(|p: ProcessRecord| score(p))
}

/// The view of the listing entry of a process.
pub open spec fn listing_entry(i: ProcessInfo, p: ProcessRecord) -> bool {
    &&& i.pid == p.pid
    &&& i.name@ == p.name@
    &&& i.cpu@ == tenths_text(p.cpu_tenths as nat)
    &&& i.mem@ == tenths_text(p.memory_tenths as nat)
    &&& i.user@ == owner_label(p.owner)
}

/// Converts a resident memory size in bytes to tenths of a megabyte.
pub fn memory_tenths(bytes: u64) -> (r: u64)
    ensures
        r == memory_tenths_of(bytes as nat),
{
    let t: u128 = ((bytes as u128) * 10 + 524288) / 1048576;
    t as u64
}

/// Writes a quantity given in tenths with one decimal.
pub fn tenths_string(t: u64) -> (r: String)
    ensures
        r@ == tenths_text(t as nat),
{
    let whole = decimal_string(t / 10);
    let part = decimal_string(t % 10);
    let mut r = whole;
    r.append(".");
    r.append(part.as_str());
    r
}

fn pick_records(procs: &Vec<ProcessRecord>, idx: &Vec<usize>) -> (r: Vec<ProcessRecord>)
    requires
        forall|i: int| 0 <= i < idx@.len() ==> #[trigger] idx@[i] < procs@.len(),
    ensures
        picks(r@, procs@, idx@),
{
    let mut r: Vec<ProcessRecord> = Vec::new();
    let mut k: usize = 0;
    while k < idx.len()
        invariant
            k <= idx@.len(),
            forall|i: int| 0 <= i < idx@.len() ==> #[trigger] idx@[i] < procs@.len(),
            picks(r@, procs@, idx@.take(k as int)),
        decreases idx@.len() - k,
    {
        let p = procs[idx[k]].duplicate();
        r.push(p);
        k = k + 1;
    }
    proof {
        assert(idx@.take(k as int) =~= idx@);
    }
    r
}

/// The `n` processes of largest score (all of them if there are fewer),
/// largest first; processes of equal score come in any order.
pub fn top_processes(procs: &Vec<ProcessRecord>, n: usize) -> (r: Vec<ProcessRecord>)
    ensures
        exists|idx: Seq<usize>| is_ranking(scores(procs@), n as int, idx) && picks(r@, procs@, idx),
{
    let mut keys: Vec<u128> = Vec::new();
    let mut k: usize = 0;
    while k < procs.len()
        invariant
            k <= procs@.len(),
            keys@.len() == k,
            key_values(keys@) == scores(procs@.take(k as int)),
        decreases procs@.len() - k,
    {
        let p = &procs[k];
        let ghost before = keys@;
        keys.push(10 * (p.cpu_tenths as u128) + p.memory_tenths as u128);
        proof {
            assert forall|i: int| 0 <= i < k implies key_values(keys@)[i] == scores(procs@.take(k + 1))[i] by {
                assert(keys@[i] == before[i]);
                assert(procs@.take(k + 1)[i] == procs@.take(k as int)[i]);
                assert(key_values(before)[i] == scores(procs@.take(k as int))[i]);
            }
            assert(key_values(keys@) =~= scores(procs@.take(k + 1)));
        }
        k = k + 1;
    }
    proof {
        assert(procs@.take(k as int) =~= procs@);
    }
    let idx = rank_indices(&keys, n);
    pick_records(procs, &idx)
}

/// The process listing: the 100 processes of largest score (all of them if
/// there are fewer), largest first, each with its CPU and memory written with
/// one decimal and its owner's name; processes of equal score come in any
/// order.
pub fn get_processes_list(procs: &Vec<ProcessRecord>) -> (r: Vec<ProcessInfo>)
    ensures
        exists|idx: Seq<usize>| #![auto] is_ranking(scores(procs@), 100, idx) && r@.len() == idx.len()
            && forall|i: int| 0 <= i < r@.len() ==> listing_entry(r@[i], procs@[idx[i] as int]),
{
    let mut keys: Vec<u128> = Vec::new();
    let mut k: usize = 0;
    while k < procs.len()
        invariant
            k <= procs@.len(),
            keys@.len() == k,
            key_values(keys@) == scores(procs@.take(k as int)),
        decreases procs@.len() - k,
    {
        let ghost before = keys@;
        let p = &procs[k];
        keys.push(10 * (p.cpu_tenths as u128) + p.memory_tenths as u128);
        proof {
            assert forall|i: int| 0 <= i < k implies key_values(keys@)[i] == scores(procs@.take(k + 1))[i] by {
                assert(keys@[i] == before[i]);
                assert(procs@.take(k + 1)[i] == procs@.take(k as int)[i]);
                assert(key_values(before)[i] == scores(procs@.take(k as int))[i]);
            }
            assert(key_values(keys@) =~= scores(procs@.take(k + 1)));
        }
        k = k + 1;
    }
    proof {
        assert(procs@.take(k as int) =~= procs@);
    }
    let idx = rank_indices(&keys, 100);
    let mut r: Vec<ProcessInfo> = Vec::new();
    let mut j: usize = 0;
    while j < idx.len()
        invariant
            j <= idx@.len(),
            is_ranking(scores(procs@), 100, idx@),
            r@.len() == j,
            forall|i: int| 0 <= i < j ==> listing_entry(#[trigger] r@[i], procs@[idx@[i] as int]),
        decreases idx@.len() - j,
    {
        let p = &procs[idx[j]];
        let info = ProcessInfo {
            pid: p.pid,
            name: p.name.clone(),
            cpu: tenths_string(p.cpu_tenths as u64),
            mem: tenths_string(p.memory_tenths),
            user: owner_text(&p.owner),
        };
        r.push(info);
        j = j + 1;
    }
    r
}

} // verus!
