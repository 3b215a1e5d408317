use vstd::prelude::*;

verus! {

/// The number of positions of `t` that are still free (`false`).
pub open spec fn free_count(t: Seq<bool>) -> nat
    decreases t.len(),
{
    if t.len() == 0 {
        0
    } else {
        free_count(t.drop_last()) + if t.last() { 0nat } else { 1nat }
    }
}

proof fn lemma_free_count_all(t: Seq<bool>)
    requires
        forall|i: int| 0 <= i < t.len() ==> !t[i],
    ensures
        free_count(t) == t.len(),
    decreases t.len(),
{
    if t.len() > 0 {
        lemma_free_count_all(t.drop_last());
    }
}

proof fn lemma_free_count_take(t: Seq<bool>, i: int)
    requires
        0 <= i < t.len(),
        !t[i],
    ensures
        free_count(t.update(i, true)) + 1 == free_count(t),
    decreases t.len(),
{
    if i < t.len() - 1 {
        lemma_free_count_take(t.drop_last(), i);
        assert(t.update(i, true).drop_last() =~= t.drop_last().update(i, true));
    } else {
        assert(t.update(i, true).drop_last() =~= t.drop_last());
    }
}

proof fn lemma_free_exists(t: Seq<bool>)
    requires
        free_count(t) > 0,
    ensures
        exists|i: int| 0 <= i < t.len() && !t[i],
    decreases t.len(),
{
    if !t.last() {
        assert(!t[t.len() - 1]);
    } else {
        lemma_free_exists(t.drop_last());
        let i = choose|i: int| 0 <= i < t.len() - 1 && !t.drop_last()[i];
        assert(!t[i]);
    }
}

/// `idx` picks the `n` largest of `keys` (all of them if there are fewer),
/// largest first: distinct positions in descending order of key, and no key
/// left out is larger than a key picked. Equal keys may come in any order.
pub open spec fn is_ranking(keys: Seq<int>, n: int, idx: Seq<usize>) -> bool {
    &&& idx.len() == if n < keys.len() { n } else { keys.len() as int }
    &&& forall|i: int| 0 <= i < idx.len() ==> #[trigger] idx[i] < keys.len()
    &&& forall|i: int, j: int| 0 <= i < j < idx.len() ==> idx[i] != idx[j]
    &&& forall|i: int, j: int| 0 <= i < j < idx.len() ==> keys[idx[i] as int] >= keys[idx[j] as int]
    &&& forall|m: int, i: int| #![trigger keys[m], idx[i]] 0 <= m < keys.len() && 0 <= i < idx.len()
        && (forall|j: int| 0 <= j < idx.len() ==> idx[j] != m)
        ==> keys[m] <= keys[idx[i] as int]
}

/// The keys as mathematical integers.
pub open spec fn key_values(keys: Seq<u128>) -> Seq<int> {
    keys.map_values(|k: u128| k as int)
}

/// The positions of the `n` largest keys, largest first.
pub fn rank_indices(keys: &Vec<u128>, n: usize) -> (r: Vec<usize>)
    ensures
        is_ranking(key_values(keys@), n as int, r@),
{
    let len = keys.len();
    let ghost kv = key_values(keys@);
    let mut taken: Vec<bool> = Vec::new();
    while taken.len() < len
        invariant
            taken@.len() <= len,
            forall|i: int| 0 <= i < taken@.len() ==> !taken@[i],
        decreases len - taken@.len(),
    {
        taken.push(false);
    }
    proof {
        lemma_free_count_all(taken@);
    }
    let want = if n < len { n } else { len };
    let mut r: Vec<usize> = Vec::new();
    while r.len() < want
        invariant
            len == keys@.len(),
            kv == key_values(keys@),
            want <= len,
            want == if n < len { n } else { len },
            r@.len() <= want,
            taken@.len() == len,
            free_count(taken@) == len - r@.len(),
            forall|i: int| 0 <= i < r@.len() ==> #[trigger] r@[i] < len && taken@[r@[i] as int],
            forall|m: int| 0 <= m < len && #[trigger] taken@[m] ==> exists|j: int| 0 <= j < r@.len() && r@[j] == m,
            forall|i: int, j: int| 0 <= i < j < r@.len() ==> r@[i] != r@[j],
            forall|i: int, j: int| 0 <= i < j < r@.len() ==> kv[r@[i] as int] >= kv[r@[j] as int],
            forall|m: int, i: int| #![trigger kv[m], r@[i]] 0 <= m < len && !taken@[m] && 0 <= i < r@.len() ==> kv[m] <= kv[r@[i] as int],
        decreases want - r@.len(),
    {
        let mut found = false;
        let mut best: usize = 0;
        let mut i: usize = 0;
        while i < len
            invariant
                len == keys@.len(),
                kv == key_values(keys@),
                taken@.len() == len,
                i <= len,
                found ==> best < i && !taken@[best as int],
                found ==> forall|j: int| 0 <= j < i && !taken@[j] ==> kv[j] <= kv[best as int],
                !found ==> forall|j: int| 0 <= j < i ==> taken@[j],
            decreases len - i,
        {
            if !taken[i] && (!found || keys[i] > keys[best]) {
                found = true;
                best = i;
            }
            i = i + 1;
        }
        proof {
            lemma_free_exists(taken@);
        }
        let ghost old_taken = taken@;
        let ghost old_r = r@;
        proof {
            lemma_free_count_take(taken@, best as int);
        }
        taken.set(best, true);
        r.push(best);
        proof {
            assert forall|m: int| 0 <= m < len && #[trigger] taken@[m] implies exists|j: int| 0 <= j < r@.len() && r@[j] == m by {
                if m != best {
                    assert(old_taken[m]);
                    let j = choose|j: int| 0 <= j < old_r.len() && old_r[j] == m;
                    assert(r@[j] == m);
                } else {
                    assert(r@[r@.len() - 1] == m);
                }
            }
            assert forall|i: int| 0 <= i < r@.len() implies #[trigger] r@[i] < len && taken@[r@[i] as int] by {
                if i < old_r.len() {
                    assert(r@[i] == old_r[i]);
                }
            }
        }
    }
    proof {
        assert forall|m: int, i: int| #![trigger kv[m], r@[i]] 0 <= m < len && 0 <= i < r@.len()
            && (forall|j: int| 0 <= j < r@.len() ==> r@[j] != m) implies kv[m] <= kv[r@[i] as int] by {
            if taken@[m] {
                let j = choose|j: int| 0 <= j < r@.len() && r@[j] == m;
                assert(r@[j] != m);
            }
        }
    }
    r
}

} // verus!
