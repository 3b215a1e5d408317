use vstd::prelude::*;

verus! {

/// ASCII whitespace, as `split_whitespace` treats it.
pub open spec fn is_space(b: u8) -> bool {
    b == 32 || b == 9 || b == 10 || b == 11 || b == 12 || b == 13
}

/// The whitespace-separated fields of `s[i..hi]`, where `start` is the index
/// at which the field under way began, or -1 between fields.
pub open spec fn fields_acc(s: Seq<u8>, i: int, hi: int, start: int) -> Seq<Seq<u8>>
    decreases hi - i,
{
    if i >= hi {
        if start >= 0 { seq![s.subrange(start, hi)] } else { seq![] }
    } else if is_space(s[i]) {
        if start >= 0 {
            seq![s.subrange(start, i)] + fields_acc(s, i + 1, hi, -1)
        } else {
            fields_acc(s, i + 1, hi, -1)
        }
    } else {
        fields_acc(s, i + 1, hi, if start >= 0 { start } else { i })
    }
}

/// The whitespace-separated fields of `s[lo..hi]`.
pub open spec fn fields(s: Seq<u8>, lo: int, hi: int) -> Seq<Seq<u8>> {
    fields_acc(s, lo, hi, -1)
}

/// The value of byte `b` as a digit in `base` (2 to 16, either letter case).
pub open spec fn digit_value(b: u8, base: nat) -> Option<nat> {
    let d: int = if 48 <= b <= 57 {
        b - 48
    } else if 65 <= b <= 70 {
        b - 55
    } else if 97 <= b <= 102 {
        b - 87
    } else {
        99
    };
    if d < base { Some(d as nat) } else { None }
}

/// The value of the digits `t` in `base`; `None` if `t` is empty or holds a
/// byte that is no digit.
pub open spec fn digits_value(t: Seq<u8>, base: nat) -> Option<nat>
    decreases t.len(),
{
    if t.len() == 0 {
        None
    } else {
        match digit_value(t.last(), base) {
            None => None,
            Some(d) => if t.len() == 1 {
                Some(d)
            } else {
                match digits_value(t.drop_last(), base) {
                    None => None,
                    Some(v) => Some(v * base + d),
                }
            },
        }
    }
}

/// The number written by `t` in `base`, if it is one and at most `max`.
pub open spec fn bounded_number(t: Seq<u8>, base: nat, max: nat) -> Option<nat> {
    match digits_value(t, base) {
        Some(v) => if v <= max { Some(v) } else { None },
        None => None,
    }
}

proof fn lemma_prefix_value(t: Seq<u8>, base: nat, k: int)
    requires
        1 <= k <= t.len(),
        base >= 1,
        digits_value(t, base) is Some,
    ensures
        digits_value(t.take(k), base) is Some,
        digits_value(t.take(k), base).unwrap() <= digits_value(t, base).unwrap(),
    decreases t.len(),
{
    if k == t.len() {
        assert(t.take(k) =~= t);
    } else {
        let u = t.drop_last();
        lemma_prefix_value(u, base, k);
        assert(u.take(k) =~= t.take(k));
        let v = digits_value(u, base).unwrap();
        let d = digit_value(t.last(), base).unwrap();
        assert(v <= v * base + d) by (nonlinear_arith)
            requires base >= 1;
    }
}

proof fn lemma_value_step(t: Seq<u8>, base: nat, k: int)
    requires
        0 <= k < t.len(),
    ensures
        t.take(k + 1).drop_last() =~= t.take(k),
        t.take(k + 1).last() == t[k],
{
}

/// Reads `s[lo..hi]` as a number in `base` that is at most `max`.
pub fn read_number(s: &[u8], lo: usize, hi: usize, base: u64, max: u64) -> (r: Option<u64>)
    requires
        lo <= hi <= s@.len(),
        2 <= base <= 16,
        16 <= max,
    ensures
        match r {
            Some(v) => bounded_number(s@.subrange(lo as int, hi as int), base as nat, max as nat)
                == Some(v as nat),
            None => bounded_number(s@.subrange(lo as int, hi as int), base as nat, max as nat)
                is None,
        },
{
    let ghost t = s@.subrange(lo as int, hi as int);
    if lo == hi {
        return None;
    }
    let mut v: u64 = 0;
    let mut k: usize = lo;
    while k < hi
        invariant
            lo <= k <= hi <= s@.len(),
            t == s@.subrange(lo as int, hi as int),
            2 <= base <= 16,
            16 <= max,
            v <= max,
            k == lo ==> v == 0,
            k > lo ==> digits_value(t.take(k - lo), base as nat) == Some(v as nat),
        decreases hi - k,
    {
        let b = s[k];
        let d: u64 = if 48 <= b && b <= 57 {
            (b - 48) as u64
        } else if 65 <= b && b <= 70 {
            (b - 55) as u64
        } else if 97 <= b && b <= 102 {
            (b - 87) as u64
        } else {
            99
        };
        proof {
            lemma_value_step(t, base as nat, k - lo);
        }
        if d >= base {
            proof {
                if digits_value(t, base as nat) is Some {
                    lemma_prefix_value(t, base as nat, k - lo + 1);
                }
            }
            return None;
        }
        let lim: u64 = (max - d) / base;
        if v > lim {
            proof {
                let (vi, bi, di, li, mi) = (v as int, base as int, d as int, lim as int, max as int);
                assert(vi * bi + di > mi) by (nonlinear_arith)
                    requires vi > li, li == (mi - di) / bi, bi >= 2, 0 <= di <= mi;
                if digits_value(t, base as nat) is Some {
                    lemma_prefix_value(t, base as nat, k - lo + 1);
                }
            }
            return None;
        }
        proof {
            let (vi, bi, di, li, mi) = (v as int, base as int, d as int, lim as int, max as int);
            assert(vi * bi + di <= mi) by (nonlinear_arith)
                requires 0 <= vi <= li, li == (mi - di) / bi, bi >= 2, 0 <= di <= mi;
        }
        let ghost old_v = v;
        v = v * base + d;
        proof {
            assert(t[k - lo] == b);
            assert(digit_value(b, base as nat) == Some(d as nat));
            let u = t.take(k - lo + 1);
            assert(u.last() == b);
            if k > lo {
                assert(u.drop_last() =~= t.take(k - lo));
                assert(digits_value(u, base as nat) == Some((old_v * base + d) as nat));
            } else {
                assert(u.len() == 1);
                assert(digits_value(u, base as nat) == Some(d as nat));
            }
            assert(v == old_v * base + d);
            if k == lo {
                assert(old_v == 0);
                assert(v == d) by (nonlinear_arith)
                    requires v == old_v * base + d, old_v == 0;
            }
            assert(u =~= t.take(k + 1 - lo));
        }
        k = k + 1;
    }
    proof {
        assert(t.take(hi - lo) =~= t);
    }
    Some(v)
}

/// The texts that `spans` picks out of `s`.
pub open spec fn span_texts(s: Seq<u8>, spans: Seq<(usize, usize)>) -> Seq<Seq<u8>> {
    Seq::new(spans.len(), |j: int| s.subrange(spans[j].0 as int, spans[j].1 as int))
}

/// The spans of the whitespace-separated fields of `s[lo..hi]`.
pub fn split_fields(s: &[u8], lo: usize, hi: usize) -> (r: Vec<(usize, usize)>)
    requires
        lo <= hi <= s@.len(),
    ensures
        span_texts(s@, r@) == fields(s@, lo as int, hi as int),
        forall|j: int| 0 <= j < r@.len() ==> lo <= (#[trigger] r@[j]).0 <= r@[j].1 <= hi,
{
    let mut r: Vec<(usize, usize)> = Vec::new();
    let mut i: usize = lo;
    let mut start: usize = lo;
    let mut in_field = false;
    while i < hi
        invariant
            lo <= i <= hi <= s@.len(),
            in_field ==> lo <= start <= i,
            forall|j: int| 0 <= j < r@.len() ==> lo <= (#[trigger] r@[j]).0 <= r@[j].1 <= i,
            span_texts(s@, r@) + fields_acc(s@, i as int, hi as int, if in_field { start as int } else { -1 })
                == fields(s@, lo as int, hi as int),
        decreases hi - i,
    {
        let ghost st: int = if in_field { start as int } else { -1 };
        let ghost before = span_texts(s@, r@);
        let ghost old_r = r@;
        if is_space_byte(s[i]) {
            if in_field {
                r.push((start, i));
                assert(forall|j: int| 0 <= j < old_r.len() ==> r@[j] == old_r[j]);
                in_field = false;
                proof {
                    assert(span_texts(s@, r@) =~= before.push(s@.subrange(start as int, i as int)));
                    assert(fields_acc(s@, i as int, hi as int, st) =~= seq![s@.subrange(start as int, i as int)]
                        + fields_acc(s@, i + 1, hi as int, -1));
                    assert(before + fields_acc(s@, i as int, hi as int, st) =~= span_texts(s@, r@)
                        + fields_acc(s@, i + 1, hi as int, -1));
                }
            }
        } else if !in_field {
            in_field = true;
            start = i;
        }
        i = i + 1;
    }
    if in_field {
        let ghost before = span_texts(s@, r@);
        let ghost old_r = r@;
        r.push((start, hi));
        assert(forall|j: int| 0 <= j < old_r.len() ==> r@[j] == old_r[j]);
        proof {
            assert(span_texts(s@, r@) =~= before.push(s@.subrange(start as int, hi as int)));
        }
    } else {
        proof {
            assert(span_texts(s@, r@) + seq![] =~= span_texts(s@, r@));
        }
    }
    r
}

fn is_space_byte(b: u8) -> (r: bool)
    ensures
        r == is_space(b),
{
    b == 32 || b == 9 || b == 10 || b == 11 || b == 12 || b == 13
}

} // verus!
