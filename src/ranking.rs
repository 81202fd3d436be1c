//! Ranking of scored candidates. A score is carried as the bit pattern of an
//! IEEE 754 single-precision number, and ranked by its sign and magnitude.
use vstd::prelude::*;

verus! {

/// The rank of a score given as single-precision bits: its magnitude, negated
/// where the sign bit is set. For two scores that are numbers, the greater
/// number has the greater rank; +0 and -0 share one.
pub open spec fn score_rank(bits: u32) -> int {
    if bits >= 0x8000_0000 {
        -(bits - 0x8000_0000)
    } else {
        bits as int
    }
}

pub fn score_rank_of(bits: u32) -> (r: i64)
    ensures
        r == score_rank(bits),
{
    if bits >= 0x8000_0000 {
        -((bits - 0x8000_0000) as i64)
    } else {
        bits as i64
    }
}

/// Candidate `a` comes before candidate `b`: a higher rank, or the same rank
/// and an earlier position.
pub open spec fn beats(scores: Seq<u32>, a: int, b: int) -> bool {
    score_rank(scores[a]) > score_rank(scores[b]) || (score_rank(scores[a]) == score_rank(scores[b])
        && a < b)
}

pub open spec fn min_nat(a: nat, b: nat) -> nat {
    if a < b {
        a
    } else {
        b
    }
}

/// `sel` lists the positions of the `k` first candidates (or all, where there
/// are fewer) in descending rank, ties kept in candidate order: each listed
/// one comes before the next and before every one not listed.
pub open spec fn is_top_k(scores: Seq<u32>, k: nat, sel: Seq<usize>) -> bool {
    &&& sel.len() == min_nat(k, scores.len())
    &&& forall|i: int| 0 <= i < sel.len() ==> sel[i] < scores.len()
    &&& forall|i: int, j: int|
        0 <= i < j < sel.len() ==> beats(scores, sel[i] as int, sel[j] as int)
    &&& forall|c: usize, i: int|
        c < scores.len() && !sel.contains(c) && 0 <= i < sel.len() ==> beats(
            scores,
            sel[i] as int,
            c as int,
        )
}

/// The positions of the `k` best scores, best first; equal scores in the
/// order of their positions.
pub fn top_k(scores: &Vec<u32>, k: usize) -> (sel: Vec<usize>)
    ensures
        is_top_k(scores@, k as nat, sel@),
        forall|i: int, j: int|
            0 <= i < j < sel@.len() ==> score_rank(scores@[sel@[i] as int]) >= score_rank(
                scores@[sel@[j] as int],
            ),
        sel@.len() <= k,
{
    let mut sel: Vec<usize> = Vec::new();
    if k == 0 {
        return sel;
    }
    let n = scores.len();
    let mut m: usize = 0;
    while m < n
        invariant
            n == scores@.len(),
            0 < k,
            m <= n,
            sel@.len() == min_nat(k as nat, m as nat),
            forall|i: int| 0 <= i < sel@.len() ==> sel@[i] < m,
            forall|i: int, j: int|
                0 <= i < j < sel@.len() ==> beats(scores@, sel@[i] as int, sel@[j] as int),
            sel@.len() < k ==> forall|c: usize| c < m ==> sel@.contains(c),
            forall|c: usize, i: int|
                c < m && !sel@.contains(c) && 0 <= i < sel@.len() ==> beats(
                    scores@,
                    sel@[i] as int,
                    c as int,
                ),
        decreases n - m,
    {
        let rc = score_rank_of(scores[m]);
        let mut p: usize = 0;
        while p < sel.len() && score_rank_of(scores[sel[p]]) >= rc
            invariant
                p <= sel@.len(),
                n == scores@.len(),
                m < n,
                rc == score_rank(scores@[m as int]),
                forall|i: int| 0 <= i < sel@.len() ==> sel@[i] < m,
                forall|x: int|
                    0 <= x < p ==> score_rank(scores@[sel@[x] as int]) >= score_rank(
                        scores@[m as int],
                    ),
            decreases sel@.len() - p,
        {
            p = p + 1;
        }
        let ghost old_sel = sel@;
        let ghost mm = m as int;
        proof {
            assert forall|x: int| 0 <= x < p implies beats(scores@, old_sel[x] as int, mm) by {}
            assert forall|x: int| p <= x < old_sel.len() implies beats(
                scores@,
                mm,
                old_sel[x] as int,
            ) by {
                if x > p {
                    assert(beats(scores@, old_sel[p as int] as int, old_sel[x] as int));
                }
            }
        }
        if sel.len() < k {
            sel.insert(p, m);
            proof {
                old_sel.insert_ensures(p as int, m);
                assert forall|c: usize| c < mm + 1 implies sel@.contains(c) by {
                    if c == m {
                        assert(sel@[p as int] == c);
                    } else {
                        assert(old_sel.contains(c));
                        let x = choose|x: int| 0 <= x < old_sel.len() && old_sel[x] == c;
                        if x < p {
                            assert(sel@[x] == c);
                        } else {
                            assert(sel@[x + 1] == c);
                        }
                    }
                }
                assert forall|i: int, j: int| 0 <= i < j < sel@.len() implies beats(
                    scores@,
                    sel@[i] as int,
                    sel@[j] as int,
                ) by {
                    if j < p {
                    } else if j == p {
                    } else if i < p {
                        assert(sel@[j] == old_sel[j - 1]);
                    } else if i == p {
                        assert(sel@[j] == old_sel[j - 1]);
                    } else {
                        assert(sel@[i] == old_sel[i - 1]);
                        assert(sel@[j] == old_sel[j - 1]);
                    }
                }
            }
        } else if p < k {
            sel.insert(p, m);
            let ghost ins = sel@;
            sel.pop();
            proof {
                old_sel.insert_ensures(p as int, m);
                assert(sel@ =~= ins.subrange(0, k as int));
                assert forall|i: int, j: int| 0 <= i < j < ins.len() implies beats(
                    scores@,
                    ins[i] as int,
                    ins[j] as int,
                ) by {
                    if j < p {
                    } else if j == p {
                    } else if i < p {
                        assert(ins[j] == old_sel[j - 1]);
                    } else if i == p {
                        assert(ins[j] == old_sel[j - 1]);
                    } else {
                        assert(ins[i] == old_sel[i - 1]);
                        assert(ins[j] == old_sel[j - 1]);
                    }
                }
                let e = old_sel[k - 1];
                assert(ins[k as int] == e);
                assert forall|c: usize, i: int|
                    c < mm + 1 && !sel@.contains(c) && 0 <= i < sel@.len() implies beats(
                    scores@,
                    sel@[i] as int,
                    c as int,
                ) by {
                    assert(sel@[i] == ins[i]);
                    if c == e {
                        assert(beats(scores@, ins[i] as int, ins[k as int] as int));
                    } else if c == m {
                        assert(sel@[p as int] == c);
                    } else {
                        if old_sel.contains(c) {
                            let x = choose|x: int| 0 <= x < old_sel.len() && old_sel[x] == c;
                            if x < p {
                                assert(sel@[x] == c);
                            } else {
                                assert(x + 1 < k);
                                assert(sel@[x + 1] == c);
                            }
                        }
                        assert(beats(scores@, e as int, c as int));
                        assert(beats(scores@, ins[i] as int, ins[k as int] as int));
                    }
                }
            }
        } else {
            proof {
                assert forall|c: usize, i: int|
                    c < mm + 1 && !sel@.contains(c) && 0 <= i < sel@.len() implies beats(
                    scores@,
                    sel@[i] as int,
                    c as int,
                ) by {
                    if c == m {
                    }
                }
            }
        }
        m = m + 1;
    }
    proof {
        assert forall|i: int, j: int| 0 <= i < j < sel@.len() implies score_rank(
            scores@[sel@[i] as int],
        ) >= score_rank(scores@[sel@[j] as int]) by {
            assert(beats(scores@, sel@[i] as int, sel@[j] as int));
        }
    }
    sel
}

} // verus!
