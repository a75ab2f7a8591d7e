use vstd::prelude::*;

verus! {

broadcast use vstd::seq_lib::group_seq_properties;

/// An importance score of one, in millionths.
pub const SCORE_ONE: u64 = 1_000_000;

/// The smallest element of a sequence (zero for an empty one).
pub open spec fn seq_min(s: Seq<u64>) -> u64
    decreases s.len(),
{
    if s.len() == 0 {
        0
    } else if s.len() == 1 {
        s[0]
    } else {
        let m = seq_min(s.drop_last());
        if s.last() < m {
            s.last()
        } else {
            m
        }
    }
}

/// The largest element of a sequence (zero for an empty one).
pub open spec fn seq_max(s: Seq<u64>) -> u64
    decreases s.len(),
{
    if s.len() == 0 {
        0
    } else if s.len() == 1 {
        s[0]
    } else {
        let m = seq_max(s.drop_last());
        if s.last() > m {
            s.last()
        } else {
            m
        }
    }
}

/// Bounds every element between the minimum and the maximum, both of which
/// occur in a non-empty sequence.
pub proof fn lemma_min_max(s: Seq<u64>)
    requires
        s.len() > 0,
    ensures
        forall|i: int| 0 <= i < s.len() ==> seq_min(s) <= #[trigger] s[i] <= seq_max(s),
        exists|i: int| 0 <= i < s.len() && s[i] == seq_min(s),
        exists|i: int| 0 <= i < s.len() && s[i] == seq_max(s),
    decreases s.len(),
{
    if s.len() > 1 {
        lemma_min_max(s.drop_last());
        let lo = choose|i: int| 0 <= i < s.len() - 1 && s.drop_last()[i] == seq_min(s.drop_last());
        let hi = choose|i: int| 0 <= i < s.len() - 1 && s.drop_last()[i] == seq_max(s.drop_last());
        assert(s[lo] == s.drop_last()[lo]);
        assert(s[hi] == s.drop_last()[hi]);
        if s.last() < seq_min(s.drop_last()) {
            assert(s[s.len() - 1] == seq_min(s));
        } else {
            assert(s[lo] == seq_min(s));
        }
        if s.last() > seq_max(s.drop_last()) {
            assert(s[s.len() - 1] == seq_max(s));
        } else {
            assert(s[hi] == seq_max(s));
        }
        assert forall|i: int| 0 <= i < s.len() implies seq_min(s) <= #[trigger] s[i] <= seq_max(
            s,
        ) by {
            if i < s.len() - 1 {
                assert(s[i] == s.drop_last()[i]);
            }
        }
    } else {
        assert(s[0] == seq_min(s));
        assert(s[0] == seq_max(s));
    }
}

/// A score rescaled so that the smallest becomes zero and the largest
/// `SCORE_ONE`; when all scores are equal they are kept as they are.
pub open spec fn normalized_score(s: Seq<u64>, x: u64) -> u64 {
    if seq_max(s) > seq_min(s) {
        ((x - seq_min(s)) * SCORE_ONE / (seq_max(s) - seq_min(s))) as u64
    } else {
        x
    }
}

pub open spec fn normalized(s: Seq<u64>) -> Seq<u64> {
    s.map_values(|x: u64| normalized_score(s, x))
}

/// Min-max normalisation of importance scores given in millionths.
pub fn normalize(scores: &Vec<u64>) -> (r: Vec<u64>)
    ensures
        r@ == normalized(scores@),
        forall|i: int| 0 <= i < r.len() && seq_max(scores@) > seq_min(scores@) ==> #[trigger] r@[i] <= SCORE_ONE,
{
    let n = scores.len();
    let mut r: Vec<u64> = Vec::new();
    if n == 0 {
        assert(r@ =~= normalized(scores@));
        return r;
    }
    let mut lo: u64 = scores[0];
    let mut hi: u64 = scores[0];
    for k in 1..n
        invariant
            n == scores.len(),
            n > 0,
            lo == seq_min(scores@.take(k as int)),
            hi == seq_max(scores@.take(k as int)),
    {
        proof {
            assert(scores@.take(k + 1).drop_last() =~= scores@.take(k as int));
        }
        let x = scores[k];
        if x < lo {
            lo = x;
        }
        if x > hi {
            hi = x;
        }
    }
    assert(scores@.take(n as int) == scores@);
    proof {
        lemma_min_max(scores@);
    }
    for k in 0..n
        invariant
            n == scores.len(),
            n > 0,
            lo == seq_min(scores@),
            hi == seq_max(scores@),
            forall|i: int| 0 <= i < n ==> lo <= #[trigger] scores@[i] <= hi,
            r.len() == k,
            forall|i: int| 0 <= i < k ==> #[trigger] r@[i] == normalized_score(scores@, scores@[i]),
            forall|i: int| 0 <= i < k && hi > lo ==> #[trigger] r@[i] <= SCORE_ONE,
    {
        let x = scores[k];
        if hi > lo {
            let span: u128 = (hi - lo) as u128;
            let lifted: u128 = (x - lo) as u128 * SCORE_ONE as u128;
            let v: u128 = lifted / span;
            proof {
                let a = (x - lo) as int;
                let d = span as int;
                assert(a * 1_000_000 <= d * 1_000_000) by (nonlinear_arith)
                    requires
                        a <= d,
                ;
                vstd::arithmetic::div_mod::lemma_div_is_ordered(a * 1_000_000, d * 1_000_000, d);
                vstd::arithmetic::div_mod::lemma_div_multiples_vanish(1_000_000, d);
                assert(d * 1_000_000 == 1_000_000 * d) by (nonlinear_arith);
            }
            r.push(v as u64);
        } else {
            r.push(x);
        }
    }
    assert(r@ =~= normalized(scores@));
    r
}

/// Under normalisation a largest score becomes exactly one and a smallest
/// exactly zero, whenever the scores are not all equal.
pub proof fn lemma_normalized_extremes(s: Seq<u64>, i: int, j: int)
    requires
        0 <= i < s.len(),
        0 <= j < s.len(),
        s[i] == seq_max(s),
        s[j] == seq_min(s),
        seq_max(s) != seq_min(s),
    ensures
        normalized(s)[i] == SCORE_ONE,
        normalized(s)[j] == 0,
{
    lemma_min_max(s);
    let span = (seq_max(s) - seq_min(s)) as int;
    assert(span * 1_000_000 / span == 1_000_000) by (nonlinear_arith)
        requires
            span > 0,
    {
        vstd::arithmetic::div_mod::lemma_div_multiples_vanish(1_000_000, span);
    }
    assert(0int * 1_000_000 / span == 0) by (nonlinear_arith)
        requires
            span > 0,
    ;
}

/// Visual scale, in thousandths, for a normalised score: one half plus three
/// times the score.
pub open spec fn rank_scale_of(score: u64) -> int {
    3000 * score / (SCORE_ONE as int) + 500
}

pub fn rank_scale(score: u64) -> (r: u64)
    ensures
        r == rank_scale_of(score),
{
    let v: u128 = (score as u128) * 3000 / (SCORE_ONE as u128);
    assert(v <= 0xffff_ffff_ffff_ffffu128 * 3000 / 1_000_000) by (nonlinear_arith)
        requires
            v == (score as u128) * 3000 / 1_000_000,
            score <= 0xffff_ffff_ffff_ffffu64,
    {
        vstd::arithmetic::div_mod::lemma_div_is_ordered(
            (score as int) * 3000,
            0xffff_ffff_ffff_ffffint * 3000,
            1_000_000,
        );
    }
    (v + 500) as u64
}

} // verus!
