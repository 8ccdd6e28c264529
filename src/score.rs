use vstd::prelude::*;
use crate::color::{lemma_index_injective, Code, Color, CODE_SIZE, COLORS_NBR};

verus! {

/// Number of positions below `n` at which `s` and `g` hold the same color.
pub open spec fn good_upto(s: Seq<Color>, g: Seq<Color>, n: int) -> nat
    decreases n,
{
    if n <= 0 {
        0
    } else {
        good_upto(s, g, n - 1) + if s[n - 1] == g[n - 1] { 1nat } else { 0nat }
    }
}

/// The "good" score: positions at which both codes hold the same color.
pub open spec fn good_count(s: Seq<Color>, g: Seq<Color>) -> nat {
    good_upto(s, g, s.len() as int)
}

/// Number of positions below `n` at which `a` and `b` differ and `a` holds
/// the color of index `k`.
pub open spec fn leftover_upto(a: Seq<Color>, b: Seq<Color>, k: nat, n: int) -> nat
    decreases n,
{
    if n <= 0 {
        0
    } else {
        leftover_upto(a, b, k, n - 1) + if a[n - 1] != b[n - 1] && a[n - 1].index() == k {
            1nat
        } else {
            0nat
        }
    }
}

/// How often the color of index `k` occurs in `a` outside the exact matches with `b`.
pub open spec fn leftover(a: Seq<Color>, b: Seq<Color>, k: nat) -> nat {
    leftover_upto(a, b, k, a.len() as int)
}

/// The smaller of `x` and `y`.
pub open spec fn min_nat(x: nat, y: nat) -> nat {
    if x < y {
        x
    } else {
        y
    }
}

/// Size of the multiset intersection of the unmatched colors of `s` and of `g`,
/// restricted to the colors of index below `k`.
pub open spec fn bad_upto(s: Seq<Color>, g: Seq<Color>, k: int) -> nat
    decreases k,
{
    if k <= 0 {
        0
    } else {
        bad_upto(s, g, k - 1) + min_nat(
            leftover(s, g, (k - 1) as nat),
            leftover(g, s, (k - 1) as nat),
        )
    }
}

/// The "bad" score: colors present in both codes at different positions,
/// counted as a multiset intersection of what the exact matches leave over.
pub open spec fn bad_count(s: Seq<Color>, g: Seq<Color>) -> nat {
    bad_upto(s, g, COLORS_NBR as int)
}

/// Sum over the colors of index below `k` of their unmatched occurrences in `a[..n]`.
pub open spec fn leftover_sum(a: Seq<Color>, b: Seq<Color>, k: int, n: int) -> nat
    decreases k,
{
    if k <= 0 {
        0
    } else {
        leftover_sum(a, b, k - 1, n) + leftover_upto(a, b, (k - 1) as nat, n)
    }
}

/// Scores `code` against `source`: `(good, bad)`, where good counts the
/// positions holding the same color and bad the colors that both hold
/// elsewhere, each occurrence credited at most once.
pub fn evaluate(source: &Code, code: &Code) -> (r: (u8, u8))
    ensures
        r.0 == good_count(source@, code@),
        r.1 == bad_count(source@, code@),
        r.0 + r.1 <= CODE_SIZE,
{
    let mut leftover_self: [u8; 6] = [0u8; 6];
    let mut leftover_code: [u8; 6] = [0u8; 6];
    let mut good: u8 = 0;
    let mut bad: u8 = 0;

    let mut i: usize = 0;
    while i < CODE_SIZE as usize
        invariant
            0 <= i <= CODE_SIZE,
            source@.len() == CODE_SIZE,
            code@.len() == CODE_SIZE,
            good == good_upto(source@, code@, i as int),
            good <= i,
            forall|k: int|
                0 <= k < COLORS_NBR ==> {
                    &&& leftover_self[k] == leftover_upto(source@, code@, k as nat, i as int)
                    &&& leftover_code[k] == leftover_upto(code@, source@, k as nat, i as int)
                    &&& leftover_self[k] <= i
                    &&& leftover_code[k] <= i
                },
        decreases CODE_SIZE - i,
    {
        let color_self = source[i];
        let color_code = code[i];
        if color_self == color_code {
            good += 1;
        } else {
            let a = color_self.value();
            let b = color_code.value();
            leftover_self[a] = leftover_self[a] + 1;
            leftover_code[b] = leftover_code[b] + 1;
        }
        i += 1;
    }

    proof {
        lemma_bad_bounded(source@, code@);
    }

    let mut k: usize = 0;
    while k < COLORS_NBR
        invariant
            0 <= k <= COLORS_NBR,
            source@.len() == CODE_SIZE,
            code@.len() == CODE_SIZE,
            good == good_count(source@, code@),
            good + bad_count(source@, code@) <= CODE_SIZE,
            bad == bad_upto(source@, code@, k as int),
            forall|j: int|
                0 <= j < COLORS_NBR ==> {
                    &&& leftover_self[j] == leftover(source@, code@, j as nat)
                    &&& leftover_code[j] == leftover(code@, source@, j as nat)
                },
        decreases COLORS_NBR - k,
    {
        proof {
            lemma_bad_upto_monotone(source@, code@, k + 1, COLORS_NBR as int);
        }
        let m = if leftover_self[k] < leftover_code[k] {
            leftover_self[k]
        } else {
            leftover_code[k]
        };
        bad = bad + m;
        k += 1;
    }

    (good, bad)
}

proof fn lemma_leftover_sum_empty(a: Seq<Color>, b: Seq<Color>, k: int)
    ensures
        leftover_sum(a, b, k, 0) == 0,
    decreases k,
{
    if k > 0 {
        lemma_leftover_sum_empty(a, b, k - 1);
    }
}

proof fn lemma_leftover_sum_step(a: Seq<Color>, b: Seq<Color>, k: int, n: int)
    requires
        0 < n,
    ensures
        leftover_sum(a, b, k, n) == leftover_sum(a, b, k, n - 1) + if a[n - 1] != b[n - 1]
            && a[n - 1].index() < k {
            1nat
        } else {
            0nat
        },
    decreases k,
{
    if k > 0 {
        lemma_leftover_sum_step(a, b, k - 1, n);
    }
}

/// Every position below `n` is either an exact match or an unmatched color.
proof fn lemma_leftover_total(a: Seq<Color>, b: Seq<Color>, n: int)
    requires
        0 <= n,
    ensures
        leftover_sum(a, b, COLORS_NBR as int, n) + good_upto(a, b, n) == n,
    decreases n,
{
    if n > 0 {
        lemma_leftover_total(a, b, n - 1);
        lemma_leftover_sum_step(a, b, COLORS_NBR as int, n);
        lemma_index_injective(a[n - 1], a[n - 1]);
    } else {
        lemma_leftover_sum_empty(a, b, COLORS_NBR as int);
    }
}

proof fn lemma_bad_below_leftover(s: Seq<Color>, g: Seq<Color>, k: int)
    ensures
        bad_upto(s, g, k) <= leftover_sum(s, g, k, s.len() as int),
    decreases k,
{
    if k > 0 {
        lemma_bad_below_leftover(s, g, k - 1);
    }
}

proof fn lemma_bad_upto_monotone(s: Seq<Color>, g: Seq<Color>, k: int, m: int)
    requires
        k <= m,
    ensures
        bad_upto(s, g, k) <= bad_upto(s, g, m),
    decreases m - k,
{
    if k < m {
        lemma_bad_upto_monotone(s, g, k, m - 1);
    }
}

proof fn lemma_bad_bounded(s: Seq<Color>, g: Seq<Color>)
    ensures
        good_count(s, g) + bad_count(s, g) <= s.len(),
{
    lemma_bad_below_leftover(s, g, COLORS_NBR as int);
    lemma_leftover_total(s, g, s.len() as int);
}

/// The two scores of a guess never add up to more than the code length.
pub proof fn lemma_score_bounded(a: Code, b: Code)
    ensures
        good_count(a@, b@) + bad_count(a@, b@) <= CODE_SIZE,
{
    lemma_bad_bounded(a@, b@);
}

proof fn lemma_self_match(a: Seq<Color>, n: int)
    ensures
        good_upto(a, a, n) == if n < 0 { 0 } else { n },
        forall|k: nat| leftover_upto(a, a, k, n) == 0,
    decreases n,
{
    if n > 0 {
        lemma_self_match(a, n - 1);
        assert forall|k: nat| leftover_upto(a, a, k, n) == 0 by {
            assert(leftover_upto(a, a, k, n - 1) == 0);
        }
    }
}

proof fn lemma_no_leftover(s: Seq<Color>, g: Seq<Color>, k: int)
    requires
        forall|j: nat| min_nat(leftover(s, g, j), leftover(g, s, j)) == 0,
    ensures
        bad_upto(s, g, k) == 0,
    decreases k,
{
    if k > 0 {
        lemma_no_leftover(s, g, k - 1);
        assert(min_nat(leftover(s, g, (k - 1) as nat), leftover(g, s, (k - 1) as nat)) == 0);
    }
}

/// A code scored against itself is all good and no bad.
pub proof fn lemma_identity(a: Code)
    ensures
        good_count(a@, a@) == CODE_SIZE,
        bad_count(a@, a@) == 0,
{
    lemma_self_match(a@, a@.len() as int);
    lemma_no_leftover(a@, a@, COLORS_NBR as int);
}

/// An unmatched occurrence of a color comes from a position holding it.
proof fn lemma_leftover_witness(a: Seq<Color>, b: Seq<Color>, k: nat, n: int)
    requires
        leftover_upto(a, b, k, n) > 0,
    ensures
        exists|i: int| 0 <= i < n && #[trigger] a[i].index() == k,
    decreases n,
{
    if leftover_upto(a, b, k, n - 1) > 0 {
        lemma_leftover_witness(a, b, k, n - 1);
    } else {
        assert(a[n - 1].index() == k);
    }
}

proof fn lemma_no_match(a: Seq<Color>, b: Seq<Color>, n: int)
    requires
        forall|i: int| 0 <= i < n ==> a[i] != b[i],
    ensures
        good_upto(a, b, n) == 0,
    decreases n,
{
    if n > 0 {
        lemma_no_match(a, b, n - 1);
    }
}

/// Codes that have no color in common score nothing at all.
pub proof fn lemma_disjoint(a: Code, b: Code)
    requires
        forall|i: int, j: int| 0 <= i < CODE_SIZE && 0 <= j < CODE_SIZE ==> a[i] != b[j],
    ensures
        good_count(a@, b@) == 0,
        bad_count(a@, b@) == 0,
{
    lemma_no_match(a@, b@, a@.len() as int);
    assert forall|k: nat| min_nat(leftover(a@, b@, k), leftover(b@, a@, k)) == 0 by {
        if leftover(a@, b@, k) > 0 && leftover(b@, a@, k) > 0 {
            lemma_leftover_witness(a@, b@, k, a@.len() as int);
            lemma_leftover_witness(b@, a@, k, b@.len() as int);
            let i = choose|i: int| 0 <= i < a@.len() && #[trigger] a@[i].index() == k;
            let j = choose|j: int| 0 <= j < b@.len() && #[trigger] b@[j].index() == k;
            lemma_index_injective(a@[i], b@[j]);
            assert(a[i] != b[j]);
        }
    }
    lemma_no_leftover(a@, b@, COLORS_NBR as int);
}

} // verus!
