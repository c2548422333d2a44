//! The index structure of the radix-2 transform: how many stages a length
//! has, which pairs of positions each stage combines and with which twiddle
//! fraction, and the final reordering. The arithmetic on the values is
//! supplied by the caller as a butterfly function, so one engine serves the
//! forward and the inverse transform.
use vstd::prelude::*;
use crate::error::DspError;
use vstd::arithmetic::div_mod::{
    lemma_div_denominator, lemma_div_pos_is_pos, lemma_fundamental_div_mod,
    lemma_fundamental_div_mod_converse, lemma_mod_bound, lemma_mod_breakdown, lemma_mod_mod,
};

verus! {

/// Two to the power `e`.
pub open spec fn two_to(e: nat) -> nat
    decreases e,
{
    if e == 0 {
        1
    } else {
        2 * two_to((e - 1) as nat)
    }
}

/// The base-two logarithm of `n`, rounded down; zero for zero.
pub open spec fn stages_of(n: nat) -> nat
    decreases n,
{
    if n <= 1 {
        0
    } else {
        1 + stages_of(n / 2)
    }
}

/// `n` is two to some power.
pub open spec fn is_power_of_two(n: nat) -> bool {
    exists|k: nat| two_to(k) == n
}

proof fn lemma_two_to_pos(e: nat)
    ensures
        two_to(e) >= 1,
    decreases e,
{
    if e > 0 {
        lemma_two_to_pos((e - 1) as nat);
    }
}

proof fn lemma_two_to_grows(a: nat, b: nat)
    requires
        a < b,
    ensures
        two_to(a) < two_to(b),
    decreases b,
{
    lemma_two_to_pos((b - 1) as nat);
    if a < b - 1 {
        lemma_two_to_grows(a, (b - 1) as nat);
    }
}

proof fn lemma_two_to_adds(a: nat, b: nat)
    ensures
        two_to(a + b) == two_to(a) * two_to(b),
    decreases a,
{
    if a > 0 {
        let a1 = (a - 1) as nat;
        lemma_two_to_adds(a1, b);
        assert(two_to(a + b) == 2 * two_to(a1 + b));
        let x = two_to(a1);
        let y = two_to(b);
        assert(two_to(a) == 2 * x);
        assert((2 * x) * y == 2 * (x * y)) by (nonlinear_arith);
    } else {
        assert(two_to(a) == 1);
        assert(two_to(a + b) == two_to(b));
    }
}

proof fn lemma_stages_of_two_to(k: nat)
    ensures
        stages_of(two_to(k)) == k,
    decreases k,
{
    if k > 0 {
        lemma_two_to_pos((k - 1) as nat);
        lemma_stages_of_two_to((k - 1) as nat);
        assert(two_to(k) / 2 == two_to((k - 1) as nat));
    }
}

/// Two to the power `e`, for an `e` whose power fits.
fn pow2(e: usize) -> (r: usize)
    requires
        two_to(e as nat) <= usize::MAX,
    ensures
        r == two_to(e as nat),
{
    let mut r: usize = 1;
    let mut i: usize = 0;
    while i < e
        invariant
            i <= e,
            r == two_to(i as nat),
            two_to(e as nat) <= usize::MAX,
        decreases e - i,
    {
        proof {
            if i + 1 < e {
                lemma_two_to_grows((i + 1) as nat, e as nat);
            }
        }
        r = r * 2;
        i = i + 1;
    }
    r
}

/// The number of stages of a transform of length `n`: the `k` with
/// `n == 2^k`, or `InvalidLength` where `n` is no power of two.
pub fn count_stage(n: usize) -> (r: Result<usize, DspError>)
    ensures
        match r {
            Ok(k) => two_to(k as nat) == n && k == stages_of(n as nat),
            Err(e) => e == DspError::InvalidLength && !is_power_of_two(n as nat),
        },
{
    let mut k: usize = 0;
    let mut p: usize = 1;
    while p < n && p <= usize::MAX / 2
        invariant
            p == two_to(k as nat),
            k < p,
            forall|j: nat| j < k ==> #[trigger] two_to(j) < n,
        decreases usize::MAX - p,
    {
        proof {
            assert forall|j: nat| j < k + 1 implies #[trigger] two_to(j) < n by {
                if j < k {
                } else {
                    assert(j == k);
                }
            }
        }
        p = p * 2;
        k = k + 1;
    }
    if p == n {
        proof {
            lemma_stages_of_two_to(k as nat);
        }
        Ok(k)
    } else {
        proof {
            assert forall|j: nat| two_to(j) != n by {
                if j < k {
                } else if j == k {
                } else {
                    lemma_two_to_grows(k as nat, j);
                    if k + 1 < j {
                        lemma_two_to_grows((k + 1) as nat, j);
                    }
                    assert(two_to((k + 1) as nat) == 2 * p);
                }
            }
        }
        Err(DspError::InvalidLength)
    }
}

/// The parameters of one butterfly: the twiddle angle is
/// `2π · numer / denom`, and on the last stage the difference is combined
/// without a twiddle.
#[derive(Clone, Copy, Debug, PartialEq, Eq, Structural)]
pub struct Butterfly {
    pub numer: usize,
    pub denom: usize,
    pub last: bool,
}

/// The butterfly of stage `curr` out of `limit` for the pair whose first
/// position is `m`, at offset `j` in its group: `numer = 2^(curr-1) · j` and
/// `denom = 2^(limit-curr) + m`.
pub open spec fn butterfly_of(curr: nat, limit: nat, j: nat, m: nat) -> Butterfly {
    Butterfly {
        numer: (two_to((curr - 1) as nat) * j) as usize,
        denom: (two_to((limit - curr) as nat) + m) as usize,
        last: curr == limit,
    }
}

/// Computes the butterfly parameters of stage `curr` out of `limit`, for the
/// pair at offset `j` of its group whose first position is `m`.
pub fn butterfly_params(curr: usize, limit: usize, j: usize, m: usize) -> (r: Butterfly)
    requires
        1 <= curr <= limit,
        two_to(limit as nat) <= usize::MAX,
        j < two_to((limit - curr) as nat),
        m + two_to((limit - curr) as nat) < two_to(limit as nat),
    ensures
        r == butterfly_of(curr as nat, limit as nat, j as nat, m as nat),
        r.numer == two_to((curr - 1) as nat) * j,
        r.denom == two_to((limit - curr) as nat) + m,
{
    proof {
        lemma_two_to_adds((curr - 1) as nat, (limit - curr) as nat);
        lemma_two_to_grows((curr - 1) as nat, limit as nat);
        if curr < limit {
            lemma_two_to_grows((limit - curr) as nat, limit as nat);
        }
        let p = two_to((curr - 1) as nat);
        let q = two_to((limit - curr) as nat);
        lemma_two_to_pos((curr - 1) as nat);
        assert(p * j <= p * q) by (nonlinear_arith)
            requires
                j < q,
                p >= 1,
        ;
    }
    let numer = pow2(curr - 1) * j;
    let denom = pow2(limit - curr) + m;
    Butterfly { numer, denom, last: curr == limit }
}

/// Stage `curr` combined the pair at offset `j` of group `i` of `a` through
/// `f` into the same two positions of `b`.
pub open spec fn butterfly_holds<T, F: Fn(T, T, Butterfly) -> (T, T)>(
    f: F,
    a: Seq<T>,
    b: Seq<T>,
    curr: nat,
    limit: nat,
    i: int,
    j: int,
) -> bool {
    let h = two_to((limit - curr) as nat);
    let m = 2 * h * i + j;
    f.ensures((a[m], a[m + h], butterfly_of(curr, limit, j as nat, m as nat)), (b[m], b[m + h]))
}

/// `b` is stage `curr` out of `limit` applied to `a` with the butterfly `f`:
/// the sequence falls into `2^(curr-1)` groups of `2h` positions, with
/// `h = 2^(limit-curr)`, and within each group the positions `j` and `j + h`
/// are combined into the same two positions.
pub open spec fn stage_step<T, F: Fn(T, T, Butterfly) -> (T, T)>(
    f: F,
    a: Seq<T>,
    b: Seq<T>,
    curr: nat,
    limit: nat,
) -> bool {
    &&& a.len() == two_to(limit)
    &&& b.len() == a.len()
    &&& forall|i: int, j: int|
        0 <= i < two_to((curr - 1) as nat) && 0 <= j < two_to((limit - curr) as nat)
            ==> #[trigger] butterfly_holds(f, a, b, curr, limit, i, j)
}

proof fn lemma_group_below(h: int, i2: int, i: int, j2: int)
    requires
        0 <= i2 < i,
        0 <= j2 < h,
    ensures
        2 * h * i2 + j2 + h < 2 * h * i,
{
    assert(2 * h * i2 + 2 * h <= 2 * h * i) by (nonlinear_arith)
        requires
            i2 + 1 <= i,
            h >= 0,
    ;
}

/// Applies stage `curr` out of `limit` to `src`, combining each pair with `f`.
pub fn compute_stage<T: Copy, F: Fn(T, T, Butterfly) -> (T, T)>(
    src: &Vec<T>,
    curr: usize,
    limit: usize,
    f: &F,
) -> (r: Vec<T>)
    requires
        1 <= curr <= limit,
        two_to(limit as nat) <= usize::MAX,
        src@.len() == two_to(limit as nat),
        forall|a: T, b: T, p: Butterfly| f.requires((a, b, p)),
    ensures
        stage_step(*f, src@, r@, curr as nat, limit as nat),
{
    let ghost hs = two_to((limit - curr) as nat);
    let ghost gs = two_to((curr - 1) as nat);
    proof {
        lemma_two_to_pos((limit - curr) as nat);
        lemma_two_to_adds((curr - 1) as nat, (limit - curr + 1) as nat);
        assert(two_to((limit - curr + 1) as nat) == 2 * hs);
        assert(gs * (2 * hs) == 2 * hs * gs) by (nonlinear_arith);
        lemma_two_to_grows((limit - curr) as nat, limit as nat);
        if curr > 1 {
            lemma_two_to_grows((curr - 1) as nat, limit as nat);
        }
    }
    let h = pow2(limit - curr);
    let groups = pow2(curr - 1);
    let mut out: Vec<T> = Vec::new();
    let mut i: usize = 0;
    while i < groups
        invariant
            1 <= curr <= limit,
            two_to(limit as nat) <= usize::MAX,
            src@.len() == two_to(limit as nat),
            forall|a: T, b: T, p: Butterfly| f.requires((a, b, p)),
            h == hs,
            hs == two_to((limit - curr) as nat),
            hs >= 1,
            groups == gs,
            gs == two_to((curr - 1) as nat),
            2 * hs * gs == two_to(limit as nat),
            i <= groups,
            out@.len() == 2 * h * i,
            forall|i2: int, j2: int|
                0 <= i2 < i && 0 <= j2 < h ==> #[trigger] butterfly_holds(
                    *f,
                    src@,
                    out@,
                    curr as nat,
                    limit as nat,
                    i2,
                    j2,
                ),
        decreases groups - i,
    {
        proof {
            assert(2 * hs * i + 2 * hs <= 2 * hs * gs) by (nonlinear_arith)
                requires
                    i < gs,
                    hs >= 1,
            ;
        }
        let base = 2 * h * i;
        let mut front: Vec<T> = Vec::new();
        let mut back: Vec<T> = Vec::new();
        let mut j: usize = 0;
        while j < h
            invariant
                1 <= curr <= limit,
                two_to(limit as nat) <= usize::MAX,
                src@.len() == two_to(limit as nat),
                forall|a: T, b: T, p: Butterfly| f.requires((a, b, p)),
                h == hs,
                hs == two_to((limit - curr) as nat),
                base == 2 * hs * i,
                base + 2 * hs <= src@.len(),
                j <= h,
                front@.len() == j,
                back@.len() == j,
                forall|j2: int|
                    0 <= j2 < j ==> f.ensures(
                        (
                            src@[base + j2],
                            src@[base + j2 + h],
                            butterfly_of(curr as nat, limit as nat, j2 as nat, (base + j2) as nat),
                        ),
                        (#[trigger] front@[j2], back@[j2]),
                    ),
            decreases h - j,
        {
            let m = base + j;
            let p = butterfly_params(curr, limit, j, m);
            let (sum, diff) = f(src[m], src[m + h], p);
            front.push(sum);
            back.push(diff);
            j = j + 1;
        }
        let ghost before = out@;
        let ghost sums = front@;
        let ghost diffs = back@;
        out.append(&mut front);
        out.append(&mut back);
        proof {
            assert(2 * hs * i + 2 * hs == 2 * hs * (i + 1)) by (nonlinear_arith);
            assert forall|i2: int, j2: int|
                0 <= i2 < i + 1 && 0 <= j2 < h implies #[trigger] butterfly_holds(
                *f,
                src@,
                out@,
                curr as nat,
                limit as nat,
                i2,
                j2,
            ) by {
                if i2 < i {
                    lemma_group_below(hs as int, i2, i as int, j2);
                    assert(butterfly_holds(*f, src@, before, curr as nat, limit as nat, i2, j2));
                    assert(out@[2 * hs * i2 + j2] == before[2 * hs * i2 + j2]);
                    assert(out@[2 * hs * i2 + j2 + hs] == before[2 * hs * i2 + j2 + hs]);
                } else {
                    assert(sums[j2] == out@[base + j2]);
                    assert(diffs[j2] == out@[base + j2 + h]);
                }
            }
        }
        i = i + 1;
    }
    out
}

/// The position that the final reordering pairs with `idx` in a sequence of
/// `2^k`: the `k` low bits of `idx` in reverse order.
pub open spec fn index_weight(idx: nat, k: nat) -> nat
    decreases k,
{
    if k == 0 {
        0
    } else {
        (idx % 2) * two_to((k - 1) as nat) + index_weight(idx / 2, (k - 1) as nat)
    }
}

/// `s` with the item at each position `p` taken from position
/// `index_weight(p, k)`.
pub open spec fn bit_reversed<T>(s: Seq<T>, k: nat) -> Seq<T> {
    Seq::new(s.len(), |p: int| s[index_weight(p as nat, k) as int])
}

proof fn lemma_two_to_exceeds(k: nat)
    ensures
        k < two_to(k),
    decreases k,
{
    if k > 0 {
        lemma_two_to_exceeds((k - 1) as nat);
    }
}

/// A reversed index of `k` bits is below `2^k`.
pub proof fn lemma_index_weight_bound(idx: nat, k: nat)
    ensures
        index_weight(idx, k) < two_to(k),
    decreases k,
{
    if k > 0 {
        lemma_index_weight_bound(idx / 2, (k - 1) as nat);
        lemma_two_to_pos((k - 1) as nat);
        if idx % 2 == 0 {
            assert((idx % 2) * two_to((k - 1) as nat) == 0);
        } else {
            assert((idx % 2) * two_to((k - 1) as nat) == two_to((k - 1) as nat));
        }
    }
}

/// The top bit of an index of `k` bits becomes the low bit of its reversal.
proof fn lemma_index_weight_top(idx: nat, k: nat)
    requires
        k >= 1,
        idx < two_to(k),
    ensures
        index_weight(idx, k) == 2 * index_weight(idx % two_to((k - 1) as nat), (k - 1) as nat)
            + idx / two_to((k - 1) as nat),
    decreases k,
{
    let k1 = (k - 1) as nat;
    let p = two_to(k1) as int;
    lemma_two_to_pos(k1);
    if k == 1 {
        assert(idx % 1 == 0 && idx / 1 == idx);
        assert(idx / 2 == 0);
    } else {
        let k2 = (k - 2) as nat;
        let q = two_to(k2) as int;
        lemma_two_to_pos(k2);
        assert(p == 2 * q);
        let i = idx as int;
        assert(i / 2 < p) by {
            lemma_fundamental_div_mod(i, 2);
        }
        lemma_index_weight_top((i / 2) as nat, k1);
        lemma_mod_mod(i, 2, q);
        lemma_mod_breakdown(i, 2, q);
        lemma_div_denominator(i, 2, q);
        lemma_mod_bound(i, p);
        let low = i % p;
        assert(low / 2 == (i / 2) % q) by {
            lemma_fundamental_div_mod_converse(low, 2, (i / 2) % q, i % 2);
        }
        assert(index_weight(low as nat, k1) == (low % 2) * q + index_weight(
            (low / 2) as nat,
            k2,
        ));
        assert(((i % 2) * p) == 2 * ((i % 2) * q)) by (nonlinear_arith)
            requires
                p == 2 * q,
        ;
    }
}

/// Reversing the `k` low bits twice gives the index back.
pub proof fn lemma_index_weight_involution(idx: nat, k: nat)
    requires
        idx < two_to(k),
    ensures
        index_weight(index_weight(idx, k), k) == idx,
    decreases k,
{
    if k > 0 {
        let k1 = (k - 1) as nat;
        let p = two_to(k1) as int;
        lemma_two_to_pos(k1);
        let i = idx as int;
        assert(i / 2 < p) by {
            lemma_fundamental_div_mod(i, 2);
        }
        let r1 = index_weight(idx / 2, k1);
        lemma_index_weight_bound(idx / 2, k1);
        lemma_index_weight_involution(idx / 2, k1);
        let r = index_weight(idx, k);
        assert(r == (i % 2) * p + r1);
        lemma_index_weight_bound(idx, k);
        lemma_index_weight_top(r, k);
        assert(r == (i % 2) * p + r1 && (i % 2 == 0 || i % 2 == 1));
        lemma_fundamental_div_mod_converse(r as int, p, i % 2, r1 as int);
        lemma_fundamental_div_mod(i, 2);
    }
}

/// The position that the final reordering of a sequence of `2^k` pairs
/// with `idx`: its `k` low bits reversed.
pub fn compute_index_weight(idx: usize, k: usize) -> (r: usize)
    requires
        two_to(k as nat) <= usize::MAX,
    ensures
        r == index_weight(idx as nat, k as nat),
{
    let mut r: usize = 0;
    let mut x: usize = idx;
    let mut t: usize = 0;
    while t < k
        invariant
            t <= k,
            two_to(k as nat) <= usize::MAX,
            r < two_to(t as nat),
            index_weight(idx as nat, k as nat) == r * two_to((k - t) as nat) + index_weight(
                x as nat,
                (k - t) as nat,
            ),
        decreases k - t,
    {
        proof {
            let pk = two_to((k - t - 1) as nat);
            assert(two_to((k - t) as nat) == 2 * pk);
            assert(r * (2 * pk) + (x % 2) * pk == (2 * r + x % 2) * pk) by (nonlinear_arith);
            if t + 1 < k {
                lemma_two_to_grows((t + 1) as nat, k as nat);
            }
        }
        r = 2 * r + x % 2;
        x = x / 2;
        t = t + 1;
    }
    assert(two_to(0) == 1 && index_weight(x as nat, 0) == 0);
    assert(r * 1 == r);
    r
}

/// The reordering partner of every index of a sequence of `2^k`, in order.
pub fn indices(k: usize) -> (r: Vec<usize>)
    requires
        two_to(k as nat) <= usize::MAX,
    ensures
        r@.len() == two_to(k as nat),
        forall|i: int| 0 <= i < r@.len() ==> r@[i] == index_weight(i as nat, k as nat),
{
    let len = pow2(k);
    let mut r: Vec<usize> = Vec::new();
    let mut i: usize = 0;
    while i < len
        invariant
            two_to(k as nat) <= usize::MAX,
            i <= len,
            r@.len() == i,
            forall|j: int| 0 <= j < i ==> r@[j] == index_weight(j as nat, k as nat),
        decreases len - i,
    {
        r.push(compute_index_weight(i, k));
        i = i + 1;
    }
    r
}

/// The item that stands at `p` while the reordering has visited the indices
/// below `i`: a pair is swapped once its smaller index has been visited.
spec fn partly_reversed<T>(s: Seq<T>, k: nat, i: int, p: int) -> T {
    let q = index_weight(p as nat, k) as int;
    if p < i || q < i {
        s[q]
    } else {
        s[p]
    }
}

/// The final reordering of a sequence of `2^k` items: each index `i` is
/// swapped with its bit reversal `j` wherever `i < j`. As reversal is its own
/// inverse, every pair trades places exactly once.
pub fn reverse_bits<T: Copy>(v: &mut Vec<T>)
    requires
        is_power_of_two(old(v)@.len()),
    ensures
        final(v)@ == bit_reversed(old(v)@, stages_of(old(v)@.len())),
        forall|i: int|
            0 <= i < old(v)@.len() ==> final(v)@[index_weight(i as nat, stages_of(old(v)@.len()))
                as int] == old(v)@[i],
{
    let k = match count_stage(v.len()) {
        Ok(k) => k,
        Err(_) => {
            assert(false);
            0
        },
    };
    let ghost s = v@;
    let n = v.len();
    let weights = indices(k);
    let mut i: usize = 0;
    while i < n
        invariant
            n == v@.len(),
            n == s.len(),
            n == two_to(k as nat),
            weights@.len() == n,
            forall|j: int| 0 <= j < n ==> weights@[j] == index_weight(j as nat, k as nat),
            i <= n,
            forall|p: int|
                0 <= p < n ==> #[trigger] v@[p] == partly_reversed(s, k as nat, i as int, p),
        decreases n - i,
    {
        let j = weights[i];
        proof {
            lemma_index_weight_bound(i as nat, k as nat);
            lemma_index_weight_involution(i as nat, k as nat);
        }
        let ghost before = v@;
        if i < j {
            let a = v[i];
            let b = v[j];
            v.set(i, b);
            v.set(j, a);
        }
        proof {
            assert forall|p: int| 0 <= p < n implies #[trigger] v@[p] == partly_reversed(
                s,
                k as nat,
                i + 1,
                p,
            ) by {
                lemma_index_weight_bound(p as nat, k as nat);
                lemma_index_weight_involution(p as nat, k as nat);
                assert(before[p] == partly_reversed(s, k as nat, i as int, p));
            }
        }
        i = i + 1;
    }
    proof {
        assert(v@ =~= bit_reversed(s, k as nat)) by {
            assert forall|p: int| 0 <= p < n implies v@[p] == bit_reversed(s, k as nat)[p] by {
                assert(v@[p] == partly_reversed(s, k as nat, n as int, p));
                lemma_index_weight_bound(p as nat, k as nat);
            }
        }
        assert forall|i: int| 0 <= i < n implies v@[index_weight(i as nat, k as nat) as int]
            == s[i] by {
            lemma_index_weight_bound(i as nat, k as nat);
            lemma_index_weight_involution(i as nat, k as nat);
            let q = index_weight(i as nat, k as nat) as int;
            assert(v@[q] == partly_reversed(s, k as nat, n as int, q));
        }
    }
}

/// `trace` runs the `k` stages of the transform from `a`: it starts at `a`
/// and each sequence is the next stage applied to the one before.
pub open spec fn is_stage_trace<T, F: Fn(T, T, Butterfly) -> (T, T)>(
    f: F,
    a: Seq<T>,
    trace: Seq<Seq<T>>,
    k: nat,
) -> bool {
    &&& trace.len() == k + 1
    &&& trace[0] == a
    &&& forall|s: int|
        0 <= s < k ==> #[trigger] stage_step(f, trace[s], trace[s + 1], (s + 1) as nat, k)
}

/// `b` is what the `k` stages of the transform make of `a`, followed by the
/// final bit-reversal reordering.
pub open spec fn transformed<T, F: Fn(T, T, Butterfly) -> (T, T)>(
    f: F,
    a: Seq<T>,
    b: Seq<T>,
    k: nat,
) -> bool {
    exists|trace: Seq<Seq<T>>|
        #[trigger] is_stage_trace(f, a, trace, k) && b == bit_reversed(trace[k as int], k)
}

/// Runs every stage of the radix-2 transform on `src`, from the first to the
/// last, combining pairs with the butterfly `f`, then reorders the result.
/// Fails with `InvalidLength` unless the length is a power of two.
pub fn transform<T: Copy, F: Fn(T, T, Butterfly) -> (T, T)>(src: Vec<T>, f: &F) -> (r: Result<
    Vec<T>,
    DspError,
>)
    requires
        forall|a: T, b: T, p: Butterfly| f.requires((a, b, p)),
    ensures
        match r {
            Ok(v) => two_to(stages_of(src@.len())) == src@.len() && transformed(
                *f,
                src@,
                v@,
                stages_of(src@.len()),
            ),
            Err(e) => e == DspError::InvalidLength && !is_power_of_two(src@.len()),
        },
{
    let n = src.len();
    let limit = match count_stage(n) {
        Ok(k) => k,
        Err(e) => return Err(e),
    };
    proof {
        lemma_two_to_exceeds(limit as nat);
    }
    let ghost start = src@;
    let mut cur = src;
    let ghost mut trace: Seq<Seq<T>> = seq![start];
    let mut s: usize = 1;
    while s <= limit
        invariant
            forall|a: T, b: T, p: Butterfly| f.requires((a, b, p)),
            two_to(limit as nat) == n,
            limit < n,
            1 <= s <= limit + 1,
            cur@.len() == n,
            trace.len() == s,
            trace[0] == start,
            trace[s - 1] == cur@,
            forall|t: int|
                0 <= t < s - 1 ==> #[trigger] stage_step(
                    *f,
                    trace[t],
                    trace[t + 1int],
                    (t + 1) as nat,
                    limit as nat,
                ),
        decreases limit + 1 - s,
    {
        let next = compute_stage(&cur, s, limit, f);
        proof {
            let old_trace = trace;
            trace = trace.push(next@);
            assert forall|t: int| 0 <= t < s implies #[trigger] stage_step(
                *f,
                trace[t],
                trace[t + 1int],
                (t + 1) as nat,
                limit as nat,
            ) by {
                if t < s - 1 {
                    assert(trace[t] == old_trace[t]);
                    assert(trace[t + 1int] == old_trace[t + 1int]);
                }
            }
        }
        cur = next;
        s = s + 1;
    }
    let ghost last = cur@;
    proof {
        assert(two_to(limit as nat) == cur@.len());
    }
    reverse_bits(&mut cur);
    proof {
        assert(is_stage_trace(*f, start, trace, limit as nat));
        assert(trace[limit as int] == last);
    }
    Ok(cur)
}

/// The butterfly `f` turns the pair `(x, z)` into `(x, x)` wherever the
/// twiddle numerator is zero, and the pair `(z, z)` into `(z, z)` always.
pub open spec fn spreads_impulse<T, F: Fn(T, T, Butterfly) -> (T, T)>(f: F, x: T, z: T) -> bool {
    &&& forall|p: Butterfly, r: (T, T)| p.numer == 0 && #[trigger] f.ensures((x, z, p), r) ==> r == (x, x)
    &&& forall|p: Butterfly, r: (T, T)| #[trigger] f.ensures((z, z, p), r) ==> r == (z, z)
}

/// One stage keeps an impulse train in shape: where `x` stands at every
/// multiple of `2h` and `z` elsewhere, afterwards `x` stands at every
/// multiple of `h`.
proof fn lemma_impulse_stage<T, F: Fn(T, T, Butterfly) -> (T, T)>(
    f: F,
    x: T,
    z: T,
    a: Seq<T>,
    b: Seq<T>,
    s: nat,
    k: nat,
)
    requires
        1 <= s <= k,
        spreads_impulse(f, x, z),
        stage_step(f, a, b, s, k),
        forall|q: int|
            0 <= q < a.len() ==> #[trigger] a[q] == (if q % two_to((k - s + 1) as nat) as int == 0 {
                x
            } else {
                z
            }),
    ensures
        forall|q: int|
            0 <= q < b.len() ==> #[trigger] b[q] == (if q % two_to((k - s) as nat) as int == 0 {
                x
            } else {
                z
            }),
{
    let h = two_to((k - s) as nat) as int;
    let g = two_to((s - 1) as nat) as int;
    lemma_two_to_pos((k - s) as nat);
    lemma_two_to_adds((s - 1) as nat, (k - s + 1) as nat);
    assert(two_to((k - s + 1) as nat) == 2 * h);
    assert(((s - 1) as nat + (k - s + 1) as nat) == k);
    assert(g * (2 * h) == a.len());
    assert forall|q: int| 0 <= q < b.len() implies #[trigger] b[q] == (if q % h == 0 {
        x
    } else {
        z
    }) by {
        let i = q / (2 * h);
        let r = q % (2 * h);
        assert(q == (2 * h) * i + r && 0 <= r < 2 * h) by {
            lemma_fundamental_div_mod(q, 2 * h);
            lemma_mod_bound(q, 2 * h);
        }
        assert(0 <= i < g) by {
            lemma_div_pos_is_pos(q, 2 * h);
            assert(i * (2 * h) <= q) by (nonlinear_arith)
                requires
                    q == (2 * h) * i + r,
                    r >= 0,
            ;
            if i >= g {
                assert(i * (2 * h) >= g * (2 * h)) by (nonlinear_arith)
                    requires
                        i >= g,
                        h >= 1,
                ;
            }
        }
        let j = if r < h {
            r
        } else {
            r - h
        };
        let m = 2 * h * i + j;
        assert(butterfly_holds(f, a, b, s, k, i, j));
        assert(butterfly_of(s, k, j as nat, m as nat).numer == 0 <== j == 0) by {
            assert(two_to((s - 1) as nat) * 0 == 0);
        }
        assert(m == i * (2 * h) + j && m + h == i * (2 * h) + (j + h)) by (nonlinear_arith)
            requires
                m == 2 * h * i + j,
        ;
        lemma_fundamental_div_mod_converse(m, 2 * h, i, j);
        lemma_fundamental_div_mod_converse(m + h, 2 * h, i, j + h);
        assert(m == (2 * i) * h + j && m + h == (2 * i + 1) * h + j) by (nonlinear_arith)
            requires
                m == 2 * h * i + j,
        ;
        lemma_fundamental_div_mod_converse(m, h, 2 * i, j);
        lemma_fundamental_div_mod_converse(m + h, h, 2 * i + 1, j);
        assert(m + h < a.len()) by {
            assert(2 * h * i + 2 * h <= 2 * h * g) by (nonlinear_arith)
                requires
                    i < g,
                    h >= 1,
            ;
        }
        if r < h {
            assert(q == m);
        } else {
            assert(q == m + h);
        }
    }
}

/// After `t` stages of a trace from an impulse, `x` stands at every multiple
/// of `2^(k-t)` and `z` elsewhere.
proof fn lemma_impulse_trace<T, F: Fn(T, T, Butterfly) -> (T, T)>(
    f: F,
    x: T,
    z: T,
    a: Seq<T>,
    trace: Seq<Seq<T>>,
    k: nat,
    t: nat,
)
    requires
        t <= k,
        is_stage_trace(f, a, trace, k),
        a.len() == two_to(k),
        spreads_impulse(f, x, z),
        forall|q: int|
            0 <= q < a.len() ==> #[trigger] a[q] == (if q % two_to(k) as int == 0 {
                x
            } else {
                z
            }),
    ensures
        trace[t as int].len() == a.len(),
        forall|q: int|
            0 <= q < trace[t as int].len() ==> #[trigger] trace[t as int][q] == (if q % two_to(
                (k - t) as nat,
            ) as int == 0 {
                x
            } else {
                z
            }),
    decreases t,
{
    if t > 0 {
        let t1 = (t - 1) as nat;
        lemma_impulse_trace(f, x, z, a, trace, k, t1);
        assert(stage_step(f, trace[t1 as int], trace[t1 + 1int], (t1 + 1) as nat, k));
        lemma_impulse_stage(f, x, z, trace[t1 as int], trace[t as int], t, k);
    }
}

/// Whatever else the butterfly does, where it turns `(x, z)` with a zero
/// twiddle numerator into `(x, x)` and `(z, z)` into `(z, z)`, the transform
/// turns the impulse `[x, z, z, ..., z]` into `[x, x, ..., x]`.
pub proof fn lemma_impulse_is_flat<T, F: Fn(T, T, Butterfly) -> (T, T)>(
    f: F,
    x: T,
    z: T,
    a: Seq<T>,
    b: Seq<T>,
)
    requires
        two_to(stages_of(a.len())) == a.len(),
        a[0] == x,
        forall|q: int| 1 <= q < a.len() ==> a[q] == z,
        spreads_impulse(f, x, z),
        transformed(f, a, b, stages_of(a.len())),
    ensures
        b.len() == a.len(),
        forall|q: int| 0 <= q < b.len() ==> b[q] == x,
{
    let k = stages_of(a.len());
    let trace = choose|trace: Seq<Seq<T>>|
        #[trigger] is_stage_trace(f, a, trace, k) && b == bit_reversed(trace[k as int], k);
    assert forall|q: int| 0 <= q < a.len() implies #[trigger] a[q] == (if q % two_to(k) as int == 0 {
        x
    } else {
        z
    }) by {
        lemma_two_to_pos(k);
        if q == 0 {
            assert(0int % (two_to(k) as int) == 0);
        } else {
            lemma_fundamental_div_mod_converse(q, two_to(k) as int, 0, q);
        }
    }
    lemma_impulse_trace(f, x, z, a, trace, k, k);
    assert forall|q: int| 0 <= q < b.len() implies b[q] == x by {
        assert(two_to(0) == 1);
        lemma_index_weight_bound(q as nat, k);
        let w = index_weight(q as nat, k) as int;
        assert(w % 1 == 0);
        assert(b[q] == trace[k as int][w]);
    }
}

} // verus!
