//! Percentile cutoff engine: order statistics over flat byte buffers.
//!
//! A cutoff for percentile `p` over a buffer of `total` bytes is the element
//! of rank `floor((p / 100) * total)` (clamped to `total - 1`) in sorted
//! order. Rank selection is done by counting occurrences of each of the 256
//! possible byte values, which is linear, deterministic, and leaves the
//! buffer untouched.

use vstd::prelude::*;
use vstd::arithmetic::div_mod::lemma_div_is_ordered;
use vstd::arithmetic::div_mod::lemma_div_multiples_vanish;
use vstd::arithmetic::div_mod::lemma_div_pos_is_pos;
use vstd::arithmetic::div_mod::lemma_fundamental_div_mod;
use vstd::arithmetic::div_mod::lemma_mod_bound;
use vstd::arithmetic::mul::lemma_mul_inequality;
use vstd::arithmetic::mul::lemma_mul_inequality_converse;

verus! {

/// Number of elements of `s` strictly below `v` (`v` ranges over `int`, so
/// `256` bounds every byte from above).
pub open spec fn count_below(s: Seq<u8>, v: int) -> int
    decreases s.len(),
{
    if s.len() == 0 {
        0
    } else {
        count_below(s.drop_last(), v) + if (s.last() as int) < v {
            1int
        } else {
            0int
        }
    }
}

/// Number of elements of `s` equal to `v`.
pub open spec fn count_eq(s: Seq<u8>, v: int) -> int
    decreases s.len(),
{
    if s.len() == 0 {
        0
    } else {
        count_eq(s.drop_last(), v) + if s.last() as int == v {
            1int
        } else {
            0int
        }
    }
}

/// `v` is the order statistic of rank `k` in `s`: in any sorted arrangement
/// of `s`, position `k` holds `v`.
pub open spec fn is_rank(s: Seq<u8>, k: int, v: u8) -> bool {
    count_below(s, v as int) <= k < count_below(s, v as int + 1)
}

/// The order statistic of rank `k` in `s` (meaningful when `0 <= k < s.len()`;
/// existence and uniqueness are proved below).
pub open spec fn rank_value(s: Seq<u8>, k: int) -> u8 {
    choose|v: u8| is_rank(s, k, v)
}

pub proof fn lemma_count_below_bounds(s: Seq<u8>, v: int)
    ensures
        0 <= count_below(s, v) <= s.len(),
    decreases s.len(),
{
    if s.len() > 0 {
        lemma_count_below_bounds(s.drop_last(), v);
    }
}

pub proof fn lemma_count_eq_bounds(s: Seq<u8>, v: int)
    ensures
        0 <= count_eq(s, v) <= s.len(),
    decreases s.len(),
{
    if s.len() > 0 {
        lemma_count_eq_bounds(s.drop_last(), v);
    }
}

/// No byte lies below 0, and every byte lies below 256.
pub proof fn lemma_count_below_extremes(s: Seq<u8>)
    ensures
        count_below(s, 0) == 0,
        count_below(s, 256) == s.len(),
    decreases s.len(),
{
    if s.len() > 0 {
        lemma_count_below_extremes(s.drop_last());
    }
}

pub proof fn lemma_count_below_mono(s: Seq<u8>, v1: int, v2: int)
    requires
        v1 <= v2,
    ensures
        count_below(s, v1) <= count_below(s, v2),
    decreases s.len(),
{
    if s.len() > 0 {
        lemma_count_below_mono(s.drop_last(), v1, v2);
    }
}

/// Stepping the bound by one adds exactly the elements equal to the old bound.
pub proof fn lemma_count_below_succ(s: Seq<u8>, v: int)
    ensures
        count_below(s, v + 1) == count_below(s, v) + count_eq(s, v),
    decreases s.len(),
{
    if s.len() > 0 {
        lemma_count_below_succ(s.drop_last(), v);
    }
}

pub proof fn lemma_count_eq_push(s: Seq<u8>, x: u8, v: int)
    ensures
        count_eq(s.push(x), v) == count_eq(s, v) + if x as int == v {
            1int
        } else {
            0int
        },
{
    assert(s.push(x).drop_last() =~= s);
}

/// A positive equality count exhibits a position holding that value.
pub proof fn lemma_count_eq_witness(s: Seq<u8>, v: int)
    requires
        count_eq(s, v) > 0,
    ensures
        exists|i: int| 0 <= i < s.len() && s[i] as int == v,
    decreases s.len(),
{
    if s.last() as int == v {
        assert(s[s.len() - 1] as int == v);
    } else {
        lemma_count_eq_witness(s.drop_last(), v);
        let i = choose|i: int| 0 <= i < s.drop_last().len() && s.drop_last()[i] as int == v;
        assert(s[i] as int == v);
    }
}

/// A zero `count_below` means no element lies below the bound.
pub proof fn lemma_count_below_zero_all_ge(s: Seq<u8>, v: int)
    requires
        count_below(s, v) == 0,
    ensures
        forall|i: int| 0 <= i < s.len() ==> s[i] as int >= v,
    decreases s.len(),
{
    if s.len() > 0 {
        lemma_count_below_bounds(s.drop_last(), v);
        lemma_count_below_zero_all_ge(s.drop_last(), v);
        assert forall|i: int| 0 <= i < s.len() implies s[i] as int >= v by {
            if i < s.len() - 1 {
                assert(s[i] == s.drop_last()[i]);
            }
        }
    }
}

/// A full `count_below` means every element lies below the bound.
pub proof fn lemma_count_below_full_all_lt(s: Seq<u8>, v: int)
    requires
        count_below(s, v) == s.len(),
    ensures
        forall|i: int| 0 <= i < s.len() ==> (s[i] as int) < v,
    decreases s.len(),
{
    if s.len() > 0 {
        lemma_count_below_bounds(s.drop_last(), v);
        lemma_count_below_full_all_lt(s.drop_last(), v);
        assert forall|i: int| 0 <= i < s.len() implies (s[i] as int) < v by {
            if i < s.len() - 1 {
                assert(s[i] == s.drop_last()[i]);
            }
        }
    }
}

/// At most one value occupies a given rank.
pub proof fn lemma_rank_unique(s: Seq<u8>, k: int, v1: u8, v2: u8)
    requires
        is_rank(s, k, v1),
        is_rank(s, k, v2),
    ensures
        v1 == v2,
{
    if v1 < v2 {
        lemma_count_below_mono(s, v1 as int + 1, v2 as int);
    }
    if v2 < v1 {
        lemma_count_below_mono(s, v2 as int + 1, v1 as int);
    }
}

proof fn lemma_rank_exists_from(s: Seq<u8>, k: int, v: u8)
    requires
        count_below(s, v as int) <= k,
        k < count_below(s, 256),
    ensures
        exists|w: u8| is_rank(s, k, w),
    decreases 256 - v,
{
    if count_below(s, v as int + 1) > k {
        assert(is_rank(s, k, v));
    } else {
        assert(v < 255) by {
            if v == 255 {
                assert(count_below(s, 256) <= k);
            }
        }
        lemma_rank_exists_from(s, k, (v + 1) as u8);
    }
}

/// Every in-range rank is occupied by some byte value.
pub proof fn lemma_rank_exists(s: Seq<u8>, k: int)
    requires
        0 <= k < s.len(),
    ensures
        is_rank(s, k, rank_value(s, k)),
{
    lemma_count_below_extremes(s);
    lemma_rank_exists_from(s, k, 0);
    let w = choose|w: u8| is_rank(s, k, w);
    assert(is_rank(s, k, w));
}

/// The value at a rank occurs in the buffer: order statistics are never
/// fabricated.
pub proof fn lemma_rank_value_present(s: Seq<u8>, k: int)
    requires
        0 <= k < s.len(),
    ensures
        exists|i: int| 0 <= i < s.len() && s[i] == rank_value(s, k),
{
    lemma_rank_exists(s, k);
    let v = rank_value(s, k);
    lemma_count_below_succ(s, v as int);
    lemma_count_eq_witness(s, v as int);
    let i = choose|i: int| 0 <= i < s.len() && s[i] as int == v as int;
    assert(s[i] == v);
}

/// Rank values are monotone in the rank.
pub proof fn lemma_rank_value_mono(s: Seq<u8>, k1: int, k2: int)
    requires
        0 <= k1 <= k2 < s.len(),
    ensures
        rank_value(s, k1) <= rank_value(s, k2),
{
    lemma_rank_exists(s, k1);
    lemma_rank_exists(s, k2);
    let v1 = rank_value(s, k1);
    let v2 = rank_value(s, k2);
    if v2 < v1 {
        lemma_count_below_mono(s, v2 as int + 1, v1 as int);
    }
}

/// Selects the element of rank `k`: the byte that a sorted arrangement of
/// `buf` would hold at position `k`. Runs in one counting pass plus a scan of
/// the 256 possible values; `buf` is not modified.
pub fn rank_select(buf: &Vec<u8>, k: usize) -> (r: u8)
    requires
        k < buf@.len(),
    ensures
        is_rank(buf@, k as int, r),
        r == rank_value(buf@, k as int),
{
    let mut counts: Vec<usize> = Vec::new();
    let mut j: usize = 0;
    while j < 256
        invariant
            counts@.len() == j,
            j <= 256,
            forall|t: int| 0 <= t < j ==> counts@[t] == 0,
        decreases 256 - j,
    {
        counts.push(0);
        j = j + 1;
    }
    proof {
        assert forall|t: int| 0 <= t < 256 implies counts@[t] == count_eq(
            buf@.subrange(0, 0),
            t,
        ) by {
            assert(buf@.subrange(0, 0).len() == 0);
        }
    }
    let n = buf.len();
    let mut i: usize = 0;
    while i < n
        invariant
            n == buf@.len(),
            i <= n,
            counts@.len() == 256,
            forall|t: int| 0 <= t < 256 ==> counts@[t] == count_eq(buf@.subrange(0, i as int), t),
        decreases n - i,
    {
        let b = buf[i] as usize;
        proof {
            lemma_count_eq_bounds(buf@.subrange(0, i as int), b as int);
        }
        let c = counts[b];
        counts.set(b, c + 1);
        proof {
            let pre = buf@.subrange(0, i as int);
            let post = buf@.subrange(0, i as int + 1);
            assert(post =~= pre.push(buf@[i as int]));
            assert forall|t: int| 0 <= t < 256 implies counts@[t] == count_eq(post, t) by {
                lemma_count_eq_push(pre, buf@[i as int], t);
            }
        }
        i = i + 1;
    }
    proof {
        assert(buf@.subrange(0, n as int) =~= buf@);
    }
    let mut v: usize = 0;
    let mut cum: usize = 0;
    proof {
        lemma_count_below_extremes(buf@);
    }
    while v < 256
        invariant
            counts@.len() == 256,
            forall|t: int| 0 <= t < 256 ==> counts@[t] == count_eq(buf@, t),
            v <= 256,
            k < buf@.len(),
            cum == count_below(buf@, v as int),
            cum <= k,
        decreases 256 - v,
    {
        let c = counts[v];
        proof {
            lemma_count_below_succ(buf@, v as int);
            lemma_count_below_bounds(buf@, v as int + 1);
        }
        if k - cum < c {
            let r = v as u8;
            proof {
                assert(is_rank(buf@, k as int, r));
                lemma_rank_exists(buf@, k as int);
                lemma_rank_unique(buf@, k as int, r, rank_value(buf@, k as int));
            }
            return r;
        }
        cum = cum + c;
        v = v + 1;
    }
    proof {
        lemma_count_below_extremes(buf@);
        assert(false);
    }
    0
}

/// A percentile given exactly as the rational number `num / den`.
///
/// The nominal range is `[0, 100]`; out-of-range values can be written (for
/// instance a negative numerator) so that the validating operations can
/// reject them explicitly.
#[derive(Clone, Copy, PartialEq, Eq, Structural, Debug)]
pub struct Percentile {
    pub num: i64,
    pub den: u32,
}

impl Percentile {
    /// The denominator is positive, so the pair denotes a rational number.
    pub open spec fn wf(self) -> bool {
        self.den > 0
    }

    /// The denoted rational lies within `[0, 100]`.
    pub open spec fn in_range(self) -> bool {
        self.den > 0 && 0 <= self.num <= 100 * (self.den as int)
    }

    /// Rational comparison `self <= other` by cross-multiplication.
    pub open spec fn spec_le(self, other: Percentile) -> bool {
        self.num * (other.den as int) <= other.num * (self.den as int)
    }

    /// Numerator after the defensive clamp of the percentile into `[0, 100]`.
    pub open spec fn clamped_num(self) -> int {
        if self.num < 0 {
            0
        } else if self.num > 100 * (self.den as int) {
            100 * (self.den as int)
        } else {
            self.num as int
        }
    }

    /// A whole-number percentile `p / 1`.
    pub fn whole(p: i64) -> (r: Percentile)
        ensures
            r.num == p,
            r.den == 1,
    {
        Percentile { num: p, den: 1 }
    }

    pub fn new(num: i64, den: u32) -> (r: Percentile)
        ensures
            r.num == num,
            r.den == den,
    {
        Percentile { num, den }
    }

    /// Whether the percentile lies within `[0, 100]`.
    pub fn check_in_range(&self) -> (r: bool)
        ensures
            r == self.in_range(),
    {
        self.den > 0 && self.num >= 0 && self.num <= 100i64 * (self.den as i64)
    }

    /// Whether `self <= other` as rationals.
    pub fn check_le(&self, other: &Percentile) -> (r: bool)
        ensures
            r == self.spec_le(*other),
    {
        proof {
            lemma_i64_u32_product_fits(self.num as int, other.den as int);
            lemma_i64_u32_product_fits(other.num as int, self.den as int);
        }
        (self.num as i128) * (other.den as i128) <= (other.num as i128) * (self.den as i128)
    }
}

/// The rank that percentile `p` selects in a buffer of `total` elements:
/// `floor((p / 100) * total)`, with `p` first clamped into `[0, 100]` and the
/// result clamped to `total - 1` so that percentile 100 lands on the maximum
/// element.
pub open spec fn cutoff_index(p: Percentile, total: int) -> int {
    let raw = (p.clamped_num() * total) / (100 * (p.den as int));
    if raw >= total {
        total - 1
    } else {
        raw
    }
}

pub proof fn lemma_cutoff_index_in_bounds(p: Percentile, total: int)
    requires
        p.wf(),
        total > 0,
    ensures
        0 <= cutoff_index(p, total) < total,
{
    let cn = p.clamped_num();
    let d = 100 * (p.den as int);
    assert(cn >= 0);
    assert(cn * total >= 0) by (nonlinear_arith)
        requires
            cn >= 0,
            total > 0,
    ;
    lemma_div_pos_is_pos(cn * total, d);
}

pub proof fn lemma_cutoff_index_zero(p: Percentile, total: int)
    requires
        p.wf(),
        total > 0,
        p.num <= 0,
    ensures
        cutoff_index(p, total) == 0,
{
    let d = 100 * (p.den as int);
    assert(p.clamped_num() == 0);
    assert(0int / d == 0);
}

pub proof fn lemma_cutoff_index_hundred(p: Percentile, total: int)
    requires
        p.wf(),
        total > 0,
        p.num >= 100 * (p.den as int),
    ensures
        cutoff_index(p, total) == total - 1,
{
    let d = 100 * (p.den as int);
    assert(p.clamped_num() == d);
    lemma_div_multiples_vanish(total, d);
    assert((d * total) / d == total);
}

/// The product of an `i64`-sized and a `u32`-sized factor stays well inside
/// `i128`.
proof fn lemma_i64_u32_product_fits(x: int, y: int)
    requires
        i64::MIN <= x <= i64::MAX,
        0 <= y <= u32::MAX,
    ensures
        i128::MIN <= x * y <= i128::MAX,
{
    assert(i128::MIN <= x * y <= i128::MAX) by (nonlinear_arith)
        requires
            -0x8000_0000_0000_0000 <= x <= 0x7FFF_FFFF_FFFF_FFFF,
            0 <= y <= 0xFFFF_FFFF,
    ;
}

/// Floor division is monotone across rationals: if `a / d1 <= b / d2` as
/// rationals (all nonnegative, positive denominators), the integer quotients
/// are ordered the same way.
proof fn lemma_rational_floor_mono(a: int, d1: int, b: int, d2: int)
    requires
        a >= 0,
        b >= 0,
        d1 > 0,
        d2 > 0,
        a * d2 <= b * d1,
    ensures
        a / d1 <= b / d2,
{
    let q = a / d1;
    lemma_fundamental_div_mod(a, d1);
    lemma_mod_bound(a, d1);
    assert(d1 * q <= a);
    assert((q * d2) * d1 <= b * d1) by (nonlinear_arith)
        requires
            d1 * q <= a,
            a * d2 <= b * d1,
            d2 > 0,
    ;
    lemma_mul_inequality_converse(q * d2, b, d1);
    assert(q * d2 <= b);
    lemma_div_is_ordered(q * d2, b, d2);
    lemma_div_multiples_vanish(q, d2);
    assert(d2 * q == q * d2) by (nonlinear_arith);
    assert(q <= b / d2);
}

/// Clamping into `[0, 100]` preserves the rational order.
proof fn lemma_clamped_le(pl: Percentile, ph: Percentile)
    requires
        pl.wf(),
        ph.wf(),
        pl.spec_le(ph),
    ensures
        pl.clamped_num() * (ph.den as int) <= ph.clamped_num() * (pl.den as int),
{
    let a = pl.clamped_num();
    let b = ph.clamped_num();
    let dl = pl.den as int;
    let dh = ph.den as int;
    assert(b >= 0);
    if pl.num < 0 {
        assert(0 * dh <= b * dl) by (nonlinear_arith)
            requires
                b >= 0,
                dl > 0,
        ;
    } else if pl.num > 100 * dl {
        assert(100 * dl * dh < pl.num * dh) by (nonlinear_arith)
            requires
                pl.num > 100 * dl,
                dh > 0,
        ;
        assert(pl.num * dh <= ph.num * dl);
        assert(100 * dh < ph.num) by (nonlinear_arith)
            requires
                100 * dl * dh < ph.num * dl,
                dl > 0,
        ;
        assert(b == 100 * dh);
        assert(a * dh == b * dl) by (nonlinear_arith)
            requires
                a == 100 * dl,
                b == 100 * dh,
        ;
    } else {
        assert(a == pl.num);
        if ph.num > 100 * dh {
            assert(a * dh <= 100 * dl * dh) by (nonlinear_arith)
                requires
                    a <= 100 * dl,
                    dh > 0,
            ;
            assert(100 * dl * dh == b * dl) by (nonlinear_arith)
                requires
                    b == 100 * dh,
            ;
        } else if ph.num < 0 {
            assert(a * dh >= 0) by (nonlinear_arith)
                requires
                    a >= 0,
                    dh > 0,
            ;
            assert(ph.num * dl < 0) by (nonlinear_arith)
                requires
                    ph.num < 0,
                    dl > 0,
            ;
            assert(false);
        } else {
            assert(b == ph.num);
        }
    }
}

/// Ordered percentiles select ordered ranks.
pub proof fn lemma_cutoff_index_mono(pl: Percentile, ph: Percentile, total: int)
    requires
        pl.wf(),
        ph.wf(),
        pl.spec_le(ph),
        total > 0,
    ensures
        cutoff_index(pl, total) <= cutoff_index(ph, total),
{
    let a = pl.clamped_num();
    let b = ph.clamped_num();
    let dl = 100 * (pl.den as int);
    let dh = 100 * (ph.den as int);
    lemma_clamped_le(pl, ph);
    assert((a * total) * dh <= (b * total) * dl) by (nonlinear_arith)
        requires
            a * (ph.den as int) <= b * (pl.den as int),
            dh == 100 * (ph.den as int),
            dl == 100 * (pl.den as int),
            total > 0,
    ;
    assert(a * total >= 0) by (nonlinear_arith)
        requires
            a >= 0,
            total > 0,
    ;
    assert(b * total >= 0) by (nonlinear_arith)
        requires
            b >= 0,
            total > 0,
    ;
    lemma_rational_floor_mono(a * total, dl, b * total, dh);
}

/// Computes `cutoff_index` in exact integer arithmetic.
fn index_for(p: &Percentile, total: usize) -> (idx: usize)
    requires
        p.wf(),
        total > 0,
    ensures
        idx == cutoff_index(*p, total as int),
        idx < total,
{
    let hundred_den: i64 = 100i64 * (p.den as i64);
    let clamped: i64 = if p.num < 0 {
        0
    } else if p.num > hundred_den {
        hundred_den
    } else {
        p.num
    };
    assert(clamped as int == p.clamped_num());
    let cn: u128 = clamped as u128;
    let denom: u128 = 100u128 * (p.den as u128);
    proof {
        assert(cn * (total as u128) <= 429496729500u128 * 0xFFFF_FFFF_FFFF_FFFFu128)
            by (nonlinear_arith)
            requires
                cn <= 429496729500u128,
                (total as u128) <= 0xFFFF_FFFF_FFFF_FFFFu128,
        ;
    }
    let prod: u128 = cn * (total as u128);
    let raw: u128 = prod / denom;
    proof {
        let cn_i = cn as int;
        let t = total as int;
        let d = denom as int;
        lemma_mul_inequality(cn_i, d, t);
        lemma_div_is_ordered(cn_i * t, d * t, d);
        lemma_div_multiples_vanish(t, d);
        assert(d * t == t * d) by (nonlinear_arith);
        assert(cn_i * t / d <= t);
    }
    if raw >= total as u128 {
        total - 1
    } else {
        proof {
            lemma_cutoff_index_in_bounds(*p, total as int);
        }
        raw as usize
    }
}

/// The cutoff that `pct` selects over `s`: `None` when no percentile is
/// supplied or when the buffer is empty, otherwise the order statistic at the
/// percentile's rank.
pub open spec fn cutoff_spec(s: Seq<u8>, pct: Option<Percentile>) -> Option<u8> {
    match pct {
        Option::None => Option::None,
        Option::Some(p) => if s.len() == 0 {
            Option::None
        } else {
            Option::Some(rank_value(s, cutoff_index(p, s.len() as int)))
        },
    }
}

/// A cutoff is never fabricated: for every non-empty buffer and well-formed
/// percentile, the cutoff value occurs in the buffer.
pub proof fn lemma_cutoff_value_present(s: Seq<u8>, p: Percentile)
    requires
        p.wf(),
        s.len() > 0,
    ensures
        cutoff_spec(s, Some(p)) matches Some(c) && exists|i: int| 0 <= i < s.len() && s[i] == c,
{
    lemma_cutoff_index_in_bounds(p, s.len() as int);
    lemma_rank_value_present(s, cutoff_index(p, s.len() as int));
}

/// Percentile 0 (or below) selects the minimum element of the buffer.
pub proof fn lemma_cutoff_percentile_zero(s: Seq<u8>, p: Percentile)
    requires
        p.wf(),
        p.num <= 0,
        s.len() > 0,
    ensures
        cutoff_spec(s, Some(p)) matches Some(c) && (forall|i: int|
            0 <= i < s.len() ==> c <= s[i]) && exists|i: int| 0 <= i < s.len() && s[i] == c,
{
    lemma_cutoff_index_zero(p, s.len() as int);
    lemma_rank_exists(s, 0);
    let c = rank_value(s, 0);
    lemma_count_below_bounds(s, c as int);
    lemma_count_below_zero_all_ge(s, c as int);
    lemma_rank_value_present(s, 0);
}

/// Percentile 100 (or above) selects the maximum element of the buffer.
pub proof fn lemma_cutoff_percentile_hundred(s: Seq<u8>, p: Percentile)
    requires
        p.wf(),
        p.num >= 100 * (p.den as int),
        s.len() > 0,
    ensures
        cutoff_spec(s, Some(p)) matches Some(c) && (forall|i: int|
            0 <= i < s.len() ==> s[i] <= c) && exists|i: int| 0 <= i < s.len() && s[i] == c,
{
    lemma_cutoff_index_hundred(p, s.len() as int);
    let k = s.len() - 1;
    lemma_rank_exists(s, k as int);
    let c = rank_value(s, k as int);
    lemma_count_below_bounds(s, c as int + 1);
    lemma_count_below_full_all_lt(s, c as int + 1);
    lemma_rank_value_present(s, k as int);
}

/// Computes the intensity cutoff for `pct` over `buf`.
///
/// With no percentile, or over an empty buffer, there is no cutoff. The
/// percentile is defensively clamped into `[0, 100]`; callers that must
/// reject out-of-range percentiles validate before calling. The buffer is
/// read, never modified.
pub fn percentile_cutoff(buf: &Vec<u8>, pct: Option<Percentile>) -> (r: Option<u8>)
    requires
        pct matches Some(p) ==> p.wf(),
    ensures
        r == cutoff_spec(buf@, pct),
        r matches Some(c) ==> buf@.len() > 0 && is_rank(
            buf@,
            cutoff_index(pct->Some_0, buf@.len() as int),
            c,
        ),
{
    match pct {
        None => None,
        Some(p) => {
            let total = buf.len();
            if total == 0 {
                return None;
            }
            let idx = index_for(&p, total);
            let c = rank_select(buf, idx);
            Some(c)
        },
    }
}

} // verus!
