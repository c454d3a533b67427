//! The logarithmic frequency-bin layout.
//!
//! A mapper over `(bin_count, f_min, f_max)` clamps the bounds to the
//! audible range and derives the geometric ratio `a` between the centre
//! frequencies of successive bins, so that bin `k` sits at `f_min · a^k` and
//! bin `bins − 1` at `f_max`.  The ratio is carried in 32.32 fixed point:
//! [`LogFrequencyMapper::new`] returns the greatest ratio whose
//! `(bins − 1)`-th fixed-point power still fits under `f_max / f_min`, which
//! pins the value exactly — no more and no less precision than the
//! representation has.

use vstd::prelude::*;

use vstd::arithmetic::div_mod::{
    lemma_div_by_multiple,
    lemma_div_is_ordered,
    lemma_div_is_ordered_by_denominator,
    lemma_div_non_zero,
    lemma_fundamental_div_mod,
    lemma_hoist_over_denominator,
};
use vstd::arithmetic::mul::lemma_mul_inequality;

use crate::errors::ENguyenError;

verus! {

/// One in 32.32 fixed point: ratios are stored multiplied by this.
pub const FP_ONE: u64 = 0x1_0000_0000;

/// Greatest fixed-point value the mapper arithmetic handles; comfortably
/// above the largest possible frequency ratio of the audible range.
pub const FP_LIMIT: u64 = 0x400_0000_0000;

/// Lower edge of the audible range in Hz; `f_min` is clamped up to it.
pub const MIN_AUDIBLE: u32 = 20;

/// Upper edge of the audible range in Hz; `f_max` is clamped down to it.
pub const MAX_AUDIBLE: u32 = 20000;

/// The fixed-point product, rounded down.
pub open spec fn fp_mul(x: int, y: int) -> int {
    x * y / (FP_ONE as int)
}

/// The fixed-point power: `k` fixed-point multiplications by `x`, each
/// rounded down.
pub open spec fn fp_pow(x: int, k: nat) -> int
    decreases k,
{
    if k == 0 {
        FP_ONE as int
    } else {
        fp_mul(fp_pow(x, (k - 1) as nat), x)
    }
}

/// Multiplying by a ratio of at least one never shrinks a value.
proof fn lemma_fp_mul_at_least(y: int, x: int)
    requires
        y >= 0,
        x >= FP_ONE,
    ensures
        fp_mul(y, x) >= y,
{
    lemma_mul_inequality(FP_ONE as int, x, y);
    assert(y * FP_ONE <= y * x) by {
        assert(FP_ONE as int * y == y * FP_ONE as int);
        assert(x * y == y * x);
    }
    lemma_div_is_ordered(y * FP_ONE as int, y * x, FP_ONE as int);
    lemma_div_by_multiple(y, FP_ONE as int);
}

/// Powers of a ratio of at least one stay at least one.
proof fn lemma_fp_pow_at_least_one(x: int, k: nat)
    requires
        x >= FP_ONE,
    ensures
        fp_pow(x, k) >= FP_ONE,
    decreases k,
{
    if k > 0 {
        lemma_fp_pow_at_least_one(x, (k - 1) as nat);
        lemma_fp_mul_at_least(fp_pow(x, (k - 1) as nat), x);
    }
}

/// For a ratio of at least one the power never decreases with the
/// exponent.
proof fn lemma_fp_pow_nondec_exp(x: int, i: nat, j: nat)
    requires
        x >= FP_ONE,
        i <= j,
    ensures
        fp_pow(x, i) <= fp_pow(x, j),
    decreases j,
{
    if i < j {
        lemma_fp_pow_nondec_exp(x, i, (j - 1) as nat);
        lemma_fp_pow_at_least_one(x, (j - 1) as nat);
        lemma_fp_mul_at_least(fp_pow(x, (j - 1) as nat), x);
    }
}

/// The first power is the value itself.
proof fn lemma_fp_pow_first(x: int)
    requires
        x >= 0,
    ensures
        fp_pow(x, 1) == x,
{
    assert(fp_pow(x, 0) == FP_ONE as int);
    assert(FP_ONE as int * x == x * FP_ONE as int);
    lemma_div_by_multiple(x, FP_ONE as int);
}

/// Computes `fp_pow(x, k)` unless it exceeds `cap`, in which case `None`
/// reports that every further power exceeds `cap` too.
fn fp_pow_capped(x: u64, k: usize, cap: u64) -> (r: Option<u64>)
    requires
        FP_ONE <= x <= FP_LIMIT,
        FP_ONE <= cap <= FP_LIMIT,
    ensures
        r matches Some(v) ==> v == fp_pow(x as int, k as nat) && v <= cap,
        r is None ==> fp_pow(x as int, k as nat) > cap,
{
    let mut acc: u64 = FP_ONE;
    let mut i: usize = 0;
    while i < k
        invariant
            i <= k,
            FP_ONE <= x <= FP_LIMIT,
            FP_ONE <= cap <= FP_LIMIT,
            FP_ONE <= acc <= cap,
            acc == fp_pow(x as int, i as nat),
        decreases k - i,
    {
        proof {
            assert(acc as int * x as int <= FP_LIMIT as int * FP_LIMIT as int)
                by (nonlinear_arith)
                requires
                    0 <= acc <= FP_LIMIT,
                    0 <= x <= FP_LIMIT,
            ;
        }
        let wide: u128 = acc as u128 * x as u128;
        let next: u128 = wide / (FP_ONE as u128);
        proof {
            lemma_div_is_ordered(
                acc as int * x as int,
                FP_LIMIT as int * FP_LIMIT as int,
                FP_ONE as int,
            );
            lemma_fp_mul_at_least(acc as int, x as int);
        }
        if next > cap as u128 {
            proof {
                lemma_fp_pow_nondec_exp(x as int, (i + 1) as nat, k as nat);
            }
            return None;
        }
        acc = next as u64;
        i += 1;
    }
    Some(acc)
}

/// The greatest fixed-point ratio whose `n`-th power stays within
/// `target`: binary search over the monotone fixed-point power.
fn nth_root_fp(target: u64, n: usize) -> (r: u64)
    requires
        FP_ONE < target,
        target < FP_LIMIT,
        n >= 1,
    ensures
        FP_ONE <= r <= target,
        fp_pow(r as int, n as nat) <= target,
        fp_pow(r as int + 1, n as nat) > target,
{
    let mut lo: u64 = FP_ONE;
    let mut hi: u64 = target + 1;
    proof {
        lemma_fp_pow_at_least_one(FP_ONE as int, n as nat);
        assert(fp_pow(FP_ONE as int, n as nat) <= target) by {
            lemma_fp_pow_le_target_base(n as nat, target as int);
        }
        lemma_fp_pow_first(target as int + 1);
        lemma_fp_pow_nondec_exp(target as int + 1, 1, n as nat);
    }
    while lo + 1 < hi
        invariant
            FP_ONE <= lo < hi <= target + 1,
            FP_ONE < target < FP_LIMIT,
            n >= 1,
            fp_pow(lo as int, n as nat) <= target,
            fp_pow(hi as int, n as nat) > target,
        decreases hi - lo,
    {
        let mid = lo + (hi - lo) / 2;
        proof {
            lemma_fundamental_div_mod((hi - lo) as int, 2);
        }
        match fp_pow_capped(mid, n, target) {
            Some(_) => {
                lo = mid;
            },
            None => {
                hi = mid;
            },
        }
    }
    lo
}

/// The smallest ratio above one grows slowly: its n-th fixed-point power
/// stays within `2n` units of one, as long as `2n` stays within one.
proof fn lemma_fp_pow_one_plus(n: nat)
    requires
        2 * n <= FP_ONE,
    ensures
        fp_pow(FP_ONE as int + 1, n) <= FP_ONE + 2 * n,
    decreases n,
{
    if n > 0 {
        lemma_fp_pow_one_plus((n - 1) as nat);
        let prev = fp_pow(FP_ONE as int + 1, (n - 1) as nat);
        lemma_fp_pow_at_least_one(FP_ONE as int + 1, (n - 1) as nat);
        assert(prev * (FP_ONE as int + 1) == prev + prev * FP_ONE as int) by (nonlinear_arith);
        lemma_hoist_over_denominator(prev, prev, FP_ONE as nat);
        lemma_div_is_ordered(prev, 2 * FP_ONE as int, FP_ONE as int);
        lemma_div_by_multiple(2, FP_ONE as int);
    }
}

/// The power of one is one: the base case the search starts from.
proof fn lemma_fp_pow_le_target_base(k: nat, target: int)
    requires
        target >= FP_ONE,
    ensures
        fp_pow(FP_ONE as int, k) <= target,
    decreases k,
{
    if k > 0 {
        lemma_fp_pow_le_target_base((k - 1) as nat, target);
        lemma_fp_pow_at_least_one(FP_ONE as int, (k - 1) as nat);
        assert(fp_mul(fp_pow(FP_ONE as int, (k - 1) as nat), FP_ONE as int) == fp_pow(
            FP_ONE as int,
            (k - 1) as nat,
        )) by {
            lemma_div_by_multiple(fp_pow(FP_ONE as int, (k - 1) as nat), FP_ONE as int);
        }
    }
}

/// `f_min` clamped up to the audible range.
pub open spec fn clamped_min(f_min: u32) -> u32 {
    if f_min < MIN_AUDIBLE {
        MIN_AUDIBLE
    } else {
        f_min
    }
}

/// `f_max` clamped down to the audible range.
pub open spec fn clamped_max(f_max: u32) -> u32 {
    if f_max > MAX_AUDIBLE {
        MAX_AUDIBLE
    } else {
        f_max
    }
}

/// The logarithmic bin layout: `n_log_bins` bins whose centre frequencies
/// grow geometrically by `log_bin_ratio` (in 32.32 fixed point) from
/// `min_freq`, so that the last bin reaches `max_freq`; `n_lin_bins` is the
/// linear bin count needed to resolve the narrowest logarithmic bin.
#[derive(Clone, Copy, Debug)]
pub struct LogFrequencyMapper {
    pub n_log_bins: usize,
    pub n_lin_bins: u64,
    pub log_bin_ratio: u64,
    pub min_freq: u32,
    pub max_freq: u32,
}

impl LogFrequencyMapper {
    /// Lays out `log_bins` logarithmic bins between the clamped bounds.
    /// Construction fails exactly when fewer than two bins are asked for or
    /// the clamped bounds leave no room (`f_max ≤ f_min` always fails); a
    /// returned ratio is always at least one, never zero or negative, and
    /// strictly above one for every bin count the representation resolves
    /// (far beyond any display height).
    pub fn new(log_bins: usize, f_min: u32, f_max: u32) -> (r: Result<
        LogFrequencyMapper,
        ENguyenError,
    >)
        ensures
            r is Ok <==> (log_bins >= 2 && clamped_min(f_min) < clamped_max(f_max)),
            r matches Ok(m) ==> ({
                let lo = clamped_min(f_min) as int;
                let hi = clamped_max(f_max) as int;
                let target = hi * FP_ONE / lo;
                &&& m.n_log_bins == log_bins
                &&& m.min_freq == lo
                &&& m.max_freq == hi
                &&& FP_ONE <= m.log_bin_ratio <= target
                &&& fp_pow(m.log_bin_ratio as int, (log_bins - 1) as nat) <= target
                &&& fp_pow(m.log_bin_ratio as int + 1, (log_bins - 1) as nat) > target
                &&& m.n_lin_bins == (if m.log_bin_ratio > FP_ONE {
                    hi * FP_ONE / (lo * (m.log_bin_ratio - FP_ONE))
                } else {
                    0int
                })
                &&& log_bins <= 100_000 ==> m.log_bin_ratio > FP_ONE
            }),
            r matches Err(e) ==> e.message@
                == "Log scale requires f_max above f_min and at least two bins"@,
    {
        let f_min_c: u32 = if f_min < MIN_AUDIBLE {
            MIN_AUDIBLE
        } else {
            f_min
        };
        let f_max_c: u32 = if f_max > MAX_AUDIBLE {
            MAX_AUDIBLE
        } else {
            f_max
        };
        if !(log_bins >= 2 && f_min_c < f_max_c) {
            return Err(ENguyenError::from("Log scale requires f_max above f_min and at least two bins"));
        }
        let target: u64 = f_max_c as u64 * FP_ONE / f_min_c as u64;
        proof {
            lemma_mul_inequality(f_min_c as int + 1, f_max_c as int, FP_ONE as int);
            lemma_div_is_ordered(
                (f_min_c as int + 1) * FP_ONE as int,
                f_max_c as int * FP_ONE as int,
                f_min_c as int,
            );
            lemma_hoist_over_denominator(FP_ONE as int, FP_ONE as int, f_min_c as nat);
            lemma_div_non_zero(FP_ONE as int, f_min_c as int);
            assert((f_min_c as int + 1) * FP_ONE as int == FP_ONE as int + FP_ONE as int
                * f_min_c as int) by (nonlinear_arith);
            lemma_mul_inequality(f_max_c as int, MAX_AUDIBLE as int, FP_ONE as int);
            lemma_div_is_ordered(
                f_max_c as int * FP_ONE as int,
                MAX_AUDIBLE as int * FP_ONE as int,
                f_min_c as int,
            );
            lemma_div_is_ordered_by_denominator(
                MAX_AUDIBLE as int * FP_ONE as int,
                MIN_AUDIBLE as int,
                f_min_c as int,
            );
        }
        let ratio = nth_root_fp(target, log_bins - 1);
        proof {
            // for every bin count the fixed point resolves, the ratio sits
            // strictly above one: the smallest ratio above one, taken to the
            // (bins - 1)-th power, still falls short of the frequency spread
            if log_bins <= 100_000 {
                let n = (log_bins - 1) as nat;
                lemma_fp_pow_one_plus(n);
                lemma_div_is_ordered_by_denominator(FP_ONE as int, f_min_c as int, 19999);
                assert(FP_ONE as int / 19999 == 214759);
                if ratio == FP_ONE {
                    assert(fp_pow(ratio as int + 1, n) <= FP_ONE + 2 * n);
                    assert(false);
                }
            }
        }
        let n_lin_bins: u64 = if ratio > FP_ONE {
            let spread: u64 = ratio - FP_ONE;
            proof {
                assert(f_min_c as int * spread as int <= 20000 * FP_LIMIT as int)
                    by (nonlinear_arith)
                    requires
                        0 <= f_min_c <= 20000,
                        0 <= spread <= FP_LIMIT,
                ;
                assert(f_min_c as int * spread as int >= 1) by (nonlinear_arith)
                    requires
                        f_min_c >= 1,
                        spread >= 1,
                ;
            }
            let denom: u64 = f_min_c as u64 * spread;
            (f_max_c as u64 * FP_ONE) / denom
        } else {
            0
        };
        Ok(
            LogFrequencyMapper {
                n_log_bins: log_bins,
                n_lin_bins,
                log_bin_ratio: ratio,
                min_freq: f_min_c,
                max_freq: f_max_c,
            },
        )
    }
}

} // verus!
