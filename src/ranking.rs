//! Activity rankings.
//!
//! Every quantity is a fixed-point integer in hundredths: a score of `1250`
//! stands for `12.50` units, a ranking of `9901` for `99.01` percent and a
//! weight of `100` for a factor of `1.00`.
use vstd::prelude::*;
use vstd::arithmetic::div_mod::{
    lemma_fundamental_div_mod, lemma_fundamental_div_mod_converse, lemma_mod_bound,
};

verus! {

/// Smallest non-zero ranking: 0.10 percent.
pub const MIN_RANKING: u64 = 10;

/// Largest ranking: 100.00 percent.
pub const MAX_RANKING: u64 = 10000;

/// Parameters of the Michaelis–Menten curve `r(x) = numerator * x / (denominator + x)`.
///
/// `numerator` is the asymptote, in hundredths of a percent; `denominator` is the
/// score at which the curve reaches half of it, in hundredths of a score unit.
#[derive(Clone, Copy, Debug, PartialEq, Eq, Structural)]
pub struct Curve {
    pub numerator: u64,
    pub denominator: u64,
}

/// One ranked activity of a holder.
#[derive(Clone, Copy, Debug, PartialEq, Eq, Structural)]
pub struct Activity {
    pub weight: u32,
    pub goal: u32,
    pub curve: Curve,
}

/// A group of activities that shares one weight.
#[derive(Clone, Copy, Debug, PartialEq, Eq)]
pub struct ActivitiesGroup<T> {
    pub weight: u32,
    pub activities: T,
}

/// The social group: ranked from the soulbound social score alone.
#[derive(Clone, Copy, Debug, PartialEq, Eq, Structural)]
pub struct Social {}

#[derive(Clone, Copy, Debug, PartialEq, Eq, Structural)]
pub struct Archway {
    pub stake: Activity,
    pub ibc: Activity,
}

#[derive(Clone, Copy, Debug, PartialEq, Eq, Structural)]
pub struct Ecosystem {
    pub archid: Activity,
    pub astrovault: Activity,
    pub liquid_finance: Activity,
}

/// The ranking configuration of a run.
#[derive(Clone, Copy, Debug, PartialEq, Eq)]
pub struct Ranking {
    pub social: ActivitiesGroup<Option<Social>>,
    pub archway: ActivitiesGroup<Archway>,
    pub ecosystem: ActivitiesGroup<Ecosystem>,
}

/// `a / b` rounded to the nearest integer, halves rounded up (for `a >= 0`, `b > 0`).
pub open spec fn rounded_div(a: int, b: int) -> int {
    (2 * a + b) / (2 * b)
}

/// Brings a non-zero ranking into `[MIN_RANKING, MAX_RANKING]`.
pub open spec fn clamp_ranking(r: int) -> int {
    if r < MIN_RANKING {
        MIN_RANKING as int
    } else if r > MAX_RANKING {
        MAX_RANKING as int
    } else {
        r
    }
}

/// The ranking of `score` on the curve `numerator * x / (denominator + x)`:
/// exactly zero where the curve is zero, else the rounded value clamped.
pub open spec fn curve_ranking(numerator: int, denominator: int, score: int) -> int {
    if numerator == 0 || score == 0 {
        0
    } else {
        clamp_ranking(rounded_div(numerator * score, denominator + score))
    }
}

/// A score in hundredths as the curve takes it: scores beyond `u64::MAX`
/// rank as `u64::MAX` does.
pub open spec fn score_of(centi: nat) -> u64 {
    if centi > u64::MAX {
        u64::MAX
    } else {
        centi as u64
    }
}

pub fn saturating_score(centi: u128) -> (r: u64)
    ensures
        r == score_of(centi as nat),
{
    if centi > u64::MAX as u128 {
        u64::MAX
    } else {
        centi as u64
    }
}

impl Activity {
    pub open spec fn ranking_of(self, score: int) -> int {
        curve_ranking(self.curve.numerator as int, self.curve.denominator as int, score)
    }

    /// The ranking of `score`, in hundredths of a percent.
    pub fn ranking(&self, score: u64) -> (r: u64)
        ensures
            r == self.ranking_of(score as int),
    {
        let n = self.curve.numerator;
        let d = self.curve.denominator;
        if n == 0 || score == 0 {
            return 0;
        }
        assert((n as int) * (score as int) <= 0xffff_ffff_ffff_ffffu64 * 0xffff_ffff_ffff_ffffu64)
            by (nonlinear_arith)
            requires
                n <= 0xffff_ffff_ffff_ffffu64,
                score <= 0xffff_ffff_ffff_ffffu64,
        ;
        let num: u128 = (n as u128) * (score as u128);
        let den: u128 = (d as u128) + (score as u128);
        let q: u128 = num / den;
        let rem: u128 = num % den;
        proof {
            lemma_fundamental_div_mod(num as int, den as int);
            lemma_mod_bound(num as int, den as int);
            assert(q <= num) by (nonlinear_arith)
                requires
                    num == den * q + rem,
                    den >= 1,
                    rem >= 0,
                    q >= 0,
            ;
            lemma_rounded_div_by_remainder(num as int, den as int, q as int, rem as int);
        }
        let rounded: u128 = if rem >= den - rem {
            q + 1
        } else {
            q
        };
        if rounded < MIN_RANKING as u128 {
            MIN_RANKING
        } else if rounded > MAX_RANKING as u128 {
            MAX_RANKING
        } else {
            rounded as u64
        }
    }
}

/// Rounding through quotient and remainder agrees with `rounded_div`.
proof fn lemma_rounded_div_by_remainder(a: int, b: int, q: int, r: int)
    requires
        b > 0,
        a == b * q + r,
        0 <= r < b,
    ensures
        rounded_div(a, b) == if r >= b - r { q + 1 } else { q },
{
    if r >= b - r {
        assert(2 * a + b == (q + 1) * (2 * b) + (2 * r - b)) by (nonlinear_arith)
            requires
                a == b * q + r,
        ;
        lemma_fundamental_div_mod_converse(2 * a + b, 2 * b, q + 1, 2 * r - b);
    } else {
        assert(2 * a + b == q * (2 * b) + (2 * r + b)) by (nonlinear_arith)
            requires
                a == b * q + r,
        ;
        lemma_fundamental_div_mod_converse(2 * a + b, 2 * b, q, 2 * r + b);
    }
}

impl ActivitiesGroup<Option<Social>> {
    /// The social ranking: the social score scaled by the group's weight.
    pub fn weighted_ranking(&self, social_score: u16) -> (r: u64)
        ensures
            r == social_score as int * self.weight as int,
    {
        assert(social_score as int * self.weight as int <= 0xffff * 0xffff_ffff) by (nonlinear_arith)
            requires
                social_score <= 0xffff,
                self.weight <= 0xffff_ffff,
        ;
        (social_score as u64) * (self.weight as u64)
    }
}

impl ActivitiesGroup<Archway> {
    /// The group's weight applied to the sum of its activities' rankings, in
    /// hundredths (rounded down).
    pub fn weighted_ranking(&self, stake_score: u64, ibc_score: u64) -> (r: u64)
        ensures
            r == (self.weight as int * (self.activities.stake.ranking_of(stake_score as int)
                + self.activities.ibc.ranking_of(ibc_score as int))) / 100,
    {
        let stake = self.activities.stake.ranking(stake_score);
        let ibc = self.activities.ibc.ranking(ibc_score);
        proof {
            lemma_ranking_bounds(self.activities.stake, stake_score);
            lemma_ranking_bounds(self.activities.ibc, ibc_score);
        }
        weighted_sum(self.weight, stake + ibc)
    }
}

impl ActivitiesGroup<Ecosystem> {
    /// The group's weight applied to the sum of its activities' rankings, in
    /// hundredths (rounded down).
    pub fn weighted_ranking(&self, archid_score: u64, astrovault_score: u64, liquid_score: u64) -> (r:
        u64)
        ensures
            r == (self.weight as int * (self.activities.archid.ranking_of(archid_score as int)
                + self.activities.astrovault.ranking_of(astrovault_score as int)
                + self.activities.liquid_finance.ranking_of(liquid_score as int))) / 100,
    {
        let archid = self.activities.archid.ranking(archid_score);
        let astrovault = self.activities.astrovault.ranking(astrovault_score);
        let liquid = self.activities.liquid_finance.ranking(liquid_score);
        proof {
            lemma_ranking_bounds(self.activities.archid, archid_score);
            lemma_ranking_bounds(self.activities.astrovault, astrovault_score);
            lemma_ranking_bounds(self.activities.liquid_finance, liquid_score);
        }
        weighted_sum(self.weight, archid + astrovault + liquid)
    }
}

/// `weight * sum / 100` for a sum of at most three rankings.
fn weighted_sum(weight: u32, sum: u64) -> (r: u64)
    requires
        sum <= 3 * MAX_RANKING,
    ensures
        r == (weight as int * sum as int) / 100,
{
    assert(weight as int * sum as int <= 0xffff_ffff * 30000) by (nonlinear_arith)
        requires
            weight <= 0xffff_ffff,
            sum <= 30000,
    ;
    (weight as u64) * sum / 100
}

/// Every ranking that an activity emits is zero or lies within
/// `[MIN_RANKING, MAX_RANKING]`.
pub proof fn lemma_ranking_bounds(activity: Activity, score: u64)
    ensures
        activity.ranking_of(score as int) == 0 || (MIN_RANKING <= activity.ranking_of(score as int)
            <= MAX_RANKING),
{
}

/// A score of zero ranks zero.
pub proof fn lemma_ranking_at_zero(activity: Activity)
    ensures
        activity.ranking_of(0) == 0,
{
}

/// At the half-saturation score the ranking is half the numerator (rounded
/// half up), then clamped; a zero numerator ranks zero.
pub proof fn lemma_ranking_at_half_saturation(activity: Activity)
    requires
        activity.curve.denominator > 0,
    ensures
        activity.ranking_of(activity.curve.denominator as int) == if activity.curve.numerator == 0 {
            0
        } else {
            clamp_ranking((activity.curve.numerator as int + 1) / 2)
        },
{
    let n = activity.curve.numerator as int;
    let d = activity.curve.denominator as int;
    if n != 0 {
        let k = (n + 1) / 2;
        let s = (n + 1) % 2;
        assert(2 * (n * d) + (d + d) == k * (2 * (d + d)) + 2 * s * d) by (nonlinear_arith)
            requires
                n + 1 == 2 * k + s,
        ;
        assert(0 <= 2 * s * d < 2 * (d + d)) by (nonlinear_arith)
            requires
                0 <= s < 2,
                d > 0,
        ;
        lemma_fundamental_div_mod_converse(2 * (n * d) + (d + d), 2 * (d + d), k, 2 * s * d);
    }
}

/// `q * b <= a` with `b > 0` gives `q <= a / b`.
proof fn lemma_le_quotient(q: int, a: int, b: int)
    requires
        b > 0,
        q * b <= a,
    ensures
        q <= a / b,
{
    lemma_fundamental_div_mod(a, b);
    lemma_mod_bound(a, b);
    let k = a / b;
    let m = a % b;
    assert(q <= k) by (nonlinear_arith)
        requires
            a == b * k + m,
            m < b,
            q * b <= a,
            b > 0,
    ;
}

/// The ranking never decreases as the score grows.
pub proof fn lemma_ranking_monotone(activity: Activity, low: u64, high: u64)
    requires
        low <= high,
    ensures
        activity.ranking_of(low as int) <= activity.ranking_of(high as int),
{
    let n = activity.curve.numerator as int;
    let d = activity.curve.denominator as int;
    let x1 = low as int;
    let x2 = high as int;
    if n != 0 && x1 != 0 {
        let a1 = 2 * (n * x1) + (d + x1);
        let b1 = 2 * (d + x1);
        let a2 = 2 * (n * x2) + (d + x2);
        let b2 = 2 * (d + x2);
        let q1 = a1 / b1;
        assert(a1 * b2 <= a2 * b1) by (nonlinear_arith)
            requires
                a1 == 2 * (n * x1) + (d + x1),
                b1 == 2 * (d + x1),
                a2 == 2 * (n * x2) + (d + x2),
                b2 == 2 * (d + x2),
                0 <= n,
                0 <= d,
                0 <= x1 <= x2,
        ;
        lemma_fundamental_div_mod(a1, b1);
        lemma_mod_bound(a1, b1);
        assert(q1 * b2 <= a2) by (nonlinear_arith)
            requires
                q1 * b1 <= a1,
                a1 * b2 <= a2 * b1,
                b1 > 0,
                b2 > 0,
        ;
        lemma_le_quotient(q1, a2, b2);
    }
}

} // verus!
