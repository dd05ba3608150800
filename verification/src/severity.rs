//! The severity score and its labelled band.
//!
//! The score is the exact rational
//! `40·ah/t + 20·we/t + 20·nt/t + 10·ot/cd + 10·min(streak,14)/14`,
//! capped at 100, with each ratio read as 0 when its divisor is 0, and the
//! whole score 0 when there are no commits. The band label goes by the
//! integer floor of the score, which the executable code computes exactly —
//! no floating point is involved.
//!
//! Over the common denominator `7·t·cd` the numerator of the raw score is
//! `7·cd·(40·ah + 20·we + 20·nt) + 7·t·10·ot + t·cd·5·min(streak,14)`.

use vstd::prelude::*;

use vstd::arithmetic::div_mod::{
    lemma_fundamental_div_mod, lemma_fundamental_div_mod_converse, lemma_div_is_ordered,
    lemma_mod_division_less_than_divisor,
};

verus! {

/// Smaller of two integers.
pub open spec fn spec_min_int(a: int, b: int) -> int {
    if a < b {
        a
    } else {
        b
    }
}

/// The divisor used for the overtime-day ratio: 1 stands in when there are
/// no commit days, so the denominator stays positive.
pub open spec fn spec_cd_div(cd: int) -> int {
    if cd == 0 {
        1
    } else {
        cd
    }
}

/// Weighted commit-ratio points, before division by the total: the
/// after-hours ratio weighs 40, the weekend and night ratios 20 each.
pub open spec fn spec_base_points(ah: int, we: int, nt: int) -> int {
    40 * ah + 20 * we + 20 * nt
}

/// Weighted overtime-day points, before division by the commit days;
/// 0 when there are no commit days.
pub open spec fn spec_ot_points(ot: int, cd: int) -> int {
    if cd == 0 {
        0
    } else {
        10 * ot
    }
}

/// Weighted streak points, before division by 7: the streak factor
/// `min(streak, 14)/14` weighs 10, and `10/14` reduces to `5/7`.
pub open spec fn spec_streak_points(streak: int) -> int {
    5 * spec_min_int(streak, 14)
}

/// Numerator of the raw (uncapped) severity score over the denominator
/// `7 · t · spec_cd_div(cd)`.
pub open spec fn spec_severity_num(
    t: int,
    ah: int,
    we: int,
    nt: int,
    ot: int,
    cd: int,
    streak: int,
) -> int {
    7 * spec_cd_div(cd) * spec_base_points(ah, we, nt) + 7 * t * spec_ot_points(ot, cd) + t
        * spec_cd_div(cd) * spec_streak_points(streak)
}

/// Denominator of the severity score.
pub open spec fn spec_severity_den(t: int, cd: int) -> int {
    7 * t * spec_cd_div(cd)
}

/// Numerator of the severity score as reported: 0 without commits, and
/// capped at 100 by `min(num, 100·den)`.
pub open spec fn spec_score_num(
    t: int,
    ah: int,
    we: int,
    nt: int,
    ot: int,
    cd: int,
    streak: int,
) -> int {
    if t == 0 {
        0
    } else {
        spec_min_int(
            spec_severity_num(t, ah, we, nt, ot, cd, streak),
            100 * spec_severity_den(t, cd),
        )
    }
}

/// Denominator of the severity score as reported; 1 without commits.
pub open spec fn spec_score_den(t: int, cd: int) -> int {
    if t == 0 {
        1
    } else {
        spec_severity_den(t, cd)
    }
}

/// Integer floor of the severity score: what the band label is read from.
pub open spec fn spec_severity_floor(
    t: int,
    ah: int,
    we: int,
    nt: int,
    ot: int,
    cd: int,
    streak: int,
) -> int {
    spec_score_num(t, ah, we, nt, ot, cd, streak) / spec_score_den(t, cd)
}

/// Computes the exact integer floor of the severity score.
///
/// The score's integer part is split off ratio by ratio (quotient plus a
/// proper fraction); the fractions sum to less than 3, and whether they
/// carry 1 or 2 more points is decided by exact cross-multiplied
/// comparisons, so every intermediate product fits in `u128`.
pub fn severity_floor(
    total: usize,
    after_hours: usize,
    weekend: usize,
    night: usize,
    overtime_days: usize,
    commit_days: usize,
    longest_streak: usize,
) -> (r: u64)
    ensures
        r == spec_severity_floor(
            total as int,
            after_hours as int,
            weekend as int,
            night as int,
            overtime_days as int,
            commit_days as int,
            longest_streak as int,
        ),
        0 <= r <= 100,
{
    if total == 0 {
        return 0;
    }
    let t: u128 = total as u128;
    let cdp: u128 = if commit_days == 0 {
        1
    } else {
        commit_days as u128
    };
    let n1: u128 = 40 * (after_hours as u128) + 20 * (weekend as u128) + 20 * (night as u128);
    let nb: u128 = if commit_days == 0 {
        0
    } else {
        10 * (overtime_days as u128)
    };
    let m: u128 = if longest_streak >= 14 {
        14
    } else {
        longest_streak as u128
    };
    let nc: u128 = 5 * m;
    let q1: u128 = n1 / t;
    let r1: u128 = n1 % t;
    let q2: u128 = nb / cdp;
    let r2: u128 = nb % cdp;
    let q3: u128 = nc / 7;
    let r3: u128 = nc % 7;
    proof {
        lemma_fundamental_div_mod(n1 as int, t as int);
        lemma_mod_division_less_than_divisor(n1 as int, t as int);
        lemma_fundamental_div_mod(nb as int, cdp as int);
        lemma_mod_division_less_than_divisor(nb as int, cdp as int);
        lemma_fundamental_div_mod(nc as int, 7);
        lemma_mod_division_less_than_divisor(nc as int, 7);
    }
    let s1: u128 = 7 * r1;
    let e1: u128 = s1 / t;
    let f1: u128 = s1 % t;
    let s2: u128 = 7 * r2;
    let e2: u128 = s2 / cdp;
    let f2: u128 = s2 % cdp;
    proof {
        lemma_fundamental_div_mod(s1 as int, t as int);
        lemma_mod_division_less_than_divisor(s1 as int, t as int);
        lemma_fundamental_div_mod(s2 as int, cdp as int);
        lemma_mod_division_less_than_divisor(s2 as int, cdp as int);
        // e1 <= 6 and e2 <= 6, because 7·r < 7·divisor.
        assert(e1 <= 6) by (nonlinear_arith)
            requires
                s1 as int == t as int * e1 as int + f1 as int,
                0 <= f1 as int,
                s1 < 7 * t,
                t >= 1,
                e1 >= 0,
        ;
        assert(e2 <= 6) by (nonlinear_arith)
            requires
                s2 as int == cdp as int * e2 as int + f2 as int,
                0 <= f2 as int,
                s2 < 7 * cdp,
                cdp >= 1,
                e2 >= 0,
        ;
    }
    let s: u128 = e1 + e2 + r3;
    proof {
        // The cross-multiplied comparison stays within u128: both factors
        // of each product fit in 64 bits.
        assert((f1 as int) * (cdp as int) <= u128::MAX && (t as int) * ((cdp - f2) as int)
            <= u128::MAX) by (nonlinear_arith)
            requires
                0 <= (f1 as int) < (t as int),
                0 <= (f2 as int) < (cdp as int),
                t as int <= 0xffff_ffff_ffff_ffff,
                cdp as int <= 0xffff_ffff_ffff_ffff,
                u128::MAX == 0xffff_ffff_ffff_ffff_ffff_ffff_ffff_ffff,
        ;
    }
    let near: bool = f1 * cdp >= t * (cdp - f2);
    let c1: bool = if s >= 7 {
        true
    } else if s < 6 {
        false
    } else {
        near
    };
    let c2: bool = if s >= 14 {
        true
    } else if s < 13 {
        false
    } else {
        near
    };
    let carry: u128 = (if c1 {
        1u128
    } else {
        0u128
    }) + (if c2 {
        1u128
    } else {
        0u128
    });
    let q: u128 = q1 + q2 + q3 + carry;
    proof {
        let ti = t as int;
        let ci = cdp as int;
        let num = spec_severity_num(
            total as int,
            after_hours as int,
            weekend as int,
            night as int,
            overtime_days as int,
            commit_days as int,
            longest_streak as int,
        );
        let den = spec_severity_den(total as int, commit_days as int);
        assert(ci == spec_cd_div(commit_days as int));
        assert(n1 == spec_base_points(after_hours as int, weekend as int, night as int));
        assert(nb == spec_ot_points(overtime_days as int, commit_days as int));
        assert(nc == spec_streak_points(longest_streak as int));
        assert(den == 7 * ti * ci);
        let qsum = q1 as int + q2 as int + q3 as int;
        let rr = 7 * ci * (r1 as int) + 7 * ti * (r2 as int) + ti * ci * (r3 as int);
        // num splits into den·(q1+q2+q3) plus the fraction numerators.
        assert(num == den * qsum + rr) by (nonlinear_arith)
            requires
                num == 7 * ci * (n1 as int) + 7 * ti * (nb as int) + ti * ci * (nc as int),
                den == 7 * ti * ci,
                n1 as int == ti * (q1 as int) + r1 as int,
                nb as int == ci * (q2 as int) + r2 as int,
                nc as int == 7 * (q3 as int) + r3 as int,
                qsum == q1 as int + q2 as int + q3 as int,
                rr == 7 * ci * (r1 as int) + 7 * ti * (r2 as int) + ti * ci * (r3 as int),
        ;
        // The fraction numerators regroup around the split quotients.
        let si = s as int;
        let gg = ci * (f1 as int) + ti * (f2 as int);
        assert(7 * ci * (r1 as int) == ti * ci * (e1 as int) + ci * (f1 as int))
            by (nonlinear_arith)
            requires
                7 * (r1 as int) == ti * (e1 as int) + f1 as int,
        ;
        assert(7 * ti * (r2 as int) == ti * ci * (e2 as int) + ti * (f2 as int))
            by (nonlinear_arith)
            requires
                7 * (r2 as int) == ci * (e2 as int) + f2 as int,
        ;
        assert(rr == ti * ci * si + gg) by (nonlinear_arith)
            requires
                7 * ci * (r1 as int) == ti * ci * (e1 as int) + ci * (f1 as int),
                7 * ti * (r2 as int) == ti * ci * (e2 as int) + ti * (f2 as int),
                si == e1 as int + e2 as int + r3 as int,
                gg == ci * (f1 as int) + ti * (f2 as int),
                rr == 7 * ci * (r1 as int) + 7 * ti * (r2 as int) + ti * ci * (r3 as int),
        ;
        assert(0 <= gg && gg <= 2 * ti * ci - ti - ci) by (nonlinear_arith)
            requires
                gg == ci * (f1 as int) + ti * (f2 as int),
                0 <= f1 as int <= ti - 1,
                0 <= f2 as int <= ci - 1,
                ti >= 1,
                ci >= 1,
        ;
        // near decides whether the fractions reach one more whole point.
        assert(near == (gg >= ti * ci)) by (nonlinear_arith)
            requires
                near == ((f1 as int) * ci >= ti * (ci - f2 as int)),
                gg == ci * (f1 as int) + ti * (f2 as int),
        ;
        // c1 <==> rr >= den, c2 <==> rr >= 2·den.
        assert(c1 == (rr >= den)) by (nonlinear_arith)
            requires
                rr == ti * ci * si + gg,
                den == 7 * ti * ci,
                0 <= gg && gg <= 2 * ti * ci - ti - ci,
                near == (gg >= ti * ci),
                c1 == (si >= 7 || (si == 6 && near)),
                ti >= 1,
                ci >= 1,
                si >= 0,
        ;
        assert(c2 == (rr >= 2 * den)) by (nonlinear_arith)
            requires
                rr == ti * ci * si + gg,
                den == 7 * ti * ci,
                0 <= gg && gg <= 2 * ti * ci - ti - ci,
                near == (gg >= ti * ci),
                c2 == (si >= 14 || (si == 13 && near)),
                ti >= 1,
                ci >= 1,
                si >= 0,
        ;
        // rr stays below 3·den, because si <= 18 and gg < 2·t·c.
        assert(rr < 3 * den) by (nonlinear_arith)
            requires
                rr == ti * ci * si + gg,
                den == 7 * ti * ci,
                0 <= gg && gg <= 2 * ti * ci - ti - ci,
                0 <= si <= 18,
                ti >= 1,
                ci >= 1,
        ;
        assert(den > 0) by (nonlinear_arith)
            requires
                den == 7 * ti * ci,
                ti >= 1,
                ci >= 1,
        ;
        // So q1+q2+q3+carry is exactly num / den.
        let rest = rr - carry * den;
        assert(0 <= rest < den);
        assert(num == den * (qsum + carry) + rest) by (nonlinear_arith)
            requires
                num == den * qsum + rr,
                rest == rr - carry * den,
        ;
        lemma_fundamental_div_mod_converse(num, den, qsum + carry as int, rest);
        assert(q == num / den);
        // Capping at 100 commutes with the floor.
        if num <= 100 * den {
            lemma_div_is_ordered(num, 100 * den, den);
            assert((100 * den) / den == 100) by (nonlinear_arith)
                requires
                    den > 0,
            ;
            assert(q <= 100);
            assert(spec_score_num(
                total as int,
                after_hours as int,
                weekend as int,
                night as int,
                overtime_days as int,
                commit_days as int,
                longest_streak as int,
            ) == num);
        } else {
            lemma_div_is_ordered(100 * den, num, den);
            assert((100 * den) / den == 100) by (nonlinear_arith)
                requires
                    den > 0,
            ;
            assert(q >= 100);
        }
    }
    if q >= 100 {
        100
    } else {
        q as u64
    }
}

/// The five severity bands, in ascending order of workload.
#[derive(Clone, Copy, Debug, PartialEq, Eq, Structural)]
pub enum SeverityBand {
    /// Floor 0 to 20.
    Relaxed,
    /// Floor 21 to 40.
    Healthy,
    /// Floor 41 to 60.
    SteadyOvertime,
    /// Floor 61 to 80.
    HalfCowHorse,
    /// Floor 81 and above.
    FullCowHorse,
}

/// Band of a given score floor.
pub open spec fn spec_band_of(floor: int) -> SeverityBand {
    if floor <= 20 {
        SeverityBand::Relaxed
    } else if floor <= 40 {
        SeverityBand::Healthy
    } else if floor <= 60 {
        SeverityBand::SteadyOvertime
    } else if floor <= 80 {
        SeverityBand::HalfCowHorse
    } else {
        SeverityBand::FullCowHorse
    }
}

/// Maps the integer floor of the severity score to its band; at an exact
/// boundary the lower band wins.
pub fn severity_label(floor: u64) -> (b: SeverityBand)
    ensures
        b == spec_band_of(floor as int),
{
    if floor <= 20 {
        SeverityBand::Relaxed
    } else if floor <= 40 {
        SeverityBand::Healthy
    } else if floor <= 60 {
        SeverityBand::SteadyOvertime
    } else if floor <= 80 {
        SeverityBand::HalfCowHorse
    } else {
        SeverityBand::FullCowHorse
    }
}

impl SeverityBand {
    /// The human label of this band.
    pub fn text(&self) -> (s: String)
        ensures
            *self == SeverityBand::Relaxed ==> s@ == "轻松自在"@,
            *self == SeverityBand::Healthy ==> s@ == "基本健康"@,
            *self == SeverityBand::SteadyOvertime ==> s@ == "持续加班"@,
            *self == SeverityBand::HalfCowHorse ==> s@ == "半牛马状态"@,
            *self == SeverityBand::FullCowHorse ==> s@ == "全面牛马预警"@,
    {
        match self {
            SeverityBand::Relaxed => String::from_str("轻松自在"),
            SeverityBand::Healthy => String::from_str("基本健康"),
            SeverityBand::SteadyOvertime => String::from_str("持续加班"),
            SeverityBand::HalfCowHorse => String::from_str("半牛马状态"),
            SeverityBand::FullCowHorse => String::from_str("全面牛马预警"),
        }
    }
}

/// The severity score is a rational in `[0, 100]`, and it is 0 exactly when
/// there are no commits. The bounds need the counter invariants the
/// aggregator maintains: each specialized counter at most the total, the
/// overtime days at most the commit days, which are at most the total, and
/// at least one commit day and a streak of at least 1 as soon as any commit
/// exists.
pub proof fn lemma_severity_score_bounds(
    t: int,
    ah: int,
    we: int,
    nt: int,
    ot: int,
    cd: int,
    streak: int,
)
    requires
        0 <= ah <= t,
        0 <= we <= t,
        0 <= nt <= t,
        0 <= ot <= cd <= t,
        t > 0 ==> cd >= 1,
        t > 0 ==> streak >= 1,
    ensures
        spec_score_den(t, cd) > 0,
        0 <= spec_score_num(t, ah, we, nt, ot, cd, streak) <= 100 * spec_score_den(t, cd),
        spec_score_num(t, ah, we, nt, ot, cd, streak) == 0 <==> t == 0,
        0 <= spec_severity_floor(t, ah, we, nt, ot, cd, streak) <= 100,
{
    if t == 0 {
        assert(spec_score_num(t, ah, we, nt, ot, cd, streak) == 0int / 1int);
    } else {
        let ci = spec_cd_div(cd);
        let n1 = spec_base_points(ah, we, nt);
        let nb = spec_ot_points(ot, cd);
        let nc = spec_streak_points(streak);
        let num = spec_severity_num(t, ah, we, nt, ot, cd, streak);
        let den = spec_severity_den(t, cd);
        assert(ci == cd && ci >= 1);
        assert(0 <= n1 <= 80 * t);
        assert(0 <= nb <= 10 * ci);
        assert(5 <= nc <= 70);
        assert(num <= 100 * den) by (nonlinear_arith)
            requires
                num == 7 * ci * n1 + 7 * t * nb + t * ci * nc,
                den == 7 * t * ci,
                0 <= n1 <= 80 * t,
                0 <= nb <= 10 * ci,
                nc <= 70,
                t >= 1,
                ci >= 1,
        ;
        assert(num >= 5 * t * ci && 5 * t * ci > 0) by (nonlinear_arith)
            requires
                num == 7 * ci * n1 + 7 * t * nb + t * ci * nc,
                0 <= n1,
                0 <= nb,
                nc >= 5,
                t >= 1,
                ci >= 1,
        ;
        assert(den > 0) by (nonlinear_arith)
            requires
                den == 7 * t * ci,
                t >= 1,
                ci >= 1,
        ;
        let snum = spec_score_num(t, ah, we, nt, ot, cd, streak);
        assert(snum == num);
        lemma_div_is_ordered(0, snum, den);
        lemma_div_is_ordered(snum, 100 * den, den);
        assert((100 * den) / den == 100) by (nonlinear_arith)
            requires
                den > 0,
        ;
        assert(0int / den == 0);
    }
}

} // verus!
