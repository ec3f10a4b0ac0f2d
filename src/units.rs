use vstd::prelude::*;

verus! {

/// The integer that stands for 1.0 in every fixed-point quantity of the engine.
pub const ONE: u64 = 1_000_000_000;

/// The length of one waveform period in phase units (two to the 24th).
pub const PERIOD: u64 = 16_777_216;

/// Half a waveform period in phase units.
pub const HALF_PERIOD: u64 = 8_388_608;

/// `x` saturated to the range of `u64`.
pub open spec fn sat_u64(x: int) -> int {
    if x > u64::MAX {
        u64::MAX as int
    } else {
        x
    }
}

/// `a * b / c`, rounded down and saturated to the range of `u64`.
pub fn mul_div_sat(a: u64, b: u64, c: u64) -> (r: u64)
    requires
        c > 0,
    ensures
        r == sat_u64((a as int) * (b as int) / (c as int)),
{
    assert(a * b <= u128::MAX) by (nonlinear_arith)
        requires
            0 <= a <= u64::MAX,
            0 <= b <= u64::MAX,
    ;
    let p: u128 = (a as u128) * (b as u128);
    let q: u128 = p / (c as u128);
    if q > u64::MAX as u128 {
        u64::MAX
    } else {
        q as u64
    }
}

} // verus!

verus! {

/// `2^n`.
pub open spec fn two_to(n: nat) -> nat
    decreases n,
{
    if n == 0 {
        1
    } else {
        2 * two_to((n - 1) as nat)
    }
}

/// `10^n`.
pub open spec fn ten_to(n: nat) -> nat
    decreases n,
{
    if n == 0 {
        1
    } else {
        10 * ten_to((n - 1) as nat)
    }
}

/// `2^(r/12)` scaled by `ONE`, rounded, for the twelve steps of an equal-tempered octave.
pub open spec fn semitone_step(r: int) -> int {
    if r == 0 { 1_000_000_000 }
    else if r == 1 { 1_059_463_094 }
    else if r == 2 { 1_122_462_048 }
    else if r == 3 { 1_189_207_115 }
    else if r == 4 { 1_259_921_050 }
    else if r == 5 { 1_334_839_854 }
    else if r == 6 { 1_414_213_562 }
    else if r == 7 { 1_498_307_077 }
    else if r == 8 { 1_587_401_052 }
    else if r == 9 { 1_681_792_831 }
    else if r == 10 { 1_781_797_436 }
    else { 1_887_748_625 }
}

/// The frequency ratio of a transposition by `s` semitones, `2^(s/12)`, scaled by `ONE`:
/// the step within the octave times (or divided by) a power of two.
pub open spec fn semitone_ratio(s: int) -> int {
    let q = s / 12;
    let r = s % 12;
    if q >= 0 {
        semitone_step(r) * two_to(q as nat)
    } else {
        semitone_step(r) / (two_to((-q) as nat) as int)
    }
}

/// `10^(-r/20)` scaled by `ONE`, rounded, for the twenty steps of one decade of decibels.
pub open spec fn decibel_step(r: int) -> int {
    if r == 0 { 1_000_000_000 }
    else if r == 1 { 891_250_938 }
    else if r == 2 { 794_328_235 }
    else if r == 3 { 707_945_784 }
    else if r == 4 { 630_957_344 }
    else if r == 5 { 562_341_325 }
    else if r == 6 { 501_187_234 }
    else if r == 7 { 446_683_592 }
    else if r == 8 { 398_107_171 }
    else if r == 9 { 354_813_389 }
    else if r == 10 { 316_227_766 }
    else if r == 11 { 281_838_293 }
    else if r == 12 { 251_188_643 }
    else if r == 13 { 223_872_114 }
    else if r == 14 { 199_526_231 }
    else if r == 15 { 177_827_941 }
    else if r == 16 { 158_489_319 }
    else if r == 17 { 141_253_754 }
    else if r == 18 { 125_892_541 }
    else { 112_201_845 }
}

/// The linear gain of `db` decibels (`db <= 0`), `10^(db/20)`, scaled by `ONE`.
pub open spec fn decibel_gain(db: int) -> int {
    let k = -db;
    decibel_step(k % 20) / (ten_to((k / 20) as nat) as int)
}

/// `ln 2` scaled by `ONE`.
pub const LN2: u64 = 693_147_181;

/// `2^(t/12000)` for `t` tenths of a cent (`0 <= t <= 1280`), scaled by `ONE`: the
/// series of `exp(x)` up to the cubic term, with `x = t * ln 2 / 12000`.
pub open spec fn tenths_ratio(t: int) -> int {
    let x = t * LN2 / 12000;
    ONE + x + x * x / (2 * ONE) + x * x * x / (6 * ONE * ONE)
}

/// `2^(t/12000)` for `t` tenths of a cent of either sign, scaled by `ONE`; a
/// negative amount is the reciprocal of the positive one.
pub open spec fn detune_ratio(t: int) -> int {
    if t >= 0 {
        tenths_ratio(t)
    } else {
        (ONE * ONE) / tenths_ratio(-t)
    }
}

fn semitone_step_exec(r: u64) -> (v: u64)
    requires
        r < 12,
    ensures
        v == semitone_step(r as int),
        ONE <= v < 2 * ONE,
{
    match r {
        0 => 1_000_000_000,
        1 => 1_059_463_094,
        2 => 1_122_462_048,
        3 => 1_189_207_115,
        4 => 1_259_921_050,
        5 => 1_334_839_854,
        6 => 1_414_213_562,
        7 => 1_498_307_077,
        8 => 1_587_401_052,
        9 => 1_681_792_831,
        10 => 1_781_797_436,
        _ => 1_887_748_625,
    }
}

fn decibel_step_exec(r: u64) -> (v: u64)
    requires
        r < 20,
    ensures
        v == decibel_step(r as int),
        0 < v <= ONE,
{
    match r {
        0 => 1_000_000_000,
        1 => 891_250_938,
        2 => 794_328_235,
        3 => 707_945_784,
        4 => 630_957_344,
        5 => 562_341_325,
        6 => 501_187_234,
        7 => 446_683_592,
        8 => 398_107_171,
        9 => 354_813_389,
        10 => 316_227_766,
        11 => 281_838_293,
        12 => 251_188_643,
        13 => 223_872_114,
        14 => 199_526_231,
        15 => 177_827_941,
        16 => 158_489_319,
        17 => 141_253_754,
        18 => 125_892_541,
        _ => 112_201_845,
    }
}

/// Frequency ratio of a transposition by `semitones`, scaled by `ONE`.
pub fn transpose_ratio(semitones: i8) -> (r: u64)
    ensures
        r == semitone_ratio(semitones as int),
        0 < r <= 2048 * ONE,
{
    let s = semitones as i64;
    let q: i64 = if s >= 0 { s / 12 } else { -((-s + 11) / 12) };
    let rem: i64 = s - 12 * q;
    assert(q == s / 12 && rem == s % 12);
    let step = semitone_step_exec(rem as u64);
    let mut v: u64 = step;
    let mut k: u64 = 0;
    if q >= 0 {
        while k < q as u64
            invariant
                0 <= q <= 10,
                k <= q,
                ONE <= step < 2 * ONE,
                v == step * two_to(k as nat),
            decreases q - k,
        {
            assert(two_to((k + 1) as nat) == 2 * two_to(k as nat));
            assert(step * two_to((k + 1) as nat) == 2 * (step * two_to(k as nat))) by (nonlinear_arith)
                requires
                    two_to((k + 1) as nat) == 2 * two_to(k as nat),
            ;
            assert(two_to(k as nat) <= 512) by {
                lemma_two_to_monotone(k as nat, 9);
                assert(two_to(9) == 512) by { reveal_with_fuel(two_to, 12); }
            }
            assert(step * two_to(k as nat) <= step * 512) by (nonlinear_arith)
                requires
                    two_to(k as nat) <= 512,
            ;
            assert(v <= 1024 * ONE);
            v = v * 2;
            k = k + 1;
        }
        proof {
            lemma_two_to_monotone(q as nat, 10);
            assert(two_to(10) == 1024) by { reveal_with_fuel(two_to, 12); }
            assert(step * two_to(q as nat) <= step * 1024) by (nonlinear_arith)
                requires
                    two_to(q as nat) <= 1024,
            ;
            assert(step * two_to(q as nat) >= step) by (nonlinear_arith)
                requires
                    two_to(q as nat) >= 1,
            ;
        }
        v
    } else {
        let n: u64 = (-q) as u64;
        let mut d: u64 = 1;
        while k < n
            invariant
                1 <= n <= 11,
                k <= n,
                d == two_to(k as nat),
            decreases n - k,
        {
            proof {
                lemma_two_to_monotone(k as nat, 10);
                assert(two_to(10) == 1024) by { reveal_with_fuel(two_to, 12); }
            }
            d = d * 2;
            k = k + 1;
        }
        proof {
            lemma_two_to_monotone(n as nat, 11);
            assert(two_to(11) == 2048) by { reveal_with_fuel(two_to, 12); }
            vstd::arithmetic::div_mod::lemma_div_is_ordered(ONE as int / 2048 * 2048, step as int, d as int);
            vstd::arithmetic::div_mod::lemma_div_is_ordered_by_denominator(ONE as int / 2048 * 2048, d as int, 2048);
            vstd::arithmetic::div_mod::lemma_div_multiples_vanish(ONE as int / 2048, 2048);
            vstd::arithmetic::div_mod::lemma_div_is_ordered(step as int, 2 * ONE as int, d as int);
            vstd::arithmetic::div_mod::lemma_div_by_multiple(ONE as int / 2048, 2048);
        }
        step / d
    }
}

proof fn lemma_two_to_monotone(a: nat, b: nat)
    requires
        a <= b,
    ensures
        1 <= two_to(a) <= two_to(b),
    decreases b,
{
    if b > a {
        lemma_two_to_monotone(a, (b - 1) as nat);
    } else if a > 0 {
        lemma_two_to_monotone((a - 1) as nat, (a - 1) as nat);
    }
}

} // verus!

verus! {

/// Linear gain of `db` decibels, scaled by `ONE`.
pub fn decibel_gain_exec(db: i32) -> (r: u64)
    requires
        -96 <= db <= 0,
    ensures
        r == decibel_gain(db as int),
        0 < r <= ONE,
{
    let k: u64 = (-db) as u64;
    let q: u64 = k / 20;
    let step = decibel_step_exec(k % 20);
    let mut d: u64 = 1;
    let mut i: u64 = 0;
    while i < q
        invariant
            q <= 4,
            i <= q,
            d == ten_to(i as nat),
        decreases q - i,
    {
        proof {
            reveal_with_fuel(ten_to, 5);
            assert(i <= 3);
            assert(ten_to(i as nat) <= 1000);
        }
        d = d * 10;
        i = i + 1;
    }
    proof {
        reveal_with_fuel(ten_to, 5);
        assert(1 <= d <= 10000);
        assert(step >= 112_201_845);
        vstd::arithmetic::div_mod::lemma_div_is_ordered_by_denominator(step as int, d as int, 10000);
        vstd::arithmetic::div_mod::lemma_div_is_ordered(112_201_845, step as int, 10000);
        vstd::arithmetic::div_mod::lemma_div_is_ordered_by_denominator(step as int, 1, d as int);
    }
    step / d
}

/// `2^(t/12000)` for `0 <= t <= 1280` tenths of a cent, scaled by `ONE`.
fn tenths_ratio_exec(c: u64) -> (r: u64)
    requires
        c <= 1280,
    ensures
        r == tenths_ratio(c as int),
        ONE <= r <= 1_100_000_000,
{
    let x: u128 = (c as u128) * (LN2 as u128) / 12000;
    proof {
        vstd::arithmetic::div_mod::lemma_div_is_ordered(c * LN2, 1280 * LN2, 12000);
        assert(c * LN2 <= 1280 * LN2) by (nonlinear_arith)
            requires
                c <= 1280,
        ;
        assert(x <= 74_000_000);
        assert(x * x <= 74_000_000 * 74_000_000) by (nonlinear_arith)
            requires
                0 <= x <= 74_000_000,
        ;
        assert(x * x * x <= 74_000_000 * (74_000_000 * 74_000_000)) by (nonlinear_arith)
            requires
                0 <= x <= 74_000_000,
                0 <= x * x <= 74_000_000 * 74_000_000,
        ;
        vstd::arithmetic::div_mod::lemma_div_is_ordered(x * x, 2_738_000 * (2 * ONE), 2 * ONE);
        vstd::arithmetic::div_mod::lemma_div_multiples_vanish(2_738_000, 2 * ONE);
        vstd::arithmetic::div_mod::lemma_div_is_ordered(x * x * x, 67_542 * (6 * ONE * ONE), 6 * ONE * ONE);
        vstd::arithmetic::div_mod::lemma_div_multiples_vanish(67_542, 6 * ONE * ONE);
        vstd::arithmetic::div_mod::lemma_div_pos_is_pos(x * x, 2 * ONE);
        vstd::arithmetic::div_mod::lemma_div_pos_is_pos(x * x * x, 6 * ONE * ONE);
    }
    let sq: u128 = x * x / (2 * ONE as u128);
    let cube: u128 = x * x * x / (6 * (ONE as u128) * (ONE as u128));
    (ONE as u128 + x + sq + cube) as u64
}

/// `2^(t/12000)` for `t` tenths of a cent of either sign, scaled by `ONE`.
pub fn detune_ratio_exec(c: i64) -> (r: u64)
    requires
        -1280 <= c <= 1280,
    ensures
        r == detune_ratio(c as int),
        900_000_000 <= r <= 1_100_000_000,
{
    if c >= 0 {
        tenths_ratio_exec(c as u64)
    } else {
        let up = tenths_ratio_exec((-c) as u64);
        proof {
            vstd::arithmetic::div_mod::lemma_div_is_ordered_by_denominator(ONE * ONE, ONE as int, up as int);
            vstd::arithmetic::div_mod::lemma_div_is_ordered_by_denominator(ONE * ONE, up as int, 1_100_000_000);
            vstd::arithmetic::div_mod::lemma_div_by_multiple(ONE as int, ONE as int);
        }
        ONE * ONE / up
    }
}

} // verus!
