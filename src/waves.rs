use vstd::prelude::*;
use crate::units::{ONE, PERIOD, HALF_PERIOD};

verus! {

/// Level of the square and pulse waveforms, 0.7 of full scale.
pub const PULSE_LEVEL: i64 = 700_000_000;

/// The waveform kinds an oscillator can produce.
#[derive(Clone, Copy, PartialEq, Eq, Debug, Structural)]
pub enum WaveForm {
    Sine,
    Square,
    Pulse25,
    Saw,
    Triangle,
}

/// Every phase a voice may hold: the union of the domains of all waveforms.
pub open spec fn phase_ok(p: int) -> bool {
    -(HALF_PERIOD as int) <= p < PERIOD
}

/// Rational approximation (Bhaskara's) of `sin` over the first half period,
/// for a position `h` in `[0, HALF_PERIOD]`, scaled by `ONE`.
pub open spec fn half_sine(h: int) -> int {
    let hh = HALF_PERIOD as int;
    ONE * (16 * h * (hh - h)) / (5 * hh * hh - 4 * h * (hh - h))
}

impl WaveForm {
    /// The lowest phase of the waveform's domain; the domain spans one period from it.
    pub open spec fn domain_start(self) -> int {
        match self {
            WaveForm::Saw => -(HALF_PERIOD as int),
            _ => 0,
        }
    }

    pub open spec fn in_domain(self, p: int) -> bool {
        self.domain_start() <= p < self.domain_start() + PERIOD
    }

    /// Where phase `p` falls within one period, counted from the domain's start.
    pub open spec fn position(self, p: int) -> int {
        (p - self.domain_start()) % (PERIOD as int)
    }

    /// The waveform's value at phase `p`, scaled by `ONE`.
    pub open spec fn value_at(self, p: int) -> int {
        let x = self.position(p);
        match self {
            WaveForm::Sine => if x < HALF_PERIOD {
                half_sine(x)
            } else {
                -half_sine(x - HALF_PERIOD)
            },
            WaveForm::Square => if x <= HALF_PERIOD {
                PULSE_LEVEL as int
            } else {
                -PULSE_LEVEL
            },
            WaveForm::Pulse25 => if x <= PERIOD / 4 {
                PULSE_LEVEL as int
            } else {
                -PULSE_LEVEL
            },
            WaveForm::Saw => x * (2 * ONE) / (PERIOD as int) - ONE,
            WaveForm::Triangle => {
                let t = x * (4 * ONE) / (PERIOD as int);
                if t >= 2 * ONE {
                    3 * ONE - t
                } else {
                    t - ONE
                }
            },
        }
    }

    /// Phase `p` advanced by `incr` units and wrapped into the waveform's domain.
    pub open spec fn advance(self, p: int, incr: int) -> int {
        self.domain_start() + (p - self.domain_start() + incr) % (PERIOD as int)
    }

    /// Position of `phase` within the period, computed without negative operands.
    fn position_of(&self, phase: i64) -> (r: u64)
        requires
            phase_ok(phase as int),
        ensures
            r == self.position(phase as int),
            r < PERIOD,
    {
        let shifted: u64 = match self {
            WaveForm::Saw => (phase + HALF_PERIOD as i64 + PERIOD as i64) as u64,
            _ => (phase + PERIOD as i64) as u64,
        };
        proof {
            let d = phase - self.domain_start();
            assert(shifted == d + PERIOD);
            assert(d + PERIOD >= 0);
            vstd::arithmetic::div_mod::lemma_mod_add_multiples_vanish(d, PERIOD as int);
        }
        shifted % PERIOD
    }

    /// The waveform's value at `phase`, scaled by `ONE`.
    pub fn wave_value(&self, phase: i64) -> (r: i64)
        requires
            phase_ok(phase as int),
        ensures
            r == self.value_at(phase as int),
            -(ONE as int) <= r <= ONE,
    {
        let x = self.position_of(phase);
        match self {
            WaveForm::Sine => {
                if x < HALF_PERIOD {
                    half_sine_exec(x)
                } else {
                    -half_sine_exec(x - HALF_PERIOD)
                }
            },
            WaveForm::Square => {
                if x <= HALF_PERIOD {
                    PULSE_LEVEL
                } else {
                    -PULSE_LEVEL
                }
            },
            WaveForm::Pulse25 => {
                if x <= PERIOD / 4 {
                    PULSE_LEVEL
                } else {
                    -PULSE_LEVEL
                }
            },
            WaveForm::Saw => {
                let s: u64 = x * (2 * ONE) / PERIOD;
                proof {
                    lemma_scaled_position(x as int, 2 * ONE);
                }
                s as i64 - ONE as i64
            },
            WaveForm::Triangle => {
                let t: u64 = x * (4 * ONE) / PERIOD;
                proof {
                    lemma_scaled_position(x as int, 4 * ONE);
                }
                if t >= 2 * ONE {
                    (3 * ONE) as i64 - t as i64
                } else {
                    t as i64 - ONE as i64
                }
            },
        }
    }

    /// `phase` advanced by `incr` phase units, wrapped into the waveform's domain.
    pub fn next_phase(&self, phase: i64, incr: u64) -> (r: i64)
        requires
            phase_ok(phase as int),
        ensures
            r == self.advance(phase as int, incr as int),
            self.in_domain(r as int),
            phase_ok(r as int),
    {
        let x = self.position_of(phase);
        let step: u64 = incr % PERIOD;
        let pos: u64 = (x + step) % PERIOD;
        proof {
            let d = phase - self.domain_start();
            let m = PERIOD as int;
            vstd::arithmetic::div_mod::lemma_add_mod_noop(d, incr as int, m);
            vstd::arithmetic::div_mod::lemma_add_mod_noop(x as int, step as int, m);
            vstd::arithmetic::div_mod::lemma_mod_twice(incr as int, m);
            vstd::arithmetic::div_mod::lemma_mod_twice(d, m);
        }
        match self {
            WaveForm::Saw => pos as i64 - HALF_PERIOD as i64,
            _ => pos as i64,
        }
    }

    /// The period of every waveform, in phase units.
    pub fn period(&self) -> (r: u64)
        ensures
            r == PERIOD,
    {
        PERIOD
    }
}

/// Bhaskara's approximation of `sin` over the first half period.
fn half_sine_exec(h: u64) -> (r: i64)
    requires
        h <= HALF_PERIOD,
    ensures
        r == half_sine(h as int),
        0 <= r <= ONE,
{
    let hh: u64 = HALF_PERIOD;
    proof {
        lemma_half_sine_bounds(h as int);
    }
    let prod: u64 = h * (hh - h);
    assert(ONE * (16 * prod) <= ONE * (16 * (HALF_PERIOD as int) * (HALF_PERIOD as int) / 4)) by (nonlinear_arith)
        requires
            prod <= (HALF_PERIOD as int) * (HALF_PERIOD as int) / 4,
    ;
    let num: u128 = 16 * (prod as u128);
    let den: u128 = 5 * (hh as u128) * (hh as u128) - 4 * (prod as u128);
    let v: u128 = (ONE as u128) * num / den;
    proof {
        lemma_ratio_at_most_one(num as int, den as int);
    }
    v as i64
}

proof fn lemma_half_sine_bounds(h: int)
    requires
        0 <= h <= HALF_PERIOD,
    ensures
        0 <= h * (HALF_PERIOD - h) <= (HALF_PERIOD as int) * (HALF_PERIOD as int) / 4,
        16 * h * (HALF_PERIOD - h) == 16 * (h * (HALF_PERIOD - h)),
        4 * h * (HALF_PERIOD - h) == 4 * (h * (HALF_PERIOD - h)),
{
    let hh = HALF_PERIOD as int;
    assert(0 <= h * (hh - h)) by (nonlinear_arith)
        requires
            0 <= h <= hh,
    ;
    assert(4 * (h * (hh - h)) <= hh * hh) by (nonlinear_arith);
    assert(16 * h * (hh - h) == 16 * (h * (hh - h))) by (nonlinear_arith);
    assert(4 * h * (hh - h) == 4 * (h * (hh - h))) by (nonlinear_arith);
}

proof fn lemma_scaled_position(x: int, k: int)
    requires
        0 <= x < PERIOD,
        0 < k,
    ensures
        0 <= x * k / (PERIOD as int) < k,
{
    assert(x * k < (PERIOD as int) * k) by (nonlinear_arith)
        requires
            0 <= x < PERIOD,
            0 < k,
    ;
    assert(0 <= x * k) by (nonlinear_arith)
        requires
            0 <= x,
            0 < k,
    ;
    vstd::arithmetic::div_mod::lemma_div_pos_is_pos(x * k, PERIOD as int);
    vstd::arithmetic::div_mod::lemma_div_by_multiple_is_strongly_ordered(x * k, (PERIOD as int) * k, k, PERIOD as int);
}

proof fn lemma_ratio_at_most_one(num: int, den: int)
    requires
        0 <= num,
        num * 5 <= den * 4 + num,
        0 < den,
    ensures
        0 <= ONE * num / den <= ONE,
{
    assert(num <= den) by (nonlinear_arith)
        requires
            num * 5 <= den * 4 + num,
    ;
    assert(ONE * num <= ONE * den) by (nonlinear_arith)
        requires
            num <= den,
            0 <= num,
    ;
    vstd::arithmetic::div_mod::lemma_div_is_ordered(ONE * num, ONE * den, den);
    vstd::arithmetic::div_mod::lemma_div_by_multiple(ONE as int, den);
    vstd::arithmetic::div_mod::lemma_div_pos_is_pos(ONE * num, den);
}

} // verus!
