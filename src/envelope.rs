use vstd::prelude::*;
use crate::units::ONE;

verus! {

/// Bounds of the envelope durations offered to a user, in milliseconds.
pub const MIN_ATTACK: u32 = 1;
pub const MAX_ATTACK: u32 = 3000;
pub const MIN_DECAY: u32 = 1;
pub const MAX_DECAY: u32 = 3000;
pub const MIN_RELEASE: u32 = 1;
pub const MAX_RELEASE: u32 = 3000;

/// When a voice was released (its age in samples) and its amplitude at that moment.
#[derive(Clone, Copy, PartialEq, Eq, Debug, Structural)]
pub struct Released {
    pub time: u64,
    pub value: u64,
}

/// One envelope parameter to change: a duration in milliseconds, or the sustain level.
#[derive(Clone, Copy, PartialEq, Eq, Debug, Structural)]
pub enum ADSRParam {
    Attack(u32),
    Decay(u32),
    Sustain(u64),
    Release(u32),
}

/// Number of samples that `ms` milliseconds last at `rate` samples per second, rounded up.
pub open spec fn samples_for(ms: int, rate: int) -> int {
    (ms * rate + 999) / 1000
}

/// `ms` raised to the one-millisecond minimum.
pub open spec fn at_least_one_ms(ms: int) -> int {
    if ms < 1 {
        1
    } else {
        ms
    }
}

/// `a / b` rounded up.
pub open spec fn div_ceil(a: int, b: int) -> int {
    (a + b - 1) / b
}

/// Whether `new` is envelope `old` with `param` changed and what depends on it recomputed.
pub open spec fn parameter_set(old: ADSR, new: ADSR, param: ADSRParam) -> bool {
    &&& new.sample_rate == old.sample_rate
    &&& new.attack == match param {
        ADSRParam::Attack(ms) => at_least_one_ms(ms as int),
        _ => old.attack as int,
    }
    &&& new.decay == match param {
        ADSRParam::Decay(ms) => at_least_one_ms(ms as int),
        _ => old.decay as int,
    }
    &&& new.sustain == match param {
        ADSRParam::Sustain(level) => if level > ONE { ONE as int } else { level as int },
        _ => old.sustain as int,
    }
    &&& new.release == match param {
        ADSRParam::Release(ms) => at_least_one_ms(ms as int),
        _ => old.release as int,
    }
}

/// An attack / decay / sustain / release amplitude envelope.
#[derive(Clone, Copy, Debug)]
pub struct ADSR {
    pub sample_rate: u32,
    pub attack: u32,
    pub decay: u32,
    pub sustain: u64,
    pub release: u32,
    pub attack_incr: u64,
    pub decay_decr: u64,
    pub release_samples: u64,
}

impl ADSR {
    pub open spec fn spec_sample_rate(self) -> int {
        self.sample_rate as int
    }

    pub open spec fn spec_attack(self) -> int {
        self.attack as int
    }

    pub open spec fn spec_decay(self) -> int {
        self.decay as int
    }

    pub open spec fn spec_sustain(self) -> int {
        self.sustain as int
    }

    pub open spec fn spec_release(self) -> int {
        self.release as int
    }

    pub open spec fn attack_samples(self) -> int {
        samples_for(self.attack as int, self.sample_rate as int)
    }

    pub open spec fn decay_samples(self) -> int {
        samples_for(self.decay as int, self.sample_rate as int)
    }

    pub open spec fn release_samples(self) -> int {
        samples_for(self.release as int, self.sample_rate as int)
    }

    /// Per-sample rise during the attack: the ramp from 0 to `ONE` spread over the
    /// attack's samples, rounded up so that the ramp is complete when the attack ends.
    pub open spec fn attack_increment(self) -> int {
        div_ceil(ONE as int, self.attack_samples())
    }

    /// Per-sample fall during the decay, from `ONE` to the sustain level.
    pub open spec fn decay_decrement(self) -> int {
        (ONE - self.sustain) / self.decay_samples()
    }

    /// Per-sample fall during the release from `value`, rounded up so that the
    /// ramp reaches zero when the release time has passed.
    pub open spec fn release_decrement(self, value: int) -> int {
        div_ceil(value, self.release_samples())
    }

    pub open spec fn wf(self) -> bool {
        &&& self.sample_rate >= 1
        &&& self.attack >= 1
        &&& self.decay >= 1
        &&& self.release >= 1
        &&& self.sustain <= ONE
        &&& self.attack_incr == self.attack_increment()
        &&& self.decay_decr == self.decay_decrement()
        &&& self.release_samples == self.release_samples()
    }

    /// Whether a voice `age` samples old is still in its attack.
    pub open spec fn in_attack(self, age: int) -> bool {
        age * 1000 <= self.attack * self.sample_rate
    }

    /// Whether a voice `age` samples old is in its attack or its decay.
    pub open spec fn in_decay(self, age: int) -> bool {
        age * 1000 <= (self.attack + self.decay) * self.sample_rate
    }

    /// The amplitude one sample after `current`, for a voice `age` samples old.
    pub open spec fn volume_step(self, current: int, age: int, released: Option<Released>) -> int {
        match released {
            Some(r) => {
                let d = self.release_decrement(r.value as int);
                if current >= d {
                    current - d
                } else {
                    0
                }
            },
            None => if self.in_attack(age) {
                current + self.attack_increment()
            } else if self.in_decay(age) && current > self.sustain + self.decay_decrement() {
                current - self.decay_decrement()
            } else {
                self.sustain as int
            },
        }
    }

    /// An envelope for `sample_rate` samples per second; durations below one
    /// millisecond are raised to one, a sustain level above `ONE` is lowered to it.
    pub fn new(sample_rate: u32, attack: u32, decay: u32, sustain: u64, release: u32) -> (r: Self)
        requires
            sample_rate >= 1,
        ensures
            r.wf(),
            r.sample_rate == sample_rate,
            r.attack == at_least_one_ms(attack as int),
            r.decay == at_least_one_ms(decay as int),
            r.release == at_least_one_ms(release as int),
            r.sustain == if sustain > ONE { ONE } else { sustain },
    {
        let attack = if attack < MIN_ATTACK { MIN_ATTACK } else { attack };
        let decay = if decay < MIN_DECAY { MIN_DECAY } else { decay };
        let release = if release < MIN_RELEASE { MIN_RELEASE } else { release };
        let sustain = if sustain > ONE { ONE } else { sustain };
        let attack_samples = samples_of(attack, sample_rate);
        let decay_samples = samples_of(decay, sample_rate);
        let release_samples = samples_of(release, sample_rate);
        ADSR {
            sample_rate,
            attack,
            decay,
            sustain,
            release,
            attack_incr: (ONE + attack_samples - 1) / attack_samples,
            decay_decr: (ONE - sustain) / decay_samples,
            release_samples,
        }
    }

    /// Changes one parameter and recomputes what depends on it: the attack increment
    /// on an attack change, the decay decrement on a decay or a sustain change, the
    /// release length on a release change. Durations below one millisecond are raised
    /// to one, a sustain level above `ONE` is lowered to it.
    pub fn set_parameter(&mut self, param: ADSRParam)
        requires
            old(self).wf(),
        ensures
            final(self).wf(),
            parameter_set(*old(self), *final(self), param),
    {
        match param {
            ADSRParam::Attack(ms) => {
                self.attack = if ms < MIN_ATTACK { MIN_ATTACK } else { ms };
                let n = samples_of(self.attack, self.sample_rate);
                self.attack_incr = (ONE + n - 1) / n;
            },
            ADSRParam::Decay(ms) => {
                self.decay = if ms < MIN_DECAY { MIN_DECAY } else { ms };
                let n = samples_of(self.decay, self.sample_rate);
                self.decay_decr = (ONE - self.sustain) / n;
            },
            ADSRParam::Sustain(level) => {
                self.sustain = if level > ONE { ONE } else { level };
                let n = samples_of(self.decay, self.sample_rate);
                self.decay_decr = (ONE - self.sustain) / n;
            },
            ADSRParam::Release(ms) => {
                self.release = if ms < MIN_RELEASE { MIN_RELEASE } else { ms };
                self.release_samples = samples_of(self.release, self.sample_rate);
            },
        }
    }

    /// The amplitude one sample after `current` for a voice `age` samples old:
    /// released, it falls linearly from its value at release to zero over the release
    /// time; otherwise it rises by the attack increment during the attack, falls by the
    /// decay decrement during the decay without passing below the sustain level, and
    /// holds the sustain level after.
    pub fn get_volume_incr(&self, current: u64, age: u64, released: Option<Released>) -> (r: u64)
        requires
            self.wf(),
            current <= ONE,
        ensures
            r == self.volume_step(current as int, age as int, released),
            r <= 2 * ONE,
    {
        match released {
            Some(rel) => {
                proof {
                    lemma_samples_for_bounds(self.release as int, self.sample_rate as int);
                    if self.release_samples >= 2 {
                        vstd::arithmetic::div_mod::lemma_div_is_ordered_by_denominator(rel.value as int, 2, self.release_samples as int);
                    } else {
                        assert(rel.value % 1 == 0);
                    }
                }
                let d: u64 = rel.value / self.release_samples
                    + if rel.value % self.release_samples == 0 { 0 } else { 1 };
                proof {
                    lemma_div_ceil(rel.value as int, self.release_samples as int);
                }
                if current >= d {
                    current - d
                } else {
                    0
                }
            },
            None => {
                let elapsed: u128 = (age as u128) * 1000;
                let rate = self.sample_rate as u128;
                proof {
                    assert((self.attack as int) * (self.sample_rate as int) <= (u32::MAX as int) * (u32::MAX as int)) by (nonlinear_arith);
                    assert((self.attack as int + self.decay as int) * (self.sample_rate as int) <= (2 * (u32::MAX as int)) * (u32::MAX as int)) by (nonlinear_arith);
                    lemma_samples_for_bounds(self.attack as int, self.sample_rate as int);
                    lemma_samples_for_bounds(self.decay as int, self.sample_rate as int);
                    lemma_div_ceil_le(ONE as int, self.attack_samples());
                    lemma_div_le((ONE - self.sustain) as int, self.decay_samples());
                }
                if elapsed <= (self.attack as u128) * rate {
                    current + self.attack_incr
                } else if elapsed <= (self.attack as u128 + self.decay as u128) * rate
                    && current > self.sustain + self.decay_decr {
                    current - self.decay_decr
                } else {
                    self.sustain
                }
            },
        }
    }

    /// The amplitude of a voice `age` samples old computed from its age alone: a
    /// linear rise over the attack, a linear fall to the sustain level over the
    /// decay, the sustain level after; once released, a linear fall from the value
    /// at release to zero over the release time.
    pub open spec fn absolute_volume(self, age: int, released: Option<Released>) -> int {
        match released {
            Some(r) => {
                let since = if age >= r.time { age - r.time } else { 0 };
                if since >= self.release_samples() {
                    0
                } else {
                    r.value * (self.release_samples() - since) / self.release_samples()
                }
            },
            None => if self.in_attack(age) {
                if age >= self.attack_samples() {
                    ONE as int
                } else {
                    ONE * age / self.attack_samples()
                }
            } else if self.in_decay(age) {
                let into = if age - self.attack_samples() >= self.decay_samples() {
                    self.decay_samples()
                } else if age >= self.attack_samples() {
                    age - self.attack_samples()
                } else {
                    0
                };
                self.sustain + (ONE - self.sustain) * (self.decay_samples() - into) / self.decay_samples()
            } else {
                self.sustain as int
            },
        }
    }

    /// The amplitude of a voice `age` samples old, computed from its age alone.
    pub fn get_volume(&self, age: u64, released: Option<Released>) -> (r: u64)
        requires
            self.wf(),
            released matches Some(rel) ==> rel.value <= ONE,
        ensures
            r == self.absolute_volume(age as int, released),
            r <= ONE,
    {
        proof {
            lemma_samples_for_bounds(self.attack as int, self.sample_rate as int);
            lemma_samples_for_bounds(self.decay as int, self.sample_rate as int);
            lemma_samples_for_bounds(self.release as int, self.sample_rate as int);
        }
        let attack_samples = samples_of(self.attack, self.sample_rate);
        let decay_samples = samples_of(self.decay, self.sample_rate);
        match released {
            Some(rel) => {
                let since: u64 = if age >= rel.time { age - rel.time } else { 0 };
                if since >= self.release_samples {
                    0
                } else {
                    let left = self.release_samples - since;
                    proof {
                        assert(rel.value * left <= ONE * self.release_samples) by (nonlinear_arith)
                            requires
                                rel.value <= ONE,
                                left <= self.release_samples,
                        ;
                        assert(0 <= rel.value * left) by (nonlinear_arith);
                        vstd::arithmetic::div_mod::lemma_div_is_ordered(rel.value * left, ONE * self.release_samples, self.release_samples as int);
                        vstd::arithmetic::div_mod::lemma_div_multiples_vanish(ONE as int, self.release_samples as int);
                        assert(ONE * self.release_samples == self.release_samples * ONE) by (nonlinear_arith);
                    }
                    ((rel.value as u128) * (left as u128) / (self.release_samples as u128)) as u64
                }
            },
            None => {
                let elapsed: u128 = (age as u128) * 1000;
                let rate = self.sample_rate as u128;
                proof {
                    assert((self.attack as int) * (self.sample_rate as int) <= (u32::MAX as int) * (u32::MAX as int)) by (nonlinear_arith);
                    assert((self.attack as int + self.decay as int) * (self.sample_rate as int) <= (2 * (u32::MAX as int)) * (u32::MAX as int)) by (nonlinear_arith);
                }
                if elapsed <= (self.attack as u128) * rate {
                    if age >= attack_samples {
                        ONE
                    } else {
                        proof {
                            assert(ONE * age <= ONE * attack_samples) by (nonlinear_arith)
                                requires
                                    age < attack_samples,
                            ;
                            vstd::arithmetic::div_mod::lemma_div_is_ordered(ONE * age, ONE * attack_samples, attack_samples as int);
                            vstd::arithmetic::div_mod::lemma_div_multiples_vanish(ONE as int, attack_samples as int);
                            assert(ONE * attack_samples == attack_samples * ONE) by (nonlinear_arith);
                        }
                        ((ONE as u128) * (age as u128) / (attack_samples as u128)) as u64
                    }
                } else if elapsed <= (self.attack as u128 + self.decay as u128) * rate {
                    let into: u64 = if age >= attack_samples {
                        if age - attack_samples >= decay_samples { decay_samples } else { age - attack_samples }
                    } else {
                        0
                    };
                    let left = decay_samples - into;
                    let span = ONE - self.sustain;
                    proof {
                        assert(span * left <= span * decay_samples) by (nonlinear_arith)
                            requires
                                left <= decay_samples,
                        ;
                        assert(0 <= span * left) by (nonlinear_arith);
                        vstd::arithmetic::div_mod::lemma_div_is_ordered(span * left, span * decay_samples, decay_samples as int);
                        vstd::arithmetic::div_mod::lemma_div_multiples_vanish(span as int, decay_samples as int);
                        assert(span * decay_samples == decay_samples * span) by (nonlinear_arith);
                        assert(span * left <= ONE * decay_samples) by (nonlinear_arith)
                            requires
                                span <= ONE,
                                left <= decay_samples,
                        ;
                    }
                    self.sustain + ((span as u128) * (left as u128) / (decay_samples as u128)) as u64
                } else {
                    self.sustain
                }
            },
        }
    }

    pub fn sample_rate(&self) -> (r: u32)
        ensures
            r == self.sample_rate,
    {
        self.sample_rate
    }

    pub fn attack(&self) -> (r: u32)
        ensures
            r == self.attack,
    {
        self.attack
    }

    pub fn decay(&self) -> (r: u32)
        ensures
            r == self.decay,
    {
        self.decay
    }

    pub fn sustain(&self) -> (r: u64)
        ensures
            r == self.sustain,
    {
        self.sustain
    }

    pub fn release(&self) -> (r: u32)
        ensures
            r == self.release,
    {
        self.release
    }
}

proof fn lemma_div_ceil(a: int, b: int)
    requires
        0 <= a,
        0 < b,
    ensures
        div_ceil(a, b) == a / b + if a % b == 0 { 0int } else { 1int },
{
    vstd::arithmetic::div_mod::lemma_fundamental_div_mod(a, b);
    vstd::arithmetic::div_mod::lemma_fundamental_div_mod(a + b - 1, b);
    vstd::arithmetic::div_mod::lemma_mod_bound(a, b);
    vstd::arithmetic::div_mod::lemma_mod_bound(a + b - 1, b);
    vstd::arithmetic::div_mod::lemma_div_pos_is_pos(a, b);
    assert(div_ceil(a, b) == a / b + if a % b == 0 { 0int } else { 1int }) by (nonlinear_arith)
        requires
            a == b * (a / b) + a % b,
            a + b - 1 == b * ((a + b - 1) / b) + (a + b - 1) % b,
            0 <= a % b < b,
            0 <= (a + b - 1) % b < b,
            div_ceil(a, b) == (a + b - 1) / b,
    ;
}

proof fn lemma_div_ceil_le(a: int, b: int)
    requires
        0 <= a,
        1 <= b,
    ensures
        0 <= div_ceil(a, b) <= a,
{
    let q = (a + b - 1) / b;
    vstd::arithmetic::div_mod::lemma_fundamental_div_mod(a + b - 1, b);
    vstd::arithmetic::div_mod::lemma_mod_bound(a + b - 1, b);
    vstd::arithmetic::div_mod::lemma_div_pos_is_pos(a + b - 1, b);
    assert(q <= a) by (nonlinear_arith)
        requires
            a + b - 1 == b * q + (a + b - 1) % b,
            0 <= (a + b - 1) % b,
            0 <= a,
            1 <= b,
            0 <= q,
    ;
}

proof fn lemma_div_le(a: int, b: int)
    requires
        0 <= a,
        1 <= b,
    ensures
        0 <= a / b <= a,
{
    vstd::arithmetic::div_mod::lemma_div_pos_is_pos(a, b);
    vstd::arithmetic::div_mod::lemma_div_is_ordered_by_denominator(a, 1, b);
}

/// Every duration of at least one millisecond lasts at least one sample.
pub proof fn lemma_samples_for_bounds(ms: int, rate: int)
    requires
        1 <= ms <= u32::MAX,
        1 <= rate <= u32::MAX,
    ensures
        1 <= samples_for(ms, rate) <= 20_000_000_000_000_000,
{
    assert(1 <= ms * rate <= (u32::MAX as int) * (u32::MAX as int)) by (nonlinear_arith)
        requires
            1 <= ms <= u32::MAX,
            1 <= rate <= u32::MAX,
    ;
    vstd::arithmetic::div_mod::lemma_div_is_ordered(1000, ms * rate + 999, 1000);
    vstd::arithmetic::div_mod::lemma_div_is_ordered(ms * rate + 999, (20_000_000_000_000_000 * 1000) as int, 1000);
    vstd::arithmetic::div_mod::lemma_div_multiples_vanish(20_000_000_000_000_000, 1000);
}

/// Number of samples that `ms` milliseconds last at `rate` samples per second, rounded up.
fn samples_of(ms: u32, rate: u32) -> (r: u64)
    requires
        ms >= 1,
        rate >= 1,
    ensures
        r == samples_for(ms as int, rate as int),
        1 <= r <= 20_000_000_000_000_000,
{
    proof {
        lemma_samples_for_bounds(ms as int, rate as int);
        assert(1 <= (ms as int) * (rate as int) <= (u32::MAX as int) * (u32::MAX as int)) by (nonlinear_arith)
            requires
                1 <= ms <= u32::MAX,
                1 <= rate <= u32::MAX,
        ;
    }
    ((ms as u64) * (rate as u64) + 999) / 1000
}

} // verus!

verus! {

/// `x` lowered to `ONE`: the clamp a voice applies to its amplitude.
pub open spec fn clamp_one(x: int) -> int {
    if x > ONE {
        ONE as int
    } else {
        x
    }
}

/// Amplitude of an unreleased voice after `k` samples, starting from silence.
pub open spec fn attack_run(env: ADSR, k: nat) -> int
    decreases k,
{
    if k == 0 {
        0
    } else {
        clamp_one(env.volume_step(attack_run(env, (k - 1) as nat), k - 1, None))
    }
}

/// Amplitude of a voice `k` samples after its release at amplitude `v`.
pub open spec fn release_run(env: ADSR, v: int, k: nat) -> int
    decreases k,
{
    if k == 0 {
        v
    } else {
        clamp_one(env.volume_step(release_run(env, v, (k - 1) as nat), 0, Some(Released { time: 0, value: v as u64 })))
    }
}

proof fn lemma_ceil_covers(a: int, n: int)
    requires
        0 <= a,
        1 <= n,
    ensures
        n * div_ceil(a, n) >= a,
{
    let q = (a + n - 1) / n;
    vstd::arithmetic::div_mod::lemma_fundamental_div_mod(a + n - 1, n);
    vstd::arithmetic::div_mod::lemma_mod_bound(a + n - 1, n);
    assert(n * q >= a) by (nonlinear_arith)
        requires
            a + n - 1 == n * q + (a + n - 1) % n,
            (a + n - 1) % n < n,
    ;
}

/// During the attack the amplitude of a fresh voice rises by the attack increment
/// with every sample, and when the attack's samples are over it stands at full
/// scale.
pub proof fn lemma_attack_ramp(env: ADSR, k: nat)
    requires
        env.wf(),
        k <= env.attack_samples(),
    ensures
        attack_run(env, k) == clamp_one(k * env.attack_increment()),
        k == env.attack_samples() ==> attack_run(env, k) == ONE,
    decreases k,
{
    lemma_samples_for_bounds(env.attack as int, env.sample_rate as int);
    let incr = env.attack_increment();
    lemma_div_ceil_le(ONE as int, env.attack_samples());
    if k > 0 {
        lemma_attack_ramp(env, (k - 1) as nat);
        let n = env.attack_samples();
        let ar = env.attack * env.sample_rate;
        vstd::arithmetic::div_mod::lemma_fundamental_div_mod(ar + 999, 1000);
        vstd::arithmetic::div_mod::lemma_mod_bound(ar + 999, 1000);
        assert((k - 1) * 1000 <= ar) by (nonlinear_arith)
            requires
                k <= n,
                ar + 999 == 1000 * n + (ar + 999) % 1000,
                0 <= (ar + 999) % 1000,
        ;
        assert(env.in_attack(k - 1));
        assert(k * incr == (k - 1) * incr + incr) by (nonlinear_arith);
        let prev = attack_run(env, (k - 1) as nat);
        assert(env.volume_step(prev, k - 1, None) == prev + incr);
        assert(attack_run(env, k) == clamp_one(prev + incr));
        assert(0 <= (k - 1) * incr) by (nonlinear_arith)
            requires
                0 <= incr,
                1 <= k,
        ;
    }
    else {
        assert(0 * incr == 0);
    }
    if k == env.attack_samples() {
        lemma_ceil_covers(ONE as int, k as int);
    }
}

/// After its release at amplitude `v` a voice falls by the release decrement with
/// every sample, and when the release time has passed it stands at zero.
pub proof fn lemma_release_ramp(env: ADSR, v: int, k: nat)
    requires
        env.wf(),
        0 <= v <= ONE,
    ensures
        release_run(env, v, k) == if v >= k * env.release_decrement(v) {
            v - k * env.release_decrement(v)
        } else {
            0
        },
        k >= env.release_samples() ==> release_run(env, v, k) == 0,
    decreases k,
{
    lemma_samples_for_bounds(env.release as int, env.sample_rate as int);
    let d = env.release_decrement(v);
    lemma_div_ceil_le(v, env.release_samples());
    if k > 0 {
        lemma_release_ramp(env, v, (k - 1) as nat);
        assert(k * d == (k - 1) * d + d) by (nonlinear_arith);
        assert(0 <= (k - 1) * d) by (nonlinear_arith)
            requires
                0 <= d,
                1 <= k,
        ;
    }
    else {
        assert(0 * d == 0);
    }
    if k >= env.release_samples() {
        lemma_ceil_covers(v, env.release_samples());
        assert(k * d >= env.release_samples() * d) by (nonlinear_arith)
            requires
                k >= env.release_samples(),
                0 <= d,
        ;
    }
}

} // verus!
