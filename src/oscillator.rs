use vstd::prelude::*;
use crate::envelope::{ADSR, Released};
use crate::synth::{KeyCode, Note};
use crate::units::{ONE, LN2, PERIOD, sat_u64, mul_div_sat, transpose_ratio, semitone_ratio, detune_ratio, detune_ratio_exec};
use crate::waves::{WaveForm, phase_ok};

verus! {

/// Relies on rand::random: a value drawn from the thread-local generator; nothing
/// is known of it.
pub assume_specification<T>[ rand::random::<T> ]() -> (r: T)
    where
        rand::distributions::Standard: rand::distributions::Distribution<T>,
;

/// Bound, in units of `ONE * ONE`, at which the sum of a voice's partials saturates:
/// ten billion partials at full scale.
pub const PARTIAL_SUM_LIMIT: i128 = 10_000_000_000_000_000_000_000_000_000;

/// Bound, in units of `ONE`, at which the sum of an oscillator's voices saturates.
pub const VOICE_SUM_LIMIT: i128 = 1_000_000_000_000_000_000_000_000_000;

/// Bound, in units of `ONE`, at which an oscillator's sample saturates: five hundred
/// million times full scale.
pub const OSCILLATOR_LIMIT: i64 = 500_000_000_000_000_000;

/// Amplitude at or below which a voice is silent, 0.01 of full scale.
pub const MUTE_LEVEL: u64 = 10_000_000;

/// Loudness of the innermost pair of detuned partials, 0.7 of full scale.
pub const PAIR_VOLUME: u64 = 700_000_000;

/// One detuned copy of the waveform: its frequency ratio and relative volume.
#[derive(Clone, Copy, PartialEq, Eq, Debug, Structural)]
pub struct Unison {
    pub freq_mod: u64,
    pub volume: u64,
}

/// The running state of one partial of a voice.
#[derive(Clone, Copy, PartialEq, Eq, Debug, Structural)]
pub struct UnisonVoice {
    pub phase: i64,
    pub phase_incr: u64,
    pub volume: u64,
}

/// One sounding note of an oscillator: its note, running amplitude, age in samples
/// and the state of each partial.
#[derive(Debug)]
pub struct Voice {
    pub note: Note,
    pub volume: u64,
    pub age: u64,
    pub unisons: Vec<UnisonVoice>,
}

/// Where the centered partial of a new voice starts its cycle.
#[derive(Clone, Copy, PartialEq, Eq, Debug, Structural)]
pub enum Start {
    Soft,
    Hard,
    Random,
}

/// The phase-start policy an oscillator holds.
#[derive(Clone, Copy, PartialEq, Eq, Debug, Structural)]
pub enum PhaseStart {
    Soft,
    Hard,
    Random,
}

/// Partial count a requested count `num` gives: at least one.
pub open spec fn unison_count(num: int) -> int {
    if num < 1 {
        1
    } else {
        num
    }
}

/// Whether a table of `count` partials has a centered one (it comes first).
pub open spec fn has_center(count: int) -> bool {
    count % 2 == 1
}

/// Index of the first partial after the centered one, if any.
pub open spec fn center_offset(count: int) -> int {
    if has_center(count) {
        1
    } else {
        0
    }
}

/// Index of the upper partial of pair `i`; its reciprocal follows it.
pub open spec fn pair_index(count: int, i: int) -> int {
    center_offset(count) + 2 * i
}

/// Number of symmetric pairs in a table of `count` partials.
pub open spec fn pair_count(count: int) -> int {
    count / 2
}

/// Exponent, in tenths of a cent, of the upper partial of pair `i` out of `p` for a
/// tune of `cents`: `cents * (p - i) / p`, rounded towards zero in tenths of a cent.
pub open spec fn pair_exponent(cents: int, p: int, i: int) -> int {
    if cents >= 0 {
        (10 * cents) * (p - i) / p
    } else {
        -((10 * (-cents)) * (p - i) / p)
    }
}

/// Ratio of the upper partial of pair `i` out of `p` for a tune of `cents`: the tune
/// ratio raised to `(p - i) / p`, that is `2^(cents * (p - i) / (p * 1200))`.
pub open spec fn pair_ratio(cents: int, p: int, i: int) -> int {
    detune_ratio(pair_exponent(cents, p, i))
}

/// Entry `k` of the partial table with `count` partials for a tune of `cents`: the
/// centered partial first when `count` is odd, then for each pair, innermost
/// loudest, the partial tuned up and its reciprocal.
pub open spec fn unison_entry(count: int, cents: int, k: int) -> Unison {
    let c: int = if has_center(count) { 1 } else { 0 };
    if has_center(count) && k == 0 {
        Unison { freq_mod: ONE, volume: ONE }
    } else {
        let p = pair_count(count);
        let i = (k - c) / 2;
        let up = pair_ratio(cents, p, i);
        let volume = (PAIR_VOLUME * (p - i) / p) as u64;
        if (k - c) % 2 == 0 {
            Unison { freq_mod: up as u64, volume }
        } else {
            Unison { freq_mod: (ONE * ONE / up) as u64, volume }
        }
    }
}

/// Whether `table` is the partial table with `count` partials for a tune of `cents`.
pub open spec fn is_unison_table(table: Seq<Unison>, count: int, cents: int) -> bool {
    &&& table.len() == count
    &&& forall|k: int| 0 <= k < count ==> #[trigger] table[k] == unison_entry(count, cents, k)
}

/// Phase increment, in phase units per sample, of a note of `freq` millihertz at
/// `rate` samples per second under a transposition ratio `transpose`.
pub open spec fn base_increment(freq: int, rate: int, transpose: int) -> int {
    sat_u64(freq * PERIOD * transpose / (rate * 1000 * ONE))
}

/// Phase increment of a partial with frequency ratio `freq_mod` over `base`.
pub open spec fn partial_increment(base: int, freq_mod: int) -> int {
    sat_u64(base * freq_mod / (ONE as int))
}

/// A voice whose partials are bounded in number and volume and whose phases are valid.
pub open spec fn voice_wf(v: Voice) -> bool {
    &&& v.volume <= ONE
    &&& forall|k: int| 0 <= k < v.unisons@.len() ==> {
        &&& phase_ok((#[trigger] v.unisons@[k]).phase as int)
        &&& v.unisons@[k].volume <= ONE
    }
}

/// Whether a voice holds `note` and has not been released.
pub open spec fn holds_unreleased(v: Voice, note: Note) -> bool {
    v.note.same(note) && v.note.released is None
}

/// Whether a voice was triggered by `key` and has not been released.
pub open spec fn pressed_by(v: Voice, key: KeyCode) -> bool {
    v.note.triggered_by == key && v.note.released is None
}

/// Whether a voice is released and has fallen silent, so that it may be dropped.
pub open spec fn is_finished(v: Voice) -> bool {
    v.note.released is Some && v.volume <= MUTE_LEVEL
}

impl PhaseStart {
    /// The phase the policy prescribes, for a waveform `w` (random: any phase of its domain).
    pub open spec fn start_ok(self, w: WaveForm, phase: int) -> bool {
        match self {
            PhaseStart::Soft => phase == 0,
            PhaseStart::Hard => phase == PERIOD / 4,
            PhaseStart::Random => w.in_domain(phase),
        }
    }

    fn value(&self, w: WaveForm) -> (r: i64)
        ensures
            self.start_ok(w, r as int),
            w.in_domain(r as int),
    {
        match self {
            PhaseStart::Soft => 0,
            PhaseStart::Hard => (PERIOD / 4) as i64,
            PhaseStart::Random => random_phase(w),
        }
    }

    /// The policy after a change of waveform: a hard start becomes a random one.
    pub open spec fn after_waveform_change(self) -> PhaseStart {
        match self {
            PhaseStart::Soft => PhaseStart::Soft,
            _ => PhaseStart::Random,
        }
    }

    fn change_period(&mut self)
        ensures
            *final(self) == old(self).after_waveform_change(),
    {
        match self {
            PhaseStart::Soft => {},
            _ => *self = PhaseStart::Random,
        }
    }
}

/// The phase that the drawn number `x` selects in the domain of `w`: its remainder
/// modulo the period, counted from the domain's start. Since `2^32` is a multiple of
/// `PERIOD`, a uniformly drawn `x` gives a uniform phase.
pub fn phase_from_draw(w: WaveForm, x: u32) -> (r: i64)
    ensures
        r == w.domain_start() + (x as int) % (PERIOD as int),
        w.in_domain(r as int),
{
    let pos: u64 = (x as u64) % PERIOD;
    match w {
        WaveForm::Saw => pos as i64 - (PERIOD / 2) as i64,
        _ => pos as i64,
    }
}

/// A phase drawn at random within the domain of `w`.
fn random_phase(w: WaveForm) -> (r: i64)
    ensures
        w.in_domain(r as int),
{
    let x: u32 = rand::random::<u32>();
    phase_from_draw(w, x)
}

/// Phase increment of a note of `freq` millihertz at `rate` samples per second
/// under the transposition ratio `transpose`.
fn base_increment_exec(freq: u32, rate: u32, transpose: u64) -> (r: u64)
    requires
        rate >= 1,
    ensures
        r == base_increment(freq as int, rate as int, transpose as int),
{
    proof {
        assert((freq as int) * PERIOD * (transpose as int) <= (u32::MAX as int) * PERIOD * (u64::MAX as int)) by (nonlinear_arith)
            requires
                0 <= freq <= u32::MAX,
                0 <= transpose <= u64::MAX,
        ;
        assert((rate as int) * 1000 * ONE >= 1) by (nonlinear_arith)
            requires
                rate >= 1,
        ;
        assert((rate as int) * 1000 * ONE <= (u32::MAX as int) * 1000 * ONE) by (nonlinear_arith)
            requires
                rate <= u32::MAX,
        ;
    }
    let num: u128 = (freq as u128) * (PERIOD as u128) * (transpose as u128);
    let den: u128 = (rate as u128) * 1000 * (ONE as u128);
    let q: u128 = num / den;
    if q > u64::MAX as u128 {
        u64::MAX
    } else {
        q as u64
    }
}

} // verus!

verus! {

/// A sound source: a waveform, a partial table and the voices it is sounding.
#[derive(Debug)]
pub struct Oscillator {
    pub sample_rate: u32,
    pub waveform: WaveForm,
    pub env_idx: usize,
    pub volume: u64,
    pub voices: Vec<Voice>,
    pub transpose: u64,
    pub tune: u64,
    pub tune_cents: i8,
    pub unisons: Vec<Unison>,
    pub phase_start: PhaseStart,
}

/// Whether an unreleased voice of `osc` holds `note`.
pub open spec fn has_unreleased(osc: Oscillator, note: Note) -> bool {
    exists|i: int| 0 <= i < osc.voices@.len() && holds_unreleased(#[trigger] osc.voices@[i], note)
}

/// Whether `new` is `old` after a request to start a voice for `note`: nothing
/// changes when an unreleased voice already holds the note; otherwise a fresh
/// voice for the note is appended.
pub open spec fn voice_created(old: Oscillator, new: Oscillator, note: Note) -> bool {
    &&& new.same_settings(old)
    &&& (has_unreleased(old, note) ==> new.voices@ == old.voices@)
    &&& (!has_unreleased(old, note) ==> {
        &&& new.voices@.len() == old.voices@.len() + 1
        &&& new.voices@.take(old.voices@.len() as int) == old.voices@
        &&& old.fresh_voice(new.voices@.last(), note)
    })
}

/// Whether `new` is `old` after `key` was let go: the first unreleased voice
/// triggered by `key`, if any, is released; nothing else changes.
pub open spec fn voice_released(old: Oscillator, new: Oscillator, key: KeyCode) -> bool {
    &&& new.same_settings(old)
    &&& ((forall|j: int| 0 <= j < old.voices@.len() ==> !pressed_by(#[trigger] old.voices@[j], key))
        ==> new.voices@ == old.voices@)
    &&& forall|i: int| 0 <= i < old.voices@.len() && pressed_by(#[trigger] old.voices@[i], key)
        && (forall|j: int| 0 <= j < i ==> !pressed_by(#[trigger] old.voices@[j], key))
        ==> new.voices@ == old.voices@.update(i, released_voice(old.voices@[i]))
}

/// `v` released now, at its present age and amplitude.
pub open spec fn released_voice(v: Voice) -> Voice {
    Voice {
        note: Note { released: Some(Released { time: v.age, value: v.volume }), ..v.note },
        volume: v.volume,
        age: v.age,
        unisons: v.unisons,
    }
}

impl Oscillator {
    pub open spec fn wf(self) -> bool {
        &&& self.wf_but_table()
        &&& is_unison_table(self.unisons@, self.unisons@.len() as int, self.tune_cents as int)
    }

    /// Well-formedness but for the partial table matching the tune.
    pub open spec fn wf_but_table(self) -> bool {
        &&& self.sample_rate >= 1
        &&& self.volume <= ONE
        &&& self.transpose > 0
        &&& self.tune == detune_ratio(10 * self.tune_cents)
        &&& 1 <= self.unisons@.len()
        &&& forall|k: int| 0 <= k < self.unisons@.len() ==> #[trigger] self.unisons@[k].volume <= ONE
        &&& forall|i: int| 0 <= i < self.voices@.len() ==> voice_wf(#[trigger] self.voices@[i])
    }

    /// Everything but the voices is equal.
    pub open spec fn same_settings(self, other: Oscillator) -> bool {
        &&& self.sample_rate == other.sample_rate
        &&& self.waveform == other.waveform
        &&& self.env_idx == other.env_idx
        &&& self.volume == other.volume
        &&& self.transpose == other.transpose
        &&& self.tune == other.tune
        &&& self.tune_cents == other.tune_cents
        &&& self.unisons == other.unisons
        &&& self.phase_start == other.phase_start
    }

    /// Phase increment of partial `k` of a voice playing `note`.
    pub open spec fn partial_incr(self, note: Note, k: int) -> int {
        partial_increment(
            base_increment(note.frequency as int, self.sample_rate as int, self.transpose as int),
            self.unisons@[k].freq_mod as int,
        )
    }

    /// Whether `v` is a voice just made by this oscillator for `note`: silent, new,
    /// with one partial per table entry, each with the entry's volume and its ratio
    /// over the note's phase increment; the centered partial starts where the
    /// policy says, the others anywhere in the waveform's domain.
    pub open spec fn fresh_voice(self, v: Voice, note: Note) -> bool {
        &&& v.note == note
        &&& v.volume == 0
        &&& v.age == 0
        &&& v.unisons@.len() == self.unisons@.len()
        &&& forall|k: int| 0 <= k < v.unisons@.len() ==> {
            &&& (#[trigger] v.unisons@[k]).phase_incr == self.partial_incr(note, k)
            &&& v.unisons@[k].volume == self.unisons@[k].volume
            &&& self.waveform.in_domain(v.unisons@[k].phase as int)
            &&& (has_center(self.unisons@.len() as int) && k == 0 ==> self.phase_start.start_ok(
                self.waveform,
                v.unisons@[k].phase as int,
            ))
        }
    }

    /// A silent oscillator at `sample_rate` with one partial, no transposition, no
    /// tune, a soft start, and its volume lowered to `ONE` if above.
    pub fn new(sample_rate: u32, waveform: WaveForm, env_idx: usize, volume: u64) -> (r: Self)
        requires
            sample_rate >= 1,
        ensures
            r.wf(),
            r.sample_rate == sample_rate,
            r.waveform == waveform,
            r.env_idx == env_idx,
            r.volume == if volume > ONE { ONE } else { volume },
            r.transpose == ONE,
            r.tune == ONE,
            r.tune_cents == 0,
            r.unisons@ == seq![Unison { freq_mod: ONE, volume: ONE }],
            r.voices@.len() == 0,
            r.phase_start == PhaseStart::Soft,
    {
        let mut unisons: Vec<Unison> = Vec::new();
        unisons.push(Unison { freq_mod: ONE, volume: ONE });
        let tune = detune_ratio_exec(0);
        assert(0 * LN2 / 12000 == 0);
        assert(tune == ONE);
        let r = Oscillator {
            sample_rate,
            waveform,
            env_idx,
            volume: if volume > ONE { ONE } else { volume },
            voices: Vec::new(),
            transpose: ONE,
            tune,
            tune_cents: 0,
            unisons,
            phase_start: PhaseStart::Soft,
        };
        assert(r.unisons@[0] == unison_entry(1, 0, 0));
        assert(r.unisons@ == seq![Unison { freq_mod: ONE, volume: ONE }]);
        r
    }

    /// Starts a voice for `note`, unless an unreleased voice already holds the same
    /// note.
    pub fn create_voice(&mut self, note: &Note)
        requires
            old(self).wf(),
        ensures
            final(self).wf(),
            voice_created(*old(self), *final(self), *note),
    {
        let n = self.voices.len();
        let mut i: usize = 0;
        while i < n
            invariant
                n == self.voices@.len(),
                i <= n,
                self.wf(),
                self.same_settings(*old(self)),
                self.voices@ == old(self).voices@,
                forall|j: int| 0 <= j < i ==> !holds_unreleased(#[trigger] self.voices@[j], *note),
            decreases n - i,
        {
            if self.voices[i].note == *note && self.voices[i].note.released.is_none() {
                return;
            }
            i = i + 1;
        }
        let base = base_increment_exec(note.frequency, self.sample_rate, self.transpose);
        let count = self.unisons.len();
        let mut partials: Vec<UnisonVoice> = Vec::with_capacity(count);
        let mut k: usize = 0;
        while k < count
            invariant
                self.wf(),
                count == self.unisons@.len(),
                base == base_increment(note.frequency as int, self.sample_rate as int, self.transpose as int),
                k <= count,
                partials@.len() == k,
                forall|j: int| 0 <= j < k ==> {
                    &&& (#[trigger] partials@[j]).phase_incr == self.partial_incr(*note, j)
                    &&& partials@[j].volume == self.unisons@[j].volume
                    &&& self.waveform.in_domain(partials@[j].phase as int)
                    &&& (has_center(count as int) && j == 0 ==> self.phase_start.start_ok(
                        self.waveform,
                        partials@[j].phase as int,
                    ))
                },
            decreases count - k,
        {
            let u = self.unisons[k];
            let phase: i64 = if k == 0 && count % 2 == 1 {
                self.phase_start.value(self.waveform)
            } else {
                random_phase(self.waveform)
            };
            let incr = mul_div_sat(base, u.freq_mod, ONE);
            partials.push(UnisonVoice { phase, phase_incr: incr, volume: u.volume });
            k = k + 1;
        }
        let ghost before = self.voices@;
        self.voices.push(Voice { note: *note, volume: 0, age: 0, unisons: partials });
        proof {
            assert(self.voices@.take(n as int) =~= before);
            let v = self.voices@[n as int];
            assert(voice_wf(v)) by {
                assert forall|j: int| 0 <= j < v.unisons@.len() implies phase_ok(#[trigger] v.unisons@[j].phase as int)
                    && v.unisons@[j].volume <= ONE by {
                    assert(self.unisons@[j].volume <= ONE);
                }
            }
            assert forall|j: int| 0 <= j < self.voices@.len() implies voice_wf(#[trigger] self.voices@[j]) by {
                if j < n {
                    assert(self.voices@[j] == before[j]);
                }
            }
        }
    }

    /// Releases the first unreleased voice triggered by `key`, recording its present
    /// age and amplitude as the start of its release.
    pub fn voice_off(&mut self, key: KeyCode)
        requires
            old(self).wf(),
        ensures
            final(self).wf(),
            voice_released(*old(self), *final(self), key),
    {
        let n = self.voices.len();
        let mut i: usize = 0;
        while i < n
            invariant
                n == self.voices@.len(),
                i <= n,
                self.wf(),
                self.same_settings(*old(self)),
                self.voices@ == old(self).voices@,
                forall|j: int| 0 <= j < i ==> !pressed_by(#[trigger] self.voices@[j], key),
            decreases n - i,
        {
            if self.voices[i].note.triggered_by == key && self.voices[i].note.released.is_none() {
                let ghost before = self.voices@;
                let age = self.voices[i].age;
                let volume = self.voices[i].volume;
                self.voices[i].note.released = Some(Released { time: age, value: volume });
                proof {
                    assert(self.voices@ =~= before.update(i as int, released_voice(before[i as int])));
                    assert forall|j: int| 0 <= j < self.voices@.len() implies voice_wf(#[trigger] self.voices@[j]) by {
                        assert(voice_wf(before[j]));
                    }
                    assert forall|m: int| 0 <= m < before.len() && pressed_by(#[trigger] before[m], key)
                        && (forall|j: int| 0 <= j < m ==> !pressed_by(#[trigger] before[j], key))
                        implies m == i by {
                        if m < i {
                        } else if m > i {
                            assert(pressed_by(before[i as int], key));
                        }
                    }
                }
                return;
            }
            i = i + 1;
        }
    }

    /// Whether any voice is sounding, releasing ones included.
    pub fn has_active_voices(&self) -> (r: bool)
        ensures
            r == (self.voices@.len() > 0),
    {
        self.voices.len() > 0
    }
}

} // verus!

verus! {

/// Sum over partials of the waveform's value at the partial's phase times the
/// partial's volume, in units of `ONE * ONE`.
pub open spec fn partial_sum(w: WaveForm, s: Seq<UnisonVoice>) -> int
    decreases s.len(),
{
    if s.len() == 0 {
        0
    } else {
        partial_sum(w, s.drop_last()) + w.value_at(s.last().phase as int) * s.last().volume
    }
}

/// Amplitude of voice `v` one sample later under envelope `env`, clamped to `ONE`.
pub open spec fn next_amplitude(env: ADSR, v: Voice) -> int {
    crate::envelope::clamp_one(env.volume_step(v.volume as int, v.age as int, v.note.released))
}

/// `x` saturated to `[-limit, limit]`.
pub open spec fn clamp_to(x: int, limit: int) -> int {
    if x > limit {
        limit
    } else if x < -limit {
        -limit
    } else {
        x
    }
}

/// What voice `v` adds to the next sample: nothing once silent, otherwise the sum
/// of its partials (saturated) times its new amplitude, rounded down to units of `ONE`.
pub open spec fn voice_output(env: ADSR, w: WaveForm, v: Voice) -> int {
    let a = next_amplitude(env, v);
    if a > MUTE_LEVEL {
        clamp_to(partial_sum(w, v.unisons@), PARTIAL_SUM_LIMIT as int) * a / ((ONE * ONE) as int)
    } else {
        0
    }
}

/// Sum of what the voices of `s` add to the next sample, saturated at each step.
pub open spec fn voices_output(env: ADSR, w: WaveForm, s: Seq<Voice>) -> int
    decreases s.len(),
{
    if s.len() == 0 {
        0
    } else {
        clamp_to(voices_output(env, w, s.drop_last()) + voice_output(env, w, s.last()), VOICE_SUM_LIMIT as int)
    }
}

/// Partial `u` after one sample: its phase advanced by its increment.
pub open spec fn advanced(w: WaveForm, u: UnisonVoice) -> UnisonVoice {
    UnisonVoice { phase: w.advance(u.phase as int, u.phase_incr as int) as i64, ..u }
}

/// Whether `new` is voice `old` one sample later: one sample older, at its next
/// amplitude, and, unless silent, with every partial advanced.
pub open spec fn stepped_voice(env: ADSR, w: WaveForm, old: Voice, new: Voice) -> bool {
    &&& new.note == old.note
    &&& new.age == sat_u64(old.age + 1)
    &&& new.volume == next_amplitude(env, old)
    &&& new.unisons@.len() == old.unisons@.len()
    &&& forall|k: int| 0 <= k < old.unisons@.len() ==> #[trigger] new.unisons@[k] == if next_amplitude(env, old) > MUTE_LEVEL {
        advanced(w, old.unisons@[k])
    } else {
        old.unisons@[k]
    }
}

/// The voices of `s` that are not finished, in order.
pub open spec fn prune(s: Seq<Voice>) -> Seq<Voice>
    decreases s.len(),
{
    if s.len() == 0 {
        s
    } else if is_finished(s.last()) {
        prune(s.drop_last())
    } else {
        prune(s.drop_last()).push(s.last())
    }
}

/// `x` saturated to `[-limit, limit]`.
fn clamp_exec(x: i128, limit: i128) -> (r: i128)
    requires
        limit >= 0,
    ensures
        r == clamp_to(x as int, limit as int),
{
    if x > limit {
        limit
    } else if x < -limit {
        -limit
    } else {
        x
    }
}

/// `x / d` rounded down.
pub(crate) fn floor_div(x: i128, d: i128) -> (r: i128)
    requires
        d > 0,
        x > i128::MIN,
    ensures
        r == x / d,
{
    if x >= 0 {
        x / d
    } else {
        let y: i128 = -x;
        let q: i128 = y / d;
        proof {
            vstd::arithmetic::div_mod::lemma_fundamental_div_mod(y as int, d as int);
            vstd::arithmetic::div_mod::lemma_mod_bound(y as int, d as int);
            vstd::arithmetic::div_mod::lemma_div_pos_is_pos(y as int, d as int);
            vstd::arithmetic::div_mod::lemma_div_is_ordered_by_denominator(y as int, 1, d as int);
            let m = y % d;
            if m == 0 {
                assert(x == d * (-q) + 0) by (nonlinear_arith)
                    requires
                        y == d * q + m,
                        m == 0,
                        x == -y,
                ;
                vstd::arithmetic::div_mod::lemma_fundamental_div_mod_converse(x as int, d as int, -q, 0);
            } else {
                assert(x == d * (-q - 1) + (d - m)) by (nonlinear_arith)
                    requires
                        y == d * q + m,
                        x == -y,
                ;
                vstd::arithmetic::div_mod::lemma_fundamental_div_mod_converse(x as int, d as int, -q - 1, d - m);
            }
        }
        if q * d == y {
            -q
        } else {
            -q - 1
        }
    }
}

proof fn lemma_scaled_bound(x: int, a: int, l: int)
    requires
        -l * (ONE * ONE) <= x <= l * (ONE * ONE),
        0 <= a <= ONE,
        0 <= l,
    ensures
        -l * ONE <= x * a / ((ONE * ONE) as int) <= l * ONE,
{
    let d = (ONE * ONE) as int;
    assert(-(l * ONE) * d <= x * a <= (l * ONE) * d) by (nonlinear_arith)
        requires
            -l * d <= x <= l * d,
            0 <= a <= ONE,
            0 <= l,
            d == ONE * ONE,
    ;
    vstd::arithmetic::div_mod::lemma_div_is_ordered(-(l * ONE) * d, x * a, d);
    vstd::arithmetic::div_mod::lemma_div_is_ordered(x * a, (l * ONE) * d, d);
    vstd::arithmetic::div_mod::lemma_div_multiples_vanish(-(l * ONE), d);
    vstd::arithmetic::div_mod::lemma_div_multiples_vanish(l * ONE, d);
    assert(d * (-(l * ONE)) == -(l * ONE) * d) by (nonlinear_arith);
    assert(d * (l * ONE) == (l * ONE) * d) by (nonlinear_arith);
}

/// Steps voice `v` by one sample and returns what it adds to the sample.
fn step_voice(v: &mut Voice, env: &ADSR, w: WaveForm) -> (c: i128)
    requires
        voice_wf(*old(v)),
        env.wf(),
    ensures
        voice_wf(*final(v)),
        stepped_voice(*env, w, *old(v), *final(v)),
        c == voice_output(*env, w, *old(v)),
        -10_000_000_000_000_000_000 <= c <= 10_000_000_000_000_000_000,
{
    let ghost old_v = *v;
    let stepped = env.get_volume_incr(v.volume, v.age, v.note.released);
    let a: u64 = if stepped > ONE { ONE } else { stepped };
    v.volume = a;
    if v.age < u64::MAX {
        v.age = v.age + 1;
    }
    if a <= MUTE_LEVEL {
        assert(v.unisons@ =~= old_v.unisons@);
        return 0;
    }
    let m = v.unisons.len();
    let mut ps: i128 = 0;
    let mut k: usize = 0;
    while k < m
        invariant
            m == v.unisons@.len(),
            m == old_v.unisons@.len(),
            m <= usize::MAX,
            k <= m,
            v.note == old_v.note,
            v.volume == a,
            v.age == sat_u64(old_v.age + 1),
            voice_wf(old_v),
            ps == partial_sum(w, old_v.unisons@.take(k as int)),
            -(k * (ONE * ONE)) <= ps <= k * (ONE * ONE),
            forall|j: int| 0 <= j < k ==> #[trigger] v.unisons@[j] == advanced(w, old_v.unisons@[j]),
            forall|j: int| k <= j < m ==> #[trigger] v.unisons@[j] == old_v.unisons@[j],
        decreases m - k,
    {
        let u = v.unisons[k];
        assert(old_v.unisons@[k as int] == u);
        assert(phase_ok(old_v.unisons@[k as int].phase as int) && old_v.unisons@[k as int].volume <= ONE);
        let value = w.wave_value(u.phase);
        assert(-(ONE * ONE) <= value * u.volume <= ONE * ONE) by (nonlinear_arith)
            requires
                -(ONE as int) <= value <= ONE,
                0 <= u.volume <= ONE,
        ;
        let term: i128 = (value as i128) * (u.volume as i128);
        proof {
            assert(old_v.unisons@.take(k + 1).drop_last() =~= old_v.unisons@.take(k as int));
        }
        assert(k * (ONE * ONE) <= usize::MAX * (ONE * ONE)) by (nonlinear_arith)
            requires
                k < usize::MAX,
        ;
        ps = ps + term;
        assert((k + 1) * (ONE * ONE) == k * (ONE * ONE) + ONE * ONE) by (nonlinear_arith);
        let next = w.next_phase(u.phase, u.phase_incr);
        v.unisons[k] = UnisonVoice { phase: next, phase_incr: u.phase_incr, volume: u.volume };
        k = k + 1;
    }
    proof {
        assert(old_v.unisons@.take(m as int) =~= old_v.unisons@);
    }
    let bounded = clamp_exec(ps, PARTIAL_SUM_LIMIT);
    proof {
        lemma_scaled_bound(bounded as int, a as int, 10_000_000_000);
    }
    let one_squared: i128 = 1_000_000_000_000_000_000;
    assert(one_squared == ONE * ONE);
    floor_div(bounded * (a as i128), one_squared)
}

} // verus!

verus! {

/// Whether `new` holds the voices of `old` stepped by one sample under `env`, with
/// the finished ones dropped.
pub open spec fn sample_step(env: ADSR, old: Oscillator, new: Oscillator) -> bool {
    &&& new.same_settings(old)
    &&& exists|stepped: Seq<Voice>| {
        &&& stepped.len() == old.voices@.len()
        &&& (forall|i: int| 0 <= i < stepped.len() ==> stepped_voice(env, old.waveform, #[trigger] old.voices@[i], stepped[i]))
        &&& new.voices@ == prune(stepped)
    }
}

/// The sample an oscillator gives: what its voices add, times its volume, rounded
/// down and saturated.
pub open spec fn oscillator_output(env: ADSR, osc: Oscillator) -> int {
    clamp_to(voices_output(env, osc.waveform, osc.voices@) * osc.volume / (ONE as int), OSCILLATOR_LIMIT as int)
}

proof fn lemma_prune_step(s: Seq<Voice>, j: int)
    requires
        0 <= j < s.len(),
    ensures
        prune(s.take(j + 1)) == if is_finished(s[j]) {
            prune(s.take(j))
        } else {
            prune(s.take(j)).push(s[j])
        },
{
    assert(s.take(j + 1).drop_last() =~= s.take(j));
}

impl Oscillator {
    /// Steps every voice by one sample under `adsr` and returns the oscillator's
    /// sample: the sum of what its voices add, times its volume. Voices that are
    /// released and silent are dropped afterwards.
    pub fn get_sample(&mut self, adsr: &ADSR) -> (r: i64)
        requires
            old(self).wf(),
            adsr.wf(),
        ensures
            final(self).wf(),
            sample_step(*adsr, *old(self), *final(self)),
            r == oscillator_output(*adsr, *old(self)),
            -OSCILLATOR_LIMIT <= r <= OSCILLATOR_LIMIT,
    {
        let ghost old_voices = self.voices@;
        let w = self.waveform;
        let n = self.voices.len();
        let mut sum: i128 = 0;
        let mut i: usize = 0;
        while i < n
            invariant
                n == self.voices@.len(),
                n == old_voices.len(),
                i <= n,
                adsr.wf(),
                w == old(self).waveform,
                self.same_settings(*old(self)),
                old_voices == old(self).voices@,
                old(self).wf(),
                sum == voices_output(*adsr, w, old_voices.take(i as int)),
                -VOICE_SUM_LIMIT <= sum <= VOICE_SUM_LIMIT,
                forall|j: int| 0 <= j < i ==> stepped_voice(*adsr, w, old_voices[j], #[trigger] self.voices@[j]),
                forall|j: int| 0 <= j < i ==> voice_wf(#[trigger] self.voices@[j]),
                forall|j: int| i <= j < n ==> #[trigger] self.voices@[j] == old_voices[j],
            decreases n - i,
        {
            assert(voice_wf(old_voices[i as int]));
            let c = step_voice(&mut self.voices[i], adsr, w);
            proof {
                assert(old_voices.take(i + 1).drop_last() =~= old_voices.take(i as int));
            }
            sum = clamp_exec(sum + c, VOICE_SUM_LIMIT);
            i = i + 1;
        }
        let ghost stepped = self.voices@;
        proof {
            assert(old_voices.take(n as int) =~= old_voices);
        }
        let mut w_idx: usize = 0;
        let mut j: usize = 0;
        while j < n
            invariant
                n == stepped.len(),
                j <= n,
                w_idx <= j,
                self.same_settings(*old(self)),
                old(self).wf(),
                forall|k: int| 0 <= k < n ==> voice_wf(#[trigger] stepped[k]),
                prune(stepped.take(j as int)).len() == w_idx,
                self.voices@ == prune(stepped.take(j as int)) + stepped.skip(j as int),
                forall|k: int| 0 <= k < w_idx ==> voice_wf(#[trigger] self.voices@[k]),
            decreases n - j,
        {
            proof {
                lemma_prune_step(stepped, j as int);
                assert(self.voices@[w_idx as int] == stepped[j as int]);
            }
            if self.voices[w_idx].note.released.is_some() && self.voices[w_idx].volume <= MUTE_LEVEL {
                let ghost before = self.voices@;
                self.voices.remove(w_idx);
                proof {
                    assert(self.voices@ =~= prune(stepped.take(j + 1)) + stepped.skip(j + 1));
                }
            } else {
                proof {
                    assert(self.voices@ =~= prune(stepped.take(j + 1)) + stepped.skip(j + 1));
                }
                w_idx = w_idx + 1;
            }
            j = j + 1;
        }
        proof {
            assert(stepped.take(n as int) =~= stepped);
            assert(self.voices@ =~= prune(stepped));
            lemma_prune_len(stepped);
            lemma_prune_wf(stepped);
            assert(sample_step(*adsr, *old(self), *self));
        }
        assert(-VOICE_SUM_LIMIT * ONE <= sum * self.volume <= VOICE_SUM_LIMIT * ONE) by (nonlinear_arith)
            requires
                -VOICE_SUM_LIMIT <= sum <= VOICE_SUM_LIMIT,
                0 <= self.volume <= ONE,
        ;
        let scaled = floor_div(sum * (self.volume as i128), ONE as i128);
        let out = clamp_exec(scaled, OSCILLATOR_LIMIT as i128);
        out as i64
    }
}

proof fn lemma_prune_len(s: Seq<Voice>)
    ensures
        prune(s).len() <= s.len(),
    decreases s.len(),
{
    if s.len() > 0 {
        lemma_prune_len(s.drop_last());
    }
}

proof fn lemma_prune_wf(s: Seq<Voice>)
    requires
        forall|k: int| 0 <= k < s.len() ==> voice_wf(#[trigger] s[k]),
    ensures
        forall|k: int| 0 <= k < prune(s).len() ==> voice_wf(#[trigger] prune(s)[k]),
    decreases s.len(),
{
    if s.len() > 0 {
        let t = s.drop_last();
        assert forall|k: int| 0 <= k < t.len() implies voice_wf(#[trigger] t[k]) by {
            assert(t[k] == s[k]);
        }
        lemma_prune_wf(t);
        assert(voice_wf(s[s.len() - 1]));
        let p = prune(s);
        assert forall|k: int| 0 <= k < p.len() implies voice_wf(#[trigger] p[k]) by {
            if !is_finished(s.last()) && k == p.len() - 1 {
                assert(p[k] == s.last());
            } else {
                assert(p[k] == prune(t)[k]);
            }
        }
    }
}

} // verus!

verus! {

/// Whether `new` is voice `old` carrying the partials of `osc`'s table: each
/// partial keeps its phase where its index existed before and gets a random one
/// otherwise, and takes its increment and volume from the table.
pub open spec fn resynced(osc: Oscillator, old: Voice, new: Voice) -> bool {
    &&& new.note == old.note
    &&& new.volume == old.volume
    &&& new.age == old.age
    &&& new.unisons@.len() == osc.unisons@.len()
    &&& forall|k: int| 0 <= k < new.unisons@.len() ==> {
        &&& (#[trigger] new.unisons@[k]).phase_incr == osc.partial_incr(old.note, k)
        &&& new.unisons@[k].volume == osc.unisons@[k].volume
        &&& (k < old.unisons@.len() ==> new.unisons@[k].phase == old.unisons@[k].phase)
        &&& (k >= old.unisons@.len() ==> osc.waveform.in_domain(new.unisons@[k].phase as int))
    }
}

/// Whether `new` is voice `old` with every partial's increment scaled by `num / den`.
pub open spec fn rescaled(old: Voice, new: Voice, num: int, den: int) -> bool {
    &&& new.note == old.note
    &&& new.volume == old.volume
    &&& new.age == old.age
    &&& new.unisons@.len() == old.unisons@.len()
    &&& forall|k: int| 0 <= k < old.unisons@.len() ==> #[trigger] new.unisons@[k] == rescaled_partial(old.unisons@[k], num, den)
}

/// Partial `u` with its increment scaled by `num / den`.
pub open spec fn rescaled_partial(u: UnisonVoice, num: int, den: int) -> UnisonVoice {
    UnisonVoice { phase_incr: sat_u64(u.phase_incr * num / den) as u64, ..u }
}

/// Scales the increment of every partial of `v` by `num / den`.
fn rescale_voice(v: &mut Voice, num: u64, den: u64)
    requires
        voice_wf(*old(v)),
        den > 0,
    ensures
        voice_wf(*final(v)),
        rescaled(*old(v), *final(v), num as int, den as int),
{
    let ghost start = *v;
    let m = v.unisons.len();
    let mut k: usize = 0;
    while k < m
        invariant
            m == start.unisons@.len(),
            m == v.unisons@.len(),
            k <= m,
            den > 0,
            voice_wf(start),
            v.note == start.note,
            v.volume == start.volume,
            v.age == start.age,
            forall|q: int| 0 <= q < k ==> #[trigger] v.unisons@[q] == rescaled_partial(start.unisons@[q], num as int, den as int),
            forall|q: int| k <= q < m ==> #[trigger] v.unisons@[q] == start.unisons@[q],
        decreases m - k,
    {
        let u = v.unisons[k];
        let incr = mul_div_sat(u.phase_incr, num, den);
        v.unisons[k] = UnisonVoice { phase: u.phase, phase_incr: incr, volume: u.volume };
        k = k + 1;
    }
    proof {
        assert forall|q: int| 0 <= q < m implies phase_ok((#[trigger] v.unisons@[q]).phase as int) && v.unisons@[q].volume <= ONE by {
            assert(phase_ok(start.unisons@[q].phase as int));
        }
    }
}

/// Whether `new` is `old` transposed by `semitones`.
pub open spec fn transposed(old: Oscillator, new: Oscillator, semitones: i8) -> bool {
    &&& new.transpose == semitone_ratio(semitones as int)
    &&& new.voices@.len() == old.voices@.len()
    &&& forall|i: int| 0 <= i < old.voices@.len() ==> rescaled(
        #[trigger] old.voices@[i],
        new.voices@[i],
        semitone_ratio(semitones as int),
        old.transpose as int,
    )
    &&& new.waveform == old.waveform
    &&& new.phase_start == old.phase_start
    &&& new.sample_rate == old.sample_rate
    &&& new.env_idx == old.env_idx
    &&& new.volume == old.volume
    &&& new.tune == old.tune
    &&& new.tune_cents == old.tune_cents
    &&& new.unisons == old.unisons
}

/// Whether `new` is `old` with its partial table rebuilt for `num` partials.
pub open spec fn unisons_set(old: Oscillator, new: Oscillator, num: usize) -> bool {
    &&& new.unisons@.len() == unison_count(num as int)
    &&& is_unison_table(new.unisons@, unison_count(num as int), old.tune_cents as int)
    &&& new.voices@.len() == old.voices@.len()
    &&& forall|i: int| 0 <= i < old.voices@.len() ==> resynced(
        new,
        #[trigger] old.voices@[i],
        new.voices@[i],
    )
    &&& new.waveform == old.waveform
    &&& new.phase_start == old.phase_start
    &&& new.sample_rate == old.sample_rate
    &&& new.env_idx == old.env_idx
    &&& new.volume == old.volume
    &&& new.transpose == old.transpose
    &&& new.tune == old.tune
    &&& new.tune_cents == old.tune_cents
}

/// Whether `new` is `old` tuned by `cents`.
pub open spec fn tuned(old: Oscillator, new: Oscillator, cents: i8) -> bool {
    &&& new.tune_cents == cents
    &&& new.tune == detune_ratio(10 * cents)
    &&& is_unison_table(new.unisons@, old.unisons@.len() as int, cents as int)
    &&& new.voices@.len() == old.voices@.len()
    &&& forall|i: int| 0 <= i < old.voices@.len() ==> resynced(
        new,
        #[trigger] old.voices@[i],
        new.voices@[i],
    )
    &&& new.waveform == old.waveform
    &&& new.phase_start == old.phase_start
    &&& new.sample_rate == old.sample_rate
    &&& new.env_idx == old.env_idx
    &&& new.volume == old.volume
    &&& new.transpose == old.transpose
}

/// Entry `k` of the partial table with `count` partials for a tune of `cents`.
fn unison_entry_exec(count: usize, cents: i8, k: usize) -> (u: Unison)
    requires
        1 <= count,
        k < count,
    ensures
        u == unison_entry(count as int, cents as int, k as int),
        u.volume <= ONE,
{
    let c: usize = if count % 2 == 1 { 1 } else { 0 };
    if count % 2 == 1 && k == 0 {
        return Unison { freq_mod: ONE, volume: ONE };
    }
    let p: u128 = (count / 2) as u128;
    let i: u128 = ((k - c) / 2) as u128;
    assert(i < p);
    let mag: u128 = if cents >= 0 { 10 * (cents as u128) } else { 10 * ((-(cents as i64)) as u128) };
    proof {
        lemma_pair_exponent(cents as int, p as int, i as int);
        lemma_pair_volume_fits(p as int, i as int);
        assert(mag * (p - i) <= 1280 * p) by (nonlinear_arith)
            requires
                mag <= 1280,
                i < p,
        ;
        assert(PAIR_VOLUME * (p - i) <= PAIR_VOLUME * p) by (nonlinear_arith)
            requires
                i < p,
        ;
    }
    let e: u128 = mag * (p - i) / p;
    let up: u64 = if cents >= 0 { detune_ratio_exec(e as i64) } else { detune_ratio_exec(-(e as i64)) };
    let volume: u64 = (PAIR_VOLUME as u128 * (p - i) / p) as u64;
    if (k - c) % 2 == 0 {
        Unison { freq_mod: up, volume }
    } else {
        proof {
            vstd::arithmetic::div_mod::lemma_div_is_ordered_by_denominator(ONE * ONE, 900_000_000, up as int);
        }
        Unison { freq_mod: ONE * ONE / up, volume }
    }
}

impl Oscillator {
    /// Selects another waveform. The voices keep their phases; a hard start becomes a
    /// random one.
    pub fn set_waveform(&mut self, waveform: WaveForm)
        requires
            old(self).wf(),
        ensures
            final(self).wf(),
            final(self).waveform == waveform,
            final(self).phase_start == old(self).phase_start.after_waveform_change(),
            final(self).voices == old(self).voices,
            final(self).sample_rate == old(self).sample_rate,
            final(self).env_idx == old(self).env_idx,
            final(self).volume == old(self).volume,
            final(self).transpose == old(self).transpose,
            final(self).tune == old(self).tune,
            final(self).tune_cents == old(self).tune_cents,
            final(self).unisons == old(self).unisons,
    {
        self.waveform = waveform;
        self.phase_start.change_period();
    }

    /// Sets the phase-start policy for the centered partial of new voices.
    pub fn set_start(&mut self, start: Start)
        requires
            old(self).wf(),
        ensures
            final(self).wf(),
            final(self).phase_start == match start {
                Start::Soft => PhaseStart::Soft,
                Start::Hard => PhaseStart::Hard,
                Start::Random => PhaseStart::Random,
            },
            final(self).voices == old(self).voices,
            final(self).waveform == old(self).waveform,
            final(self).sample_rate == old(self).sample_rate,
            final(self).env_idx == old(self).env_idx,
            final(self).volume == old(self).volume,
            final(self).transpose == old(self).transpose,
            final(self).tune == old(self).tune,
            final(self).tune_cents == old(self).tune_cents,
            final(self).unisons == old(self).unisons,
    {
        self.phase_start = match start {
            Start::Soft => PhaseStart::Soft,
            Start::Hard => PhaseStart::Hard,
            Start::Random => PhaseStart::Random,
        };
    }

    /// Transposes by `semitones`: the ratio becomes `2^(semitones/12)` and every
    /// partial of every voice has its increment scaled by the new ratio over the old.
    pub fn transpose(&mut self, semitones: i8)
        requires
            old(self).wf(),
        ensures
            final(self).wf(),
            transposed(*old(self), *final(self), semitones),
    {
        let ratio = transpose_ratio(semitones);
        let previous = self.transpose;
        let n = self.voices.len();
        let mut i: usize = 0;
        while i < n
            invariant
                n == self.voices@.len(),
                n == old(self).voices@.len(),
                i <= n,
                previous == old(self).transpose,
                previous > 0,
                self.same_settings(*old(self)),
                old(self).wf(),
                forall|j: int| 0 <= j < i ==> rescaled(old(self).voices@[j], #[trigger] self.voices@[j], ratio as int, previous as int),
                forall|j: int| 0 <= j < i ==> voice_wf(#[trigger] self.voices@[j]),
                forall|j: int| i <= j < n ==> #[trigger] self.voices@[j] == old(self).voices@[j],
            decreases n - i,
        {
            assert(voice_wf(self.voices@[i as int]));
            rescale_voice(&mut self.voices[i], ratio, previous);
            i = i + 1;
        }
        self.transpose = ratio;
    }
}

} // verus!

verus! {

/// Gives voice `v` one partial per entry of `table`: each keeps its phase where its
/// index existed and starts at random otherwise, with its increment over `base` and
/// its volume from the table.
fn resync_voice(v: &mut Voice, table: &Vec<Unison>, base: u64, w: WaveForm)
    requires
        voice_wf(*old(v)),
        1 <= table@.len(),
        forall|k: int| 0 <= k < table@.len() ==> #[trigger] table@[k].volume <= ONE,
    ensures
        voice_wf(*final(v)),
        final(v).note == old(v).note,
        final(v).volume == old(v).volume,
        final(v).age == old(v).age,
        final(v).unisons@.len() == table@.len(),
        forall|k: int| 0 <= k < table@.len() ==> {
            &&& (#[trigger] final(v).unisons@[k]).phase_incr == partial_increment(base as int, table@[k].freq_mod as int)
            &&& final(v).unisons@[k].volume == table@[k].volume
            &&& (k < old(v).unisons@.len() ==> final(v).unisons@[k].phase == old(v).unisons@[k].phase)
            &&& (k >= old(v).unisons@.len() ==> w.in_domain(final(v).unisons@[k].phase as int))
        },
{
    let count = table.len();
    let old_len = v.unisons.len();
    let mut partials: Vec<UnisonVoice> = Vec::with_capacity(count);
    let mut k: usize = 0;
    while k < count
        invariant
            count == table@.len(),
            old_len == old(v).unisons@.len(),
            *v == *old(v),
            voice_wf(*old(v)),
            forall|q: int| 0 <= q < table@.len() ==> #[trigger] table@[q].volume <= ONE,
            k <= count,
            partials@.len() == k,
            forall|q: int| 0 <= q < k ==> {
                &&& (#[trigger] partials@[q]).phase_incr == partial_increment(base as int, table@[q].freq_mod as int)
                &&& partials@[q].volume == table@[q].volume
                &&& (q < old_len ==> partials@[q].phase == old(v).unisons@[q].phase)
                &&& (q >= old_len ==> w.in_domain(partials@[q].phase as int))
                &&& phase_ok(partials@[q].phase as int)
            },
        decreases count - k,
    {
        let u = table[k];
        let phase: i64 = if k < old_len {
            assert(phase_ok(old(v).unisons@[k as int].phase as int));
            v.unisons[k].phase
        } else {
            random_phase(w)
        };
        let incr = mul_div_sat(base, u.freq_mod, ONE);
        partials.push(UnisonVoice { phase, phase_incr: incr, volume: u.volume });
        k = k + 1;
    }
    v.unisons = partials;
}

impl Oscillator {
    /// Rebuilds the partial table with `num` partials (at least one): a centered partial when the count is odd, and symmetric pairs,
    /// innermost loudest, detuned by fractions of the tune. Every voice then carries
    /// the new table: partials keep their phases where their index existed, new ones
    /// start at random, and all take increment and volume from the table.
    pub fn set_unison_num(&mut self, num: usize)
        requires
            old(self).wf_but_table(),
        ensures
            final(self).wf(),
            unisons_set(*old(self), *final(self), num),
    {
        let count: usize = if num < 1 { 1 } else { num };
        let mut table: Vec<Unison> = Vec::with_capacity(count);
        let mut k: usize = 0;
        while k < count
            invariant
                1 <= count,
                k <= count,
                table@.len() == k,
                forall|q: int| 0 <= q < k ==> #[trigger] table@[q] == unison_entry(count as int, self.tune_cents as int, q),
                forall|q: int| 0 <= q < k ==> #[trigger] table@[q].volume <= ONE,
            decreases count - k,
        {
            let u = unison_entry_exec(count, self.tune_cents, k);
            table.push(u);
            k = k + 1;
        }
        let n = self.voices.len();
        let mut i: usize = 0;
        while i < n
            invariant
                n == self.voices@.len(),
                n == old(self).voices@.len(),
                i <= n,
                self.same_settings(*old(self)),
                old(self).wf_but_table(),
                table@.len() == count,
                1 <= count,
                forall|q: int| 0 <= q < count ==> #[trigger] table@[q].volume <= ONE,
                forall|j: int| 0 <= j < i ==> voice_wf(#[trigger] self.voices@[j]),
                forall|j: int| 0 <= j < i ==> {
                    let ov = old(self).voices@[j];
                    let nv = #[trigger] self.voices@[j];
                    &&& nv.note == ov.note
                    &&& nv.volume == ov.volume
                    &&& nv.age == ov.age
                    &&& nv.unisons@.len() == count
                    &&& forall|k: int| 0 <= k < count ==> {
                        &&& (#[trigger] nv.unisons@[k]).phase_incr == partial_increment(
                            base_increment(ov.note.frequency as int, self.sample_rate as int, self.transpose as int),
                            table@[k].freq_mod as int,
                        )
                        &&& nv.unisons@[k].volume == table@[k].volume
                        &&& (k < ov.unisons@.len() ==> nv.unisons@[k].phase == ov.unisons@[k].phase)
                        &&& (k >= ov.unisons@.len() ==> self.waveform.in_domain(nv.unisons@[k].phase as int))
                    }
                },
                forall|j: int| i <= j < n ==> #[trigger] self.voices@[j] == old(self).voices@[j],
            decreases n - i,
        {
            assert(voice_wf(self.voices@[i as int]));
            let base = base_increment_exec(self.voices[i].note.frequency, self.sample_rate, self.transpose);
            let w = self.waveform;
            resync_voice(&mut self.voices[i], &table, base, w);
            i = i + 1;
        }
        self.unisons = table;
        proof {
            assert forall|i: int| 0 <= i < old(self).voices@.len() implies resynced(
                *self,
                #[trigger] old(self).voices@[i],
                self.voices@[i],
            ) by {
                let nv = self.voices@[i];
                assert forall|k: int| 0 <= k < nv.unisons@.len() implies
                    (#[trigger] nv.unisons@[k]).phase_incr == self.partial_incr(old(self).voices@[i].note, k) by {
                }
            }
        }
    }

    /// Tunes the detuned partials by `cents`: the tune ratio becomes
    /// `2^(cents/1200)` and the partial table is rebuilt with its present count.
    pub fn tune(&mut self, cents: i8)
        requires
            old(self).wf(),
        ensures
            final(self).wf(),
            tuned(*old(self), *final(self), cents),
    {
        let ratio = detune_ratio_exec(10 * (cents as i64));
        self.tune_cents = cents;
        self.tune = ratio;
        self.update_unison();
    }

    /// Rebuilds the partial table with its present count, after a change of tune.
    fn update_unison(&mut self)
        requires
            old(self).wf_but_table(),
        ensures
            final(self).wf(),
            is_unison_table(final(self).unisons@, old(self).unisons@.len() as int, old(self).tune_cents as int),
            final(self).voices@.len() == old(self).voices@.len(),
            forall|i: int| 0 <= i < old(self).voices@.len() ==> resynced(
                *final(self),
                #[trigger] old(self).voices@[i],
                final(self).voices@[i],
            ),
            final(self).waveform == old(self).waveform,
            final(self).phase_start == old(self).phase_start,
            final(self).sample_rate == old(self).sample_rate,
            final(self).env_idx == old(self).env_idx,
            final(self).volume == old(self).volume,
            final(self).transpose == old(self).transpose,
            final(self).tune == old(self).tune,
            final(self).tune_cents == old(self).tune_cents,
    {
        let count = self.unisons.len();
        self.set_unison_num(count);
    }
}

} // verus!

verus! {

/// Asking twice for a voice for the same unreleased note leaves one voice: the
/// second request changes nothing.
pub proof fn lemma_create_voice_idempotent(a: Oscillator, b: Oscillator, c: Oscillator, note: Note)
    requires
        a.wf(),
        note.released is None,
        voice_created(a, b, note),
        voice_created(b, c, note),
    ensures
        c.voices@ == b.voices@,
{
    if !has_unreleased(a, note) {
        let last = (b.voices@.len() - 1) as int;
        assert(b.voices@[last] == b.voices@.last());
        assert(holds_unreleased(b.voices@[last], note));
        assert(has_unreleased(b, note));
    } else if has_unreleased(a, note) {
        let i = choose|i: int| 0 <= i < a.voices@.len() && holds_unreleased(#[trigger] a.voices@[i], note);
        assert(holds_unreleased(b.voices@[i], note));
        assert(has_unreleased(b, note));
    }
}

/// The partial table follows the parity rule: with an odd count the first partial
/// is centered (ratio and volume 1), and the others form pairs of equal volume
/// whose ratios are reciprocal, the inner pairs at least as loud as the outer.
pub proof fn lemma_unison_parity(table: Seq<Unison>, count: int, cents: int)
    requires
        1 <= count,
        -128 <= cents <= 127,
        is_unison_table(table, count, cents),
    ensures
        has_center(count) ==> table[0] == (Unison { freq_mod: ONE, volume: ONE }),
        forall|i: int| 0 <= i < pair_count(count) ==> {
            &&& (#[trigger] table[pair_index(count, i)]).volume == table[pair_index(count, i) + 1].volume
            &&& table[pair_index(count, i) + 1].freq_mod == ONE * ONE / (table[pair_index(count, i)].freq_mod as int)
            &&& (i + 1 < pair_count(count) ==> table[pair_index(count, i)].volume >= table[pair_index(count, i + 1)].volume)
        },
        table.len() == center_offset(count) + 2 * pair_count(count),
{
    let c: int = center_offset(count);
    let p = pair_count(count);
    if has_center(count) {
        assert(table[0] == unison_entry(count, cents, 0));
    }
    assert forall|i: int| 0 <= i < p implies {
        &&& (#[trigger] table[pair_index(count, i)]).volume == table[pair_index(count, i) + 1].volume
        &&& table[pair_index(count, i) + 1].freq_mod == ONE * ONE / (table[pair_index(count, i)].freq_mod as int)
        &&& (i + 1 < p ==> table[pair_index(count, i)].volume >= table[pair_index(count, i + 1)].volume)
    } by {
        assert(table[c + 2 * i] == unison_entry(count, cents, c + 2 * i));
        assert(table[c + 2 * i + 1] == unison_entry(count, cents, c + 2 * i + 1));
        assert((2 * i) / 2 == i && (2 * i) % 2 == 0);
        assert((2 * i + 1) / 2 == i && (2 * i + 1) % 2 == 1);
        let e = pair_exponent(cents, p, i);
        lemma_pair_exponent(cents, p, i);
        lemma_detune_ratio_bounds(e);
        if i + 1 < p {
            assert(table[c + 2 * (i + 1)] == unison_entry(count, cents, c + 2 * (i + 1)));
            assert((2 * (i + 1)) / 2 == i + 1 && (2 * (i + 1)) % 2 == 0);
            assert(PAIR_VOLUME * (p - i - 1) <= PAIR_VOLUME * (p - i)) by (nonlinear_arith)
                requires
                    i + 1 < p,
            ;
            vstd::arithmetic::div_mod::lemma_div_is_ordered(PAIR_VOLUME * (p - i - 1), PAIR_VOLUME * (p - i), p);
            lemma_pair_volume_fits(p, i);
            lemma_pair_volume_fits(p, i + 1);
        }
        lemma_pair_volume_fits(p, i);
    }
}

proof fn lemma_pair_volume_fits(p: int, i: int)
    requires
        0 <= i < p,
    ensures
        0 <= PAIR_VOLUME * (p - i) / p <= PAIR_VOLUME,
{
    assert(0 <= PAIR_VOLUME * (p - i) <= PAIR_VOLUME * p) by (nonlinear_arith)
        requires
            0 <= i < p,
    ;
    vstd::arithmetic::div_mod::lemma_div_is_ordered(PAIR_VOLUME * (p - i), PAIR_VOLUME * p, p);
    vstd::arithmetic::div_mod::lemma_div_multiples_vanish(PAIR_VOLUME as int, p);
    assert(PAIR_VOLUME * p == p * PAIR_VOLUME) by (nonlinear_arith);
    vstd::arithmetic::div_mod::lemma_div_pos_is_pos(PAIR_VOLUME * (p - i), p);
}

proof fn lemma_pair_exponent(cents: int, p: int, i: int)
    requires
        -128 <= cents <= 127,
        0 <= i < p,
    ensures
        -1280 <= pair_exponent(cents, p, i) <= 1280,
{
    let mag = if cents >= 0 { 10 * cents } else { 10 * (-cents) };
    assert(0 <= mag * (p - i) <= mag * p) by (nonlinear_arith)
        requires
            0 <= i < p,
            0 <= mag,
    ;
    vstd::arithmetic::div_mod::lemma_div_is_ordered(mag * (p - i), mag * p, p);
    vstd::arithmetic::div_mod::lemma_div_multiples_vanish(mag, p);
    assert(mag * p == p * mag) by (nonlinear_arith);
    vstd::arithmetic::div_mod::lemma_div_pos_is_pos(mag * (p - i), p);
}

proof fn lemma_detune_ratio_bounds(e: int)
    requires
        -1280 <= e <= 1280,
    ensures
        900_000_000 <= detune_ratio(e) <= 1_100_000_000,
{
    let c = if e >= 0 { e } else { -e };
    let x = c * LN2 / 12000;
    assert(c * LN2 <= 1280 * LN2) by (nonlinear_arith)
        requires
            c <= 1280,
    ;
    assert(0 <= c * LN2) by (nonlinear_arith)
        requires
            0 <= c,
    ;
    vstd::arithmetic::div_mod::lemma_div_is_ordered(c * LN2, 1280 * LN2, 12000);
    vstd::arithmetic::div_mod::lemma_div_pos_is_pos(c * LN2, 12000);
    assert(0 <= x <= 74_000_000);
    assert(0 <= x * x <= 74_000_000 * 74_000_000) by (nonlinear_arith)
        requires
            0 <= x <= 74_000_000,
    ;
    assert(0 <= x * x * x <= 74_000_000 * (74_000_000 * 74_000_000)) by (nonlinear_arith)
        requires
            0 <= x <= 74_000_000,
            0 <= x * x <= 74_000_000 * 74_000_000,
    ;
    vstd::arithmetic::div_mod::lemma_div_is_ordered(x * x, 2_738_000 * (2 * ONE), 2 * ONE);
    vstd::arithmetic::div_mod::lemma_div_multiples_vanish(2_738_000, 2 * ONE);
    vstd::arithmetic::div_mod::lemma_div_is_ordered(x * x * x, 67_542 * (6 * ONE * ONE), 6 * ONE * ONE);
    vstd::arithmetic::div_mod::lemma_div_multiples_vanish(67_542, 6 * ONE * ONE);
    vstd::arithmetic::div_mod::lemma_div_pos_is_pos(x * x, 2 * ONE);
    vstd::arithmetic::div_mod::lemma_div_pos_is_pos(x * x * x, 6 * ONE * ONE);
    let r = crate::units::tenths_ratio(c);
    assert(ONE <= r <= 1_100_000_000);
    if e < 0 {
        vstd::arithmetic::div_mod::lemma_div_is_ordered_by_denominator(ONE * ONE, ONE as int, r);
        vstd::arithmetic::div_mod::lemma_div_is_ordered_by_denominator(ONE * ONE, r, 1_100_000_000);
        vstd::arithmetic::div_mod::lemma_div_by_multiple(ONE as int, ONE as int);
    }
}

} // verus!
