use vstd::prelude::*;
pub use crate::envelope::{ADSR, ADSRParam, Released};
pub use crate::oscillator::{Oscillator, Start};
use crate::error::BaseError;
use crate::envelope::parameter_set;
use crate::oscillator::{
    oscillator_output, sample_step, voice_created, voice_released, transposed, tuned,
    unisons_set, OSCILLATOR_LIMIT,
};
use crate::units::{ONE, decibel_gain, decibel_gain_exec};
pub use crate::waves::WaveForm;

verus! {

/// Identity of the key that triggered a note; only equality matters.
pub type KeyCode = u32;

/// A triggered note: its frequency in millihertz, the key that triggered it, and,
/// once released, when and at which amplitude.
#[derive(Clone, Copy, Debug)]
pub struct Note {
    pub frequency: u32,
    pub triggered_by: KeyCode,
    pub released: Option<Released>,
}

impl Note {
    /// A note of `frequency` millihertz triggered by `key`, not released.
    pub fn new(frequency: u32, key: KeyCode) -> (r: Self)
        ensures
            r.frequency == frequency,
            r.triggered_by == key,
            r.released is None,
    {
        Note { frequency, triggered_by: key, released: None }
    }

    /// Two notes are the same note when frequency and key agree.
    pub open spec fn same(self, other: Note) -> bool {
        self.frequency == other.frequency && self.triggered_by == other.triggered_by
    }
}

impl PartialEq for Note {
    fn eq(&self, other: &Note) -> (r: bool)
        ensures
            r == self.same(*other),
    {
        self.frequency == other.frequency && self.triggered_by == other.triggered_by
    }
}

impl vstd::std_specs::cmp::PartialEqSpecImpl for Note {
    open spec fn obeys_eq_spec() -> bool {
        true
    }

    open spec fn eq_spec(&self, other: &Note) -> bool {
        self.same(*other)
    }
}

} // verus!

verus! {

/// Most oscillators a synthesizer holds.
pub const MAX_OSCILLATORS: usize = 16;

/// A numeric type that output samples can take: its range, and the conversion of a
/// level within that range.
pub trait SampleFormat: Sized + Copy {
    spec fn spec_min() -> int;

    spec fn spec_max() -> int;

    spec fn spec_value(self) -> int;

    /// The largest sample value.
    fn max_amplitude() -> (r: u64)
        ensures
            r == Self::spec_max(),
            0 < r <= u32::MAX;

    /// The sample of value `x`.
    fn from_level(x: i128) -> (r: Self)
        requires
            Self::spec_min() <= x <= Self::spec_max(),
        ensures
            r.spec_value() == x;

    /// The smallest sample value.
    fn min_amplitude() -> (r: i64)
        ensures
            r == Self::spec_min(),
            -(u32::MAX as int) <= r <= 0;
}

impl SampleFormat for u8 {
    open spec fn spec_min() -> int {
        0
    }

    open spec fn spec_max() -> int {
        u8::MAX as int
    }

    open spec fn spec_value(self) -> int {
        self as int
    }

    fn max_amplitude() -> (r: u64) {
        u8::MAX as u64
    }

    fn from_level(x: i128) -> (r: Self) {
        x as u8
    }

    fn min_amplitude() -> (r: i64) {
        0
    }
}

impl SampleFormat for i8 {
    open spec fn spec_min() -> int {
        i8::MIN as int
    }

    open spec fn spec_max() -> int {
        i8::MAX as int
    }

    open spec fn spec_value(self) -> int {
        self as int
    }

    fn max_amplitude() -> (r: u64) {
        i8::MAX as u64
    }

    fn from_level(x: i128) -> (r: Self) {
        x as i8
    }

    fn min_amplitude() -> (r: i64) {
        i8::MIN as i64
    }
}

impl SampleFormat for i16 {
    open spec fn spec_min() -> int {
        i16::MIN as int
    }

    open spec fn spec_max() -> int {
        i16::MAX as int
    }

    open spec fn spec_value(self) -> int {
        self as int
    }

    fn max_amplitude() -> (r: u64) {
        i16::MAX as u64
    }

    fn from_level(x: i128) -> (r: Self) {
        x as i16
    }

    fn min_amplitude() -> (r: i64) {
        i16::MIN as i64
    }
}

impl SampleFormat for i32 {
    open spec fn spec_min() -> int {
        i32::MIN as int
    }

    open spec fn spec_max() -> int {
        i32::MAX as int
    }

    open spec fn spec_value(self) -> int {
        self as int
    }

    fn max_amplitude() -> (r: u64) {
        i32::MAX as u64
    }

    fn from_level(x: i128) -> (r: Self) {
        x as i32
    }

    fn min_amplitude() -> (r: i64) {
        i32::MIN as i64
    }
}

/// `x` clamped to the range of sample type `S`.
pub open spec fn clamp_sample<S: SampleFormat>(x: int) -> int {
    if x < S::spec_min() {
        S::spec_min()
    } else if x > S::spec_max() {
        S::spec_max()
    } else {
        x
    }
}

} // verus!

verus! {

/// The sum of the samples of the oscillators in `oscs`, each under the envelope it
/// refers to in `envs`.
pub open spec fn mix_level(oscs: Seq<Oscillator>, envs: Seq<ADSR>) -> int
    decreases oscs.len(),
{
    if oscs.len() == 0 {
        0
    } else {
        mix_level(oscs.drop_last(), envs) + oscillator_output(envs[oscs.last().env_idx as int], oscs.last())
    }
}

/// Whether `new` is `old` one sample later and `r` the sample it gave: every
/// oscillator stepped under the envelope it refers to, and `r` the sum of their
/// samples times the master gain, rounded down and clamped to the range of `S`.
pub open spec fn sample_produced<S: SampleFormat>(old: Synth<S>, new: Synth<S>, r: S) -> bool {
    &&& new.same_but_voices(old)
    &&& forall|i: int| 0 <= i < old.oscillators@.len() ==> sample_step(
        old.envelopes@[(#[trigger] old.oscillators@[i]).env_idx as int],
        old.oscillators@[i],
        new.oscillators@[i],
    )
    &&& r.spec_value() == clamp_sample::<S>(
        mix_level(old.oscillators@, old.envelopes@) * old.volume / ((ONE * ONE) as int),
    )
}

/// Whether `new` is `old` after a note of `freq` millihertz was pressed with `key`:
/// every oscillator was asked to start a voice for it.
pub open spec fn note_started<S: SampleFormat>(old: Synth<S>, new: Synth<S>, freq: u32, key: KeyCode) -> bool {
    &&& new.same_but_voices(old)
    &&& forall|i: int| 0 <= i < old.oscillators@.len() ==> voice_created(
        #[trigger] old.oscillators@[i],
        new.oscillators@[i],
        Note { frequency: freq, triggered_by: key, released: None },
    )
}

/// Pressing a key for a note that is still held starts no second voice: the
/// second press leaves every oscillator's voices as they were.
pub proof fn lemma_note_on_idempotent<S: SampleFormat>(a: Synth<S>, b: Synth<S>, c: Synth<S>, freq: u32, key: KeyCode)
    requires
        a.wf(),
        note_started(a, b, freq, key),
        note_started(b, c, freq, key),
    ensures
        c.oscillators@.len() == b.oscillators@.len(),
        forall|i: int| 0 <= i < c.oscillators@.len() ==> (#[trigger] c.oscillators@[i]).voices@ == b.oscillators@[i].voices@,
{
    let note = Note { frequency: freq, triggered_by: key, released: None };
    assert forall|i: int| 0 <= i < c.oscillators@.len() implies (#[trigger] c.oscillators@[i]).voices@ == b.oscillators@[i].voices@ by {
        assert(a.oscillators@[i].wf());
        crate::oscillator::lemma_create_voice_idempotent(a.oscillators@[i], b.oscillators@[i], c.oscillators@[i], note);
    }
}

/// A polyphonic synthesizer producing samples of type `S`: oscillators, the
/// envelopes they refer to, and a master gain.
pub struct Synth<S: SampleFormat> {
    pub sample_rate: u32,
    pub volume: u64,
    pub oscillators: Vec<Oscillator>,
    pub envelopes: Vec<ADSR>,
    pub _sample_type: core::marker::PhantomData<S>,
}

impl<S: SampleFormat> Synth<S> {
    pub open spec fn wf(self) -> bool {
        &&& self.sample_rate >= 1
        &&& self.volume <= (u32::MAX as int) * ONE
        &&& self.oscillators@.len() <= MAX_OSCILLATORS
        &&& forall|i: int| 0 <= i < self.oscillators@.len() ==> {
            &&& (#[trigger] self.oscillators@[i]).wf()
            &&& self.oscillators@[i].env_idx < self.envelopes@.len()
        }
        &&& forall|e: int| 0 <= e < self.envelopes@.len() ==> (#[trigger] self.envelopes@[e]).wf()
    }

    /// A synthesizer at `sample_rate` with no oscillator, no envelope, and a gain of 1024.
    pub fn new(sample_rate: u32) -> (r: Self)
        requires
            sample_rate >= 1,
        ensures
            r.wf(),
            r.sample_rate == sample_rate,
            r.volume == 1024 * ONE,
            r.oscillators@.len() == 0,
            r.envelopes@.len() == 0,
    {
        Synth {
            sample_rate,
            volume: 1024 * ONE,
            oscillators: Vec::new(),
            envelopes: Vec::new(),
            _sample_type: core::marker::PhantomData,
        }
    }

    /// Appends an oscillator.
    pub fn add_osc(&mut self, osc: Oscillator)
        requires
            old(self).wf(),
            osc.wf(),
            osc.env_idx < old(self).envelopes@.len(),
            old(self).oscillators@.len() < MAX_OSCILLATORS,
        ensures
            final(self).wf(),
            final(self).oscillators@ == old(self).oscillators@.push(osc),
            final(self).envelopes == old(self).envelopes,
            final(self).volume == old(self).volume,
            final(self).sample_rate == old(self).sample_rate,
    {
        self.oscillators.push(osc);
        assert forall|i: int| 0 <= i < self.oscillators@.len() implies {
            &&& (#[trigger] self.oscillators@[i]).wf()
            &&& self.oscillators@[i].env_idx < self.envelopes@.len()
        } by {
            if i < old(self).oscillators@.len() {
                assert(self.oscillators@[i] == old(self).oscillators@[i]);
            }
        }
    }

    /// Appends an envelope.
    pub fn add_env(&mut self, env: ADSR)
        requires
            old(self).wf(),
            env.wf(),
        ensures
            final(self).wf(),
            final(self).envelopes@ == old(self).envelopes@.push(env),
            final(self).oscillators == old(self).oscillators,
            final(self).volume == old(self).volume,
            final(self).sample_rate == old(self).sample_rate,
    {
        self.envelopes.push(env);
        assert forall|e: int| 0 <= e < self.envelopes@.len() implies (#[trigger] self.envelopes@[e]).wf() by {
            if e < old(self).envelopes@.len() {
                assert(self.envelopes@[e] == old(self).envelopes@[e]);
            }
        }
    }

    /// Sets the master volume to `volume` decibels: an error outside `[-96, 0]`, which
    /// leaves the synthesizer unchanged; otherwise the gain becomes the largest sample
    /// value times `10^(volume/20)`.
    pub fn set_volume(&mut self, volume: i32) -> (r: Result<(), BaseError>)
        requires
            old(self).wf(),
        ensures
            final(self).wf(),
            r is Ok <==> -96 <= volume <= 0,
            r is Err ==> r matches Err(BaseError::SynthError(_)),
            r is Ok ==> final(self).volume == S::spec_max() * decibel_gain(volume as int),
            r is Err ==> final(self).volume == old(self).volume,
            final(self).oscillators == old(self).oscillators,
            final(self).envelopes == old(self).envelopes,
            final(self).sample_rate == old(self).sample_rate,
    {
        if volume > 0 || volume < -96 {
            return Err(BaseError::SynthError("[-96, 0] dB is the range for volume".to_owned()));
        }
        let gain = decibel_gain_exec(volume);
        let max = S::max_amplitude();
        assert(max * gain <= (u32::MAX as int) * ONE) by (nonlinear_arith)
            requires
                0 < max <= u32::MAX,
                0 < gain <= ONE,
        ;
        self.volume = max * gain;
        Ok(())
    }

    /// Whether any oscillator is sounding a voice.
    pub fn playing(&self) -> (r: bool)
        ensures
            r == exists|i: int| 0 <= i < self.oscillators@.len() && (#[trigger] self.oscillators@[i]).voices@.len() > 0,
    {
        let n = self.oscillators.len();
        let mut i: usize = 0;
        while i < n
            invariant
                n == self.oscillators@.len(),
                i <= n,
                forall|j: int| 0 <= j < i ==> (#[trigger] self.oscillators@[j]).voices@.len() == 0,
            decreases n - i,
        {
            if self.oscillators[i].has_active_voices() {
                return true;
            }
            i = i + 1;
        }
        false
    }
}

} // verus!

verus! {

impl<S: SampleFormat> Synth<S> {
    /// Everything but the oscillators is equal, and the oscillators are as many.
    pub open spec fn same_but_voices(self, other: Synth<S>) -> bool {
        &&& self.sample_rate == other.sample_rate
        &&& self.volume == other.volume
        &&& self.envelopes == other.envelopes
        &&& self.oscillators@.len() == other.oscillators@.len()
    }

    /// Starts a note of `freq` millihertz triggered by `key` on every oscillator.
    pub fn note_on(&mut self, freq: u32, key: KeyCode)
        requires
            old(self).wf(),
        ensures
            final(self).wf(),
            note_started(*old(self), *final(self), freq, key),
    {
        let note = Note::new(freq, key);
        let n = self.oscillators.len();
        let mut i: usize = 0;
        while i < n
            invariant
                n == self.oscillators@.len(),
                i <= n,
                note == (Note { frequency: freq, triggered_by: key, released: None }),
                self.same_but_voices(*old(self)),
                old(self).wf(),
                forall|j: int| 0 <= j < i ==> voice_created(old(self).oscillators@[j], #[trigger] self.oscillators@[j], note),
                forall|j: int| 0 <= j < i ==> (#[trigger] self.oscillators@[j]).wf(),
                forall|j: int| i <= j < n ==> #[trigger] self.oscillators@[j] == old(self).oscillators@[j],
            decreases n - i,
        {
            assert(self.oscillators@[i as int].wf());
            self.oscillators[i].create_voice(&note);
            i = i + 1;
        }
    }

    /// Lets go of `key` on every oscillator.
    pub fn note_off(&mut self, key: KeyCode)
        requires
            old(self).wf(),
        ensures
            final(self).wf(),
            final(self).same_but_voices(*old(self)),
            forall|i: int| 0 <= i < old(self).oscillators@.len() ==> voice_released(
                #[trigger] old(self).oscillators@[i],
                final(self).oscillators@[i],
                key,
            ),
    {
        let n = self.oscillators.len();
        let mut i: usize = 0;
        while i < n
            invariant
                n == self.oscillators@.len(),
                i <= n,
                self.same_but_voices(*old(self)),
                old(self).wf(),
                forall|j: int| 0 <= j < i ==> voice_released(old(self).oscillators@[j], #[trigger] self.oscillators@[j], key),
                forall|j: int| 0 <= j < i ==> (#[trigger] self.oscillators@[j]).wf(),
                forall|j: int| i <= j < n ==> #[trigger] self.oscillators@[j] == old(self).oscillators@[j],
            decreases n - i,
        {
            assert(self.oscillators@[i as int].wf());
            self.oscillators[i].voice_off(key);
            i = i + 1;
        }
    }

    /// Produces the next sample: the sum of every oscillator's sample under the
    /// envelope it refers to, times the master gain (both scaled by `ONE`), rounded down and clamped to the
    /// range of `S`. Every oscillator's voices advance by one sample.
    pub fn next_sample(&mut self) -> (r: S)
        requires
            old(self).wf(),
        ensures
            final(self).wf(),
            sample_produced(*old(self), *final(self), r),
    {
        let n = self.oscillators.len();
        let mut level: i128 = 0;
        let mut i: usize = 0;
        while i < n
            invariant
                n == self.oscillators@.len(),
                n <= MAX_OSCILLATORS,
                i <= n,
                self.same_but_voices(*old(self)),
                old(self).wf(),
                level == mix_level(old(self).oscillators@.take(i as int), old(self).envelopes@),
                -(i * OSCILLATOR_LIMIT) <= level <= i * OSCILLATOR_LIMIT,
                forall|j: int| 0 <= j < i ==> sample_step(
                    old(self).envelopes@[old(self).oscillators@[j].env_idx as int],
                    old(self).oscillators@[j],
                    #[trigger] self.oscillators@[j],
                ),
                forall|j: int| 0 <= j < i ==> (#[trigger] self.oscillators@[j]).wf(),
                forall|j: int| 0 <= j < i ==> (#[trigger] self.oscillators@[j]).env_idx == old(self).oscillators@[j].env_idx,
                forall|j: int| i <= j < n ==> #[trigger] self.oscillators@[j] == old(self).oscillators@[j],
            decreases n - i,
        {
            assert(self.oscillators@[i as int].wf());
            let e = self.oscillators[i].env_idx;
            assert(self.envelopes@[e as int].wf());
            let s = self.oscillators[i].get_sample(&self.envelopes[e]);
            proof {
                let t = old(self).oscillators@.take(i + 1);
                assert(t.drop_last() =~= old(self).oscillators@.take(i as int));
                assert(t.last() == old(self).oscillators@[i as int]);
                assert((i + 1) * OSCILLATOR_LIMIT == i * OSCILLATOR_LIMIT + OSCILLATOR_LIMIT) by (nonlinear_arith);
                assert(i * OSCILLATOR_LIMIT <= 16 * OSCILLATOR_LIMIT) by (nonlinear_arith)
                    requires
                        i <= 16,
                ;
            }
            level = level + s as i128;
            i = i + 1;
        }
        proof {
            assert(old(self).oscillators@.take(n as int) =~= old(self).oscillators@);
            assert(n * OSCILLATOR_LIMIT <= 16 * OSCILLATOR_LIMIT) by (nonlinear_arith)
                requires
                    n <= 16,
            ;
        }
        let bound: i128 = 16 * (OSCILLATOR_LIMIT as i128);
        assert(-bound * ((u32::MAX as int) * ONE) <= level * self.volume <= bound * ((u32::MAX as int) * ONE)) by (nonlinear_arith)
            requires
                -bound <= level <= bound,
                0 <= self.volume <= (u32::MAX as int) * ONE,
                bound > 0,
        ;
        let one_squared: i128 = 1_000_000_000_000_000_000;
        assert(one_squared == ONE * ONE);
        let scaled = crate::oscillator::floor_div(level * (self.volume as i128), one_squared);
        let lo = S::min_amplitude() as i128;
        let hi = S::max_amplitude() as i128;
        let clamped: i128 = if scaled < lo { lo } else if scaled > hi { hi } else { scaled };
        S::from_level(clamped)
    }
}

} // verus!

verus! {

impl<S: SampleFormat> Synth<S> {
    /// Whether `new` is `old` with only oscillator `idx` changed, to a well-formed one.
    pub open spec fn only_oscillator_changed(self, new: Synth<S>, idx: int) -> bool {
        &&& new.sample_rate == self.sample_rate
        &&& new.volume == self.volume
        &&& new.envelopes == self.envelopes
        &&& new.oscillators@ == self.oscillators@.update(idx, new.oscillators@[idx])
    }

    proof fn lemma_update_keeps_wf(self, new: Synth<S>, idx: int)
        requires
            self.wf(),
            0 <= idx < self.oscillators@.len(),
            self.only_oscillator_changed(new, idx),
            new.oscillators@[idx].wf(),
            new.oscillators@[idx].env_idx < new.envelopes@.len(),
        ensures
            new.wf(),
    {
        assert forall|i: int| 0 <= i < new.oscillators@.len() implies {
            &&& (#[trigger] new.oscillators@[i]).wf()
            &&& new.oscillators@[i].env_idx < new.envelopes@.len()
        } by {
            if i != idx {
                assert(new.oscillators@[i] == self.oscillators@[i]);
            }
        }
    }

    /// Rebuilds the partial table of oscillator `osc_idx` for `num` partials.
    pub fn set_unisons(&mut self, osc_idx: usize, num: usize)
        requires
            old(self).wf(),
            osc_idx < old(self).oscillators@.len(),
        ensures
            final(self).wf(),
            old(self).only_oscillator_changed(*final(self), osc_idx as int),
            unisons_set(old(self).oscillators@[osc_idx as int], final(self).oscillators@[osc_idx as int], num),
    {
        assert(self.oscillators@[osc_idx as int].wf());
        self.oscillators[osc_idx].set_unison_num(num);
        proof {
            old(self).lemma_update_keeps_wf(*self, osc_idx as int);
        }
    }

    /// Transposes oscillator `osc_idx` by `semitones`.
    pub fn set_transpose(&mut self, osc_idx: usize, semitones: i8)
        requires
            old(self).wf(),
            osc_idx < old(self).oscillators@.len(),
        ensures
            final(self).wf(),
            old(self).only_oscillator_changed(*final(self), osc_idx as int),
            transposed(old(self).oscillators@[osc_idx as int], final(self).oscillators@[osc_idx as int], semitones),
    {
        assert(self.oscillators@[osc_idx as int].wf());
        self.oscillators[osc_idx].transpose(semitones);
        proof {
            old(self).lemma_update_keeps_wf(*self, osc_idx as int);
        }
    }

    /// Tunes the detuned partials of oscillator `osc_idx` by `cents`.
    pub fn set_tune(&mut self, osc_idx: usize, cents: i8)
        requires
            old(self).wf(),
            osc_idx < old(self).oscillators@.len(),
        ensures
            final(self).wf(),
            old(self).only_oscillator_changed(*final(self), osc_idx as int),
            tuned(old(self).oscillators@[osc_idx as int], final(self).oscillators@[osc_idx as int], cents),
    {
        assert(self.oscillators@[osc_idx as int].wf());
        self.oscillators[osc_idx].tune(cents);
        proof {
            old(self).lemma_update_keeps_wf(*self, osc_idx as int);
        }
    }

    /// Sets the volume of oscillator `osc_idx`, lowered to `ONE` if above.
    pub fn set_osc_volume(&mut self, osc_idx: usize, volume: u64)
        requires
            old(self).wf(),
            osc_idx < old(self).oscillators@.len(),
        ensures
            final(self).wf(),
            old(self).only_oscillator_changed(*final(self), osc_idx as int),
            final(self).oscillators@[osc_idx as int].volume == if volume > ONE { ONE } else { volume },
            final(self).oscillators@[osc_idx as int].voices == old(self).oscillators@[osc_idx as int].voices,
            final(self).oscillators@[osc_idx as int].waveform == old(self).oscillators@[osc_idx as int].waveform,
            final(self).oscillators@[osc_idx as int].env_idx == old(self).oscillators@[osc_idx as int].env_idx,
            final(self).oscillators@[osc_idx as int].unisons == old(self).oscillators@[osc_idx as int].unisons,
            final(self).oscillators@[osc_idx as int].transpose == old(self).oscillators@[osc_idx as int].transpose,
            final(self).oscillators@[osc_idx as int].tune_cents == old(self).oscillators@[osc_idx as int].tune_cents,
            final(self).oscillators@[osc_idx as int].phase_start == old(self).oscillators@[osc_idx as int].phase_start,
    {
        assert(self.oscillators@[osc_idx as int].wf());
        self.oscillators[osc_idx].volume = if volume > ONE { ONE } else { volume };
        proof {
            old(self).lemma_update_keeps_wf(*self, osc_idx as int);
        }
    }

    /// Selects `waveform` for oscillator `osc_idx`; its voices keep their phases.
    pub fn set_waveform(&mut self, osc_idx: usize, waveform: &WaveForm)
        requires
            old(self).wf(),
            osc_idx < old(self).oscillators@.len(),
        ensures
            final(self).wf(),
            old(self).only_oscillator_changed(*final(self), osc_idx as int),
            final(self).oscillators@[osc_idx as int].waveform == *waveform,
            final(self).oscillators@[osc_idx as int].phase_start
                == old(self).oscillators@[osc_idx as int].phase_start.after_waveform_change(),
            final(self).oscillators@[osc_idx as int].voices == old(self).oscillators@[osc_idx as int].voices,
            final(self).oscillators@[osc_idx as int].volume == old(self).oscillators@[osc_idx as int].volume,
            final(self).oscillators@[osc_idx as int].env_idx == old(self).oscillators@[osc_idx as int].env_idx,
            final(self).oscillators@[osc_idx as int].unisons == old(self).oscillators@[osc_idx as int].unisons,
            final(self).oscillators@[osc_idx as int].transpose == old(self).oscillators@[osc_idx as int].transpose,
            final(self).oscillators@[osc_idx as int].tune_cents == old(self).oscillators@[osc_idx as int].tune_cents,
    {
        assert(self.oscillators@[osc_idx as int].wf());
        self.oscillators[osc_idx].set_waveform(*waveform);
        proof {
            old(self).lemma_update_keeps_wf(*self, osc_idx as int);
        }
    }

    /// Makes oscillator `osc_idx` follow envelope `env_idx`.
    pub fn set_env(&mut self, osc_idx: usize, env_idx: usize)
        requires
            old(self).wf(),
            osc_idx < old(self).oscillators@.len(),
            env_idx < old(self).envelopes@.len(),
        ensures
            final(self).wf(),
            old(self).only_oscillator_changed(*final(self), osc_idx as int),
            final(self).oscillators@[osc_idx as int] == (Oscillator {
                env_idx,
                ..old(self).oscillators@[osc_idx as int]
            }),
    {
        assert(self.oscillators@[osc_idx as int].wf());
        self.oscillators[osc_idx].env_idx = env_idx;
        proof {
            old(self).lemma_update_keeps_wf(*self, osc_idx as int);
        }
    }

    /// Changes one parameter of envelope `env_idx`.
    pub fn set_env_parameter(&mut self, env_idx: usize, param: ADSRParam)
        requires
            old(self).wf(),
            env_idx < old(self).envelopes@.len(),
        ensures
            final(self).wf(),
            final(self).sample_rate == old(self).sample_rate,
            final(self).volume == old(self).volume,
            final(self).oscillators == old(self).oscillators,
            final(self).envelopes@ == old(self).envelopes@.update(env_idx as int, final(self).envelopes@[env_idx as int]),
            parameter_set(old(self).envelopes@[env_idx as int], final(self).envelopes@[env_idx as int], param),
    {
        assert(self.envelopes@[env_idx as int].wf());
        self.envelopes[env_idx].set_parameter(param);
        assert forall|e: int| 0 <= e < self.envelopes@.len() implies (#[trigger] self.envelopes@[e]).wf() by {
            if e != env_idx {
                assert(self.envelopes@[e] == old(self).envelopes@[e]);
            }
        }
    }
}

} // verus!
