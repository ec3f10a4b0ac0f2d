use beep_boop::envelope::{ADSRParam, Released, ADSR};
use beep_boop::error::BaseError;
use beep_boop::oscillator::{phase_from_draw, Oscillator, Start, MUTE_LEVEL};
use beep_boop::stream::{stream_step, StreamAction, StreamState, StreamStatus, SynthUIEvent};
use beep_boop::synth::{Note, SampleFormat, Synth};
use beep_boop::units::{
    decibel_gain_exec, detune_ratio_exec, mul_div_sat, transpose_ratio, HALF_PERIOD, ONE, PERIOD,
};
use beep_boop::waves::WaveForm;

const RATE: u32 = 44100;

fn one_voice_synth(env: ADSR, wave: WaveForm) -> Synth<i16> {
    let mut synth = Synth::<i16>::new(RATE);
    synth.add_env(env);
    synth.add_osc(Oscillator::new(RATE, wave, 0, ONE));
    synth
}

#[test]
fn set_volume_accepts_whole_range() {
    let mut synth = Synth::<i16>::new(RATE);
    for db in -96..=0 {
        assert!(synth.set_volume(db).is_ok());
        assert_eq!(synth.volume, 32767 * decibel_gain_exec(db));
    }
    assert!(synth.set_volume(0).is_ok());
    assert_eq!(synth.volume, 32767 * ONE);
    assert!(synth.set_volume(-20).is_ok());
    assert_eq!(synth.volume, 32767 * 100_000_000);
}

#[test]
fn set_volume_rejects_out_of_range() {
    let mut synth = Synth::<i16>::new(RATE);
    assert!(synth.set_volume(-36).is_ok());
    let before = synth.volume;
    match synth.set_volume(-97) {
        Err(BaseError::SynthError(_)) => {}
        _ => panic!("expected a volume error"),
    }
    match synth.set_volume(1) {
        Err(BaseError::SynthError(msg)) => assert_eq!(msg, "[-96, 0] dB is the range for volume"),
        _ => panic!("expected a volume error"),
    }
    assert_eq!(synth.volume, before);
    assert!(synth.set_volume(-97).is_err());
    assert_eq!(synth.volume, before);
}

#[test]
fn decibel_gains() {
    assert_eq!(decibel_gain_exec(0), ONE);
    assert_eq!(decibel_gain_exec(-6), 501_187_234);
    assert_eq!(decibel_gain_exec(-40), 10_000_000);
    assert_eq!(decibel_gain_exec(-96), 15_848);
}

#[test]
fn attack_ramp_reaches_full_scale() {
    let env = ADSR::new(RATE, 300, 300, 700_000_000, 300);
    assert_eq!(env.attack_incr, 75_586);
    let mut amp: u64 = 0;
    for age in 0..13_230u64 {
        amp = env.get_volume_incr(amp, age, None).min(ONE);
        if age == 13_228 {
            assert!(amp < ONE);
            assert!(ONE - amp <= env.attack_incr);
        }
    }
    assert_eq!(amp, ONE);
}

#[test]
fn attack_ramp_through_a_voice() {
    let env = ADSR::new(RATE, 300, 300, 700_000_000, 300);
    let mut synth = one_voice_synth(env, WaveForm::Sine);
    synth.note_on(440_000, 7);
    for _ in 0..13_229 {
        synth.next_sample();
    }
    assert!(synth.oscillators[0].voices[0].volume < ONE);
    synth.next_sample();
    assert_eq!(synth.oscillators[0].voices[0].volume, ONE);
}

#[test]
fn release_ramp_reaches_zero() {
    let env = ADSR::new(RATE, 300, 300, 700_000_000, 300);
    let v0: u64 = 700_000_000;
    let released = Some(Released { time: 0, value: v0 });
    let mut amp = v0;
    let mut previous = amp;
    for step in 0..13_230u64 {
        amp = env.get_volume_incr(amp, 20_000 + step, released);
        if step < 13_229 {
            assert!(amp > 0);
            assert_eq!(previous - amp, 52_911);
        }
        previous = amp;
    }
    assert_eq!(amp, 0);
}

#[test]
fn released_voice_is_dropped() {
    let env = ADSR::new(RATE, 1, 1, ONE, 300);
    let mut synth = one_voice_synth(env, WaveForm::Square);
    synth.note_on(220_000, 3);
    for _ in 0..200 {
        synth.next_sample();
    }
    synth.note_off(3);
    let released = synth.oscillators[0].voices[0].note.released.unwrap();
    assert_eq!(released.value, ONE);
    assert_eq!(released.time, 200);
    for _ in 0..13_230 {
        synth.next_sample();
    }
    assert!(!synth.playing());
}

#[test]
fn note_on_twice_gives_one_voice() {
    let env = ADSR::new(RATE, 10, 10, ONE, 10);
    let mut synth = one_voice_synth(env, WaveForm::Saw);
    synth.note_on(261_630, 1);
    synth.note_on(261_630, 1);
    assert_eq!(synth.oscillators[0].voices.len(), 1);
    synth.note_on(293_660, 2);
    assert_eq!(synth.oscillators[0].voices.len(), 2);
    synth.note_off(1);
    synth.note_on(261_630, 1);
    assert_eq!(synth.oscillators[0].voices.len(), 3);
}

#[test]
fn note_equality_ignores_release() {
    let a = Note::new(440_000, 5);
    let mut b = Note::new(440_000, 5);
    b.released = Some(Released { time: 3, value: 4 });
    assert!(a == b);
    assert!(a != Note::new(440_001, 5));
    assert!(a != Note::new(440_000, 6));
}

#[test]
fn unison_parity() {
    let mut osc = Oscillator::new(RATE, WaveForm::Sine, 0, ONE);
    osc.tune(15);
    osc.set_unison_num(1);
    assert_eq!(osc.unisons.len(), 1);
    assert_eq!(osc.unisons[0].freq_mod, ONE);
    assert_eq!(osc.unisons[0].volume, ONE);

    osc.set_unison_num(4);
    assert_eq!(osc.unisons.len(), 4);
    assert!(osc.unisons.iter().all(|u| u.freq_mod != ONE));
    assert_eq!(osc.unisons[1].freq_mod, ONE * ONE / osc.unisons[0].freq_mod);
    assert_eq!(osc.unisons[3].freq_mod, ONE * ONE / osc.unisons[2].freq_mod);
    assert_eq!(osc.unisons[0].volume, 700_000_000);
    assert_eq!(osc.unisons[2].volume, 350_000_000);
    assert_eq!(osc.unisons[0].freq_mod, detune_ratio_exec(150));
    assert_eq!(osc.unisons[2].freq_mod, detune_ratio_exec(75));

    osc.set_unison_num(5);
    assert_eq!(osc.unisons.len(), 5);
    assert_eq!(osc.unisons[0].freq_mod, ONE);
    assert_eq!(osc.unisons[0].volume, ONE);
    assert_eq!(osc.unisons[2].freq_mod, ONE * ONE / osc.unisons[1].freq_mod);
    assert_eq!(osc.unisons[4].freq_mod, ONE * ONE / osc.unisons[3].freq_mod);

    osc.set_unison_num(0);
    assert_eq!(osc.unisons.len(), 1);
    osc.set_unison_num(17);
    assert_eq!(osc.unisons.len(), 17);
    assert_eq!(osc.unisons[0].freq_mod, ONE);
    assert_eq!(osc.unisons[16].freq_mod, ONE * ONE / osc.unisons[15].freq_mod);
    osc.tune(-15);
    osc.set_unison_num(4);
    assert_eq!(osc.unisons[0].freq_mod, detune_ratio_exec(-150));
    assert_eq!(osc.unisons[2].freq_mod, detune_ratio_exec(-75));
}

#[test]
fn unison_resync_keeps_phases() {
    let mut osc = Oscillator::new(RATE, WaveForm::Triangle, 0, ONE);
    osc.set_unison_num(3);
    osc.create_voice(&Note::new(440_000, 9));
    let before: Vec<i64> = osc.voices[0].unisons.iter().map(|u| u.phase).collect();
    osc.set_unison_num(5);
    let after = &osc.voices[0].unisons;
    assert_eq!(after.len(), 5);
    assert_eq!(after[0].phase, before[0]);
    assert_eq!(after[1].phase, before[1]);
    assert_eq!(after[2].phase, before[2]);
    for u in after.iter() {
        assert!(u.phase >= 0 && u.phase < PERIOD as i64);
    }
}

#[test]
fn waveform_values() {
    assert_eq!(WaveForm::Sine.wave_value((PERIOD / 4) as i64), ONE as i64);
    assert_eq!(WaveForm::Sine.wave_value(0), 0);
    assert_eq!(WaveForm::Sine.wave_value((3 * PERIOD / 4) as i64), -(ONE as i64));
    assert_eq!(WaveForm::Square.wave_value(0), 700_000_000);
    assert_eq!(WaveForm::Square.wave_value(HALF_PERIOD as i64), 700_000_000);
    assert_eq!(WaveForm::Square.wave_value(HALF_PERIOD as i64 + 1), -700_000_000);
    assert_eq!(WaveForm::Pulse25.wave_value((PERIOD / 4) as i64), 700_000_000);
    assert_eq!(WaveForm::Pulse25.wave_value((PERIOD / 4) as i64 + 1), -700_000_000);
    assert_eq!(WaveForm::Saw.wave_value(0), 0);
    assert_eq!(WaveForm::Saw.wave_value(-(HALF_PERIOD as i64)), -(ONE as i64));
    assert_eq!(WaveForm::Triangle.wave_value(0), -(ONE as i64));
    assert_eq!(WaveForm::Triangle.wave_value(HALF_PERIOD as i64), ONE as i64);
    assert_eq!(WaveForm::Triangle.wave_value((PERIOD / 4) as i64), 0);
}

#[test]
fn sine_is_close_to_the_real_one() {
    for i in 0..64u64 {
        let phase = (i * PERIOD / 64) as i64;
        let exact = (2.0 * std::f64::consts::PI * i as f64 / 64.0).sin();
        let got = WaveForm::Sine.wave_value(phase) as f64 / ONE as f64;
        assert!((got - exact).abs() < 0.002);
    }
}

#[test]
fn phases_wrap() {
    let p = WaveForm::Saw.next_phase(HALF_PERIOD as i64 - 10, 20);
    assert_eq!(p, -(HALF_PERIOD as i64) + 10);
    assert!(WaveForm::Saw.wave_value(p) < -(ONE as i64) + 10_000);
    assert_eq!(WaveForm::Sine.next_phase(PERIOD as i64 - 5, 10), 5);
    assert_eq!(WaveForm::Triangle.next_phase(100, 50), 150);
    assert_eq!(WaveForm::Square.next_phase(0, PERIOD + 7), 7);
}

#[test]
fn transposition_ratios() {
    assert_eq!(transpose_ratio(0), ONE);
    assert_eq!(transpose_ratio(12), 2 * ONE);
    assert_eq!(transpose_ratio(-12), ONE / 2);
    assert_eq!(transpose_ratio(7), 1_498_307_077);
    assert_eq!(transpose_ratio(-1), 1_887_748_625 / 2);
    assert_eq!(transpose_ratio(127), 1_498_307_077 * 1024);
}

#[test]
fn cent_ratios() {
    assert_eq!(detune_ratio_exec(0), ONE);
    let up = detune_ratio_exec(1000);
    assert!((up as i64 - 1_059_463_094).abs() < 2_000);
    assert_eq!(detune_ratio_exec(-1000), ONE * ONE / up);
    let half = detune_ratio_exec(75);
    assert!((half as i64 - 1_004_341_567).abs() < 10);
}

#[test]
fn transpose_rescales_voices() {
    let mut osc = Oscillator::new(RATE, WaveForm::Sine, 0, ONE);
    osc.create_voice(&Note::new(440_000, 1));
    let incr = osc.voices[0].unisons[0].phase_incr;
    assert_eq!(incr, mul_div_sat(440_000 * PERIOD, ONE, RATE as u64 * 1000 * ONE));
    osc.transpose(12);
    assert_eq!(osc.voices[0].unisons[0].phase_incr, incr * 2);
    assert_eq!(osc.transpose, 2 * ONE);
    osc.transpose(0);
    assert_eq!(osc.voices[0].unisons[0].phase_incr, incr);
}

#[test]
fn phase_start_policies() {
    let mut osc = Oscillator::new(RATE, WaveForm::Sine, 0, ONE);
    osc.create_voice(&Note::new(440_000, 1));
    assert_eq!(osc.voices[0].unisons[0].phase, 0);
    osc.set_start(Start::Hard);
    osc.create_voice(&Note::new(440_000, 2));
    assert_eq!(osc.voices[1].unisons[0].phase, (PERIOD / 4) as i64);
    osc.set_waveform(WaveForm::Saw);
    for _ in 0..20 {
        osc.create_voice(&Note::new(330_000, 3));
        let p = osc.voices.last().unwrap().unisons[0].phase;
        assert!(p >= -(HALF_PERIOD as i64) && p < HALF_PERIOD as i64);
        osc.voice_off(3);
    }
}

#[test]
fn random_partials_stay_in_domain() {
    let mut osc = Oscillator::new(RATE, WaveForm::Saw, 0, ONE);
    osc.set_unison_num(7);
    for key in 0..20 {
        osc.create_voice(&Note::new(100_000 + key, key));
    }
    let mut distinct = std::collections::HashSet::new();
    for v in osc.voices.iter() {
        for u in v.unisons.iter() {
            assert!(u.phase >= -(HALF_PERIOD as i64) && u.phase < HALF_PERIOD as i64);
            distinct.insert(u.phase);
        }
    }
    assert!(distinct.len() > 20);
}

#[test]
fn envelope_parameters() {
    let mut env = ADSR::new(RATE, 0, 0, 2 * ONE, 0);
    assert_eq!(env.attack, 1);
    assert_eq!(env.decay, 1);
    assert_eq!(env.release, 1);
    assert_eq!(env.sustain, ONE);
    env.set_parameter(ADSRParam::Sustain(500_000_000));
    assert_eq!(env.decay_decr, 500_000_000 / 45);
    env.set_parameter(ADSRParam::Decay(100));
    assert_eq!(env.decay_decr, 500_000_000 / 4410);
    env.set_parameter(ADSRParam::Release(300));
    assert_eq!(env.release_samples, 13_230);
    env.set_parameter(ADSRParam::Attack(0));
    assert_eq!(env.attack, 1);
}

#[test]
fn sustain_and_decay() {
    let env = ADSR::new(1000, 10, 10, 500_000_000, 10);
    assert_eq!(env.get_volume_incr(ONE, 15, None), ONE - 50_000_000);
    assert_eq!(env.get_volume_incr(520_000_000, 15, None), 500_000_000);
    assert_eq!(env.get_volume_incr(900_000_000, 25, None), 500_000_000);
}

#[test]
fn end_to_end_sine() {
    let env = ADSR::new(RATE, 1, 1, ONE, 1);
    let mut synth = one_voice_synth(env, WaveForm::Sine);
    assert!(!synth.playing());
    synth.note_on(440_000, 42);
    assert!(synth.playing());
    let mut samples = Vec::new();
    for _ in 0..200 {
        samples.push(synth.next_sample());
    }
    assert!(synth.playing());
    let tail = &samples[100..];
    let max = *tail.iter().max().unwrap();
    let min = *tail.iter().min().unwrap();
    assert!(max >= 1020 && max <= 1024);
    assert!(min <= -1020 && min >= -1025);
    let mut crossings = Vec::new();
    for i in 101..200 {
        if samples[i - 1] < 0 && samples[i] >= 0 {
            crossings.push(i);
        }
    }
    assert!(!crossings.is_empty());
    for w in crossings.windows(2) {
        let period = w[1] - w[0];
        assert!(period == 100 || period == 101);
    }
    synth.note_off(42);
    for _ in 0..45 {
        synth.next_sample();
    }
    assert!(!synth.playing());
}

#[test]
fn fill_buffer_duplicates_frames() {
    let env = ADSR::new(RATE, 1, 1, ONE, 1);
    let mut synth = one_voice_synth(env, WaveForm::Saw);
    let mut buffer = vec![0i16; 10];
    assert_eq!(synth.fill_buffer(&mut buffer, 2), StreamStatus::Complete);
    assert_eq!(buffer, vec![0i16; 10]);
    synth.note_on(440_000, 1);
    for _ in 0..100 {
        synth.next_sample();
    }
    assert_eq!(synth.fill_buffer(&mut buffer, 2), StreamStatus::Continue);
    for f in 0..5 {
        assert_eq!(buffer[2 * f], buffer[2 * f + 1]);
    }
    assert!(buffer[0] != buffer[2]);
}

#[test]
fn sample_formats() {
    assert_eq!(<u8 as SampleFormat>::max_amplitude(), 255);
    assert_eq!(<i8 as SampleFormat>::min_amplitude(), -128);
    assert_eq!(<i16 as SampleFormat>::max_amplitude(), 32767);
    assert_eq!(<i32 as SampleFormat>::from_level(-5), -5);
}

#[test]
fn loud_output_is_clamped() {
    let env = ADSR::new(RATE, 1, 1, ONE, 1);
    let mut synth = Synth::<i8>::new(RATE);
    synth.add_env(env);
    synth.add_osc(Oscillator::new(RATE, WaveForm::Square, 0, ONE));
    synth.note_on(100_000, 1);
    let mut seen_max = false;
    for _ in 0..1000 {
        let s = synth.next_sample();
        if s == i8::MAX {
            seen_max = true;
        }
    }
    assert!(seen_max);
}

#[test]
fn stream_control() {
    assert_eq!(stream_step(StreamState::Idle, SynthUIEvent::NewNotes), (StreamState::Active, StreamAction::Start));
    assert_eq!(stream_step(StreamState::Active, SynthUIEvent::StreamFinished), (StreamState::Idle, StreamAction::Stop));
    assert_eq!(stream_step(StreamState::Active, SynthUIEvent::WindowClosed), (StreamState::Closed, StreamAction::Shutdown));
    assert_eq!(stream_step(StreamState::Idle, SynthUIEvent::WindowClosed), (StreamState::Closed, StreamAction::Shutdown));
    assert_eq!(stream_step(StreamState::Closed, SynthUIEvent::NewNotes), (StreamState::Closed, StreamAction::Nothing));
    assert_eq!(stream_step(StreamState::Active, SynthUIEvent::NewNotes), (StreamState::Active, StreamAction::Nothing));
}

#[test]
fn silent_voices_are_kept_until_released() {
    let env = ADSR::new(RATE, 1, 1, 0, 1);
    let mut synth = one_voice_synth(env, WaveForm::Sine);
    synth.note_on(440_000, 1);
    for _ in 0..500 {
        synth.next_sample();
    }
    assert!(synth.oscillators[0].voices[0].volume <= MUTE_LEVEL);
    assert!(synth.playing());
    synth.note_off(1);
    synth.next_sample();
    assert!(!synth.playing());
}

#[test]
fn drawn_numbers_map_to_phases() {
    assert_eq!(phase_from_draw(WaveForm::Sine, 5), 5);
    assert_eq!(phase_from_draw(WaveForm::Sine, PERIOD as u32 + 7), 7);
    assert_eq!(phase_from_draw(WaveForm::Saw, 0), -(HALF_PERIOD as i64));
    assert_eq!(phase_from_draw(WaveForm::Saw, u32::MAX), HALF_PERIOD as i64 - 1);
}

#[test]
fn many_voices_all_sound() {
    let env = ADSR::new(RATE, 1, 1, ONE, 1);
    let mut synth = one_voice_synth(env, WaveForm::Sine);
    for key in 0..100u32 {
        synth.note_on(100_000 + key * 1000, key);
    }
    assert_eq!(synth.oscillators[0].voices.len(), 100);
    synth.next_sample();
    assert_eq!(synth.oscillators[0].voices.len(), 100);
}
