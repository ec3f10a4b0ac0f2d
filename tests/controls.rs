use beep_boop::envelope::{Released, ADSR};
use beep_boop::keyboard::{get_note, key_note, octave_down, octave_up, NoteKey, MAX_OCTAVE_SHIFT, MIN_OCTAVE_SHIFT};
use beep_boop::units::ONE;

#[test]
fn key_frequencies() {
    assert_eq!(get_note(NoteKey::Z), 130_810);
    assert_eq!(get_note(NoteKey::N), 220_000);
    assert_eq!(get_note(NoteKey::M), 246_940);
    assert_eq!(key_note(NoteKey::N, 1), 440_000);
    assert_eq!(key_note(NoteKey::N, -1), 110_000);
    assert_eq!(key_note(NoteKey::N, 3), 1_760_000);
}

#[test]
fn octave_bounds() {
    assert_eq!(octave_up(1), 2);
    assert_eq!(octave_up(MAX_OCTAVE_SHIFT), MAX_OCTAVE_SHIFT);
    assert_eq!(octave_down(1), 0);
    assert_eq!(octave_down(MIN_OCTAVE_SHIFT), MIN_OCTAVE_SHIFT);
}

#[test]
fn absolute_envelope() {
    let env = ADSR::new(1000, 10, 10, 500_000_000, 10);
    assert_eq!(env.get_volume(0, None), 0);
    assert_eq!(env.get_volume(5, None), ONE / 2);
    assert_eq!(env.get_volume(10, None), ONE);
    assert_eq!(env.get_volume(15, None), 750_000_000);
    assert_eq!(env.get_volume(40, None), 500_000_000);
    let released = Some(Released { time: 40, value: 500_000_000 });
    assert_eq!(env.get_volume(40, released), 500_000_000);
    assert_eq!(env.get_volume(45, released), 250_000_000);
    assert_eq!(env.get_volume(50, released), 0);
}
