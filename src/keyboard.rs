use vstd::prelude::*;

verus! {

/// The computer keys that play notes: one chromatic octave upwards from C.
#[derive(Clone, Copy, PartialEq, Eq, Debug, Structural)]
pub enum NoteKey {
    Z,
    S,
    X,
    D,
    C,
    V,
    G,
    B,
    H,
    N,
    J,
    M,
}

/// Lowest octave shift: the notes one octave below their base.
pub const MIN_OCTAVE_SHIFT: i8 = -1;

/// Highest octave shift: the notes three octaves above their base.
pub const MAX_OCTAVE_SHIFT: i8 = 3;

/// Base frequency of each key, in millihertz: C3 to B3.
pub open spec fn key_frequency(key: NoteKey) -> int {
    match key {
        NoteKey::Z => 130_810,
        NoteKey::S => 138_590,
        NoteKey::X => 146_830,
        NoteKey::D => 155_560,
        NoteKey::C => 164_810,
        NoteKey::V => 174_610,
        NoteKey::G => 185_000,
        NoteKey::B => 196_000,
        NoteKey::H => 207_650,
        NoteKey::N => 220_000,
        NoteKey::J => 233_080,
        NoteKey::M => 246_940,
    }
}

/// `freq` moved by `shift` octaves: doubled `shift` times, or halved once.
pub open spec fn octave_shifted(freq: int, shift: int) -> int {
    if shift < 0 {
        freq / 2
    } else if shift == 0 {
        freq
    } else if shift == 1 {
        freq * 2
    } else if shift == 2 {
        freq * 4
    } else {
        freq * 8
    }
}

/// Base frequency of `key`, in millihertz.
pub fn get_note(key: NoteKey) -> (r: u32)
    ensures
        r == key_frequency(key),
{
    match key {
        NoteKey::Z => 130_810,
        NoteKey::S => 138_590,
        NoteKey::X => 146_830,
        NoteKey::D => 155_560,
        NoteKey::C => 164_810,
        NoteKey::V => 174_610,
        NoteKey::G => 185_000,
        NoteKey::B => 196_000,
        NoteKey::H => 207_650,
        NoteKey::N => 220_000,
        NoteKey::J => 233_080,
        NoteKey::M => 246_940,
    }
}

/// The octave shift one octave lower, unless already at the lowest.
pub fn octave_down(shift: i8) -> (r: i8)
    requires
        MIN_OCTAVE_SHIFT <= shift <= MAX_OCTAVE_SHIFT,
    ensures
        r == if shift > MIN_OCTAVE_SHIFT { shift - 1 } else { shift as int },
        MIN_OCTAVE_SHIFT <= r <= MAX_OCTAVE_SHIFT,
{
    if shift > MIN_OCTAVE_SHIFT {
        shift - 1
    } else {
        shift
    }
}

/// The octave shift one octave higher, unless already at the highest.
pub fn octave_up(shift: i8) -> (r: i8)
    requires
        MIN_OCTAVE_SHIFT <= shift <= MAX_OCTAVE_SHIFT,
    ensures
        r == if shift < MAX_OCTAVE_SHIFT { shift + 1 } else { shift as int },
        MIN_OCTAVE_SHIFT <= r <= MAX_OCTAVE_SHIFT,
{
    if shift < MAX_OCTAVE_SHIFT {
        shift + 1
    } else {
        shift
    }
}

/// Frequency in millihertz that `key` plays under the octave shift `shift`.
pub fn key_note(key: NoteKey, shift: i8) -> (r: u32)
    requires
        MIN_OCTAVE_SHIFT <= shift <= MAX_OCTAVE_SHIFT,
    ensures
        r == octave_shifted(key_frequency(key), shift as int),
{
    let base = get_note(key);
    if shift < 0 {
        base / 2
    } else if shift == 0 {
        base
    } else if shift == 1 {
        base * 2
    } else if shift == 2 {
        base * 4
    } else {
        base * 8
    }
}

} // verus!
