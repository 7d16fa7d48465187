//! Pitch classes and MIDI notes, with conversion to and from raw key numbers.
use vstd::prelude::*;

verus! {

/// One of the twelve pitch classes of the chromatic scale.
#[derive(Clone, Copy, PartialEq, Eq, Structural, Debug, Hash)]
pub enum Note {
    C,
    CS,
    D,
    DS,
    E,
    F,
    FS,
    G,
    GS,
    A,
    AS,
    B,
}

impl Note {
    /// Position of the pitch class within the octave, C being 0.
    pub open spec fn index_spec(self) -> int {
        match self {
            Note::C => 0,
            Note::CS => 1,
            Note::D => 2,
            Note::DS => 3,
            Note::E => 4,
            Note::F => 5,
            Note::FS => 6,
            Note::G => 7,
            Note::GS => 8,
            Note::A => 9,
            Note::AS => 10,
            Note::B => 11,
        }
    }

    pub fn index(self) -> (r: u8)
        ensures
            r as int == self.index_spec(),
            r < 12,
    {
        match self {
            Note::C => 0,
            Note::CS => 1,
            Note::D => 2,
            Note::DS => 3,
            Note::E => 4,
            Note::F => 5,
            Note::FS => 6,
            Note::G => 7,
            Note::GS => 8,
            Note::A => 9,
            Note::AS => 10,
            Note::B => 11,
        }
    }

    /// The pitch class of a key number (its value modulo twelve).
    pub fn from_index(i: u8) -> (r: Note)
        ensures
            r == note_of_index(i as int % 12),
            r.index_spec() == i as int % 12,
    {
        let n = i % 12;
        if n == 0 {
            Note::C
        } else if n == 1 {
            Note::CS
        } else if n == 2 {
            Note::D
        } else if n == 3 {
            Note::DS
        } else if n == 4 {
            Note::E
        } else if n == 5 {
            Note::F
        } else if n == 6 {
            Note::FS
        } else if n == 7 {
            Note::G
        } else if n == 8 {
            Note::GS
        } else if n == 9 {
            Note::A
        } else if n == 10 {
            Note::AS
        } else {
            Note::B
        }
    }
}

/// The pitch class at position `i` of the octave, for `i` from 0 to 11.
pub open spec fn note_of_index(i: int) -> Note {
    if i == 0 {
        Note::C
    } else if i == 1 {
        Note::CS
    } else if i == 2 {
        Note::D
    } else if i == 3 {
        Note::DS
    } else if i == 4 {
        Note::E
    } else if i == 5 {
        Note::F
    } else if i == 6 {
        Note::FS
    } else if i == 7 {
        Note::G
    } else if i == 8 {
        Note::GS
    } else if i == 9 {
        Note::A
    } else if i == 10 {
        Note::AS
    } else {
        Note::B
    }
}

/// The note with key number `key` and velocity `vel`.
pub open spec fn note_with_key(key: u8, vel: u8) -> MidiNote {
    MidiNote { note: note_of_index(key as int % 12), octave: (key / 12 - 1) as i8, vel }
}

/// Largest key number and largest velocity that a MIDI data byte can carry.
pub const MAX_DATA: u8 = 127;

/// A note with its octave and velocity. Octave -1 holds keys 0 to 11.
#[derive(Clone, Copy, PartialEq, Eq, Structural, Debug, Hash)]
pub struct MidiNote {
    pub note: Note,
    pub octave: i8,
    pub vel: u8,
}

/// `v` bounded to the range of MIDI key numbers.
pub open spec fn clamp_key(v: int) -> int {
    if v < 0 {
        0
    } else if v > 127 {
        127
    } else {
        v
    }
}

/// A note with key number 0 to 127 is rebuilt exactly from its key and velocity.
pub proof fn lemma_note_with_key(n: MidiNote)
    requires
        0 <= n.key() <= 127,
    ensures
        note_with_key(n.key() as u8, n.vel) == n,
{
    let k = n.key();
    let i = n.note.index_spec();
    assert(0 <= i < 12);
    assert(k / 12 == n.octave + 1 && k % 12 == i);
    assert(note_of_index(i) == n.note);
}

/// The key number of `note_with_key(key, vel)` is `key`.
pub proof fn lemma_key_of_note_with_key(key: u8, vel: u8)
    ensures
        note_with_key(key, vel).key() == key as int,
{
    let i = key as int % 12;
    assert(note_of_index(i).index_spec() == i);
}

/// `n` moved by `t` semitones, clamped to keys 0 to 127.
pub open spec fn transposed(n: MidiNote, t: i8) -> MidiNote {
    note_with_key(clamp_key(n.key() + t) as u8, n.vel)
}

impl MidiNote {
    /// The raw key number: `(octave + 1) * 12 + pitch class`.
    pub open spec fn key(self) -> int {
        (self.octave + 1) * 12 + self.note.index_spec()
    }

    /// Key and velocity both fit in a MIDI data byte.
    pub open spec fn valid(self) -> bool {
        0 <= self.key() <= 127 && self.vel <= 127
    }

    pub fn is_valid(&self) -> (r: bool)
        ensures
            r == self.valid(),
    {
        let k: i32 = (self.octave as i32 + 1) * 12 + self.note.index() as i32;
        0 <= k && k <= 127 && self.vel <= MAX_DATA
    }

    /// The note whose key number is `midi_value`, with velocity `vel`.
    pub fn from_midi_value(midi_value: u8, vel: u8) -> (r: MidiNote)
        ensures
            r == note_with_key(midi_value, vel),
            r.key() == midi_value as int,
            r.vel == vel,
            r.note.index_spec() == midi_value as int % 12,
    {
        let octave: i8 = (midi_value / 12) as i8 - 1;
        let note = Note::from_index(midi_value);
        MidiNote { note, octave, vel }
    }

    /// The raw key number of the note.
    pub fn midi_value(&self) -> (r: u8)
        requires
            0 <= self.key() <= 255,
        ensures
            r as int == self.key(),
    {
        let k: i32 = (self.octave as i32 + 1) * 12 + self.note.index() as i32;
        k as u8
    }

    /// The note `transpose` semitones away, clamped to keys 0 to 127 rather
    /// than wrapped; the velocity is kept.
    pub fn transpose(&self, transpose: i8) -> (r: MidiNote)
        ensures
            r == transposed(*self, transpose),
            r.key() == clamp_key(self.key() + transpose),
            0 <= r.key() <= 127,
            r.vel == self.vel,
    {
        let k: i32 = (self.octave as i32 + 1) * 12 + self.note.index() as i32 + transpose as i32;
        let c: i32 = if k < 0 {
            0
        } else if k > 127 {
            127
        } else {
            k
        };
        MidiNote::from_midi_value(c as u8, self.vel)
    }
}

} // verus!
