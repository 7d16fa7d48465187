//! Streaming decoder that turns serial bytes into MIDI messages.
use vstd::prelude::*;

use crate::midi::{MidiMessage, CC, CLOCK, CONTINUE, NOTE_OFF, NOTE_ON, PC, START, STOP};
use crate::note::{lemma_note_with_key, note_with_key, MidiNote};

verus! {

/// A real-time byte: clock, start, continue or stop.
pub open spec fn is_realtime(b: u8) -> bool {
    b == CLOCK || b == START || b == CONTINUE || b == STOP
}

/// The message that a real-time byte stands for.
pub open spec fn realtime_message(b: u8) -> MidiMessage {
    if b == CLOCK {
        MidiMessage::Clock
    } else if b == START {
        MidiMessage::Start
    } else if b == CONTINUE {
        MidiMessage::Continue
    } else {
        MidiMessage::Stop
    }
}

/// The status byte of a note-off, note-on, control change or program change,
/// on any channel.
pub open spec fn is_status(b: u8) -> bool {
    let kind = b / 16;
    kind == 8 || kind == 9 || kind == 11 || kind == 12
}

/// Number of bytes of the message that starts with status byte `b`.
pub open spec fn message_len(b: u8) -> int {
    if b / 16 == 12 {
        2
    } else {
        3
    }
}

/// The message that a complete buffer (status byte first) holds.
pub open spec fn parse_message(buf: Seq<u8>) -> MidiMessage {
    let kind = buf[0] / 16;
    let channel = (buf[0] % 16 + 1) as u8;
    if kind == 12 {
        MidiMessage::PC { channel, value: buf[1] }
    } else if kind == 8 {
        MidiMessage::NoteOff { channel, note: note_with_key(buf[1], buf[2]) }
    } else if kind == 9 {
        MidiMessage::NoteOn { channel, note: note_with_key(buf[1], buf[2]) }
    } else {
        MidiMessage::CC { channel, controller: buf[1], value: buf[2] }
    }
}

/// One decoding step: the buffer after byte `b`, and the message completed
/// by it, if any. Real-time bytes leave the buffer alone; a first byte that
/// is no status byte is dropped.
pub open spec fn decode_step(buf: Seq<u8>, b: u8) -> (Seq<u8>, Option<MidiMessage>) {
    if is_realtime(b) {
        (buf, Some(realtime_message(b)))
    } else if buf.len() == 0 {
        if is_status(b) {
            (seq![b], None)
        } else {
            (buf, None)
        }
    } else {
        let nb = buf.push(b);
        if nb.len() == message_len(nb[0]) {
            (Seq::empty(), Some(parse_message(nb)))
        } else {
            (nb, None)
        }
    }
}

/// What the decoder can hold between bytes: nothing, or a status byte
/// followed by fewer bytes than its message needs (at most two in all).
pub open spec fn buffer_ok(buf: Seq<u8>) -> bool {
    &&& buf.len() <= 2
    &&& buf.len() >= 1 ==> is_status(buf[0]) && buf.len() < message_len(buf[0])
}

/// Decoding a byte keeps the buffer as the decoder can hold it.
pub proof fn lemma_decode_step_buffer(buf: Seq<u8>, b: u8)
    requires
        buffer_ok(buf),
    ensures
        buffer_ok(decode_step(buf, b).0),
{
    if !is_realtime(b) && buf.len() > 0 {
        assert(buf.push(b)[0] == buf[0]);
    }
}

/// Feeds `bytes` in order, from buffer `buf`: the final buffer and the
/// messages produced, in order.
pub open spec fn feed(buf: Seq<u8>, bytes: Seq<u8>) -> (Seq<u8>, Seq<MidiMessage>)
    decreases bytes.len(),
{
    if bytes.len() == 0 {
        (buf, Seq::empty())
    } else {
        let (b1, out) = decode_step(buf, bytes[0]);
        let (b2, rest) = feed(b1, bytes.drop_first());
        match out {
            Some(m) => (b2, seq![m] + rest),
            None => (b2, rest),
        }
    }
}

/// Decoding the encoding of a well-formed message, from an empty buffer,
/// yields that message and leaves the buffer empty. A note-off is sent with
/// velocity 0, so only a note-off of velocity 0 comes back unchanged.
pub proof fn lemma_decode_encode(m: MidiMessage)
    requires
        m.wf(),
        m matches MidiMessage::NoteOff { note, .. } ==> note.vel == 0,
    ensures
        feed(Seq::empty(), m.encoding()) == (Seq::<u8>::empty(), seq![m]),
{
    reveal_with_fuel(feed, 4);
    let e = m.encoding();
    match m {
        MidiMessage::NoteOn { channel, note } => {
            lemma_note_with_key(note);
            assert(e.drop_first().drop_first().drop_first() =~= Seq::<u8>::empty());
            assert(seq![e[0]].push(e[1]).push(e[2]) =~= e);
        },
        MidiMessage::NoteOff { channel, note } => {
            lemma_note_with_key(note);
            assert(e.drop_first().drop_first().drop_first() =~= Seq::<u8>::empty());
            assert(seq![e[0]].push(e[1]).push(e[2]) =~= e);
        },
        MidiMessage::CC { channel, controller, value } => {
            assert(e.drop_first().drop_first().drop_first() =~= Seq::<u8>::empty());
            assert(seq![e[0]].push(e[1]).push(e[2]) =~= e);
        },
        MidiMessage::PC { channel, value } => {
            assert(e.drop_first().drop_first() =~= Seq::<u8>::empty());
            assert(seq![e[0]].push(e[1]) =~= e);
        },
        _ => {
            assert(e.drop_first() =~= Seq::<u8>::empty());
        },
    }
    assert(seq![m] + Seq::<MidiMessage>::empty() =~= seq![m]);
}

/// Decoder state: up to three buffered bytes of the message in progress.
pub struct MidiInputHandler {
    size: u8,
    data: [u8; 3],
}

impl MidiInputHandler {
    /// The bytes of the message in progress.
    pub closed spec fn buffered(&self) -> Seq<u8> {
        self.data@.subrange(0, self.size as int)
    }

    /// Between calls the buffer holds a status byte and fewer bytes than its
    /// message needs, or nothing.
    #[verifier::type_invariant]
    closed spec fn inv(&self) -> bool {
        &&& self.size <= 2
        &&& self.size >= 1 ==> is_status(self.data@[0]) && (self.size as int) < message_len(
            self.data@[0],
        )
    }

    pub fn new() -> (r: MidiInputHandler)
        ensures
            r.buffered() == Seq::<u8>::empty(),
            buffer_ok(r.buffered()),
    {
        MidiInputHandler { size: 0, data: [0;3] }
    }

    fn push(&mut self, data: u8)
        requires
            old(self).size == 0 ==> is_status(data),
            old(self).size >= 1 ==> old(self).size + 1 < message_len(old(self).data@[0]),
        ensures
            final(self).buffered() == old(self).buffered().push(data),
    {
        proof {
            use_type_invariant(&*self);
        }
        let mut d = self.data;
        d[self.size as usize] = data;
        self.data = d;
        self.size = self.size + 1;
        proof {
            assert(self.buffered() =~= old(self).buffered().push(data));
        }
    }

    fn clear(&mut self)
        ensures
            final(self).buffered() == Seq::<u8>::empty(),
    {
        self.size = 0;
        proof {
            assert(self.buffered() =~= Seq::<u8>::empty());
        }
    }

    /// Takes one byte from the wire; returns the message it completes, if any.
    pub fn process_byte(&mut self, byte: u8) -> (r: Option<MidiMessage>)
        ensures
            (final(self).buffered(), r) == decode_step(old(self).buffered(), byte),
            buffer_ok(final(self).buffered()),
    {
        proof {
            use_type_invariant(&*self);
            assert(buffer_ok(self.buffered()));
            lemma_decode_step_buffer(self.buffered(), byte);
        }
        // Real-time messages bypass the buffer.
        if byte == CLOCK {
            return Some(MidiMessage::Clock);
        } else if byte == START {
            return Some(MidiMessage::Start);
        } else if byte == STOP {
            return Some(MidiMessage::Stop);
        } else if byte == CONTINUE {
            return Some(MidiMessage::Continue);
        }
        if self.size == 0 {
            let kind = byte / 16;
            if kind == NOTE_OFF / 16 || kind == NOTE_ON / 16 || kind == CC / 16 || kind == PC / 16 {
                self.push(byte);
            }
            // A message must start with a status byte; anything else is dropped.
            return None;
        }
        let status = self.data[0];
        let kind = status / 16;
        let channel = status % 16 + 1;
        if self.size == 1 {
            if kind == PC / 16 {
                self.clear();
                return Some(MidiMessage::PC { channel, value: byte });
            }
            self.push(byte);
            return None;
        }
        let first = self.data[1];
        let msg = if kind == NOTE_OFF / 16 {
            MidiMessage::NoteOff { channel, note: MidiNote::from_midi_value(first, byte) }
        } else if kind == NOTE_ON / 16 {
            MidiMessage::NoteOn { channel, note: MidiNote::from_midi_value(first, byte) }
        } else {
            MidiMessage::CC { channel, controller: first, value: byte }
        };
        self.clear();
        Some(msg)
    }
}

} // verus!
