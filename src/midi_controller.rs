//! Instructions and their dispatch: notes played for a number of ticks are
//! switched on at once and switched off later from a bounded table of
//! pending note-offs.
use vstd::prelude::*;

use crate::midi::{is_valid_channel, valid_channel, MidiMessage};
use crate::note::{lemma_key_of_note_with_key, note_with_key, MidiNote};

verus! {

/// Number of note-offs that can be pending at once.
pub const PENDING_CAPACITY: usize = 32;

/// What a track or a conductor asks to be played.
#[derive(Clone, Copy, PartialEq, Eq, Structural, Debug)]
pub enum Instruction {
    /// Switch `midi_note` on now on `channel_id` and off `len` ticks later.
    PlayNote { midi_note: MidiNote, len: u32, channel_id: u8 },
    /// Send a message as it is.
    MidiMessage { midi_message: MidiMessage },
}

/// Why an instruction was not carried out.
#[derive(Clone, Copy, PartialEq, Eq, Structural, Debug)]
pub enum DispatchError {
    /// A channel outside 1 to 16, or a data byte of 128 or more.
    Invalid,
    /// The table of pending note-offs is full: the new note is dropped.
    Full,
}

/// A note-off that is due when `ticks_remaining` has run down.
#[derive(Clone, Copy, PartialEq, Eq, Structural, Debug)]
pub struct PendingNoteOff {
    /// Key number of the note.
    pub note: u8,
    pub channel: u8,
    pub ticks_remaining: u32,
}

pub open spec fn same_key(e: PendingNoteOff, note: u8, channel: u8) -> bool {
    e.note == note && e.channel == channel
}

/// The message that ends a pending note.
pub open spec fn note_off_message(e: PendingNoteOff) -> MidiMessage {
    MidiMessage::NoteOff { channel: e.channel, note: note_with_key(e.note, 0) }
}

/// Index of the last entry for `note` on `channel`, or -1.
pub open spec fn index_of(p: Seq<PendingNoteOff>, note: u8, channel: u8) -> int
    decreases p.len(),
{
    if p.len() == 0 {
        -1
    } else if same_key(p.last(), note, channel) {
        p.len() - 1
    } else {
        index_of(p.drop_last(), note, channel)
    }
}

/// Ticks left for `note` on `channel`, if it is pending.
pub open spec fn lookup(p: Seq<PendingNoteOff>, note: u8, channel: u8) -> Option<u32> {
    let i = index_of(p, note, channel);
    if 0 <= i < p.len() {
        Some(p[i].ticks_remaining)
    } else {
        None
    }
}

/// No two entries share a key and a channel.
pub open spec fn unique(p: Seq<PendingNoteOff>) -> bool
    decreases p.len(),
{
    p.len() == 0 || (index_of(p.drop_last(), p.last().note, p.last().channel) == -1 && unique(
        p.drop_last(),
    ))
}

/// An entry holds a key number and a channel that can go on the wire.
pub open spec fn entry_ok(e: PendingNoteOff) -> bool {
    e.note <= 127 && valid_channel(e.channel)
}

/// A table as the controller keeps it.
pub open spec fn table_wf(p: Seq<PendingNoteOff>) -> bool {
    &&& p.len() <= PENDING_CAPACITY
    &&& unique(p)
    &&& forall|i: int| 0 <= i < p.len() ==> entry_ok(#[trigger] p[i])
}

/// The table after one post-tick pass: entries with more than one tick left
/// lose one tick, the others leave.
pub open spec fn post_tick_table(p: Seq<PendingNoteOff>) -> Seq<PendingNoteOff>
    decreases p.len(),
{
    if p.len() == 0 {
        p
    } else {
        let rest = post_tick_table(p.drop_last());
        let e = p.last();
        if e.ticks_remaining <= 1 {
            rest
        } else {
            rest.push(PendingNoteOff { ticks_remaining: (e.ticks_remaining - 1) as u32, ..e })
        }
    }
}

/// The note-offs that one post-tick pass sends, in table order.
pub open spec fn post_tick_out(p: Seq<PendingNoteOff>) -> Seq<MidiMessage>
    decreases p.len(),
{
    if p.len() == 0 {
        Seq::empty()
    } else {
        let rest = post_tick_out(p.drop_last());
        if p.last().ticks_remaining <= 1 {
            rest.push(note_off_message(p.last()))
        } else {
            rest
        }
    }
}

/// The table after `k` post-tick passes.
pub open spec fn after_ticks(p: Seq<PendingNoteOff>, k: nat) -> Seq<PendingNoteOff>
    decreases k,
{
    if k == 0 {
        p
    } else {
        post_tick_table(after_ticks(p, (k - 1) as nat))
    }
}

/// Number of note-offs in `s` for key `note` on `channel`.
pub open spec fn count_note_offs(s: Seq<MidiMessage>, note: u8, channel: u8) -> nat
    decreases s.len(),
{
    if s.len() == 0 {
        0
    } else {
        let rest = count_note_offs(s.drop_last(), note, channel);
        match s.last() {
            MidiMessage::NoteOff { channel: c, note: n } => if c == channel && n.key()
                == note as int {
                rest + 1
            } else {
                rest
            },
            _ => rest,
        }
    }
}

/// Number of note-ons in `s` for key `note` on `channel`.
pub open spec fn count_note_ons(s: Seq<MidiMessage>, note: u8, channel: u8) -> nat
    decreases s.len(),
{
    if s.len() == 0 {
        0
    } else {
        let rest = count_note_ons(s.drop_last(), note, channel);
        match s.last() {
            MidiMessage::NoteOn { channel: c, note: n } => if c == channel && n.key()
                == note as int {
                rest + 1
            } else {
                rest
            },
            _ => rest,
        }
    }
}

/// Counts add up over a concatenation.
pub proof fn lemma_counts_append(a: Seq<MidiMessage>, b: Seq<MidiMessage>, note: u8, channel: u8)
    ensures
        count_note_offs(a + b, note, channel) == count_note_offs(a, note, channel)
            + count_note_offs(b, note, channel),
        count_note_ons(a + b, note, channel) == count_note_ons(a, note, channel) + count_note_ons(
            b,
            note,
            channel,
        ),
    decreases b.len(),
{
    if b.len() == 0 {
        assert(a + b =~= a);
    } else {
        lemma_counts_append(a, b.drop_last(), note, channel);
        assert((a + b).drop_last() =~= a + b.drop_last());
    }
}

/// The instruction plays, or sends a note message for, `note` on `channel`.
pub open spec fn touches(ins: Instruction, note: u8, channel: u8) -> bool {
    match ins {
        Instruction::PlayNote { midi_note, channel_id, .. } => channel_id == channel
            && midi_note.key() == note as int,
        Instruction::MidiMessage { midi_message } => match midi_message {
            MidiMessage::NoteOn { channel: c, note: n } => c == channel && n.key() == note as int,
            MidiMessage::NoteOff { channel: c, note: n } => c == channel && n.key() == note as int,
            _ => false,
        },
    }
}

/// The table after a note is played for `len` ticks: its entry is replaced
/// where the key is pending, else appended.
pub open spec fn play_table(p: Seq<PendingNoteOff>, note: u8, len: u32, channel: u8) -> Seq<
    PendingNoteOff,
> {
    let e = PendingNoteOff { note, channel, ticks_remaining: len };
    let i = index_of(p, note, channel);
    if i >= 0 {
        p.update(i, e)
    } else {
        p.push(e)
    }
}

/// Table, messages sent, and outcome of one instruction.
pub open spec fn dispatched(p: Seq<PendingNoteOff>, ins: Instruction) -> (
    Seq<PendingNoteOff>,
    Seq<MidiMessage>,
    Result<(), DispatchError>,
) {
    match ins {
        Instruction::PlayNote { midi_note, len, channel_id } => {
            if !(valid_channel(channel_id) && midi_note.valid()) {
                (p, Seq::empty(), Err(DispatchError::Invalid))
            } else if index_of(p, midi_note.key() as u8, channel_id) == -1 && p.len()
                >= PENDING_CAPACITY {
                (p, Seq::empty(), Err(DispatchError::Full))
            } else {
                (
                    play_table(p, midi_note.key() as u8, len, channel_id),
                    seq![MidiMessage::NoteOn { channel: channel_id, note: midi_note }],
                    Ok(()),
                )
            }
        },
        Instruction::MidiMessage { midi_message } => {
            if midi_message.wf() {
                (p, seq![midi_message], Ok(()))
            } else {
                (p, Seq::empty(), Err(DispatchError::Invalid))
            }
        },
    }
}

/// Table, messages sent and errors, for instructions carried out in order.
pub open spec fn dispatch_all(p: Seq<PendingNoteOff>, instrs: Seq<Instruction>) -> (
    Seq<PendingNoteOff>,
    Seq<MidiMessage>,
    Seq<DispatchError>,
)
    decreases instrs.len(),
{
    if instrs.len() == 0 {
        (p, Seq::empty(), Seq::empty())
    } else {
        let (t1, s1, e1) = dispatch_all(p, instrs.drop_last());
        let (t2, s2, r) = dispatched(t1, instrs.last());
        (
            t2,
            s1 + s2,
            match r {
                Err(e) => e1.push(e),
                Ok(_) => e1,
            },
        )
    }
}

pub proof fn lemma_index_of_bounds(p: Seq<PendingNoteOff>, note: u8, channel: u8)
    ensures
        -1 <= index_of(p, note, channel) < p.len(),
        index_of(p, note, channel) >= 0 ==> same_key(p[index_of(p, note, channel)], note, channel),
    decreases p.len(),
{
    if p.len() > 0 {
        lemma_index_of_bounds(p.drop_last(), note, channel);
    }
}

/// Replacing an entry by one with the same key keeps the keys unique and
/// changes what is pending for that key only.
pub proof fn lemma_update_same_key(p: Seq<PendingNoteOff>, i: int, e: PendingNoteOff)
    requires
        unique(p),
        0 <= i < p.len(),
        same_key(p[i], e.note, e.channel),
    ensures
        unique(p.update(i, e)),
        forall|n: u8, c: u8| #[trigger]
            index_of(p.update(i, e), n, c) == index_of(p, n, c),
    decreases p.len(),
{
    let q = p.update(i, e);
    if i == p.len() - 1 {
        assert(q.drop_last() =~= p.drop_last());
    } else {
        lemma_update_same_key(p.drop_last(), i, e);
        assert(q.drop_last() =~= p.drop_last().update(i, e));
    }
    assert forall|n: u8, c: u8| #[trigger] index_of(q, n, c) == index_of(p, n, c) by {
        if i != p.len() - 1 {
            assert(index_of(q.drop_last(), n, c) == index_of(p.drop_last(), n, c));
        }
    }
}

/// One post-tick pass, seen from one key: what was pending with more than
/// one tick left stays with one tick less; what had one tick or none left
/// is switched off exactly once; nothing else is switched off.
pub proof fn lemma_post_tick_key(p: Seq<PendingNoteOff>, note: u8, channel: u8)
    requires
        unique(p),
    ensures
        unique(post_tick_table(p)),
        post_tick_table(p).len() <= p.len(),
        lookup(post_tick_table(p), note, channel) == (match lookup(p, note, channel) {
            Some(r) => if r >= 2 {
                Some((r - 1) as u32)
            } else {
                None::<u32>
            },
            None => None,
        }),
        count_note_offs(post_tick_out(p), note, channel) == (match lookup(p, note, channel) {
            Some(r) => if r >= 2 {
                0nat
            } else {
                1nat
            },
            None => 0nat,
        }),
    decreases p.len(),
{
    if p.len() > 0 {
        let d = p.drop_last();
        let e = p.last();
        lemma_post_tick_key(d, note, channel);
        lemma_post_tick_key(d, e.note, e.channel);
        lemma_index_of_bounds(d, note, channel);
        lemma_index_of_bounds(p, note, channel);
        lemma_index_of_bounds(post_tick_table(d), note, channel);
        lemma_index_of_bounds(post_tick_table(d), e.note, e.channel);
        lemma_key_of_note_with_key(e.note, 0);
        let t = post_tick_table(d);
        if e.ticks_remaining > 1 {
            let e2 = PendingNoteOff { ticks_remaining: (e.ticks_remaining - 1) as u32, ..e };
            assert(t.push(e2).drop_last() =~= t);
        } else {
            let o = post_tick_out(d);
            assert(o.push(note_off_message(e)).drop_last() =~= o);
        }
    }
}

/// A post-tick pass sends no note-on.
pub proof fn lemma_post_tick_no_note_on(p: Seq<PendingNoteOff>, note: u8, channel: u8)
    ensures
        count_note_ons(post_tick_out(p), note, channel) == 0,
    decreases p.len(),
{
    if p.len() > 0 {
        lemma_post_tick_no_note_on(p.drop_last(), note, channel);
        let o = post_tick_out(p.drop_last());
        assert(o.push(note_off_message(p.last())).drop_last() =~= o);
    }
}

/// Keys in the table after a pass were in the table before, with their
/// channel and key kept.
pub proof fn lemma_post_tick_valid(p: Seq<PendingNoteOff>)
    requires
        forall|i: int| 0 <= i < p.len() ==> entry_ok(#[trigger] p[i]),
    ensures
        forall|i: int|
            0 <= i < post_tick_table(p).len() ==> entry_ok(#[trigger] post_tick_table(p)[i]),
    decreases p.len(),
{
    if p.len() > 0 {
        let d = p.drop_last();
        assert forall|i: int| 0 <= i < d.len() implies entry_ok(#[trigger] d[i]) by {
            assert(d[i] == p[i]);
        }
        lemma_post_tick_valid(d);
        let t = post_tick_table(d);
        let e = p.last();
        assert(entry_ok(p[p.len() - 1]));
        if e.ticks_remaining > 1 {
            let e2 = PendingNoteOff { ticks_remaining: (e.ticks_remaining - 1) as u32, ..e };
            assert forall|i: int| 0 <= i < t.push(e2).len() implies entry_ok(#[trigger] t.push(e2)[i]) by {
                if i < t.len() {
                    assert(t.push(e2)[i] == t[i]);
                }
            }
        }
    }
}

/// A note played for `len` ticks, `len` at least one, is switched on at
/// once; the post-tick passes of the next `len - 1` ticks send no note-off
/// for it, and the pass of tick `len` sends exactly one, after which it is
/// no longer pending. This holds when no other instruction for the same
/// key and channel comes in between.
pub proof fn lemma_note_lifecycle(p: Seq<PendingNoteOff>, note: MidiNote, len: u32, channel: u8)
    requires
        table_wf(p),
        note.valid(),
        valid_channel(channel),
        len >= 1,
        index_of(p, note.key() as u8, channel) >= 0 || p.len() < PENDING_CAPACITY,
    ensures
        ({
            let (q, sent, res) = dispatched(p, Instruction::PlayNote { midi_note: note, len, channel_id: channel });
            &&& res is Ok
            &&& sent == seq![MidiMessage::NoteOn { channel, note }]
            &&& forall|k: nat|
                1 <= k < len ==> count_note_offs(
                    #[trigger] post_tick_out(after_ticks(q, (k - 1) as nat)),
                    note.key() as u8,
                    channel,
                ) == 0
            &&& count_note_offs(
                post_tick_out(after_ticks(q, (len - 1) as nat)),
                note.key() as u8,
                channel,
            ) == 1
            &&& lookup(after_ticks(q, len as nat), note.key() as u8, channel) is None
        }),
{
    let key = note.key() as u8;
    let q = dispatched(p, Instruction::PlayNote { midi_note: note, len, channel_id: channel }).0;
    let i = index_of(p, key, channel);
    lemma_index_of_bounds(p, key, channel);
    if i >= 0 {
        let e = PendingNoteOff { note: key, channel, ticks_remaining: len };
        lemma_update_same_key(p, i, e);
        assert(index_of(q, key, channel) == i);
    } else {
        let e = PendingNoteOff { note: key, channel, ticks_remaining: len };
        assert(p.push(e).drop_last() =~= p);
    }
    assert(unique(q));
    assert(lookup(q, key, channel) == Some(len));
    lemma_lifecycle_steps(q, key, channel, len, (len - 1) as nat);
    assert forall|k: nat| 1 <= k < len implies count_note_offs(
        #[trigger] post_tick_out(after_ticks(q, (k - 1) as nat)),
        key,
        channel,
    ) == 0 by {
        lemma_lifecycle_steps(q, key, channel, len, (k - 1) as nat);
        lemma_post_tick_key(after_ticks(q, (k - 1) as nat), key, channel);
    }
    lemma_post_tick_key(after_ticks(q, (len - 1) as nat), key, channel);
}

/// Playing a note keeps the keys unique and leaves it pending for `len`.
pub proof fn lemma_play_key(p: Seq<PendingNoteOff>, note: u8, len: u32, channel: u8)
    requires
        unique(p),
    ensures
        unique(play_table(p, note, len, channel)),
        lookup(play_table(p, note, len, channel), note, channel) == Some(len),
{
    let e = PendingNoteOff { note, channel, ticks_remaining: len };
    let i = index_of(p, note, channel);
    lemma_index_of_bounds(p, note, channel);
    if i >= 0 {
        lemma_update_same_key(p, i, e);
    } else {
        assert(p.push(e).drop_last() =~= p);
    }
}

/// An instruction that does not touch `note` on `channel` keeps it as it
/// is pending, keeps the keys unique, and sends nothing for it.
pub proof fn lemma_dispatch_other(p: Seq<PendingNoteOff>, ins: Instruction, note: u8, channel: u8)
    requires
        unique(p),
        !touches(ins, note, channel),
    ensures
        unique(dispatched(p, ins).0),
        lookup(dispatched(p, ins).0, note, channel) == lookup(p, note, channel),
        count_note_offs(dispatched(p, ins).1, note, channel) == 0,
        count_note_ons(dispatched(p, ins).1, note, channel) == 0,
{
    let (q, sent, res) = dispatched(p, ins);
    reveal_with_fuel(count_note_offs, 2);
    reveal_with_fuel(count_note_ons, 2);
    if sent.len() == 1 {
        assert(sent.drop_last() =~= Seq::<MidiMessage>::empty());
        assert(sent.last() == sent[0]);
    }
    if let Instruction::PlayNote { midi_note, len, channel_id } = ins {
        if res is Ok {
            let k = midi_note.key() as u8;
            let e = PendingNoteOff { note: k, channel: channel_id, ticks_remaining: len };
            let i = index_of(p, k, channel_id);
            lemma_index_of_bounds(p, k, channel_id);
            lemma_index_of_bounds(p, note, channel);
            if i >= 0 {
                lemma_update_same_key(p, i, e);
                lemma_index_of_bounds(q, note, channel);
            } else {
                assert(p.push(e).drop_last() =~= p);
            }
        }
    }
}

/// Instructions none of which touches `note` on `channel` keep it as it is
/// pending, keep the keys unique, and send nothing for it.
pub proof fn lemma_dispatch_all_other(p: Seq<PendingNoteOff>, instrs: Seq<Instruction>, note: u8, channel: u8)
    requires
        unique(p),
        forall|i: int| 0 <= i < instrs.len() ==> !touches(#[trigger] instrs[i], note, channel),
    ensures
        unique(dispatch_all(p, instrs).0),
        lookup(dispatch_all(p, instrs).0, note, channel) == lookup(p, note, channel),
        count_note_offs(dispatch_all(p, instrs).1, note, channel) == 0,
        count_note_ons(dispatch_all(p, instrs).1, note, channel) == 0,
    decreases instrs.len(),
{
    if instrs.len() > 0 {
        let d = instrs.drop_last();
        assert forall|i: int| 0 <= i < d.len() implies !touches(#[trigger] d[i], note, channel) by {
            assert(d[i] == instrs[i]);
        }
        lemma_dispatch_all_other(p, d, note, channel);
        let t1 = dispatch_all(p, d).0;
        assert(!touches(instrs[instrs.len() - 1], note, channel));
        lemma_dispatch_other(t1, instrs.last(), note, channel);
        lemma_counts_append(dispatch_all(p, d).1, dispatched(t1, instrs.last()).1, note, channel);
    }
}

/// Instructions carried out in two parts give what carrying them out at
/// once gives.
pub proof fn lemma_dispatch_all_append(p: Seq<PendingNoteOff>, a: Seq<Instruction>, b: Seq<Instruction>)
    ensures
        dispatch_all(p, a + b).0 == dispatch_all(dispatch_all(p, a).0, b).0,
        dispatch_all(p, a + b).1 == dispatch_all(p, a).1 + dispatch_all(dispatch_all(p, a).0, b).1,
    decreases b.len(),
{
    if b.len() == 0 {
        assert(a + b =~= a);
        assert(dispatch_all(p, a).1 + Seq::<MidiMessage>::empty() =~= dispatch_all(p, a).1);
    } else {
        lemma_dispatch_all_append(p, a, b.drop_last());
        assert((a + b).drop_last() =~= a + b.drop_last());
        assert((a + b).last() == b.last());
        let s_a = dispatch_all(p, a).1;
        let s_b = dispatch_all(dispatch_all(p, a).0, b.drop_last()).1;
        let s_c = dispatched(dispatch_all(dispatch_all(p, a).0, b.drop_last()).0, b.last()).1;
        assert(s_a + s_b + s_c =~= s_a + (s_b + s_c));
    }
}

/// After `k` passes, `k` below `len`, the note has `len - k` ticks left.
proof fn lemma_lifecycle_steps(q: Seq<PendingNoteOff>, note: u8, channel: u8, len: u32, k: nat)
    requires
        unique(q),
        lookup(q, note, channel) == Some(len),
        k < len,
    ensures
        unique(after_ticks(q, k)),
        lookup(after_ticks(q, k), note, channel) == Some((len - k) as u32),
    decreases k,
{
    if k > 0 {
        lemma_lifecycle_steps(q, note, channel, len, (k - 1) as nat);
        lemma_post_tick_key(after_ticks(q, (k - 1) as nat), note, channel);
    }
}

/// The dispatcher: a table of pending note-offs, with unique keys and a
/// bounded size.
pub struct MidiController {
    pending: Vec<PendingNoteOff>,
}

impl View for MidiController {
    type V = Seq<PendingNoteOff>;

    closed spec fn view(&self) -> Seq<PendingNoteOff> {
        self.pending@
    }
}

impl MidiController {
    #[verifier::type_invariant]
    closed spec fn inv(&self) -> bool {
        table_wf(self.pending@)
    }

    pub fn new() -> (r: MidiController)
        ensures
            r@ == Seq::<PendingNoteOff>::empty(),
    {
        MidiController { pending: Vec::new() }
    }

    /// Index of the entry for `note` on `channel`, if any.
    fn find(&self, note: u8, channel: u8) -> (r: Option<usize>)
        ensures
            r matches Some(i) ==> i as int == index_of(self@, note, channel),
            r is None ==> index_of(self@, note, channel) == -1,
    {
        let ghost p = self.pending@;
        let mut i: usize = self.pending.len();
        assert(p.take(p.len() as int) =~= p);
        while i > 0
            invariant
                i <= p.len(),
                p == self.pending@,
                index_of(p, note, channel) == index_of(p.take(i as int), note, channel),
            decreases i,
        {
            assert(p.take(i as int).drop_last() =~= p.take(i - 1));
            let e = self.pending[i - 1];
            if e.note == note && e.channel == channel {
                return Some(i - 1);
            }
            i = i - 1;
        }
        None
    }

    /// Carries out one instruction: a note is switched on at once and its
    /// note-off is entered in the table, replacing one pending for the same
    /// key and channel; a message is sent as it is. What is sent is appended
    /// to `out`.
    pub fn dispatch(&mut self, instruction: Instruction, out: &mut Vec<MidiMessage>) -> (r: Result<
        (),
        DispatchError,
    >)
        ensures
            ({
                let (t, sent, res) = dispatched(old(self)@, instruction);
                &&& final(self)@ == t
                &&& final(out)@ == old(out)@ + sent
                &&& r == res
            }),
    {
        match instruction {
            Instruction::PlayNote { midi_note, len, channel_id } => {
                if !(is_valid_channel(channel_id) && midi_note.is_valid()) {
                    assert(out@ =~= old(out)@ + Seq::<MidiMessage>::empty());
                    return Err(DispatchError::Invalid);
                }
                let key = midi_note.midi_value();
                let entry = PendingNoteOff { note: key, channel: channel_id, ticks_remaining: len };
                let ghost p = self.pending@;
                proof {
                    use_type_invariant(&*self);
                    lemma_index_of_bounds(p, key, channel_id);
                }
                let found = self.find(key, channel_id);
                if found.is_none() && self.pending.len() >= PENDING_CAPACITY {
                    assert(out@ =~= old(out)@ + Seq::<MidiMessage>::empty());
                    return Err(DispatchError::Full);
                }
                let mut table: Vec<PendingNoteOff> = Vec::new();
                std::mem::swap(&mut table, &mut self.pending);
                match found {
                    Some(i) => {
                        proof {
                            lemma_update_same_key(p, i as int, entry);
                        }
                        table.set(i, entry);
                    },
                    None => {
                        table.push(entry);
                        assert(table@.drop_last() =~= p);
                    },
                }
                assert forall|j: int| 0 <= j < table@.len() implies entry_ok(#[trigger] table@[j]) by {
                    if j < p.len() && table@[j] != entry {
                        assert(table@[j] == p[j]);
                    }
                }
                self.pending = table;
                out.push(MidiMessage::NoteOn { channel: channel_id, note: midi_note });
                Ok(())
            },
            Instruction::MidiMessage { midi_message } => {
                if midi_message.is_wf() {
                    out.push(midi_message);
                    Ok(())
                } else {
                    assert(out@ =~= old(out)@ + Seq::<MidiMessage>::empty());
                    Err(DispatchError::Invalid)
                }
            },
        }
    }

    /// Carries out `instructions` in order. A failing instruction is left
    /// out and its error reported; the others go on.
    pub fn execute_all(&mut self, instructions: Vec<Instruction>, out: &mut Vec<MidiMessage>) -> (r: Vec<
        DispatchError,
    >)
        ensures
            ({
                let (t, sent, errs) = dispatch_all(old(self)@, instructions@);
                &&& final(self)@ == t
                &&& final(out)@ == old(out)@ + sent
                &&& r@ == errs
            }),
    {
        let mut errors: Vec<DispatchError> = Vec::new();
        let mut i: usize = 0;
        while i < instructions.len()
            invariant
                i <= instructions@.len(),
                ({
                    let (t, sent, errs) = dispatch_all(old(self)@, instructions@.take(i as int));
                    &&& self@ == t
                    &&& out@ == old(out)@ + sent
                    &&& errors@ == errs
                }),
            decreases instructions@.len() - i,
        {
            assert(instructions@.take(i + 1).drop_last() =~= instructions@.take(i as int));
            let ghost sent_before = dispatch_all(old(self)@, instructions@.take(i as int)).1;
            match self.dispatch(instructions[i], out) {
                Ok(()) => {},
                Err(e) => {
                    errors.push(e);
                },
            }
            let ghost s2 = dispatched(dispatch_all(old(self)@, instructions@.take(i as int)).0, instructions@[i as int]).1;
            assert(out@ =~= old(out)@ + (sent_before + s2));
            i = i + 1;
        }
        assert(instructions@.take(instructions@.len() as int) =~= instructions@);
        errors
    }

    /// The post-tick pass: every pending note-off loses a tick; those with
    /// one tick or none left are sent, in table order, and leave the table.
    pub fn post_tick(&mut self, out: &mut Vec<MidiMessage>)
        ensures
            final(self)@ == post_tick_table(old(self)@),
            final(out)@ == old(out)@ + post_tick_out(old(self)@),
    {
        proof {
            use_type_invariant(&*self);
        }
        let ghost p = self.pending@;
        let mut kept: Vec<PendingNoteOff> = Vec::new();
        let mut i: usize = 0;
        while i < self.pending.len()
            invariant
                p == self.pending@,
                i <= p.len(),
                kept@ == post_tick_table(p.take(i as int)),
                out@ == old(out)@ + post_tick_out(p.take(i as int)),
            decreases p.len() - i,
        {
            let e = self.pending[i];
            assert(p.take(i + 1).drop_last() =~= p.take(i as int));
            assert(p.take(i + 1).last() == e);
            if e.ticks_remaining <= 1 {
                out.push(
                    MidiMessage::NoteOff {
                        channel: e.channel,
                        note: MidiNote::from_midi_value(e.note, 0),
                    },
                );
                assert(out@ =~= old(out)@ + post_tick_out(p.take(i + 1)));
            } else {
                kept.push(PendingNoteOff { ticks_remaining: e.ticks_remaining - 1, ..e });
            }
            i = i + 1;
        }
        assert(p.take(p.len() as int) =~= p);
        proof {
            lemma_post_tick_key(p, 0, 0);
            lemma_post_tick_valid(p);
        }
        self.pending = kept;
    }

    /// Sends a note-off for every pending note, in table order, and empties
    /// the table.
    pub fn stop_all_notes(&mut self, out: &mut Vec<MidiMessage>)
        ensures
            final(self)@ == Seq::<PendingNoteOff>::empty(),
            final(out)@ == old(out)@ + old(self)@.map_values(|e: PendingNoteOff| note_off_message(e)),
    {
        let ghost p = self.pending@;
        let mut i: usize = 0;
        while i < self.pending.len()
            invariant
                p == self.pending@,
                i <= p.len(),
                out@ == old(out)@ + p.take(i as int).map_values(|e: PendingNoteOff| note_off_message(e)),
            decreases p.len() - i,
        {
            let e = self.pending[i];
            out.push(
                MidiMessage::NoteOff { channel: e.channel, note: MidiNote::from_midi_value(e.note, 0) },
            );
            assert(p.take(i + 1).map_values(|e: PendingNoteOff| note_off_message(e)) =~= p.take(
                i as int,
            ).map_values(|e: PendingNoteOff| note_off_message(e)).push(note_off_message(e)));
            i = i + 1;
        }
        assert(p.take(p.len() as int) =~= p);
        self.pending = Vec::new();
    }
}

} // verus!
