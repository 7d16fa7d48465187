//! The tick cycle and the other entry points that drive a conductor, a
//! context and a dispatcher together.
use vstd::prelude::*;

use crate::conductor::Conductor;
use crate::context::{next_step, period_of, Context, ContextView, SysInstruction, TransportState, STEPS_PER_BEAT};
use crate::midi::MidiMessage;
use crate::midi::valid_channel;
use crate::midi_controller::{
    count_note_offs, count_note_ons, dispatch_all, dispatched, lemma_counts_append,
    lemma_dispatch_all_append, lemma_dispatch_all_other, lemma_play_key, lemma_post_tick_key,
    lemma_post_tick_no_note_on, lookup, note_off_message, post_tick_out, post_tick_table, touches,
    unique, DispatchError, Instruction, MidiController, PendingNoteOff, PENDING_CAPACITY,
};
use crate::note::MidiNote;

verus! {

/// Table and messages after the work left by transport transitions is done
/// in order.
pub open spec fn flushed(p: Seq<PendingNoteOff>, sys: Seq<SysInstruction>) -> (
    Seq<PendingNoteOff>,
    Seq<MidiMessage>,
)
    decreases sys.len(),
{
    if sys.len() == 0 {
        (p, Seq::empty())
    } else {
        let (t1, s1) = flushed(p, sys.drop_last());
        match sys.last() {
            SysInstruction::Start => (t1, s1.push(MidiMessage::Start)),
            SysInstruction::Continue => (t1, s1.push(MidiMessage::Continue)),
            SysInstruction::Stop => (t1, s1.push(MidiMessage::Stop)),
            SysInstruction::StopAllNotes => (
                Seq::empty(),
                s1 + t1.map_values(|e: PendingNoteOff| note_off_message(e)),
            ),
        }
    }
}

/// Work left by transitions that sends only transport messages keeps the
/// table and sends no note message.
pub proof fn lemma_flushed_no_stop(t: Seq<PendingNoteOff>, sys: Seq<SysInstruction>, note: u8, channel: u8)
    requires
        forall|i: int| 0 <= i < sys.len() ==> #[trigger] sys[i] != SysInstruction::StopAllNotes,
    ensures
        flushed(t, sys).0 == t,
        count_note_offs(flushed(t, sys).1, note, channel) == 0,
        count_note_ons(flushed(t, sys).1, note, channel) == 0,
    decreases sys.len(),
{
    if sys.len() > 0 {
        let d = sys.drop_last();
        assert forall|i: int| 0 <= i < d.len() implies #[trigger] d[i] != SysInstruction::StopAllNotes by {
            assert(d[i] == sys[i]);
        }
        lemma_flushed_no_stop(t, d, note, channel);
        assert(sys[sys.len() - 1] != SysInstruction::StopAllNotes);
        let o = flushed(t, d).1;
        assert(o.push(MidiMessage::Start).drop_last() =~= o);
        assert(o.push(MidiMessage::Stop).drop_last() =~= o);
        assert(o.push(MidiMessage::Continue).drop_last() =~= o);
    }
}

/// Conductor, context, table and messages after one tick, as `clock`
/// leaves them.
pub open spec fn tick_spec<C: Conductor>(c: C, v: ContextView, t: Seq<PendingNoteOff>) -> (
    C,
    ContextView,
    Seq<PendingNoteOff>,
    Seq<MidiMessage>,
) {
    let running0 = v.state == TransportState::Running;
    let t1 = if running0 { post_tick_table(t) } else { t };
    let o1 = if running0 { post_tick_out(t) } else { Seq::<MidiMessage>::empty() };
    let (instrs, v1) = c.update_spec(v);
    let (t2, o2) = if running0 {
        (dispatch_all(t1, instrs).0, dispatch_all(t1, instrs).1)
    } else {
        (t1, Seq::<MidiMessage>::empty())
    };
    let (t3, o3) = flushed(t2, v1.sys);
    let step = if running0 { next_step(v1.step) } else { v1.step };
    (
        c.after_update(v),
        ContextView { step, sys: Seq::empty(), ..v1 },
        t3,
        seq![MidiMessage::Clock] + o1 + o2 + o3,
    )
}

/// Conductor, context and table after `k` ticks.
pub open spec fn run<C: Conductor>(c: C, v: ContextView, t: Seq<PendingNoteOff>, k: nat) -> (
    C,
    ContextView,
    Seq<PendingNoteOff>,
)
    decreases k,
{
    if k == 0 {
        (c, v, t)
    } else {
        let s = run(c, v, t, (k - 1) as nat);
        let n = tick_spec(s.0, s.1, s.2);
        (n.0, n.1, n.2)
    }
}

/// The messages of tick `k` of a run, counted from 0.
pub open spec fn tick_messages<C: Conductor>(c: C, v: ContextView, t: Seq<PendingNoteOff>, k: nat) -> Seq<
    MidiMessage,
> {
    let s = run(c, v, t, k);
    tick_spec(s.0, s.1, s.2).3
}

/// The instructions of the conductor's update in tick `k` of a run.
pub open spec fn tick_instructions<C: Conductor>(
    c: C,
    v: ContextView,
    t: Seq<PendingNoteOff>,
    k: nat,
) -> Seq<Instruction> {
    let s = run(c, v, t, k);
    s.0.update_spec(s.1).0
}

/// The work left by the transitions of the conductor's update in tick `k`.
pub open spec fn tick_sys<C: Conductor>(c: C, v: ContextView, t: Seq<PendingNoteOff>, k: nat) -> Seq<
    SysInstruction,
> {
    let s = run(c, v, t, k);
    s.0.update_spec(s.1).1.sys
}

/// A note that the conductor plays for `len` ticks, `len` at least one, in
/// tick 0 of a run is switched on exactly once in that tick; the ticks 1 to
/// `len - 1` send no note-off for it, and tick `len` sends exactly one.
/// This holds while the transport runs through tick `len`, no transition
/// switches all notes off, the table has room for the note, and no other
/// instruction of ticks 0 to `len` touches the same key and channel.
pub proof fn lemma_note_lifecycle_ticks<C: Conductor>(
    c: C,
    v: ContextView,
    t: Seq<PendingNoteOff>,
    pre: Seq<Instruction>,
    note: MidiNote,
    len: u32,
    channel: u8,
    post: Seq<Instruction>,
)
    requires
        unique(t),
        note.valid(),
        valid_channel(channel),
        len >= 1,
        c.update_spec(v).0 == pre + seq![Instruction::PlayNote { midi_note: note, len, channel_id: channel }]
            + post,
        forall|i: int| 0 <= i < pre.len() ==> !touches(#[trigger] pre[i], note.key() as u8, channel),
        forall|i: int| 0 <= i < post.len() ==> !touches(#[trigger] post[i], note.key() as u8, channel),
        lookup(post_tick_table(t), note.key() as u8, channel) is Some || dispatch_all(
            post_tick_table(t),
            pre,
        ).0.len() < PENDING_CAPACITY,
        forall|k: nat| k <= len ==> (#[trigger] run(c, v, t, k)).1.state == TransportState::Running,
        forall|k: nat, i: int|
            k <= len && 0 <= i < tick_sys(c, v, t, k).len() ==> #[trigger] tick_sys(c, v, t, k)[i]
                != SysInstruction::StopAllNotes,
        forall|k: nat, i: int|
            1 <= k <= len && 0 <= i < tick_instructions(c, v, t, k).len() ==> !touches(
                #[trigger] tick_instructions(c, v, t, k)[i],
                note.key() as u8,
                channel,
            ),
    ensures
        count_note_ons(tick_messages(c, v, t, 0), note.key() as u8, channel) == 1,
        forall|k: nat|
            1 <= k < len ==> count_note_offs(
                #[trigger] tick_messages(c, v, t, k),
                note.key() as u8,
                channel,
            ) == 0,
        count_note_offs(tick_messages(c, v, t, len as nat), note.key() as u8, channel) == 1,
{
    let key = note.key() as u8;
    let x = Instruction::PlayNote { midi_note: note, len, channel_id: channel };
    // Tick 0.
    assert(run(c, v, t, 0) == (c, v, t));
    assert(run(c, v, t, 0).1.state == TransportState::Running);
    let t1 = post_tick_table(t);
    lemma_post_tick_key(t, key, channel);
    lemma_post_tick_no_note_on(t, key, channel);
    lemma_dispatch_all_other(t1, pre, key, channel);
    let a = pre + seq![x];
    assert(a.drop_last() =~= pre);
    assert(a.last() == x);
    let ta = dispatch_all(t1, pre).0;
    lemma_play_key(ta, key, len, channel);
    let sx = dispatched(ta, x).1;
    assert(sx == seq![MidiMessage::NoteOn { channel, note }]);
    assert(sx.drop_last() =~= Seq::<MidiMessage>::empty());
    lemma_dispatch_all_append(t1, a, post);
    let tb = dispatch_all(t1, a).0;
    lemma_dispatch_all_other(tb, post, key, channel);
    lemma_counts_append(dispatch_all(t1, pre).1, sx, key, channel);
    let instrs = c.update_spec(v).0;
    assert(instrs == a + post);
    let sys0 = tick_sys(c, v, t, 0);
    assert forall|i: int| 0 <= i < sys0.len() implies #[trigger] sys0[i] != SysInstruction::StopAllNotes by {
        assert(tick_sys(c, v, t, 0)[i] != SysInstruction::StopAllNotes);
    }
    let t2 = dispatch_all(t1, instrs).0;
    lemma_flushed_no_stop(t2, sys0, key, channel);
    let clock = seq![MidiMessage::Clock];
    assert(clock.drop_last() =~= Seq::<MidiMessage>::empty());
    lemma_counts_append(clock, post_tick_out(t), key, channel);
    lemma_counts_append(clock + post_tick_out(t), dispatch_all(t1, instrs).1, key, channel);
    lemma_counts_append(
        clock + post_tick_out(t) + dispatch_all(t1, instrs).1,
        flushed(t2, sys0).1,
        key,
        channel,
    );
    assert(count_note_ons(clock, key, channel) == 0) by {
        reveal_with_fuel(count_note_ons, 2);
        assert(clock.last() == MidiMessage::Clock);
    }
    assert(count_note_ons(sx, key, channel) == 1);
    assert(tick_messages(c, v, t, 0) == clock + post_tick_out(t) + dispatch_all(t1, instrs).1
        + flushed(t2, sys0).1);
    assert(dispatch_all(t1, instrs).1 == dispatch_all(t1, pre).1 + sx + dispatch_all(tb, post).1);
    lemma_counts_append(dispatch_all(t1, pre).1 + sx, dispatch_all(tb, post).1, key, channel);
    assert(run(c, v, t, 1).2 == t2);
    // Ticks 1 to len.
    assert forall|k: nat| 1 <= k <= len implies unique(#[trigger] run(c, v, t, k).2) && lookup(
        run(c, v, t, k).2,
        key,
        channel,
    ) == Some((len - k + 1) as u32) by {
        lemma_lifecycle_run(c, v, t, key, len, channel, k);
    }
    assert forall|k: nat| 1 <= k < len implies count_note_offs(
        #[trigger] tick_messages(c, v, t, k),
        key,
        channel,
    ) == 0 by {
        lemma_tick_after(c, v, t, key, len, channel, k);
    }
    lemma_tick_after(c, v, t, key, len, channel, len as nat);
}

/// What ticks 1 to `len` of a run do to a note pending from tick 0.
proof fn lemma_tick_after<C: Conductor>(
    c: C,
    v: ContextView,
    t: Seq<PendingNoteOff>,
    key: u8,
    len: u32,
    channel: u8,
    k: nat,
)
    requires
        1 <= k <= len,
        unique(run(c, v, t, k).2),
        lookup(run(c, v, t, k).2, key, channel) == Some((len - k + 1) as u32),
        run(c, v, t, k).1.state == TransportState::Running,
        forall|i: int| 0 <= i < tick_sys(c, v, t, k).len() ==> #[trigger] tick_sys(c, v, t, k)[i]
            != SysInstruction::StopAllNotes,
        forall|i: int| 0 <= i < tick_instructions(c, v, t, k).len() ==> !touches(
            #[trigger] tick_instructions(c, v, t, k)[i],
            key,
            channel,
        ),
    ensures
        count_note_offs(tick_messages(c, v, t, k), key, channel) == (if k < len { 0nat } else { 1nat }),
        unique(run(c, v, t, k + 1).2),
        k < len ==> lookup(run(c, v, t, k + 1).2, key, channel) == Some((len - k) as u32),
{
    let s = run(c, v, t, k);
    let tk = s.2;
    let t1 = post_tick_table(tk);
    lemma_post_tick_key(tk, key, channel);
    let instrs = tick_instructions(c, v, t, k);
    lemma_dispatch_all_other(t1, instrs, key, channel);
    let t2 = dispatch_all(t1, instrs).0;
    let sys = tick_sys(c, v, t, k);
    lemma_flushed_no_stop(t2, sys, key, channel);
    let clock = seq![MidiMessage::Clock];
    assert(clock.drop_last() =~= Seq::<MidiMessage>::empty());
    lemma_counts_append(clock, post_tick_out(tk), key, channel);
    lemma_counts_append(clock + post_tick_out(tk), dispatch_all(t1, instrs).1, key, channel);
    lemma_counts_append(
        clock + post_tick_out(tk) + dispatch_all(t1, instrs).1,
        flushed(t2, sys).1,
        key,
        channel,
    );
    assert(count_note_offs(clock, key, channel) == 0) by {
        reveal_with_fuel(count_note_offs, 2);
        assert(clock.last() == MidiMessage::Clock);
    }
    assert(tick_messages(c, v, t, k) == clock + post_tick_out(tk) + dispatch_all(t1, instrs).1
        + flushed(t2, sys).1);
    assert(run(c, v, t, k + 1).2 == t2);
}

/// Through ticks 1 to `len`, the note stays pending with one tick less each
/// tick.
proof fn lemma_lifecycle_run<C: Conductor>(
    c: C,
    v: ContextView,
    t: Seq<PendingNoteOff>,
    key: u8,
    len: u32,
    channel: u8,
    k: nat,
)
    requires
        1 <= k <= len,
        unique(run(c, v, t, 1).2),
        lookup(run(c, v, t, 1).2, key, channel) == Some(len),
        forall|j: nat| j <= len ==> (#[trigger] run(c, v, t, j)).1.state == TransportState::Running,
        forall|j: nat, i: int|
            j <= len && 0 <= i < tick_sys(c, v, t, j).len() ==> #[trigger] tick_sys(c, v, t, j)[i]
                != SysInstruction::StopAllNotes,
        forall|j: nat, i: int|
            1 <= j <= len && 0 <= i < tick_instructions(c, v, t, j).len() ==> !touches(
                #[trigger] tick_instructions(c, v, t, j)[i],
                key,
                channel,
            ),
    ensures
        unique(run(c, v, t, k).2),
        lookup(run(c, v, t, k).2, key, channel) == Some((len - k + 1) as u32),
    decreases k,
{
    if k > 1 {
        let j = (k - 1) as nat;
        lemma_lifecycle_run(c, v, t, key, len, channel, j);
        assert(run(c, v, t, j).1.state == TransportState::Running);
        lemma_tick_after(c, v, t, key, len, channel, j);
    }
}

/// Where an incoming message goes.
#[derive(Clone, Copy, PartialEq, Eq, Structural, Debug)]
pub enum InputRoute {
    /// Run one tick cycle (a clock message, as a slave).
    Tick,
    /// Start the transport (as a slave).
    Start,
    /// Pause the transport (as a slave).
    Stop,
    /// Resume the transport (as a slave).
    Continue,
    /// Queue the message for the conductor.
    Queue,
    /// Drop it: a transport message that a master does not follow.
    Ignore,
}

/// Real-time messages drive the transport of a slave and are dropped by a
/// master; every other message is queued for the conductor.
pub open spec fn route(message: MidiMessage, is_master: bool) -> InputRoute {
    match message {
        MidiMessage::Clock => if is_master { InputRoute::Ignore } else { InputRoute::Tick },
        MidiMessage::Start => if is_master { InputRoute::Ignore } else { InputRoute::Start },
        MidiMessage::Stop => if is_master { InputRoute::Ignore } else { InputRoute::Stop },
        MidiMessage::Continue => if is_master { InputRoute::Ignore } else { InputRoute::Continue },
        _ => InputRoute::Queue,
    }
}

pub fn route_input(message: &MidiMessage, is_master: bool) -> (r: InputRoute)
    ensures
        r == route(*message, is_master),
{
    match message {
        MidiMessage::Clock => if is_master { InputRoute::Ignore } else { InputRoute::Tick },
        MidiMessage::Start => if is_master { InputRoute::Ignore } else { InputRoute::Start },
        MidiMessage::Stop => if is_master { InputRoute::Ignore } else { InputRoute::Stop },
        MidiMessage::Continue => if is_master { InputRoute::Ignore } else { InputRoute::Continue },
        _ => InputRoute::Queue,
    }
}

/// What one tick produced.
pub struct Tick {
    /// Messages to send, in order.
    pub messages: Vec<MidiMessage>,
    /// Instructions that could not be carried out.
    pub errors: Vec<DispatchError>,
    /// Period to arm for the next interval, in microseconds.
    pub period_us: u32,
    /// The tick is one past a beat: the display text is due.
    pub refresh_display: bool,
}

/// Does the work left by transport transitions: start, continue and stop
/// messages are sent, and all pending notes switched off where asked.
pub fn flush(ctx: &mut Context, controller: &mut MidiController, out: &mut Vec<MidiMessage>)
    ensures
        final(ctx)@ == (ContextView { sys: Seq::empty(), ..old(ctx)@ }),
        ({
            let (p, sent) = flushed(old(controller)@, old(ctx)@.sys);
            &&& final(controller)@ == p
            &&& final(out)@ == old(out)@ + sent
        }),
{
    let sys = ctx.take_sys_instructions();
    let mut i: usize = 0;
    while i < sys.len()
        invariant
            i <= sys@.len(),
            ({
                let (p, sent) = flushed(old(controller)@, sys@.take(i as int));
                &&& controller@ == p
                &&& out@ == old(out)@ + sent
            }),
        decreases sys@.len() - i,
    {
        assert(sys@.take(i + 1).drop_last() =~= sys@.take(i as int));
        let ghost s1 = flushed(old(controller)@, sys@.take(i as int)).1;
        match sys[i] {
            SysInstruction::Start => {
                out.push(MidiMessage::Start);
                assert(out@ =~= old(out)@ + s1.push(MidiMessage::Start));
            },
            SysInstruction::Continue => {
                out.push(MidiMessage::Continue);
                assert(out@ =~= old(out)@ + s1.push(MidiMessage::Continue));
            },
            SysInstruction::Stop => {
                out.push(MidiMessage::Stop);
                assert(out@ =~= old(out)@ + s1.push(MidiMessage::Stop));
            },
            SysInstruction::StopAllNotes => {
                let ghost t1 = controller@;
                controller.stop_all_notes(out);
                assert(out@ =~= old(out)@ + (s1 + t1.map_values(|e: PendingNoteOff| note_off_message(e))));
            },
        }
        i = i + 1;
    }
    assert(sys@.take(sys@.len() as int) =~= sys@);
}

/// Starts the conductor: the work left by its transitions is done, then its
/// instructions are carried out. Returns the messages to send and the
/// instructions that failed.
pub fn init<C: Conductor>(ctx: &mut Context, conductor: &mut C, controller: &mut MidiController) -> (r: (
    Vec<MidiMessage>,
    Vec<DispatchError>,
))
    ensures
        *final(conductor) == old(conductor).after_init(old(ctx)@),
        ({
            let (instrs, v1) = old(conductor).init_spec(old(ctx)@);
            let (t2, o2) = flushed(old(controller)@, v1.sys);
            let (t3, o3, errs) = dispatch_all(t2, instrs);
            &&& final(ctx)@ == (ContextView { sys: Seq::empty(), ..v1 })
            &&& final(controller)@ == t3
            &&& r.0@ == o2 + o3
            &&& r.1@ == errs
        }),
{
    let instructions = conductor.init(ctx);
    let mut out: Vec<MidiMessage> = Vec::new();
    flush(ctx, controller, &mut out);
    let ghost flushed_out = out@;
    let errors = controller.execute_all(instructions, &mut out);
    assert(flushed_out =~= Seq::<MidiMessage>::empty() + flushed_out);
    (out, errors)
}

/// One tick. A clock message goes out first. Where the transport runs when
/// the tick starts: the post-tick pass switches off the notes that are due,
/// the conductor's update at the current step is carried out, and the step
/// moves on; a quit or pause made by that update takes effect at the end
/// of the tick, when the work left by transitions is done. Otherwise the
/// conductor is still updated, its instructions are dropped and the step
/// holds. The period returned is the one for the next interval, from the
/// tempo as this tick leaves it.
pub fn clock<C: Conductor>(ctx: &mut Context, controller: &mut MidiController, conductor: &mut C) -> (r: Tick)
    ensures
        *final(conductor) == old(conductor).after_update(old(ctx)@),
        (*final(conductor), final(ctx)@, final(controller)@, r.messages@) == tick_spec(
            *old(conductor),
            old(ctx)@,
            old(controller)@,
        ),
        ({
            let v0 = old(ctx)@;
            let t0 = old(controller)@;
            let running0 = v0.state == TransportState::Running;
            let t1 = if running0 { post_tick_table(t0) } else { t0 };
            let o1 = if running0 { post_tick_out(t0) } else { Seq::<MidiMessage>::empty() };
            let (instrs, v1) = old(conductor).update_spec(v0);
            let (t2, o2, errs) = if running0 {
                dispatch_all(t1, instrs)
            } else {
                (t1, Seq::<MidiMessage>::empty(), Seq::<DispatchError>::empty())
            };
            let (t3, o3) = flushed(t2, v1.sys);
            let step = if running0 { next_step(v1.step) } else { v1.step };
            &&& final(ctx)@ == (ContextView { step, sys: Seq::empty(), ..v1 })
            &&& final(controller)@ == t3
            &&& r.messages@ == seq![MidiMessage::Clock] + o1 + o2 + o3
            &&& r.errors@ == errs
            &&& r.period_us == period_of(v1.bpm)
            &&& r.refresh_display == (step % STEPS_PER_BEAT == 1)
        }),
{
    let mut out: Vec<MidiMessage> = vec![MidiMessage::Clock];
    let running = ctx.is_running();
    // Post-tick pass: note-offs that are due go out before anything else.
    if running {
        controller.post_tick(&mut out);
    }
    let ghost o1 = out@;
    // Pre-tick pass.
    let instructions = conductor.update(ctx);
    let mut errors: Vec<DispatchError> = Vec::new();
    if running {
        errors = controller.execute_all(instructions, &mut out);
    }
    let ghost o2 = out@;
    flush(ctx, controller, &mut out);
    if running {
        ctx.advance();
    }
    let step = ctx.get_step();
    assert(out@ =~= seq![MidiMessage::Clock] + (o1.skip(1)) + (o2.skip(o1.len() as int)) + out@.skip(o2.len() as int));
    Tick {
        messages: out,
        errors,
        period_us: ctx.get_period_us(),
        refresh_display: step % STEPS_PER_BEAT == 1,
    }
}

/// Hands one input message to the conductor. Its instructions are carried
/// out where the transport runs; otherwise only those that send a message
/// as it is. Returns the messages to send and the instructions that failed.
pub fn handle_input<C: Conductor>(
    ctx: &Context,
    conductor: &mut C,
    controller: &mut MidiController,
    input: MidiMessage,
) -> (r: (Vec<MidiMessage>, Vec<DispatchError>))
    ensures
        *final(conductor) == old(conductor).after_input(input, ctx@),
        ({
            let instrs = old(conductor).input_spec(input, ctx@);
            let kept = if ctx@.state == TransportState::Running {
                instrs
            } else {
                instrs.filter(|i: Instruction| i is MidiMessage)
            };
            let (p, sent, errs) = dispatch_all(old(controller)@, kept);
            &&& final(controller)@ == p
            &&& r.0@ == sent
            &&& r.1@ == errs
        }),
{
    let instructions = conductor.handle_input(input, ctx);
    let ghost all = instructions@;
    let kept: Vec<Instruction> = if ctx.is_running() {
        instructions
    } else {
        let mut k: Vec<Instruction> = Vec::new();
        let mut i: usize = 0;
        while i < instructions.len()
            invariant
                i <= all.len(),
                instructions@ == all,
                k@ == all.take(i as int).filter(|i: Instruction| i is MidiMessage),
            decreases all.len() - i,
        {
            let ins = instructions[i];
            proof {
                assert(all.take(i + 1).drop_last() =~= all.take(i as int));
                reveal(Seq::filter);
            }
            if let Instruction::MidiMessage { .. } = ins {
                k.push(ins);
            }
            i = i + 1;
        }
        assert(all.take(all.len() as int) =~= all);
        k
    };
    let mut out: Vec<MidiMessage> = Vec::new();
    let errors = controller.execute_all(kept, &mut out);
    assert(out@ =~= Seq::<MidiMessage>::empty() + out@);
    (out, errors)
}

} // verus!
