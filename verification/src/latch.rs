//! The latch engine: its state, the per-event decision rules as a
//! mathematical state machine, the executable block processor proved against
//! it, and the laws the machine obeys.

use vstd::prelude::*;

use crate::events::ActiveNote;
use crate::events::MidiEvent;
use crate::events::MidiEventView;
use crate::events::TimedEvent;
use crate::events::TimedEventView;
use crate::events::events_view;

verus! {

/// Mathematical view of the engine's state.
pub struct LatchView {
    /// The latched notes, in insertion order; duplicates are kept.
    pub active_notes: Seq<ActiveNote>,
    /// Saturating count of Note-Ons not yet matched by a Note-Off.
    pub keys_pressed: u8,
}

/// `keys_pressed` after one more Note-On: saturates at the top instead of
/// wrapping.
pub open spec fn saturating_inc(k: u8) -> u8 {
    if k == 255 {
        255u8
    } else {
        (k + 1) as u8
    }
}

/// `keys_pressed` after one more Note-Off: saturates at zero instead of
/// going negative.
pub open spec fn saturating_dec(k: u8) -> u8 {
    if k == 0 {
        0u8
    } else {
        (k - 1) as u8
    }
}

/// The synthetic Note-Off that releases one latched note, at timestamp `t`.
pub open spec fn release_event(n: ActiveNote, t: i64) -> TimedEventView {
    TimedEventView {
        time: t,
        event: MidiEventView::NoteOff { channel: n.channel, note: n.note, velocity: n.velocity },
    }
}

/// The batch of synthetic Note-Offs releasing every latched note, in
/// insertion order, all at timestamp `t`.
pub open spec fn release_all(notes: Seq<ActiveNote>, t: i64) -> Seq<TimedEventView> {
    notes.map(|i: int, n: ActiveNote| release_event(n, t))
}

/// Whether one event breaks the latch: a Note-On arriving while no key is
/// physically pressed and some notes are still latched.
pub open spec fn breaks_latch(s: LatchView, e: TimedEventView) -> bool {
    e.event is NoteOn && s.keys_pressed == 0 && s.active_notes.len() > 0
}

/// The state after processing one event.
///
/// A Note-On first clears the latch if it breaks it, then registers itself
/// and counts one more pressed key (saturating). A Note-Off only counts one
/// key released (saturating). Everything else leaves the state alone.
pub open spec fn step_state(s: LatchView, e: TimedEventView) -> LatchView {
    match e.event {
        MidiEventView::NoteOn { channel, note, velocity } => {
            let kept = if breaks_latch(s, e) {
                Seq::<ActiveNote>::empty()
            } else {
                s.active_notes
            };
            LatchView {
                active_notes: kept.push(ActiveNote { channel, note, velocity }),
                keys_pressed: saturating_inc(s.keys_pressed),
            }
        },
        MidiEventView::NoteOff { .. } => LatchView {
            active_notes: s.active_notes,
            keys_pressed: saturating_dec(s.keys_pressed),
        },
        MidiEventView::Other { .. } => s,
    }
}

/// The output emitted for one event.
///
/// A Note-On that breaks the latch is preceded by the synthetic Note-Offs
/// for every latched note, at its own timestamp; the Note-On itself is then
/// forwarded. A plain Note-On and any non-Note-On/Off event are forwarded
/// alone. A Note-Off is consumed: nothing is emitted for it.
pub open spec fn step_output(s: LatchView, e: TimedEventView) -> Seq<TimedEventView> {
    match e.event {
        MidiEventView::NoteOn { .. } => {
            if breaks_latch(s, e) {
                release_all(s.active_notes, e.time).push(e)
            } else {
                seq![e]
            }
        },
        MidiEventView::NoteOff { .. } => Seq::<TimedEventView>::empty(),
        MidiEventView::Other { .. } => seq![e],
    }
}

/// The state after processing a whole block, one event at a time, in order.
pub open spec fn run_state(s: LatchView, input: Seq<TimedEventView>) -> LatchView
    decreases input.len(),
{
    if input.len() == 0 {
        s
    } else {
        run_state(step_state(s, input.first()), input.drop_first())
    }
}

/// The output of a whole block: the outputs of its events, concatenated in
/// input order.
pub open spec fn run_output(s: LatchView, input: Seq<TimedEventView>) -> Seq<TimedEventView>
    decreases input.len(),
{
    if input.len() == 0 {
        Seq::<TimedEventView>::empty()
    } else {
        step_output(s, input.first()) + run_output(step_state(s, input.first()), input.drop_first())
    }
}

/// Processing a block extended by one event is processing the block, then
/// the event, from the state the block reaches.
proof fn lemma_run_snoc(s: LatchView, input: Seq<TimedEventView>, e: TimedEventView)
    ensures
        run_state(s, input.push(e)) == step_state(run_state(s, input), e),
        run_output(s, input.push(e)) == run_output(s, input) + step_output(run_state(s, input), e),
    decreases input.len(),
{
    if input.len() == 0 {
        reveal_with_fuel(run_state, 2);
        reveal_with_fuel(run_output, 2);
        assert(input.push(e).drop_first() =~= Seq::<TimedEventView>::empty());
        assert(run_output(s, input.push(e)) =~= run_output(s, input) + step_output(
            run_state(s, input),
            e,
        ));
    } else {
        assert(input.push(e).drop_first() =~= input.drop_first().push(e));
        lemma_run_snoc(step_state(s, input.first()), input.drop_first(), e);
        assert(run_output(s, input.push(e)) =~= run_output(s, input) + step_output(
            run_state(s, input),
            e,
        ));
    }
}

/// The latch engine. It owns the latch state and transforms one block of
/// events per call, keeping the state across blocks.
pub struct Midilatch {
    active_notes: Vec<ActiveNote>,
    keys_pressed: u8,
}

impl View for Midilatch {
    type V = LatchView;

    closed spec fn view(&self) -> LatchView {
        LatchView { active_notes: self.active_notes@, keys_pressed: self.keys_pressed }
    }
}

impl Midilatch {
    /// A fresh engine: nothing latched, no key pressed. The note store is
    /// pre-reserved so ordinary blocks allocate nothing while processing.
    pub fn new() -> (r: Self)
        ensures
            r@.active_notes == Seq::<ActiveNote>::empty(),
            r@.keys_pressed == 0,
    {
        Midilatch { active_notes: Vec::with_capacity(100), keys_pressed: 0 }
    }

    /// How many Note-Ons are currently unmatched by a Note-Off (saturating).
    pub fn pressed_key_count(&self) -> (k: u8)
        ensures
            k == self@.keys_pressed,
    {
        self.keys_pressed
    }

    /// How many notes are currently latched.
    pub fn latched_note_count(&self) -> (n: usize)
        ensures
            n == self@.active_notes.len(),
    {
        self.active_notes.len()
    }

    /// Process one event: mutate the latch state as [`step_state`] says and
    /// append to `out` exactly the events that [`step_output`] says.
    pub fn process_event(&mut self, time: i64, event: &MidiEvent, out: &mut Vec<TimedEvent>)
        ensures
            final(self)@ == step_state(old(self)@, TimedEventView { time, event: event@ }),
            events_view(final(out)@) == events_view(old(out)@) + step_output(
                old(self)@,
                TimedEventView { time, event: event@ },
            ),
    {
        let ghost e = TimedEventView { time, event: event@ };
        let ghost out0 = out@;
        match event {
            MidiEvent::NoteOn { channel, note, velocity } => {
                if self.keys_pressed == 0 && self.active_notes.len() > 0 {
                    let ghost notes0 = self@.active_notes;
                    let ghost keys0 = self@.keys_pressed;
                    let mut i: usize = 0;
                    while i < self.active_notes.len()
                        invariant
                            i <= notes0.len(),
                            self@.active_notes == notes0,
                            self@.keys_pressed == keys0,
                            events_view(out@) == events_view(out0) + release_all(
                                notes0.take(i as int),
                                time,
                            ),
                        decreases notes0.len() - i,
                    {
                        let n = self.active_notes[i];
                        let ghost out_prev = out@;
                        out.push(
                            TimedEvent {
                                time,
                                event: MidiEvent::NoteOff {
                                    channel: n.channel,
                                    note: n.note,
                                    velocity: n.velocity,
                                },
                            },
                        );
                        i = i + 1;
                        proof {
                            assert(events_view(out@) == events_view(out0) + release_all(
                                notes0.take(i as int),
                                time,
                            )) by {
                                assert(events_view(out_prev.push(out@.last())) =~= events_view(
                                    out_prev,
                                ).push(out@.last()@));
                                assert(events_view(out@) =~= events_view(out0) + release_all(
                                    notes0.take(i as int),
                                    time,
                                ));
                            }
                        }
                    }
                    self.active_notes.clear();
                    proof {
                        assert(notes0.take(notes0.len() as int) == notes0) by {
                            assert(notes0.take(notes0.len() as int) =~= notes0);
                        }
                    }
                }
                self.active_notes.push(
                    ActiveNote { channel: *channel, note: *note, velocity: *velocity },
                );
                self.keys_pressed = if self.keys_pressed == 255 {
                    255
                } else {
                    self.keys_pressed + 1
                };
                let ghost out_mid = out@;
                out.push(
                    TimedEvent {
                        time,
                        event: MidiEvent::NoteOn {
                            channel: *channel,
                            note: *note,
                            velocity: *velocity,
                        },
                    },
                );
                proof {
                    assert(events_view(out@) == events_view(out0) + step_output(old(self)@, e))
                        by {
                        assert(events_view(out_mid.push(out@.last())) =~= events_view(
                            out_mid,
                        ).push(out@.last()@));
                        assert(events_view(out@) =~= events_view(out0) + step_output(
                            old(self)@,
                            e,
                        ));
                    }
                }
            },
            MidiEvent::NoteOff { .. } => {
                self.keys_pressed = if self.keys_pressed == 0 {
                    0
                } else {
                    self.keys_pressed - 1
                };
                proof {
                    assert(events_view(out@) =~= events_view(out0) + step_output(old(self)@, e));
                }
            },
            MidiEvent::Other { payload } => {
                let bytes = copy_bytes(payload);
                out.push(TimedEvent { time, event: MidiEvent::Other { payload: bytes } });
                proof {
                    assert(events_view(out@) =~= events_view(out0) + step_output(old(self)@, e));
                }
            },
        }
    }

    /// Process one block: mutate the latch state to what [`run_state`] says
    /// the whole block leaves behind, and return exactly the output block
    /// that [`run_output`] says, the events of the block handled one at a
    /// time, in input order.
    pub fn process_block(&mut self, input: &Vec<TimedEvent>) -> (out: Vec<TimedEvent>)
        ensures
            final(self)@ == run_state(old(self)@, events_view(input@)),
            events_view(out@) == run_output(old(self)@, events_view(input@)),
    {
        let ghost s0 = self@;
        let ghost evs = events_view(input@);
        let mut out: Vec<TimedEvent> = Vec::new();
        proof {
            assert(events_view(out@) =~= run_output(s0, evs.take(0)));
        }
        let mut i: usize = 0;
        while i < input.len()
            invariant
                i <= input.len(),
                evs == events_view(input@),
                evs.len() == input@.len(),
                self@ == run_state(s0, evs.take(i as int)),
                events_view(out@) == run_output(s0, evs.take(i as int)),
            decreases input.len() - i,
        {
            let ev = &input[i];
            self.process_event(ev.time, &ev.event, &mut out);
            i = i + 1;
            proof {
                assert(evs.take(i as int) =~= evs.take(i - 1).push(evs[i - 1]));
                lemma_run_snoc(s0, evs.take(i - 1), evs[i - 1]);
            }
        }
        proof {
            assert(evs.take(evs.len() as int) =~= evs);
        }
        out
    }
}

impl LatchView {
    /// A well-formed latch state: every latched note is well-formed.
    pub open spec fn wf(&self) -> bool {
        forall|i: int| 0 <= i < self.active_notes.len() ==> self.active_notes[i].wf()
    }
}

/// Every event of `input` is well-formed.
pub open spec fn all_wf(input: Seq<TimedEventView>) -> bool {
    forall|i: int| 0 <= i < input.len() ==> input[i].event.wf()
}

/// One step from a well-formed state on a well-formed event keeps the state
/// well-formed and emits well-formed events only.
proof fn lemma_step_wf(s: LatchView, e: TimedEventView)
    requires
        s.wf(),
        e.event.wf(),
    ensures
        step_state(s, e).wf(),
        forall|i: int| 0 <= i < step_output(s, e).len() ==> step_output(s, e)[i].event.wf(),
{
    assert forall|i: int|
        0 <= i < step_state(s, e).active_notes.len() implies step_state(
        s,
        e,
    ).active_notes[i].wf() by {
        if e.event is NoteOn && i < step_state(s, e).active_notes.len() - 1 {
            assert(step_state(s, e).active_notes[i] == s.active_notes[i]);
        }
    }
    assert forall|i: int|
        0 <= i < step_output(s, e).len() implies step_output(s, e)[i].event.wf() by {
        if breaks_latch(s, e) && i < s.active_notes.len() {
            assert(step_output(s, e)[i] == release_event(s.active_notes[i], e.time));
        }
    }
}

/// Law (well-formedness is preserved): processing a block of well-formed
/// events from a well-formed state — channels in `[0, 15]`, pitches and
/// velocities in `[0, 127]` — leaves a well-formed state and emits
/// well-formed events only.
pub proof fn lemma_run_preserves_wf(s: LatchView, input: Seq<TimedEventView>)
    requires
        s.wf(),
        all_wf(input),
    ensures
        run_state(s, input).wf(),
        forall|i: int| 0 <= i < run_output(s, input).len() ==> run_output(s, input)[i].event.wf(),
    decreases input.len(),
{
    if input.len() > 0 {
        lemma_step_wf(s, input.first());
        assert(all_wf(input.drop_first())) by {
            assert forall|i: int|
                0 <= i < input.drop_first().len() implies input.drop_first()[i].event.wf() by {
                assert(input.drop_first()[i] == input[i + 1]);
            }
        }
        lemma_run_preserves_wf(step_state(s, input.first()), input.drop_first());
        assert forall|i: int|
            0 <= i < run_output(s, input).len() implies run_output(s, input)[i].event.wf() by {
            if i < step_output(s, input.first()).len() {
                assert(run_output(s, input)[i] == step_output(s, input.first())[i]);
            } else {
                assert(run_output(s, input)[i] == run_output(
                    step_state(s, input.first()),
                    input.drop_first(),
                )[i - step_output(s, input.first()).len()]);
            }
        }
    }
}

/// Every event of `input` is a Note-Off.
pub open spec fn all_note_offs(input: Seq<TimedEventView>) -> bool {
    forall|i: int| 0 <= i < input.len() ==> input[i].event is NoteOff
}

/// Every event of `input` is a Note-On.
pub open spec fn all_note_ons(input: Seq<TimedEventView>) -> bool {
    forall|i: int| 0 <= i < input.len() ==> input[i].event is NoteOn
}

/// Law: an event that is neither a Note-On nor a Note-Off passes through a
/// block by itself unchanged — same timestamp, same payload — and leaves the
/// latch state exactly as it was.
pub proof fn lemma_pass_through(s: LatchView, e: TimedEventView)
    requires
        !(e.event is NoteOn),
        !(e.event is NoteOff),
    ensures
        run_state(s, seq![e]) == s,
        run_output(s, seq![e]) == seq![e],
{
    reveal_with_fuel(run_state, 2);
    reveal_with_fuel(run_output, 2);
    assert(seq![e].drop_first() =~= Seq::<TimedEventView>::empty());
    assert(run_output(s, seq![e]) =~= seq![e]);
}

/// Law: the pressed-key counter never goes negative. A block of nothing but
/// Note-Offs, taken with no key pressed, leaves the counter at zero — and
/// since every prefix of such a block is such a block itself, the counter
/// stays at zero throughout.
pub proof fn lemma_counter_never_negative(s: LatchView, input: Seq<TimedEventView>)
    requires
        s.keys_pressed == 0,
        all_note_offs(input),
    ensures
        run_state(s, input).keys_pressed == 0,
    decreases input.len(),
{
    if input.len() > 0 {
        assert(input[0].event is NoteOff);
        assert(all_note_offs(input.drop_first())) by {
            assert forall|i: int|
                0 <= i < input.drop_first().len() implies input.drop_first()[i].event
                is NoteOff by {
                assert(input.drop_first()[i] == input[i + 1]);
            }
        }
        lemma_counter_never_negative(step_state(s, input.first()), input.drop_first());
    }
}

/// Law: the pressed-key counter saturates instead of wrapping. A block of
/// nothing but Note-Ons raises the counter by the number of Note-Ons,
/// clamped at 255: in particular, after 255 Note-Ons the counter stands at
/// 255 and a 256th Note-On leaves it there.
pub proof fn lemma_counter_saturates(s: LatchView, input: Seq<TimedEventView>)
    requires
        all_note_ons(input),
    ensures
        run_state(s, input).keys_pressed == if s.keys_pressed + input.len() <= 255 {
            (s.keys_pressed + input.len()) as u8
        } else {
            255u8
        },
    decreases input.len(),
{
    if input.len() > 0 {
        assert(input[0].event is NoteOn);
        assert(all_note_ons(input.drop_first())) by {
            assert forall|i: int|
                0 <= i < input.drop_first().len() implies input.drop_first()[i].event
                is NoteOn by {
                assert(input.drop_first()[i] == input[i + 1]);
            }
        }
        lemma_counter_saturates(step_state(s, input.first()), input.drop_first());
    }
}

/// Law: no spurious release. A Note-On arriving while nothing is latched and
/// no key is pressed produces no synthetic Note-Off: the output for a block
/// of that one event is the forwarded Note-On alone.
pub proof fn lemma_no_spurious_release(s: LatchView, e: TimedEventView)
    requires
        s.keys_pressed == 0,
        s.active_notes.len() == 0,
        e.event is NoteOn,
    ensures
        run_output(s, seq![e]) == seq![e],
{
    reveal_with_fuel(run_output, 2);
    assert(seq![e].drop_first() =~= Seq::<TimedEventView>::empty());
    assert(run_output(s, seq![e]) =~= seq![e]);
}

/// A fresh copy of a raw payload, byte for byte.
fn copy_bytes(b: &Vec<u8>) -> (r: Vec<u8>)
    ensures
        r@ == b@,
{
    let mut r: Vec<u8> = Vec::new();
    let mut i: usize = 0;
    while i < b.len()
        invariant
            i <= b.len(),
            r@ == b@.take(i as int),
        decreases b.len() - i,
    {
        r.push(b[i]);
        i = i + 1;
        proof {
            assert(r@ =~= b@.take(i as int));
        }
    }
    proof {
        assert(b@.take(b@.len() as int) =~= b@);
    }
    r
}

} // verus!
