//! The event vocabulary of the latch engine: latched notes, MIDI events as
//! the engine classifies them, and timestamped events, together with their
//! mathematical views.

use vstd::prelude::*;

verus! {

/// One latched note currently considered held for output purposes.
///
/// Created when a Note-On is registered; never mutated afterwards; removed
/// only when the latch breaks and a synthetic Note-Off is emitted for it.
#[derive(Clone, Copy, Debug, PartialEq, Eq, Structural)]
pub struct ActiveNote {
    /// MIDI channel, in `[0, 15]`.
    pub channel: u8,
    /// Pitch, in `[0, 127]`.
    pub note: u8,
    /// Velocity to use if the note must later be explicitly released, in `[0, 127]`.
    pub velocity: u8,
}

/// A MIDI event as the engine classifies it.
///
/// Only Note-On and Note-Off drive the latch; every other payload — any
/// other recognized MIDI message as much as an undecodable one — is opaque
/// to the engine and is forwarded unchanged, its raw bytes carried through.
#[derive(Debug, PartialEq, Eq)]
pub enum MidiEvent {
    NoteOn { channel: u8, note: u8, velocity: u8 },
    NoteOff { channel: u8, note: u8, velocity: u8 },
    Other { payload: Vec<u8> },
}

/// One timestamped event of a block. Timestamps are block-relative.
#[derive(Debug, PartialEq, Eq)]
pub struct TimedEvent {
    pub time: i64,
    pub event: MidiEvent,
}

/// Mathematical view of a [`MidiEvent`].
pub enum MidiEventView {
    NoteOn { channel: u8, note: u8, velocity: u8 },
    NoteOff { channel: u8, note: u8, velocity: u8 },
    Other { payload: Seq<u8> },
}

/// Mathematical view of a [`TimedEvent`].
pub struct TimedEventView {
    pub time: i64,
    pub event: MidiEventView,
}

impl ActiveNote {
    /// A well-formed latched note: a MIDI channel, a 7-bit pitch and a 7-bit
    /// velocity.
    pub open spec fn wf(&self) -> bool {
        self.channel <= 15 && self.note <= 127 && self.velocity <= 127
    }
}

impl MidiEventView {
    /// A well-formed event: a Note-On or Note-Off carries a MIDI channel, a
    /// 7-bit pitch and a 7-bit velocity; an opaque payload is unconstrained.
    pub open spec fn wf(&self) -> bool {
        match self {
            MidiEventView::NoteOn { channel, note, velocity } => *channel <= 15 && *note <= 127
                && *velocity <= 127,
            MidiEventView::NoteOff { channel, note, velocity } => *channel <= 15 && *note <= 127
                && *velocity <= 127,
            MidiEventView::Other { .. } => true,
        }
    }
}

impl View for MidiEvent {
    type V = MidiEventView;

    open spec fn view(&self) -> MidiEventView {
        match self {
            MidiEvent::NoteOn { channel, note, velocity } => MidiEventView::NoteOn {
                channel: *channel,
                note: *note,
                velocity: *velocity,
            },
            MidiEvent::NoteOff { channel, note, velocity } => MidiEventView::NoteOff {
                channel: *channel,
                note: *note,
                velocity: *velocity,
            },
            MidiEvent::Other { payload } => MidiEventView::Other { payload: payload@ },
        }
    }
}

impl View for TimedEvent {
    type V = TimedEventView;

    open spec fn view(&self) -> TimedEventView {
        TimedEventView { time: self.time, event: self.event@ }
    }
}

/// The view of a block of events: each event replaced by its view.
pub open spec fn events_view(s: Seq<TimedEvent>) -> Seq<TimedEventView> {
    s.map_values(|e: TimedEvent| e@)
}

} // verus!
