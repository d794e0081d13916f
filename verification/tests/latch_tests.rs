use midilatch::events::MidiEvent;
use midilatch::events::TimedEvent;
use midilatch::latch::Midilatch;

fn on(time: i64, note: u8) -> TimedEvent {
    TimedEvent { time, event: MidiEvent::NoteOn { channel: 0, note, velocity: 100 } }
}

fn off(time: i64, note: u8) -> TimedEvent {
    TimedEvent { time, event: MidiEvent::NoteOff { channel: 0, note, velocity: 64 } }
}

// The synthetic release carries the channel, pitch and velocity stored when
// the note was latched, not those of any later event.
fn release(time: i64, note: u8) -> TimedEvent {
    TimedEvent { time, event: MidiEvent::NoteOff { channel: 0, note, velocity: 100 } }
}

fn other(time: i64, payload: Vec<u8>) -> TimedEvent {
    TimedEvent { time, event: MidiEvent::Other { payload } }
}

#[test]
fn latch_then_release() {
    let mut engine = Midilatch::new();
    let input = vec![on(0, 69), off(1, 69), on(5, 71)];
    let out = engine.process_block(&input);
    assert_eq!(out, vec![on(0, 69), release(5, 69), on(5, 71)]);
}

#[test]
fn chord_accumulation() {
    let mut engine = Midilatch::new();
    let input = vec![on(0, 60), on(0, 64), off(1, 60), on(2, 67)];
    let out = engine.process_block(&input);
    // With one key still held, the new Note-On releases nothing.
    assert_eq!(out, vec![on(0, 60), on(0, 64), on(2, 67)]);
    assert_eq!(engine.pressed_key_count(), 2);
    assert_eq!(engine.latched_note_count(), 3);
}

#[test]
fn other_event_passes_through() {
    let mut engine = Midilatch::new();
    let input = vec![other(3, vec![0xF8, 0x01])];
    let out = engine.process_block(&input);
    assert_eq!(out, input);
    assert_eq!(engine.pressed_key_count(), 0);
    assert_eq!(engine.latched_note_count(), 0);
}

#[test]
fn note_offs_keep_counter_at_zero() {
    let mut engine = Midilatch::new();
    let input = vec![off(0, 60), off(1, 61), off(2, 62), off(3, 63)];
    let out = engine.process_block(&input);
    assert_eq!(out, Vec::<TimedEvent>::new());
    assert_eq!(engine.pressed_key_count(), 0);
}

#[test]
fn counter_saturates_at_255() {
    let mut engine = Midilatch::new();
    let mut input = Vec::new();
    for i in 0..256i64 {
        input.push(on(i, 60));
    }
    let out = engine.process_block(&input);
    // The 256th Note-On leaves the counter at 255; every press still latches.
    assert_eq!(engine.pressed_key_count(), 255);
    assert_eq!(engine.latched_note_count(), 256);
    assert_eq!(out, input);
}

#[test]
fn first_note_on_has_no_release() {
    let mut engine = Midilatch::new();
    let input = vec![on(7, 72)];
    let out = engine.process_block(&input);
    assert_eq!(out, vec![on(7, 72)]);
}

#[test]
fn duplicate_note_released_twice() {
    let mut engine = Midilatch::new();
    let input = vec![on(0, 60), on(1, 60), off(2, 60), off(3, 60), on(9, 62)];
    let out = engine.process_block(&input);
    assert_eq!(
        out,
        vec![on(0, 60), on(1, 60), release(9, 60), release(9, 60), on(9, 62)]
    );
}

#[test]
fn state_persists_across_blocks() {
    let mut engine = Midilatch::new();
    let out1 = engine.process_block(&vec![on(0, 69)]);
    assert_eq!(out1, vec![on(0, 69)]);
    let out2 = engine.process_block(&vec![off(0, 69)]);
    assert_eq!(out2, Vec::<TimedEvent>::new());
    let out3 = engine.process_block(&vec![on(4, 71)]);
    assert_eq!(out3, vec![release(4, 69), on(4, 71)]);
}

#[test]
fn note_off_is_consumed() {
    let mut engine = Midilatch::new();
    let out = engine.process_block(&vec![off(0, 60)]);
    assert_eq!(out, Vec::<TimedEvent>::new());
}

#[test]
fn other_events_pass_among_notes() {
    let mut engine = Midilatch::new();
    let input = vec![on(0, 60), other(1, vec![0xB0, 0x40, 0x7F]), off(2, 60), other(3, vec![])];
    let out = engine.process_block(&input);
    assert_eq!(
        out,
        vec![on(0, 60), other(1, vec![0xB0, 0x40, 0x7F]), other(3, vec![])]
    );
}

#[test]
fn releases_come_in_insertion_order() {
    let mut engine = Midilatch::new();
    let input = vec![on(0, 60), on(0, 64), on(0, 67), off(1, 60), off(1, 64), off(2, 67)];
    let out = engine.process_block(&input);
    assert_eq!(out, vec![on(0, 60), on(0, 64), on(0, 67)]);
    let out2 = engine.process_block(&vec![on(5, 72)]);
    assert_eq!(
        out2,
        vec![release(5, 60), release(5, 64), release(5, 67), on(5, 72)]
    );
}

#[test]
fn fresh_engine_is_empty() {
    let engine = Midilatch::new();
    assert_eq!(engine.pressed_key_count(), 0);
    assert_eq!(engine.latched_note_count(), 0);
}

#[test]
fn empty_block_gives_empty_output() {
    let mut engine = Midilatch::new();
    let out = engine.process_block(&Vec::new());
    assert_eq!(out, Vec::<TimedEvent>::new());
    assert_eq!(engine.pressed_key_count(), 0);
}
