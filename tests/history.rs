use shuttle_history::decimal::Decimal;
use shuttle_history::event_history::EventHistory;
use shuttle_history::event_model::{BeatBreak, Event, NoteOff, NoteOn, Silence};

const MS: u64 = 1_000_000;

fn on(id: &str, time: u64) -> Event {
    Event::NoteOn(NoteOn { id: id.to_string(), time, is_sample: false })
}

fn off(id: &str, time: u64) -> Event {
    Event::NoteOff(NoteOff { id: id.to_string(), time })
}

fn beats(text_units: u128) -> Decimal {
    Decimal { units: text_units }
}

#[test]
fn new_history_is_empty_and_silent() {
    let mut h = EventHistory::new();
    assert_eq!(h.len(), 0);
    assert!(h.is_silent());
    assert!(!h.take_modified());
    assert!(!h.ends_on_sample());
}

#[test]
fn silence_appended_to_running_log_is_dropped() {
    let mut h = EventHistory::new();
    h.add(on("c4", 0));
    h.take_modified();
    h.add(Event::Silence(Silence { time: 10 * MS }));
    assert_eq!(h.len(), 1);
    assert!(!h.take_modified());
    assert!(!h.is_silent());
}

#[test]
fn silence_replaces_placeholder_silence() {
    let mut h = EventHistory::new();
    h.add(Event::Silence(Silence { time: 0 }));
    h.add(Event::Silence(Silence { time: 500 * MS }));
    assert_eq!(h.len(), 1);
    assert!(h.is_silent());
    let seq = h.as_sequence(120, beats(125_000_000));
    assert_eq!(seq.len(), 1);
    assert_eq!(seq[0].representation, "x");
}

#[test]
fn note_after_placeholder_silence_is_appended() {
    let mut h = EventHistory::new();
    h.add(Event::Silence(Silence { time: 0 }));
    h.add(on("c4", 500 * MS));
    assert_eq!(h.len(), 2);
    assert!(!h.is_silent());
}

#[test]
fn beatbreak_on_silent_log_becomes_single_silence() {
    let mut h = EventHistory::new();
    h.register_beatbreak(5);
    h.register_beatbreak(7);
    assert_eq!(h.len(), 1);
    assert!(h.is_silent());
    assert!(h.take_modified());
    h.add(on("c4", 10));
    h.register_beatbreak(20);
    assert_eq!(h.len(), 3);
    let seq = h.as_sequence(60, beats(1_000_000_000));
    assert_eq!(seq.len(), 3);
    assert_eq!(seq[2].representation, ".");
}

#[test]
fn clear_makes_log_silent_and_empty() {
    let mut h = EventHistory::new();
    h.add(on("c4", 0));
    h.add(off("c4", 100 * MS));
    h.take_modified();
    h.clear();
    assert!(h.is_silent());
    assert!(h.take_modified());
    assert_eq!(h.len(), 0);
    assert!(h.as_sequence(120, beats(125_000_000)).is_empty());
}

#[test]
fn ends_on_sample_reads_last_event() {
    let mut h = EventHistory::new();
    h.add(Event::NoteOn(NoteOn { id: "3".to_string(), time: 0, is_sample: true }));
    assert!(h.ends_on_sample());
    h.add(on("c4", 10));
    assert!(!h.ends_on_sample());
    h.add(Event::NoteOn(NoteOn { id: "4".to_string(), time: 20, is_sample: true }));
    h.add(off("c4", 30));
    assert!(!h.ends_on_sample());
}

#[test]
fn sustain_is_none_without_release() {
    let mut h = EventHistory::new();
    h.add(on("c4", 0));
    h.add(off("d4", 100 * MS));
    let note = NoteOn { id: "c4".to_string(), time: 0, is_sample: false };
    assert_eq!(h.get_sustain_dur(&note), None);
    let absent = NoteOn { id: "e4".to_string(), time: 0, is_sample: false };
    assert_eq!(h.get_sustain_dur(&absent), None);
}

#[test]
fn sustain_skips_unrelated_events() {
    let mut h = EventHistory::new();
    h.add(on("c4", 0));
    h.add(on("e4", 50 * MS));
    h.add(off("e4", 80 * MS));
    h.add(Event::BeatBreak(BeatBreak { time: 90 * MS }));
    h.add(off("c4", 300 * MS));
    h.add(off("c4", 400 * MS));
    let note = NoteOn { id: "c4".to_string(), time: 0, is_sample: false };
    assert_eq!(h.get_sustain_dur(&note), Some(300 * MS));
    let other = NoteOn { id: "e4".to_string(), time: 50 * MS, is_sample: false };
    assert_eq!(h.get_sustain_dur(&other), Some(30 * MS));
}

#[test]
fn sustain_only_counts_releases_after_the_press() {
    let mut h = EventHistory::new();
    h.add(off("c4", 0));
    h.add(on("c4", 100 * MS));
    let note = NoteOn { id: "c4".to_string(), time: 100 * MS, is_sample: false };
    assert_eq!(h.get_sustain_dur(&note), None);
}

#[test]
fn as_sequence_reserves_time_until_next_step() {
    let mut h = EventHistory::new();
    h.add(on("c4", 0));
    h.add(off("c4", 500 * MS));
    h.add(on("d4", 1000 * MS));
    let seq = h.as_sequence(120, beats(125_000_000));
    assert_eq!(seq.len(), 2);
    assert_eq!(seq[0].representation, "c4");
    assert_eq!(seq[0].reserved_beats, beats(2_000_000_000));
    assert_eq!(seq[0].sustain_beats, Some(beats(1_000_000_000)));
    assert_eq!(seq[1].representation, "d4");
    assert_eq!(seq[1].reserved_beats, beats(0));
    assert_eq!(seq[1].sustain_beats, None);
}

#[test]
fn rapid_notes_round_to_quarter_beats() {
    let mut h = EventHistory::new();
    h.add(on("c4", 0));
    h.add(on("d4", 100 * MS));
    let seq = h.as_sequence(60, beats(250_000_000));
    assert_eq!(seq[0].reserved_beats, beats(0));

    let mut h = EventHistory::new();
    h.add(on("c4", 0));
    h.add(on("d4", 125 * MS));
    let seq = h.as_sequence(60, beats(250_000_000));
    assert_eq!(seq[0].reserved_beats, beats(250_000_000));
}

#[test]
fn out_of_order_times_reserve_nothing() {
    let mut h = EventHistory::new();
    h.add(on("c4", 1000 * MS));
    h.add(on("d4", 0));
    let seq = h.as_sequence(120, beats(125_000_000));
    assert_eq!(seq[0].reserved_beats, beats(0));
}
