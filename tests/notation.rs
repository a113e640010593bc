use shuttle_history::decimal::Decimal;
use shuttle_history::event_history::{EventHistory, SequentialEvent};
use shuttle_history::event_model::{BeatBreak, Event, NoteOff, NoteOn};
use shuttle_history::notation::{
    render_history, render_segments, split_segments, stringify_history, stringify_history_single_line,
    write_notes,
};

const MS: u64 = 1_000_000;

fn step(rep: &str, reserved: u128, sustain: Option<u128>) -> SequentialEvent {
    SequentialEvent {
        representation: rep.to_string(),
        reserved_beats: Decimal { units: reserved },
        sustain_beats: sustain.map(|units| Decimal { units }),
    }
}

fn is_id(id: &str) -> bool {
    id.len() == 6 && id.chars().all(|c| "abcdefghijklmnopqrstuvxyz_".contains(c))
}

#[test]
fn single_note_round_trip() {
    let mut h = EventHistory::new();
    h.add(Event::NoteOn(NoteOn { id: "c4".to_string(), time: 0, is_sample: false }));
    h.add(Event::NoteOff(NoteOff { id: "c4".to_string(), time: 500 * MS }));
    let seq = h.as_sequence(120, Decimal { units: 125_000_000 });
    assert_eq!(seq.len(), 1);
    assert_eq!(seq[0].reserved_beats, Decimal { units: 0 });
    assert_eq!(seq[0].sustain_beats, Some(Decimal { units: 1_000_000_000 }));
    let notes = write_notes(&seq, h.ends_on_sample());
    assert!(notes.starts_with("c4:4,sus1.0000"));
    assert_eq!(notes, "c4:4,sus1.0000,sus*4");
}

#[test]
fn padding_goes_to_last_step() {
    let seq = vec![step("c4", 1_000_000_000, None), step("d4", 500_000_000, None)];
    assert_eq!(write_notes(&seq, true), "c4:1 d4:3.0");
}

#[test]
fn notes_ring_through_when_not_ending_on_sample() {
    let seq = vec![step("c4", 1_000_000_000, Some(250_000_000)), step("x", 1_000_000_000, None)];
    assert_eq!(write_notes(&seq, false), "c4:1,sus0.2500,sus*1 x:3");
}

#[test]
fn loop_boundary_with_time_gets_a_silence() {
    let seq = vec![step("a", 2_000_000_000, None), step(".", 1_000_000_000, None)];
    assert_eq!(write_notes(&seq, true), "a:2 . x:2");
}

#[test]
fn zero_length_silences_and_breaks_are_suppressed() {
    let seq = vec![step("x", 0, None), step("a", 4_000_000_000, None), step(".", 0, None)];
    assert_eq!(write_notes(&seq, true), "a:4");
    let seq = vec![step("a", 5_000_000_000, None), step(".", 0, None), step("b", 0, None)];
    assert_eq!(write_notes(&seq, true), "a:5 . b:3");
}

#[test]
fn empty_sequence_renders_nothing() {
    assert_eq!(write_notes(&Vec::new(), false), "");
}

#[test]
fn split_segments_cuts_at_breaks() {
    let parts = split_segments(&"a:1 . b:1 . x:2".to_string());
    assert_eq!(parts, vec!["a:1", "b:1", "x:2"]);
    let parts = split_segments(&"a:4 .".to_string());
    assert_eq!(parts, vec!["a:4 ."]);
    let parts = split_segments(&"a:1 . . b:1".to_string());
    assert_eq!(parts, vec!["a:1", ". b:1"]);
    assert_eq!(split_segments(&String::new()), vec![""]);
}

#[test]
fn render_segments_defines_and_plays() {
    let segments = vec!["a:1".to_string(), "b:3".to_string()];
    let ids = vec!["first".to_string(), "second".to_string()];
    assert_eq!(render_segments(&segments, &ids), "$first = a:1\n$second = b:3\n$first $second");
}

#[test]
fn stringify_history_names_each_segment() {
    let seq = vec![step("a", 1_000_000_000, None), step(".", 0, None), step("b", 1_000_000_000, None)];
    let text = stringify_history(seq, true);
    let lines: Vec<&str> = text.split('\n').collect();
    assert_eq!(lines.len(), 3);
    let first = lines[0].strip_prefix('$').unwrap();
    let (id1, rest1) = first.split_once(" = ").unwrap();
    assert_eq!(rest1, "a:1");
    let second = lines[1].strip_prefix('$').unwrap();
    let (id2, rest2) = second.split_once(" = ").unwrap();
    assert_eq!(rest2, "b:3");
    assert!(is_id(id1));
    assert!(id1 != id2);
    assert!(id2.starts_with(&id2[..6]) && is_id(&id2[..6]));
    assert_eq!(lines[2], format!("${} ${}", id1, id2));
}

#[test]
fn render_history_renders_the_log() {
    let mut h = EventHistory::new();
    h.add(Event::NoteOn(NoteOn { id: "c4".to_string(), time: 0, is_sample: false }));
    h.add(Event::NoteOff(NoteOff { id: "c4".to_string(), time: 500 * MS }));
    let text = render_history(&h, 120, Decimal { units: 125_000_000 }).unwrap();
    let (definition, play) = text.split_once('\n').unwrap();
    let (id, notes) = definition.strip_prefix('$').unwrap().split_once(" = ").unwrap();
    assert!(is_id(id));
    assert_eq!(notes, "c4:4,sus1.0000,sus*4");
    assert_eq!(play, format!("${}", id));
}

#[test]
fn render_history_refuses_overlong_performances() {
    let mut h = EventHistory::new();
    h.add(Event::NoteOn(NoteOn { id: "c4".to_string(), time: 0, is_sample: false }));
    h.add(Event::BeatBreak(BeatBreak { time: u64::MAX }));
    assert_eq!(render_history(&h, i64::MAX, Decimal { units: 1_000_000_000 }), None);
}

#[test]
fn single_line_mode_wraps_and_reports_lengths() {
    let seq = vec![step("a", 1_000_000_000, None), step(".", 0, None), step("b", 1_500_000_000, None)];
    assert_eq!(stringify_history_single_line(seq, true), "(a:1 . b:3.0):len4,tot2.5");
    assert_eq!(stringify_history_single_line(Vec::new(), true), "():len4,tot0");
}
