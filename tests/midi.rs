use shuttle_history::keyboard_model::{AbsKnob, AbsPad, Key, KnobButton, MIDIEvent, ShiftButton};
use shuttle_history::event_model::{Event, NoteOff, NoteOn};
use shuttle_history::midi_mapping;
use shuttle_history::midi_routing::{history_action, HistoryAction};
use shuttle_history::midi_translation::tone_to_oletter;

#[test]
fn midi_translation_verify() {
    assert_eq!(tone_to_oletter(0), "c1");
    assert_eq!(tone_to_oletter(1), "db1");
    assert_eq!(tone_to_oletter(23), "b3");
    assert_eq!(tone_to_oletter(12), "c2");
    assert_eq!(tone_to_oletter(16), "e2");
}

#[test]
fn tone_names_wrap_each_twelve() {
    assert_eq!(tone_to_oletter(60), "c6");
    assert_eq!(tone_to_oletter(255), "eb24");
}

#[test]
fn map_decodes_keys() {
    assert_eq!(
        midi_mapping::map(&[144, 60, 100]),
        Some(MIDIEvent::Key(Key { pressed: true, midi_note: 60, force: 100 }))
    );
    assert_eq!(
        midi_mapping::map(&[128, 60, 0]),
        Some(MIDIEvent::Key(Key { pressed: false, midi_note: 60, force: 0 }))
    );
}

#[test]
fn map_decodes_pads_knobs_and_buttons() {
    assert_eq!(midi_mapping::map(&[176, 22, 127]), Some(MIDIEvent::AbsPad(AbsPad { id: 1, pressed: true })));
    assert_eq!(midi_mapping::map(&[176, 29, 0]), Some(MIDIEvent::AbsPad(AbsPad { id: 8, pressed: false })));
    assert_eq!(midi_mapping::map(&[176, 74, 33]), Some(MIDIEvent::AbsKnob(AbsKnob { id: 2, value: 33 })));
    assert_eq!(midi_mapping::map(&[176, 72, 5]), Some(MIDIEvent::AbsKnob(AbsKnob { id: 16, value: 5 })));
    assert_eq!(
        midi_mapping::map(&[176, 113, 127]),
        Some(MIDIEvent::KnobButton(KnobButton { id: 113, pressed: true }))
    );
    assert_eq!(
        midi_mapping::map(&[240, 0, 32, 107, 127, 66, 2, 0, 0, 46, 127, 247]),
        Some(MIDIEvent::ShiftButton(ShiftButton { pressed: true }))
    );
}

#[test]
fn map_ignores_unhandled_messages() {
    assert_eq!(midi_mapping::map(&[176, 112, 66]), None);
    assert_eq!(midi_mapping::map(&[224, 0, 40]), None);
    assert_eq!(midi_mapping::map(&[176, 1, 40]), None);
    assert_eq!(midi_mapping::map(&[176, 22, 64]), None);
    assert_eq!(midi_mapping::map(&[144, 60]), None);
    assert_eq!(midi_mapping::map(&[]), None);
}

fn recorded(action: HistoryAction) -> Event {
    match action {
        HistoryAction::Record(event) => event,
        other => panic!("expected a recorded event, got {:?}", other),
    }
}

#[test]
fn keys_are_recorded_by_tone_name() {
    let press = MIDIEvent::Key(Key { pressed: true, midi_note: 1, force: 90 });
    assert_eq!(
        recorded(history_action(press, 7, None)),
        Event::NoteOn(NoteOn { id: "db1".to_string(), time: 7, is_sample: false })
    );
    let release = MIDIEvent::Key(Key { pressed: false, midi_note: 23, force: 0 });
    assert_eq!(
        recorded(history_action(release, 9, Some(4))),
        Event::NoteOff(NoteOff { id: "b3".to_string(), time: 9 })
    );
}

#[test]
fn pads_are_recorded_as_their_sample() {
    let pad = MIDIEvent::AbsPad(AbsPad { id: 2, pressed: true });
    assert_eq!(
        recorded(history_action(pad, 5, Some(12))),
        Event::NoteOn(NoteOn { id: "12".to_string(), time: 5, is_sample: true })
    );
    assert_eq!(
        recorded(history_action(pad, 5, Some(-3))),
        Event::NoteOn(NoteOn { id: "-3".to_string(), time: 5, is_sample: true })
    );
    assert!(matches!(history_action(pad, 5, None), HistoryAction::Nothing));
    let released = MIDIEvent::AbsPad(AbsPad { id: 2, pressed: false });
    assert!(matches!(history_action(released, 5, Some(12)), HistoryAction::Nothing));
}

#[test]
fn shift_clears_and_knobs_do_not_record() {
    let shift = MIDIEvent::ShiftButton(ShiftButton { pressed: true });
    assert!(matches!(history_action(shift, 0, None), HistoryAction::Clear));
    let shift_up = MIDIEvent::ShiftButton(ShiftButton { pressed: false });
    assert!(matches!(history_action(shift_up, 0, None), HistoryAction::Nothing));
    let knob = MIDIEvent::AbsKnob(AbsKnob { id: 2, value: 3 });
    assert!(matches!(history_action(knob, 0, None), HistoryAction::Nothing));
    let button = MIDIEvent::KnobButton(KnobButton { id: 113, pressed: true });
    assert!(matches!(history_action(button, 0, None), HistoryAction::Nothing));
}
