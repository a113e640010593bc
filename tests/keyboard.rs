use shuttle_history::keyboard_input::{browse_sample, KeyboardModeState, TerminalInput, TerminalKeys};
use shuttle_history::keyboard_model::{AbsPad, Key, KnobButton, MIDIEvent, ShiftButton};

#[test]
fn piano_keys_follow_the_octave() {
    let mut keys = TerminalKeys::new();
    assert_eq!(
        keys.press(TerminalInput::Char('q', true)),
        Some(MIDIEvent::Key(Key { pressed: true, midi_note: 60, force: 127 }))
    );
    assert_eq!(
        keys.press(TerminalInput::Char('p', false)),
        Some(MIDIEvent::Key(Key { pressed: false, midi_note: 76, force: 127 }))
    );
    keys.apply(KeyboardModeState { octave: 2 });
    assert_eq!(
        keys.press(TerminalInput::Char('2', true)),
        Some(MIDIEvent::Key(Key { pressed: true, midi_note: 25, force: 127 }))
    );
    keys.apply(KeyboardModeState { octave: 21 });
    assert_eq!(keys.press(TerminalInput::Char('p', true)), None);
}

#[test]
fn pad_keys_trigger_on_press_only() {
    let mut keys = TerminalKeys::new();
    assert_eq!(
        keys.press(TerminalInput::Char('a', true)),
        Some(MIDIEvent::AbsPad(AbsPad { id: 1, pressed: true }))
    );
    assert_eq!(
        keys.press(TerminalInput::Char('k', true)),
        Some(MIDIEvent::AbsPad(AbsPad { id: 8, pressed: true }))
    );
    assert_eq!(keys.press(TerminalInput::Char('a', false)), None);
}

#[test]
fn shift_with_plus_and_minus_changes_octave() {
    let mut keys = TerminalKeys::new();
    assert_eq!(
        keys.press(TerminalInput::Char('+', true)),
        Some(MIDIEvent::KnobButton(KnobButton { id: 113, pressed: true }))
    );
    assert_eq!(
        keys.press(TerminalInput::Char('-', true)),
        Some(MIDIEvent::KnobButton(KnobButton { id: 115, pressed: true }))
    );
    assert_eq!(keys.press(TerminalInput::LeftShift(true)), None);
    assert_eq!(keys.press(TerminalInput::Char('+', true)), None);
    assert_eq!(keys.octave, 6);
    keys.apply(KeyboardModeState { octave: 0 });
    assert_eq!(keys.press(TerminalInput::Char('-', true)), None);
    assert_eq!(keys.octave, 0);
    keys.press(TerminalInput::LeftShift(false));
    assert!(!keys.shift_pressed);
}

#[test]
fn enter_wipes_and_unknown_keys_do_nothing() {
    let mut keys = TerminalKeys::new();
    assert_eq!(
        keys.press(TerminalInput::Enter),
        Some(MIDIEvent::ShiftButton(ShiftButton { pressed: true }))
    );
    assert_eq!(keys.press(TerminalInput::Char('z', true)), None);
}

#[test]
fn browsing_samples_stays_in_range() {
    assert_eq!(browse_sample(5, 113), 6);
    assert_eq!(browse_sample(5, 115), 4);
    assert_eq!(browse_sample(0, 115), 0);
    assert_eq!(browse_sample(i32::MAX, 113), i32::MAX);
}
