use vstd::prelude::*;

use crate::keyboard_model::{AbsPad, Key, KnobButton, MIDIEvent, ShiftButton};

verus! {

/// Settings pushed to the terminal keyboard from outside.
#[derive(Clone, Copy, Debug, PartialEq, Eq)]
pub struct KeyboardModeState {
    pub octave: u8,
}

/// What the terminal keyboard remembers between keys.
#[derive(Clone, Copy, Debug, PartialEq, Eq)]
pub struct TerminalKeys {
    pub octave: u8,
    pub shift_pressed: bool,
}

/// A key event read from the terminal; `true` for a press, `false` for a
/// release.
#[derive(Clone, Copy, Debug, PartialEq, Eq)]
pub enum TerminalInput {
    Char(char, bool),
    Enter,
    LeftShift(bool),
}

/// Keys that trigger the pads, first pad first.
pub open spec fn pad_keys() -> Seq<char> {
    seq!['a', 's', 'd', 'f', 'g', 'h', 'j', 'k']
}

/// Keys laid out as a piano octave and a half, lowest tone first.
pub open spec fn piano_keys() -> Seq<char> {
    seq!['q', '2', 'w', '3', 'e', 'r', '5', 't', '6', 'y', '7', 'u', 'i', '9', 'o', '0', 'p']
}

/// The first index at or after `from` where `keys` holds `c`.
pub open spec fn key_index(keys: Seq<char>, c: char, from: int) -> Option<int>
    decreases keys.len() - from,
{
    if from < 0 || from >= keys.len() {
        None
    } else if keys[from] == c {
        Some(from)
    } else {
        key_index(keys, c, from + 1)
    }
}

/// The note of the piano key at `index` in `octave`, when it fits in a byte.
pub open spec fn piano_note(octave: u8, index: int) -> Option<u8> {
    if octave * 12 + index <= 255 { Some((octave * 12 + index) as u8) } else { None }
}

/// How the terminal keyboard reacts to an input: its next state and the
/// controller event it emits, if any.
pub open spec fn key_outcome(state: TerminalKeys, input: TerminalInput) -> (TerminalKeys, Option<MIDIEvent>) {
    match input {
        TerminalInput::Enter => (state, Some(MIDIEvent::ShiftButton(ShiftButton { pressed: true }))),
        TerminalInput::LeftShift(press) => (TerminalKeys { shift_pressed: press, ..state }, None),
        TerminalInput::Char(c, press) => {
            if let Some(i) = key_index(pad_keys(), c, 0) {
                if press {
                    (state, Some(MIDIEvent::AbsPad(AbsPad { id: (i + 1) as u8, pressed: true })))
                } else {
                    (state, None)
                }
            } else if let Some(i) = key_index(piano_keys(), c, 0) {
                match piano_note(state.octave, i) {
                    Some(note) => (
                        state,
                        Some(MIDIEvent::Key(Key { pressed: press, midi_note: note, force: 127 })),
                    ),
                    None => (state, None),
                }
            } else if (c == '+' || c == '-') && press {
                if state.shift_pressed {
                    let octave = if c == '+' {
                        if state.octave < 255 { (state.octave + 1) as u8 } else { 255u8 }
                    } else {
                        if state.octave > 0 { (state.octave - 1) as u8 } else { 0u8 }
                    };
                    (TerminalKeys { octave, ..state }, None)
                } else {
                    let id: u8 = if c == '+' { 113 } else { 115 };
                    (state, Some(MIDIEvent::KnobButton(KnobButton { id, pressed: true })))
                }
            } else {
                (state, None)
            }
        },
    }
}

fn find_key(keys: &Vec<char>, c: char) -> (r: Option<usize>)
    ensures
        r matches Some(i) ==> key_index(keys@, c, 0) == Some(i as int) && i < keys@.len(),
        r is None ==> key_index(keys@, c, 0) is None,
{
    let mut i: usize = 0;
    while i < keys.len()
        invariant
            i <= keys@.len(),
            key_index(keys@, c, 0) == key_index(keys@, c, i as int),
        decreases keys@.len() - i,
    {
        if keys[i] == c {
            return Some(i);
        }
        i = i + 1;
    }
    None
}

impl TerminalKeys {
    pub fn new() -> (r: TerminalKeys)
        ensures
            r == (TerminalKeys { octave: 5, shift_pressed: false }),
    {
        TerminalKeys { octave: 5, shift_pressed: false }
    }

    /// Takes on the settings pushed from outside.
    pub fn apply(&mut self, mode: KeyboardModeState)
        ensures
            *final(self) == (TerminalKeys { octave: mode.octave, ..*old(self) }),
    {
        self.octave = mode.octave;
    }

    /// Reacts to one terminal input.
    pub fn press(&mut self, input: TerminalInput) -> (r: Option<MIDIEvent>)
        ensures
            (*final(self), r) == key_outcome(*old(self), input),
    {
        match input {
            TerminalInput::Enter => Some(MIDIEvent::ShiftButton(ShiftButton { pressed: true })),
            TerminalInput::LeftShift(press) => {
                self.shift_pressed = press;
                None
            },
            TerminalInput::Char(c, press) => {
                let pads = vec!['a', 's', 'd', 'f', 'g', 'h', 'j', 'k'];
                let piano = vec!['q', '2', 'w', '3', 'e', 'r', '5', 't', '6', 'y', '7', 'u', 'i', '9', 'o', '0', 'p'];
                assert(pads@ == pad_keys());
                assert(piano@ == piano_keys());
                if let Some(i) = find_key(&pads, c) {
                    if press {
                        Some(MIDIEvent::AbsPad(AbsPad { id: i as u8 + 1, pressed: true }))
                    } else {
                        None
                    }
                } else if let Some(i) = find_key(&piano, c) {
                    let note = self.octave as u16 * 12 + i as u16;
                    if note <= 255 {
                        Some(MIDIEvent::Key(Key { pressed: press, midi_note: note as u8, force: 127 }))
                    } else {
                        None
                    }
                } else if (c == '+' || c == '-') && press {
                    if self.shift_pressed {
                        if c == '+' {
                            if self.octave < 255 {
                                self.octave = self.octave + 1;
                            }
                        } else {
                            if self.octave > 0 {
                                self.octave = self.octave - 1;
                            }
                        }
                        None
                    } else {
                        let id: u8 = if c == '+' { 113 } else { 115 };
                        Some(MIDIEvent::KnobButton(KnobButton { id, pressed: true }))
                    }
                } else {
                    None
                }
            },
        }
    }
}

/// The sample index a pad moves to when a knob is pushed while browsing:
/// one down for the lower knob (115), one up for any other, never below zero.
pub open spec fn browsed_index(existing: i32, knob_id: u8) -> int {
    let moved = if knob_id == 115 { existing - 1 } else { existing + 1 };
    if moved < 0 {
        0
    } else if moved > i32::MAX {
        i32::MAX as int
    } else {
        moved
    }
}

/// Moves a pad's sample index for browsing.
pub fn browse_sample(existing: i32, knob_id: u8) -> (r: i32)
    ensures
        r == browsed_index(existing, knob_id),
{
    let moved: i64 = if knob_id == 115 { existing as i64 - 1 } else { existing as i64 + 1 };
    if moved < 0 {
        0
    } else if moved > i32::MAX as i64 {
        i32::MAX
    } else {
        moved as i32
    }
}

} // verus!
