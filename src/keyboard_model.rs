use vstd::prelude::*;

verus! {

/// An input decoded from the controller.
#[derive(Clone, Copy, Debug, PartialEq, Eq)]
pub enum MIDIEvent {
    Key(Key),
    AbsPad(AbsPad),
    AbsKnob(AbsKnob),
    KnobButton(KnobButton),
    ShiftButton(ShiftButton),
}

/// A piano key pressed or released.
#[derive(Clone, Copy, Debug, PartialEq, Eq)]
pub struct Key {
    pub pressed: bool,
    pub midi_note: u8,
    pub force: u8,
}

/// A drum pad, numbered from one.
#[derive(Clone, Copy, Debug, PartialEq, Eq)]
pub struct AbsPad {
    pub id: u8,
    pub pressed: bool,
}

/// A knob with an absolute position, numbered as printed on the board.
#[derive(Clone, Copy, Debug, PartialEq, Eq)]
pub struct AbsKnob {
    pub id: u8,
    pub value: u8,
}

/// A knob pushed as a button.
#[derive(Clone, Copy, Debug, PartialEq, Eq)]
pub struct KnobButton {
    pub id: u8,
    pub pressed: bool,
}

/// The shift button.
#[derive(Clone, Copy, Debug, PartialEq, Eq)]
pub struct ShiftButton {
    pub pressed: bool,
}

} // verus!
