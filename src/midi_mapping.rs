use vstd::prelude::*;

use crate::keyboard_model::{AbsKnob, AbsPad, Key, KnobButton, MIDIEvent, ShiftButton};
use std::ops::Range;

verus! {

/// A condition on one byte of a message.
pub enum IntMatch {
    Abs(u8),
    Range(Range<u8>),
    Array(Vec<u8>),
    Any,
}

/// Whether `m` accepts the byte `v`.
pub open spec fn accepts(m: IntMatch, v: u8) -> bool {
    match m {
        IntMatch::Abs(x) => v == x,
        IntMatch::Range(r) => r.start <= v && v < r.end,
        IntMatch::Array(xs) => xs@.contains(v),
        IntMatch::Any => true,
    }
}

/// `event` has one byte per condition, and each condition accepts its byte.
pub open spec fn matches_all(event: Seq<u8>, structure: Seq<IntMatch>) -> bool {
    event.len() == structure.len() && forall|i: int|
        0 <= i < event.len() ==> accepts(#[trigger] structure[i], event[i])
}

/// Checks a message byte by byte against a list of conditions.
pub fn matches(event: &[u8], structure: &[IntMatch]) -> (r: bool)
    ensures
        r == matches_all(event@, structure@),
{
    if event.len() != structure.len() {
        return false;
    }
    let mut i: usize = 0;
    while i < structure.len()
        invariant
            event@.len() == structure@.len(),
            i <= structure@.len(),
            forall|k: int| 0 <= k < i ==> accepts(#[trigger] structure@[k], event@[k]),
        decreases structure@.len() - i,
    {
        let content = event[i];
        let ok = match &structure[i] {
            IntMatch::Abs(value) => *value == content,
            IntMatch::Range(range) => range.start <= content && content < range.end,
            IntMatch::Array(values) => {
                let mut found = false;
                let mut j: usize = 0;
                while j < values.len()
                    invariant
                        j <= values@.len(),
                        found == (exists|k: int| 0 <= k < j && values@[k] == content),
                    decreases values@.len() - j,
                {
                    if values[j] == content {
                        found = true;
                    }
                    j = j + 1;
                }
                assert(found == values@.contains(content));
                found
            },
            IntMatch::Any => true,
        };
        if !ok {
            return false;
        }
        i = i + 1;
    }
    true
}

/// The pad ids in order of their number on the board.
pub open spec fn pad_ids() -> Seq<u8> {
    seq![22u8, 23u8, 24u8, 25u8, 26u8, 27u8, 28u8, 29u8]
}

/// The control ids of the knobs in the order they are printed on the board;
/// a zero stands for a knob that reports relative turns.
pub open spec fn knob_ids() -> Seq<u8> {
    seq![0u8, 74u8, 71u8, 76u8, 77u8, 93u8, 73u8, 75u8, 0u8, 18u8, 19u8, 16u8, 17u8, 91u8, 79u8, 72u8]
}

/// The first index at or after `from` where `table` holds `v`.
pub open spec fn position_from(table: Seq<u8>, v: u8, from: int) -> Option<int>
    decreases table.len() - from,
{
    if from < 0 || from >= table.len() {
        None
    } else if table[from] == v {
        Some(from)
    } else {
        position_from(table, v, from + 1)
    }
}

/// The controller ids of the absolutely positioned knobs.
pub open spec fn absolute_knob_ids() -> Seq<u8> {
    seq![74u8, 71u8, 76u8, 77u8, 93u8, 73u8, 75u8, 18u8, 19u8, 16u8, 17u8, 91u8, 79u8, 72u8]
}

/// The twelve bytes of the shift button's message, but for the state byte.
pub open spec fn is_shift_message(e: Seq<u8>) -> bool {
    e.len() == 12 && e[0] == 240 && e[1] == 0 && e[2] == 32 && e[3] == 107 && e[4] == 127
        && e[5] == 66 && e[6] == 2 && e[7] == 0 && e[8] == 0 && e[9] == 46 && (e[10] == 127
        || e[10] == 0) && e[11] == 247
}

/// What a message from the controller means, if anything that is handled.
pub open spec fn decoded(e: Seq<u8>) -> Option<MIDIEvent> {
    if e.len() == 3 && (e[0] == 144 || e[0] == 128) {
        Some(MIDIEvent::Key(Key { pressed: e[0] == 144, midi_note: e[1], force: e[2] }))
    } else if e.len() == 3 && e[0] == 176 && 22 <= e[1] < 30 && (e[2] == 0 || e[2] == 127) {
        let id = match position_from(pad_ids(), e[1], 0) {
            Some(p) => p + 1,
            None => 13,
        };
        Some(MIDIEvent::AbsPad(AbsPad { id: id as u8, pressed: e[2] == 127 }))
    } else if e.len() == 3 && e[0] == 176 && absolute_knob_ids().contains(e[1]) {
        let id = match position_from(knob_ids(), e[1], 0) {
            Some(p) => p + 1,
            None => 0,
        };
        Some(MIDIEvent::AbsKnob(AbsKnob { id: id as u8, value: e[2] }))
    } else if e.len() == 3 && e[0] == 176 && (e[1] == 112 || e[1] == 114) && (e[2] == 64
        || e[2] == 66 || e[2] == 67 || e[2] == 61 || e[2] == 62) {
        None
    } else if e.len() == 3 && e[0] == 176 && (e[1] == 113 || e[1] == 115) && (e[2] == 127 || e[2]
        == 0) {
        Some(MIDIEvent::KnobButton(KnobButton { id: e[1], pressed: e[2] == 127 }))
    } else if is_shift_message(e) {
        Some(MIDIEvent::ShiftButton(ShiftButton { pressed: e[10] == 127 }))
    } else {
        None
    }
}

/// Finds `v` in `table`.
fn position(table: &Vec<u8>, v: u8) -> (r: Option<usize>)
    ensures
        r matches Some(p) ==> position_from(table@, v, 0) == Some(p as int) && p < table@.len(),
        r is None ==> position_from(table@, v, 0) is None,
{
    let mut i: usize = 0;
    while i < table.len()
        invariant
            i <= table@.len(),
            position_from(table@, v, 0) == position_from(table@, v, i as int),
        decreases table@.len() - i,
    {
        if table[i] == v {
            return Some(i);
        }
        i = i + 1;
    }
    None
}

proof fn lemma_accepts_three(event: Seq<u8>, structure: Seq<IntMatch>)
    requires
        structure.len() == 3,
    ensures
        matches_all(event, structure) == (event.len() == 3 && accepts(structure[0], event[0])
            && accepts(structure[1], event[1]) && accepts(structure[2], event[2])),
{
    if event.len() == 3 && accepts(structure[0], event[0]) && accepts(structure[1], event[1])
        && accepts(structure[2], event[2]) {
        assert forall|i: int| 0 <= i < event.len() implies accepts(#[trigger] structure[i], event[i]) by {
            if i == 0 {} else if i == 1 {} else {}
        }
    }
}

/// Decodes a message of the keyboard controller.
pub fn map(event: &[u8]) -> (r: Option<MIDIEvent>)
    ensures
        r == decoded(event@),
{
    let ghost e = event@;
    let key = vec![IntMatch::Array(vec![144u8, 128u8]), IntMatch::Any, IntMatch::Any];
    proof { lemma_accepts_three(e, key@); }
    if matches(event, key.as_slice()) {
        return Some(MIDIEvent::Key(Key { pressed: event[0] == 144u8, midi_note: event[1], force: event[2] }));
    }
    assert(!(e.len() == 3 && (e[0] == 144 || e[0] == 128)));
    let pad = vec![IntMatch::Abs(176u8), IntMatch::Range(22u8..30u8), IntMatch::Array(vec![0u8, 127u8])];
    proof { lemma_accepts_three(e, pad@); }
    if matches(event, pad.as_slice()) {
        let ids = vec![22u8, 23u8, 24u8, 25u8, 26u8, 27u8, 28u8, 29u8];
        assert(ids@ == pad_ids());
        let id: u8 = match position(&ids, event[1]) {
            Some(p) => p as u8 + 1,
            None => 13,
        };
        return Some(MIDIEvent::AbsPad(AbsPad { id, pressed: event[2] == 127u8 }));
    }
    let knob = vec![
        IntMatch::Abs(176u8),
        IntMatch::Array(vec![74u8, 71u8, 76u8, 77u8, 93u8, 73u8, 75u8, 18u8, 19u8, 16u8, 17u8, 91u8, 79u8, 72u8]),
        IntMatch::Any,
    ];
    proof { lemma_accepts_three(e, knob@); }
    if matches(event, knob.as_slice()) {
        let ids = vec![0u8, 74u8, 71u8, 76u8, 77u8, 93u8, 73u8, 75u8, 0u8, 18u8, 19u8, 16u8, 17u8, 91u8, 79u8, 72u8];
        assert(ids@ == knob_ids());
        let id: u8 = match position(&ids, event[1]) {
            Some(p) => p as u8 + 1,
            None => 0,
        };
        return Some(MIDIEvent::AbsKnob(AbsKnob { id, value: event[2] }));
    }
    let relative = vec![
        IntMatch::Abs(176u8),
        IntMatch::Array(vec![112u8, 114u8]),
        IntMatch::Array(vec![64u8, 66u8, 67u8, 61u8, 62u8]),
    ];
    proof { lemma_accepts_three(e, relative@); }
    if matches(event, relative.as_slice()) {
        // Relative knob turns are not handled.
        return None;
    }
    let button = vec![
        IntMatch::Abs(176u8),
        IntMatch::Array(vec![113u8, 115u8]),
        IntMatch::Array(vec![127u8, 0u8]),
    ];
    proof { lemma_accepts_three(e, button@); }
    if matches(event, button.as_slice()) {
        return Some(MIDIEvent::KnobButton(KnobButton { id: event[1], pressed: event[2] == 127u8 }));
    }
    let left_slider = vec![IntMatch::Abs(224u8), IntMatch::Array(vec![0u8, 127u8]), IntMatch::Any];
    proof { lemma_accepts_three(e, left_slider@); }
    if matches(event, left_slider.as_slice()) {
        // The left slider is not handled.
        return None;
    }
    let right_slider = vec![IntMatch::Abs(176u8), IntMatch::Abs(1u8), IntMatch::Any];
    proof { lemma_accepts_three(e, right_slider@); }
    if matches(event, right_slider.as_slice()) {
        // The right slider is not handled.
        return None;
    }
    let shift = vec![
        IntMatch::Abs(240u8),
        IntMatch::Abs(0u8),
        IntMatch::Abs(32u8),
        IntMatch::Abs(107u8),
        IntMatch::Abs(127u8),
        IntMatch::Abs(66u8),
        IntMatch::Abs(2u8),
        IntMatch::Abs(0u8),
        IntMatch::Abs(0u8),
        IntMatch::Abs(46u8),
        IntMatch::Array(vec![127u8, 0u8]),
        IntMatch::Abs(247u8),
    ];
    if matches(event, shift.as_slice()) {
        return Some(MIDIEvent::ShiftButton(ShiftButton { pressed: event[10] == 127u8 }));
    }
    None
}

} // verus!
