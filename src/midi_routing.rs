use vstd::prelude::*;

use crate::decimal::{nat_text, number_text};
use crate::event_model::{Event, NoteOff, NoteOn};
use crate::keyboard_model::MIDIEvent;
use crate::midi_translation::{tone_name, tone_to_oletter};
use vstd::string::StringExecFns;

verus! {

/// What a controller event does to the history.
#[derive(Debug)]
pub enum HistoryAction {
    Record(Event),
    Clear,
    Nothing,
}

/// The decimal text of a signed number.
pub open spec fn signed_text(i: i32) -> Seq<char> {
    if i < 0 {
        seq!['-'] + nat_text((-i) as nat)
    } else {
        nat_text(i as nat)
    }
}

fn signed_to_text(i: i32) -> (r: String)
    ensures
        r@ == signed_text(i),
{
    if i < 0 {
        proof {
            reveal_strlit("-");
            assert("-"@ =~= seq!['-']);
        }
        let mut text = String::from_str("-");
        text.append(number_text((-(i as i64)) as u64).as_str());
        text
    } else {
        number_text(i as u64)
    }
}

/// Decides how a controller event played at `time` enters the history: keys
/// are recorded as presses and releases named after their tone, a pressed
/// pad as the trigger of the sample it plays (`pad_sample`, where the pad has
/// one), and the shift button clears the log.
pub fn history_action(event: MIDIEvent, time: u64, pad_sample: Option<i32>) -> (r: HistoryAction)
    ensures
        event matches MIDIEvent::Key(key) ==> (if key.pressed {
            r matches HistoryAction::Record(Event::NoteOn(n)) && n.id@ == tone_name(key.midi_note)
                && n.time == time && !n.is_sample
        } else {
            r matches HistoryAction::Record(Event::NoteOff(n)) && n.id@ == tone_name(key.midi_note)
                && n.time == time
        }),
        event matches MIDIEvent::AbsPad(pad) ==> (if pad.pressed && pad_sample is Some {
            r matches HistoryAction::Record(Event::NoteOn(n)) && n.id@ == signed_text(
                pad_sample->Some_0,
            ) && n.time == time && n.is_sample
        } else {
            r is Nothing
        }),
        event matches MIDIEvent::ShiftButton(button) ==> (if button.pressed {
            r is Clear
        } else {
            r is Nothing
        }),
        event is AbsKnob || event is KnobButton ==> r is Nothing,
{
    match event {
        MIDIEvent::Key(key) => {
            let id = tone_to_oletter(key.midi_note);
            if key.pressed {
                HistoryAction::Record(Event::NoteOn(NoteOn { id, time, is_sample: false }))
            } else {
                HistoryAction::Record(Event::NoteOff(NoteOff { id, time }))
            }
        },
        MIDIEvent::AbsPad(pad) => match pad_sample {
            Some(sample) => if pad.pressed {
                HistoryAction::Record(
                    Event::NoteOn(NoteOn { id: signed_to_text(sample), time, is_sample: true }),
                )
            } else {
                HistoryAction::Nothing
            },
            None => HistoryAction::Nothing,
        },
        MIDIEvent::ShiftButton(button) => if button.pressed {
            HistoryAction::Clear
        } else {
            HistoryAction::Nothing
        },
        _ => HistoryAction::Nothing,
    }
}

} // verus!
