use vstd::prelude::*;

verus! {

/// A performed event. Times are nanosecond timestamps from one clock.
#[derive(Clone, Debug, PartialEq)]
pub enum Event {
    NoteOn(NoteOn),
    NoteOff(NoteOff),
    Silence(Silence),
    BeatBreak(BeatBreak),
}

/// The start of a loop, as signalled by the player.
#[derive(Clone, Copy, Debug, PartialEq)]
pub struct BeatBreak {
    pub time: u64,
}

/// A key or pad pressed; `id` names the voice, `is_sample` marks a one-shot
/// sample trigger.
#[derive(Clone, Debug, PartialEq)]
pub struct NoteOn {
    pub id: String,
    pub time: u64,
    pub is_sample: bool,
}

/// A key released.
#[derive(Clone, Debug, PartialEq)]
pub struct NoteOff {
    pub id: String,
    pub time: u64,
}

/// A stretch of silence, beginning at `time`.
#[derive(Clone, Copy, Debug, PartialEq)]
pub struct Silence {
    pub time: u64,
}

/// The capture time of any event.
pub open spec fn event_time(e: Event) -> u64 {
    match e {
        Event::NoteOn(n) => n.time,
        Event::NoteOff(n) => n.time,
        Event::Silence(s) => s.time,
        Event::BeatBreak(b) => b.time,
    }
}

impl Event {
    pub fn time(&self) -> (r: u64)
        ensures
            r == event_time(*self),
    {
        match self {
            Event::NoteOn(n) => n.time,
            Event::NoteOff(n) => n.time,
            Event::Silence(s) => s.time,
            Event::BeatBreak(b) => b.time,
        }
    }
}

} // verus!
