use vstd::prelude::*;

use crate::decimal::{
    duration_to_beats, quantized_units, round_beats_to_nearest, Decimal, UNITS_PER_ONE,
};
use crate::event_model::{event_time, BeatBreak, Event, NoteOn, Silence};
use vstd::string::StringExecFns;

verus! {

/// Every event of `s` is a silence (true of the empty log).
pub open spec fn all_silent(s: Seq<Event>) -> bool {
    forall|i: int| 0 <= i < s.len() ==> #[trigger] s[i] is Silence
}

/// `e` is the press `n`: same voice, time and kind.
pub open spec fn is_press(e: Event, n: NoteOn) -> bool {
    e is NoteOn && e->NoteOn_0.id@ == n.id@ && e->NoteOn_0.time == n.time
        && e->NoteOn_0.is_sample == n.is_sample
}

/// `e` releases the voice `id`.
pub open spec fn is_release_of(e: Event, id: Seq<char>) -> bool {
    e is NoteOff && e->NoteOff_0.id@ == id
}

/// The first index at or after `from` that holds the press `n`.
pub open spec fn find_press(s: Seq<Event>, n: NoteOn, from: int) -> Option<int>
    decreases s.len() - from,
{
    if from < 0 || from >= s.len() {
        None
    } else if is_press(s[from], n) {
        Some(from)
    } else {
        find_press(s, n, from + 1)
    }
}

/// The first index at or after `from` that releases the voice `id`.
pub open spec fn find_release(s: Seq<Event>, id: Seq<char>, from: int) -> Option<int>
    decreases s.len() - from,
{
    if from < 0 || from >= s.len() {
        None
    } else if is_release_of(s[from], id) {
        Some(from)
    } else {
        find_release(s, id, from + 1)
    }
}

/// `a - b`, or zero where `b` is later.
pub open spec fn elapsed(a: u64, b: u64) -> nat {
    if a >= b { (a - b) as nat } else { 0 }
}

/// How long the press `n` was held: from `n` to the first release of its voice
/// after the first occurrence of `n` in the log, if both are there.
pub open spec fn sustain_nanos(s: Seq<Event>, n: NoteOn) -> Option<nat> {
    match find_press(s, n, 0) {
        None => None,
        Some(i) => match find_release(s, n.id@, i + 1) {
            None => None,
            Some(j) => Some(elapsed(s[j]->NoteOff_0.time, n.time)),
        },
    }
}

/// How a silence is written in notation.
pub open spec fn silence_mark() -> Seq<char> {
    seq!['x']
}

/// How a loop boundary is written in notation.
pub open spec fn break_mark() -> Seq<char> {
    seq!['.']
}

/// One quantized step of a performance: what sounds, the beats it takes up
/// before the next step, and for a held note the beats it was held.
pub struct SequentialEvent {
    pub representation: String,
    pub reserved_beats: Decimal,
    pub sustain_beats: Option<Decimal>,
}

/// A `SequentialEvent` as values: its text, and its amounts in units of
/// `10^-9` beats.
pub struct StepView {
    pub representation: Seq<char>,
    pub reserved: int,
    pub sustain: Option<int>,
}

impl View for SequentialEvent {
    type V = StepView;

    open spec fn view(&self) -> StepView {
        StepView {
            representation: self.representation@,
            reserved: self.reserved_beats.units as int,
            sustain: match self.sustain_beats {
                Some(d) => Some(d.units as int),
                None => None,
            },
        }
    }
}

/// Releases take no time of their own; every other event is a step.
pub open spec fn is_step(e: Event) -> bool {
    !(e is NoteOff)
}

/// The time of the first step at or after `from`.
pub open spec fn next_step_time(s: Seq<Event>, from: int) -> Option<u64>
    decreases s.len() - from,
{
    if from < 0 || from >= s.len() {
        None
    } else if is_step(s[from]) {
        Some(event_time(s[from]))
    } else {
        next_step_time(s, from + 1)
    }
}

/// Nanoseconds from the step at `i` to the next step (zero for the last).
pub open spec fn held_nanos(s: Seq<Event>, i: int) -> nat {
    match next_step_time(s, i + 1) {
        None => 0,
        Some(t) => elapsed(t, event_time(s[i])),
    }
}

pub open spec fn representation_of(e: Event) -> Seq<char> {
    match e {
        Event::NoteOn(n) => n.id@,
        Event::Silence(_) => silence_mark(),
        _ => break_mark(),
    }
}

/// A duration in beats at `bpm`, rounded to a multiple of `step` units.
pub open spec fn beats_of(nanos: nat, bpm: int, step: int) -> int {
    quantized_units(nanos * bpm, step)
}

/// The step made of the event at `i`.
pub open spec fn step_at(s: Seq<Event>, i: int, bpm: int, step: int) -> StepView {
    StepView {
        representation: representation_of(s[i]),
        reserved: beats_of(held_nanos(s, i), bpm, step),
        sustain: if s[i] is NoteOn {
            match sustain_nanos(s, s[i]->NoteOn_0) {
                Some(d) => Some(beats_of(d, bpm, step)),
                None => None,
            }
        } else {
            None
        },
    }
}

/// The steps made of the events from `from` on, in log order.
pub open spec fn steps_from(s: Seq<Event>, from: int, bpm: int, step: int) -> Seq<StepView>
    decreases s.len() - from,
{
    if from < 0 || from >= s.len() {
        Seq::empty()
    } else if is_step(s[from]) {
        seq![step_at(s, from, bpm, step)] + steps_from(s, from + 1, bpm, step)
    } else {
        steps_from(s, from + 1, bpm, step)
    }
}

/// The quantized steps of a whole log.
pub open spec fn sequence_of(s: Seq<Event>, bpm: int, step: int) -> Seq<StepView> {
    steps_from(s, 0, bpm, step)
}

/// The log ends on the trigger of a sample.
pub open spec fn ends_with_sample(s: Seq<Event>) -> bool {
    s.len() > 0 && s.last() is NoteOn && s.last()->NoteOn_0.is_sample
}

/// Once a log is cleared it is silent and renders to no steps, at any tempo
/// and quantization.
pub proof fn cleared_log_is_silent_and_empty(cleared: Seq<Event>, bpm: int, step: int)
    requires
        cleared == Seq::<Event>::empty(),
    ensures
        all_silent(cleared),
        sequence_of(cleared, bpm, step) == Seq::<StepView>::empty(),
{
}

/// The ordered log of what was played.
pub struct EventHistory {
    events: Vec<Event>,
    modified: bool,
}

impl View for EventHistory {
    type V = Seq<Event>;

    closed spec fn view(&self) -> Seq<Event> {
        self.events@
    }
}

impl EventHistory {
    /// Whether the log changed since the flag was last cleared.
    pub closed spec fn is_modified(&self) -> bool {
        self.modified
    }

    pub fn new() -> (r: EventHistory)
        ensures
            r@ == Seq::<Event>::empty(),
            !r.is_modified(),
    {
        EventHistory { events: Vec::new(), modified: false }
    }

    /// Marks the start of a loop. On a silent log the marker would stand on
    /// nothing, so the log becomes a single fresh silence instead.
    pub fn register_beatbreak(&mut self, time: u64)
        ensures
            all_silent(old(self)@) ==> final(self)@ == seq![Event::Silence(Silence { time })],
            !all_silent(old(self)@) ==> final(self)@ == old(self)@.push(
                Event::BeatBreak(BeatBreak { time }),
            ),
            final(self).is_modified(),
    {
        let event = if self.is_silent() {
            self.events.clear();
            Event::Silence(Silence { time })
        } else {
            Event::BeatBreak(BeatBreak { time })
        };
        self.events.push(event);
        self.modified = true;
        proof {
            if all_silent(old(self)@) {
                assert(self@ =~= seq![Event::Silence(Silence { time })]);
            }
        }
    }

    /// Appends `event`. A silence replaces a silent log, and is dropped from a
    /// log that holds anything else.
    pub fn add(&mut self, event: Event)
        ensures
            all_silent(old(self)@) && event is Silence ==> final(self)@ == seq![event]
                && final(self).is_modified(),
            all_silent(old(self)@) && !(event is Silence) ==> final(self)@ == old(self)@.push(event)
                && final(self).is_modified(),
            !all_silent(old(self)@) && event is Silence ==> final(self)@ == old(self)@
                && final(self).is_modified() == old(self).is_modified(),
            !all_silent(old(self)@) && !(event is Silence) ==> final(self)@ == old(self)@.push(event)
                && final(self).is_modified(),
    {
        let is_silence = match &event {
            Event::Silence(_) => true,
            _ => false,
        };
        if self.is_silent() {
            if is_silence {
                self.events.clear();
            }
            self.events.push(event);
            self.modified = true;
            proof {
                if is_silence {
                    assert(self@ =~= seq![event]);
                }
            }
        } else {
            if !is_silence {
                self.events.push(event);
                self.modified = true;
            }
        }
    }

    /// Reports whether the log changed since the last call, and clears the
    /// flag: the renderer calls this before each render.
    pub fn take_modified(&mut self) -> (r: bool)
        ensures
            r == old(self).is_modified(),
            !final(self).is_modified(),
            final(self)@ == old(self)@,
    {
        let r = self.modified;
        self.modified = false;
        r
    }

    /// The number of events in the log.
    pub fn len(&self) -> (r: usize)
        ensures
            r == self@.len(),
    {
        self.events.len()
    }

    /// True when the last event is the trigger of a sample.
    pub fn ends_on_sample(&self) -> (r: bool)
        ensures
            r == ends_with_sample(self@),
    {
        let n = self.events.len();
        if n == 0 {
            return false;
        }
        match &self.events[n - 1] {
            Event::NoteOn(note_on) => note_on.is_sample,
            _ => false,
        }
    }

    /// True when the log is empty or holds only silences.
    pub fn is_silent(&self) -> (r: bool)
        ensures
            r == all_silent(self@),
    {
        let mut i: usize = 0;
        while i < self.events.len()
            invariant
                i <= self.events@.len(),
                forall|k: int| 0 <= k < i ==> #[trigger] self.events@[k] is Silence,
            decreases self.events@.len() - i,
        {
            match &self.events[i] {
                Event::Silence(_) => {},
                _ => {
                    return false;
                },
            }
            i = i + 1;
        }
        true
    }

    /// Empties the log.
    pub fn clear(&mut self)
        ensures
            final(self)@ == Seq::<Event>::empty(),
            final(self).is_modified(),
    {
        self.events.clear();
        self.modified = true;
    }

    /// How long `event` was held, in nanoseconds: the time from it to the
    /// first release of its voice that follows it in the log.
    pub fn get_sustain_dur(&self, event: &NoteOn) -> (r: Option<u64>)
        ensures
            r matches Some(d) ==> sustain_nanos(self@, *event) == Some(d as nat),
            r is None ==> sustain_nanos(self@, *event) is None,
    {
        let n = self.events.len();
        let mut i: usize = 0;
        let mut found = false;
        while i < n && !found
            invariant
                n == self.events@.len(),
                i <= n,
                found ==> i >= 1 && find_press(self@, *event, 0) == Some((i - 1) as int),
                !found ==> find_press(self@, *event, 0) == find_press(self@, *event, i as int),
            decreases n - i,
        {
            if let Event::NoteOn(note_on) = &self.events[i] {
                if note_on.id == event.id && note_on.time == event.time && note_on.is_sample
                    == event.is_sample {
                    found = true;
                }
            }
            i = i + 1;
        }
        if !found {
            return None;
        }
        let start = i;
        while i < n
            invariant
                n == self.events@.len(),
                start <= i <= n,
                find_press(self@, *event, 0) == Some((start - 1) as int),
                find_release(self@, event.id@, start as int) == find_release(
                    self@,
                    event.id@,
                    i as int,
                ),
            decreases n - i,
        {
            if let Event::NoteOff(note_off) = &self.events[i] {
                if note_off.id == event.id {
                    let d = if note_off.time >= event.time { note_off.time - event.time } else { 0 };
                    return Some(d);
                }
            }
            i = i + 1;
        }
        None
    }

    /// The log as quantized steps: each step reserves the time up to the next
    /// one, releases only serve to measure how long notes were held.
    pub fn as_sequence(&self, bpm: i64, quantization: Decimal) -> (r: Vec<SequentialEvent>)
        requires
            bpm > 0,
            0 < quantization.units <= UNITS_PER_ONE,
        ensures
            r@.map_values(|e: SequentialEvent| e@) == sequence_of(
                self@,
                bpm as int,
                quantization.units as int,
            ),
    {
        let ghost s = self@;
        let ghost b = bpm as int;
        let ghost q = quantization.units as int;
        let n = self.events.len();
        let mut next: Option<u64> = None;
        let mut reversed: Vec<SequentialEvent> = Vec::new();
        let mut i: usize = n;
        while i > 0
            invariant
                s == self@,
                b == bpm as int,
                q == quantization.units as int,
                n == s.len(),
                i <= n,
                bpm > 0,
                0 < quantization.units <= UNITS_PER_ONE,
                next == next_step_time(s, i as int),
                reversed@.len() == steps_from(s, i as int, b, q).len(),
                forall|k: int|
                    0 <= k < reversed@.len() ==> #[trigger] reversed@[k]@ == steps_from(
                        s,
                        i as int,
                        b,
                        q,
                    )[reversed@.len() - 1 - k],
            decreases i,
        {
            let k = i - 1;
            let ghost later = steps_from(s, i as int, b, q);
            let event = &self.events[k];
            let time = event.time();
            let held: u64 = match next {
                Some(t) => if t >= time { t - time } else { 0 },
                None => 0,
            };
            let span = duration_to_beats(held, bpm);
            let reserved_beats = round_beats_to_nearest(span, quantization);
            let made = match event {
                Event::NoteOn(note_on) => {
                    let sustain_beats = match self.get_sustain_dur(note_on) {
                        Some(d) => Some(round_beats_to_nearest(duration_to_beats(d, bpm), quantization)),
                        None => None,
                    };
                    Some(SequentialEvent { representation: note_on.id.clone(), reserved_beats, sustain_beats })
                },
                Event::Silence(_) => {
                    proof {
                        reveal_strlit("x");
                    }
                    Some(SequentialEvent { representation: String::from_str("x"), reserved_beats, sustain_beats: None })
                },
                Event::BeatBreak(_) => {
                    proof {
                        reveal_strlit(".");
                    }
                    Some(SequentialEvent { representation: String::from_str("."), reserved_beats, sustain_beats: None })
                },
                Event::NoteOff(_) => None,
            };
            match made {
                Some(step) => {
                    proof {
                        let expected = step_at(s, k as int, b, q);
                        assert(held as nat == held_nanos(s, k as int));
                        assert(step@.reserved == expected.reserved);
                        assert(step@.sustain == expected.sustain);
                        assert(step@.representation == expected.representation);
                        assert(steps_from(s, k as int, b, q) == seq![expected] + later);
                    }
                    reversed.push(step);
                    next = Some(time);
                },
                None => {},
            }
            i = k;
        }
        let ghost all = steps_from(s, 0, b, q);
        let mut result: Vec<SequentialEvent> = Vec::new();
        while reversed.len() > 0
            invariant
                all.len() == result@.len() + reversed@.len(),
                forall|k: int| 0 <= k < result@.len() ==> #[trigger] result@[k]@ == all[k],
                forall|k: int|
                    0 <= k < reversed@.len() ==> #[trigger] reversed@[k]@ == all[all.len() - 1 - k],
            decreases reversed@.len(),
        {
            let step = reversed.pop().unwrap();
            result.push(step);
        }
        assert(result@.map_values(|e: SequentialEvent| e@) =~= all);
        result
    }
}

} // verus!
